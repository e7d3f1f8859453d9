use localtex::intake::{
    classify_image_paths, clipboard_image_paths, is_ingest_image_path, IntakeBatch, IntakeWork,
};
use localtex::runtime::DocumentRuntime;
use localtex::session::{capture_hide_plan, select_delta, Capture, CaptureSession, SearchFilter, ToastState};
use uuid::Uuid;

fn paths(v: &[&str]) -> Vec<String> {
    v.iter().map(|s| s.to_string()).collect()
}

#[test]
fn capture_hide_plan_skips_iconify_wait_without_window() {
    let p = capture_hide_plan(true, false);
    assert!(p.push_hide, "still restore/open the window after the snip");
    assert!(!p.await_iconify, "nothing to iconify without a window");
    let p = capture_hide_plan(true, true);
    assert!(p.push_hide && p.await_iconify);
    let p = capture_hide_plan(false, true);
    assert!(!p.push_hide && !p.await_iconify);
}

#[test]
fn hide_restores_when_hidden() {
    let mut c = CaptureSession::new();
    assert!(!c.pop_hide());
    c.push_hide();
    c.push_hide();
    assert!(c.pop_hide());
    assert!(!c.pop_hide());
}

#[test]
fn force_show_cancels_a_pending_hide() {
    let mut c = CaptureSession::new();
    c.push_hide();
    c.force_show();
    assert!(!c.pop_hide());
    assert!(!c.is_grabbing());
    c.set(Capture::Grabbing);
    assert!(c.is_grabbing());
    c.set(Capture::Idle);
    assert!(!c.is_grabbing());
    assert!(!c.clipboard_loading());
    c.set_clipboard_loading(true);
    assert!(c.clipboard_loading());
}

#[test]
fn stale_generation_does_not_clear_new_message() {
    let mut toast = ToastState::new();
    let old = toast.show("x".into());
    let current = toast.show("y".into());
    assert!(!toast.clear(old));
    assert!(toast.clear(current));
}

#[test]
fn toast_clears_once_and_reports_message() {
    let mut toast = ToastState::new();
    assert_eq!(toast.message(), None);
    let g = toast.show("saved".into());
    assert_eq!(g, 1);
    assert_eq!(toast.message(), Some("saved"));
    assert!(toast.clear(g));
    assert_eq!(toast.message(), None);
    assert!(!toast.clear(g));
}

#[test]
fn search_filter_generations_count_up() {
    let mut f = SearchFilter::new();
    assert_eq!(f.bump(), 1);
    assert_eq!(f.bump(), 2);
    f.gen = u64::MAX;
    assert_eq!(f.bump(), 0);
}

#[test]
fn dropping_a_document_clears_all_runtime_flags() {
    let mut runtime = DocumentRuntime::new();
    let id = Uuid::nil().as_u128();
    assert!(runtime.start_blocks(id));
    runtime.start_thumb(id);
    runtime.fail_thumb(id);
    assert!(runtime.begin_persist_retry(id).is_some());
    runtime.drop_doc(id);
    assert!(!runtime.thumb_blocked(id));
    assert!(runtime.start_blocks(id));
}

#[test]
fn persist_retries_back_off_and_stop_after_three() {
    let mut runtime = DocumentRuntime::new();
    let id = 7u128;
    assert_eq!(runtime.begin_persist_retry(id), Some(1));
    assert_eq!(runtime.begin_persist_retry(id), None, "one is pending");
    assert!(runtime.finish_persist_retry(id));
    assert!(!runtime.finish_persist_retry(id));
    assert_eq!(runtime.begin_persist_retry(id), Some(2));
    assert!(runtime.finish_persist_retry(id));
    assert_eq!(runtime.begin_persist_retry(id), Some(4));
    assert!(runtime.finish_persist_retry(id));
    assert_eq!(runtime.begin_persist_retry(id), None, "budget spent");
    runtime.clear_persist_retry(id);
    assert_eq!(runtime.begin_persist_retry(id), Some(1));
}

#[test]
fn in_flight_loads_are_not_started_twice() {
    let mut runtime = DocumentRuntime::new();
    assert!(runtime.start_png(1));
    assert!(!runtime.start_png(1));
    runtime.finish_png(1);
    assert!(runtime.start_png(1));
    assert!(runtime.start_blocks(2));
    assert!(!runtime.start_blocks(2));
    runtime.finish_blocks(2);
    assert!(runtime.start_blocks(2));
    runtime.start_thumb(3);
    assert!(runtime.thumb_blocked(3));
    runtime.finish_thumb(3);
    assert!(!runtime.thumb_blocked(3));
    runtime.fail_thumb(3);
    assert!(runtime.thumb_failed(3));
    runtime.clear_docs();
    assert!(!runtime.thumb_failed(3));
}

#[test]
fn classify_paths_keeps_supported_images_and_counts_skips() {
    let classified = classify_image_paths(paths(&[
        "board.PNG",
        "eq-navier.jpg",
        "table-3.webp",
        "notes.pdf",
        "slides.pptx",
        "noext",
    ]));
    assert_eq!(classified.images.len(), 3);
    assert_eq!(classified.skipped, 3);
    assert!(!is_ingest_image_path("a.gif"));
    assert!(is_ingest_image_path("a.jpeg"));
    let c = classified.counts();
    assert_eq!((c.images, c.skipped), (3, 3));
}

#[test]
fn image_extension_follows_the_file_name() {
    assert!(is_ingest_image_path("/tmp/dir/a.Png"));
    assert!(!is_ingest_image_path(".png"));
    assert!(is_ingest_image_path("dir/..png"));
    assert!(!is_ingest_image_path("shot.png/.."));
    assert!(is_ingest_image_path("shot.png/."));
    assert!(!is_ingest_image_path("png"));
    assert!(!is_ingest_image_path(""));
}

#[test]
fn clipboard_lines_become_image_paths() {
    let text = "  file:///home/u/a.png \r\n\nnotes.txt\n/tmp/b.JPG\n";
    assert_eq!(clipboard_image_paths(text), paths(&["/home/u/a.png", "/tmp/b.JPG"]));
}

#[test]
fn batch_is_the_decode_queue_and_keeps_generation_on_append() {
    let mut batch = IntakeBatch::from_paths(paths(&["a.png"]), 0, 7);
    assert_eq!(batch.next_pending(), Some((1, "a.png".to_string())));
    batch.bind_item(1, Uuid::nil().as_u128());
    assert_eq!(batch.next_pending(), None);

    batch.extend(paths(&["b.png"]), 2);
    assert_eq!(batch.generation, 7);
    assert_eq!(batch.next_pending(), Some((2, "b.png".to_string())));
    assert_eq!(batch.counts().skipped, 2);
}

#[test]
fn batch_finishes_each_item_once() {
    let mut batch = IntakeBatch::from_paths(paths(&["a.png"]), 0, 3);
    batch.bind_item(1, Uuid::nil().as_u128());
    batch.mark_working(Uuid::nil().as_u128());
    assert!(batch.finish_id(Uuid::nil().as_u128(), true));
    assert!(!batch.finish_id(Uuid::nil().as_u128(), false));
    assert!(batch.all_terminal());
    assert_eq!(batch.items[0].work, IntakeWork::Succeeded);
}

#[test]
fn completed_batch_stops_accepting_new_files() {
    let mut batch = IntakeBatch::from_paths(paths(&["a.png"]), 0, 3);
    assert!(batch.is_accepting());
    assert!(batch.finish_key(1, true));
    assert!(!batch.is_accepting());
}

#[test]
fn extend_skips_paths_already_waiting_and_repeats() {
    let mut batch = IntakeBatch::from_paths(paths(&["a.png", "b.png"]), 1, 9);
    assert!(batch.finish_key(2, false));
    batch.extend(paths(&["a.png", "b.png", "c.png", "c.png"]), usize::MAX);
    let keys: Vec<u64> = batch.items.iter().map(|i| i.key).collect();
    assert_eq!(keys, vec![1, 2, 3, 4]);
    assert_eq!(batch.items[2].path, "b.png");
    assert_eq!(batch.items[3].path, "c.png");
    assert_eq!(batch.items[3].name, "c.png");
    assert_eq!(batch.skipped, usize::MAX);
    let empty = IntakeBatch::reject(4, 2);
    assert!(!empty.is_accepting());
    assert!(!empty.all_terminal());
    assert_eq!(empty.counts().skipped, 4);
}

#[test]
fn item_names_come_from_the_file_name() {
    let batch = IntakeBatch::from_paths(paths(&["/x/y/shot.png", "/"]), 0, 0);
    assert_eq!(batch.items[0].name, "shot.png");
    assert_eq!(batch.items[1].name, "image");
}

#[test]
fn select_delta_moves_from_selection_and_stops_at_ends() {
    let ids = [10u128, 20, 30, 40];
    assert_eq!(select_delta(&[], Some(10), 1), None);
    assert_eq!(select_delta(&ids, Some(20), 1), Some(30));
    assert_eq!(select_delta(&ids, Some(20), -1), Some(10));
    assert_eq!(select_delta(&ids, Some(10), -1), Some(10));
    assert_eq!(select_delta(&ids, Some(40), 1), Some(40));
    assert_eq!(select_delta(&ids, Some(30), 100), Some(40));
    assert_eq!(select_delta(&ids, None, 1), Some(20));
    assert_eq!(select_delta(&ids, Some(99), 2), Some(30), "unlisted selection starts at the top");
    assert_eq!(select_delta(&ids, Some(20), isize::MIN), Some(10));
    assert_eq!(select_delta(&[7, 7, 8], Some(7), 1), Some(7), "first place of a repeated id");
}

#[test]
fn extend_compares_paths_by_components() {
    let mut batch = IntakeBatch::from_paths(paths(&["a/b.png"]), 0, 1);
    batch.extend(paths(&["a/b.png/", "a//b.png", "a/./b.png", "./a/b.png", "/a/b.png"]), 0);
    let got: Vec<&str> = batch.items.iter().map(|i| i.path.as_str()).collect();
    assert_eq!(got, vec!["a/b.png", "./a/b.png", "/a/b.png"]);
    batch.extend(paths(&[".//a/b.png/.", "/a//b.png"]), 0);
    assert_eq!(batch.items.len(), 3);
}
