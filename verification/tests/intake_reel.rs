use localtex::intake::{IntakeBatch, IntakeCounts};
use localtex::presentation::{
    count_line, intake_copy, intake_feedback_ms, IntakeFeedback, IntakeKind, IntakePhase,
    IntakePresentation, IntakeVisual, StatusKind, INTAKE_FAILURE_FEEDBACK_MS, INTAKE_WINDOW,
};

fn paths(n: usize) -> Vec<String> {
    (0..n).map(|index| format!("{index}.png")).collect()
}

#[test]
fn completed_card_leaves_in_place_and_refills_its_slot() {
    let mut batch = IntakeBatch::from_paths(paths(7), 0, 4);
    let (mut presentation, sync) = IntakePresentation::new(&batch);
    assert!(sync.feedback.is_empty());
    assert_eq!(presentation.backlog_count(), 2);

    assert!(batch.finish_key(2, true));
    assert_eq!(presentation.sync(&batch).feedback, vec![IntakeFeedback { key: 2, succeeded: true }]);
    assert!(presentation.finish_feedback_and_promote(2));
    let replacement = presentation
        .cards()
        .iter()
        .find(|card| card.key == 6)
        .expect("first backlog card promoted");
    assert_eq!(replacement.slot, Some(1));
    assert_eq!(replacement.visual, IntakeVisual::Visible);
}

#[test]
fn terminal_backlog_card_is_not_replayed_when_a_slot_opens() {
    let mut batch = IntakeBatch::from_paths(paths(6), 0, 5);
    let (mut presentation, _) = IntakePresentation::new(&batch);
    assert!(batch.finish_key(6, true));
    assert!(batch.finish_key(1, true));
    assert_eq!(presentation.sync(&batch).feedback, vec![IntakeFeedback { key: 1, succeeded: true }]);
    assert!(presentation.finish_feedback_and_promote(1));
    let terminal = presentation
        .cards()
        .iter()
        .find(|card| card.key == 6)
        .expect("terminal backlog card exists");
    assert_eq!(terminal.visual, IntakeVisual::Gone);
    assert_eq!(terminal.slot, None);
    assert_eq!(presentation.backlog_count(), 0);
}

#[test]
fn large_batch_sync_keeps_only_five_render_slots() {
    let mut batch = IntakeBatch::from_paths(paths(200), 0, 8);
    for key in 1..=5u64 {
        batch.bind_item(key, key as u128);
    }
    let (presentation, sync) = IntakePresentation::new(&batch);
    assert!(!sync.complete);
    assert_eq!(presentation.visible_cards().len(), INTAKE_WINDOW);
    assert_eq!(presentation.backlog_count(), 195);
    assert_eq!(presentation.paper_jobs().len(), INTAKE_WINDOW);
}

#[test]
fn all_terminal_batch_waits_only_for_visible_feedback() {
    let mut batch = IntakeBatch::from_paths(paths(36), 0, 8);
    for key in 1..=36 {
        assert!(batch.finish_key(key, true));
    }
    let (mut presentation, sync) = IntakePresentation::new(&batch);
    assert!(!sync.complete);
    assert_eq!(sync.feedback.len(), INTAKE_WINDOW);
    assert!(sync.feedback.iter().all(|feedback| feedback.succeeded));
    for (index, feedback) in sync.feedback.into_iter().enumerate() {
        assert!(presentation.finish_feedback_and_promote(feedback.key));
        assert_eq!(presentation.ready_to_complete(), index + 1 == INTAKE_WINDOW);
    }
    assert_eq!(presentation.backlog_count(), 0);
}

#[test]
fn failure_feedback_is_short_and_still_gates_completion() {
    let mut batch = IntakeBatch::from_paths(vec!["a.png".to_string()], 0, 8);
    assert!(batch.finish_key(1, false));
    let (mut presentation, sync) = IntakePresentation::new(&batch);
    assert_eq!(sync.feedback, vec![IntakeFeedback { key: 1, succeeded: false }]);
    assert!(!sync.complete);
    assert_eq!(intake_feedback_ms(false), INTAKE_FAILURE_FEEDBACK_MS);
    assert!(presentation.finish_feedback_and_promote(1));
    assert!(presentation.ready_to_complete());
}

#[test]
fn complete_copy_reports_successes_and_failures_separately() {
    let mut batch = IntakeBatch::from_paths(vec!["a.png".to_string(), "b.png".to_string()], 0, 9);
    assert!(batch.finish_key(1, true));
    assert!(batch.finish_key(2, false));
    let (mut presentation, _) = IntakePresentation::new(&batch);
    presentation.phase = IntakePhase::Complete;
    assert_eq!(
        intake_copy(IntakeKind::Flash, presentation.counts, Some(&presentation)),
        ("Complete".into(), "1 of 2 images recognized · 1 failed".into())
    );
    assert_eq!(
        presentation.status(),
        (StatusKind::Error, "Recognized 1 of 2 · 1 failed".to_string())
    );
}

#[test]
fn mixed_hover_copy_omits_unsupported_count() {
    assert_eq!(count_line(IntakeCounts { images: 3, skipped: 4 }), "3 images will be recognized.");
}

#[test]
fn copy_without_a_batch_follows_the_drag() {
    let none = IntakeCounts { images: 0, skipped: 2 };
    let one = IntakeCounts { images: 1, skipped: 0 };
    assert_eq!(
        intake_copy(IntakeKind::Hover, none, None),
        ("No images".into(), "Only PNG, JPEG, and WebP are recognized.".into())
    );
    assert_eq!(
        intake_copy(IntakeKind::Hover, one, None),
        ("Drop to recognize".into(), "1 image will be recognized.".into())
    );
    assert_eq!(
        intake_copy(IntakeKind::Flash, one, None),
        ("Recognizing".into(), "1 image will be recognized.".into())
    );
}

#[test]
fn running_status_counts_the_next_image() {
    let mut batch = IntakeBatch::from_paths(paths(3), 0, 1);
    assert!(batch.finish_key(1, true));
    let (presentation, _) = IntakePresentation::new(&batch);
    assert_eq!(presentation.progress(), (1, 3));
    assert_eq!(presentation.results(), (1, 0));
    assert_eq!(presentation.status(), (StatusKind::Busy, "Recognizing 2 of 3".to_string()));
    assert_eq!(
        intake_copy(IntakeKind::Flash, presentation.counts, Some(&presentation)),
        ("Recognizing".into(), "2 of 3".into())
    );
    let empty = IntakeBatch::reject(3, 2);
    let (p, _) = IntakePresentation::new(&empty);
    assert_eq!(p.status(), (StatusKind::Error, "No images in this drop".to_string()));
}

#[test]
fn feedback_is_not_finished_twice_or_out_of_phase() {
    let mut batch = IntakeBatch::from_paths(paths(2), 0, 1);
    assert!(batch.finish_key(1, true));
    let (mut presentation, _) = IntakePresentation::new(&batch);
    assert!(!presentation.finish_feedback_and_promote(2));
    assert!(!presentation.finish_feedback_and_promote(0));
    assert!(presentation.finish_feedback_and_promote(1));
    assert!(!presentation.finish_feedback_and_promote(1));
    presentation.phase = IntakePhase::Fading;
    assert!(!presentation.finish_feedback_and_promote(2));
}
