use localtex::dates::{
    in_window, instant_in_range, is_valid_civil, next_day, range_bounds, range_to_ms, window_days,
    CivilDate, DateRange,
};
use localtex::ingest::{
    missing_pixels_action, ocr_completion, resolve_ink_traces, ImageSlot, MissingPixels, OcrDocUpdate,
};
use localtex::paper::{mix64, paper_edge_seed, paper_seed, paper_tilts_clockwise, tilt_bits, PaperRng};
use localtex::store::{
    classify_snips, coalesces, fts_literal, has_all, like_literal, migrate_from, schema_plan,
    status_fields, store_event_plan, system_time_from_ms, unix_ms, write_key, DocStatus,
    FailureLedger, SchemaPlan, SnipsShape, WriteKind, WriteResult, SCHEMA_VERSION,
};

fn names(v: &[&str]) -> Vec<String> {
    v.iter().map(|s| s.to_string()).collect()
}

const CURRENT: [&str; 9] = [
    "id",
    "created_at",
    "first_line",
    "blocks_json",
    "search_text",
    "thumb_jpeg",
    "ocr_s",
    "confidence",
    "ocr_blocks_json",
];

#[test]
fn short_query_like_escapes_wildcards() {
    assert_eq!(like_literal("a%"), "%a\\%%");
    assert_eq!(like_literal("_\\"), "%\\_\\\\%");
    assert_eq!(like_literal(""), "%%");
}

#[test]
fn fts_literal_quotes_a_phrase() {
    assert_eq!(fts_literal("x^2"), "\"x^2\"");
    assert_eq!(fts_literal("say \"hi\""), "\"say \"\"hi\"\"\"");
}

#[test]
fn status_columns_follow_the_status() {
    assert_eq!(status_fields(&DocStatus::Ready), ("ready", None));
    assert_eq!(status_fields(&DocStatus::Recognizing), ("pending", None));
    let failed = DocStatus::Failed("model missing".to_string());
    assert_eq!(status_fields(&failed), ("failed", Some("model missing")));
}

#[test]
fn time_stamps_round_trip_and_clamp() {
    assert_eq!(unix_ms(Some(1_700_000_000_123)), 1_700_000_000_123);
    assert_eq!(unix_ms(None), 0);
    assert_eq!(unix_ms(Some(u64::MAX as u128)), -1);
    assert_eq!(unix_ms(Some(1u128 << 63)), i64::MIN);
    assert_eq!(system_time_from_ms(-5), 0);
    assert_eq!(system_time_from_ms(42), 42);
}

#[test]
fn fresh_schema_contains_only_current_columns() {
    assert!(matches!(schema_plan(false, 0, &Vec::new()), SchemaPlan::Create));
    assert!(matches!(schema_plan(true, SCHEMA_VERSION, &names(&CURRENT)), SchemaPlan::Open));
}

#[test]
fn newer_schema_version_refuses_open() {
    assert!(matches!(schema_plan(true, SCHEMA_VERSION + 1, &names(&CURRENT)), SchemaPlan::TooNew(3)));
}

#[test]
fn extra_column_on_current_version_still_opens() {
    let mut cols = names(&CURRENT);
    cols.push("raw_text".to_string());
    assert!(matches!(schema_plan(true, SCHEMA_VERSION, &cols), SchemaPlan::Open));
}

#[test]
fn unknown_snips_shape_refuses_open() {
    match schema_plan(true, 1, &names(&["id", "created_at", "confidence"])) {
        SchemaPlan::MissingColumns(missing) => assert_eq!(
            missing,
            names(&["first_line", "blocks_json", "search_text", "thumb_jpeg", "ocr_s", "ocr_blocks_json"])
        ),
        _ => panic!("expected missing columns"),
    }
}

#[test]
fn legacy_shapes_are_classified() {
    let legacy = [
        "id",
        "created_at",
        "first_line",
        "blocks_json",
        "search_text",
        "thumb_jpeg",
        "image_relpath",
        "ocr_s",
        "confidence",
    ];
    assert_eq!(classify_snips(&names(&legacy)), SnipsShape::Current);
    assert_eq!(classify_snips(&names(&legacy[..7])), SnipsShape::PreMetrics);
    let mut extra = names(&legacy[..7]);
    extra.push("tags".to_string());
    assert_eq!(classify_snips(&extra), SnipsShape::Unknown);
    assert_eq!(classify_snips(&names(&["id"])), SnipsShape::Unknown);
    assert!(has_all(&names(&["b", "a"]), &vec!["a", "b"]));
    assert!(!has_all(&names(&["a"]), &vec!["a", "b"]));
    assert_eq!(migrate_from(0), Some(1));
    assert_eq!(migrate_from(1), None);
}

#[test]
fn flush_reports_failed_insert_until_retry_succeeds() {
    let mut ledger = FailureLedger::new();
    assert!(ledger.is_clear());
    let insert = WriteKind::Insert { id: 7, revision: 1 };
    ledger.record(insert, Some("disk full".to_string()));
    assert!(!ledger.is_clear());
    ledger.record(WriteKind::UpdateBlocks { id: 8 }, None);
    assert!(!ledger.is_clear());
    assert_eq!(ledger.unresolved(), vec![(7, 0)]);
    ledger.record(WriteKind::Insert { id: 7, revision: 2 }, None);
    assert!(ledger.is_clear());
}

#[test]
fn successes_clear_related_failures() {
    let mut ledger = FailureLedger::new();
    ledger.record(WriteKind::UpdateBlocks { id: 1 }, Some("x".into()));
    ledger.record(WriteKind::UpdateOcr { id: 1 }, None);
    assert!(ledger.is_clear(), "a recognition update rewrites the content too");
    ledger.record(WriteKind::Insert { id: 2, revision: 0 }, Some("x".into()));
    ledger.record(WriteKind::UpdateOcr { id: 2 }, Some("y".into()));
    ledger.record(WriteKind::Insert { id: 3, revision: 0 }, Some("z".into()));
    ledger.record(WriteKind::Delete { id: 2 }, None);
    assert_eq!(ledger.unresolved(), vec![(3, 0)]);
    ledger.record(WriteKind::Wipe, None);
    assert!(ledger.is_clear());
    assert_eq!(write_key(WriteKind::Wipe), (0, 4));
}

#[test]
fn only_same_document_content_updates_coalesce() {
    let a = WriteKind::UpdateBlocks { id: 1 };
    assert!(coalesces(a, WriteKind::UpdateBlocks { id: 1 }));
    assert!(!coalesces(a, WriteKind::UpdateBlocks { id: 2 }));
    assert!(!coalesces(a, WriteKind::Delete { id: 1 }));
    assert!(!coalesces(WriteKind::UpdateOcr { id: 1 }, WriteKind::UpdateOcr { id: 1 }));
}

#[test]
fn date_windows() {
    let today = CivilDate { year: 2024, month: 3, day: 2 };
    let week = DateRange::last_n_days(today, 7);
    assert_eq!(week.start_day, Some(CivilDate { year: 2024, month: 2, day: 25 }));
    assert_eq!(week.end_day, Some(today));
    assert_eq!(DateRange::last_n_days(today, 1).start_day, Some(today));
    assert_eq!(DateRange::last_n_days(today, -3).start_day, Some(today));
    let bad = CivilDate { year: 2024, month: 2, day: 30 };
    assert_eq!(DateRange::last_n_days(bad, 2).start_day, None);
    assert_eq!(range_bounds(None, None), (0, i64::MAX));
    assert_eq!(range_bounds(Some(5), Some(9)), (5, 9));
    assert_eq!(range_to_ms(DateRange::default()), (0, i64::MAX));
    assert!(in_window(5, (5, 9)));
    assert!(!in_window(9, (5, 9)));
    let (start, end) = range_to_ms(week);
    assert!(start < end);
    assert_eq!(end - start >= 6 * 86_400_000, true);
}

#[test]
fn missing_pixels_do_not_drop_recognizing_without_status() {
    assert_eq!(missing_pixels_action(Some(ImageSlot::Loaded)), MissingPixels::Run);
    assert_eq!(missing_pixels_action(Some(ImageSlot::OnDisk)), MissingPixels::LoadPng);
    assert!(matches!(missing_pixels_action(Some(ImageSlot::Missing)), MissingPixels::Fail(_)));
    assert!(matches!(missing_pixels_action(None), MissingPixels::Fail(_)));
}

#[test]
fn disk_ink_error_does_not_fall_through_to_page_ocr() {
    let out: Result<Option<Vec<[f32; 3]>>, String> = resolve_ink_traces(None, Some(Err("decode ink".to_string())));
    assert!(out.is_err());
    let none: Option<Vec<[f32; 3]>> = resolve_ink_traces::<Vec<[f32; 3]>, String>(None, Some(Ok(None))).unwrap();
    assert!(none.is_none());
    let ram = vec![[0.0f32, 0.0, 0.0]];
    let traces = resolve_ink_traces(Some(ram.clone()), Some(Err("ignored".to_string())))
        .unwrap()
        .expect("ram wins");
    assert_eq!(traces, ram);
}

#[test]
fn paper_seeds_are_stable_and_varied() {
    let first = paper_seed(3, 9, 1);
    assert_eq!(first, paper_seed(3, 9, 1));
    assert_ne!(first, paper_seed(3, 10, 1));
    let seeds: Vec<u64> = (0..32u64).map(|key| paper_seed(8, key, key as usize % 5)).collect();
    assert!(seeds.iter().all(|s| tilt_bits(*s) < (1 << 24)));
    assert!(seeds.iter().any(|s| paper_tilts_clockwise(*s)));
    assert!(seeds.iter().any(|s| !paper_tilts_clockwise(*s)));
    assert_eq!(mix64(0), 0);
    assert_eq!(mix64(1), 0x5692_161d_100b_05e5);
    let mut rng = PaperRng(0);
    assert_eq!(rng.next_u64(), 0xe220_a839_7b1d_cdaf);
    assert_eq!(rng.0, 0x9e37_79b9_7f4a_7c15);
    assert_ne!(paper_edge_seed(first), first);
}

#[test]
fn unbounded_range_holds_every_stamp_after_the_epoch() {
    assert!(instant_in_range(0, DateRange::default()));
    assert!(instant_in_range(1_700_000_000_000, DateRange::default()));
    assert!(!instant_in_range(-1, DateRange::default()));
    assert!(!instant_in_range(i64::MAX, DateRange::default()));
}

#[test]
fn store_events_plan_the_follow_up() {
    let id = 7u128;
    let err: Result<WriteResult, String> = Err("disk full".to_string());
    let done: Result<WriteResult, String> = Ok(WriteResult::Done);
    let thumb: Result<WriteResult, String> = Ok(WriteResult::Inserted(vec![1, 2]));

    let p = store_event_plan(WriteKind::Insert { id, revision: 3 }, &thumb);
    assert!(p.stored && p.clear_retry && !p.retry && p.flash.is_none() && !p.unexpected);

    let p = store_event_plan(WriteKind::Insert { id, revision: 3 }, &err);
    assert!(p.unsaved && p.retry && !p.stored);
    assert_eq!(p.flash, Some("Couldn't save that snip"));

    let p = store_event_plan(WriteKind::UpdateOcr { id }, &err);
    assert!(p.retry && !p.unsaved);
    assert_eq!(p.flash, Some("Couldn't update that snip"));
    let p = store_event_plan(WriteKind::UpdateOcr { id }, &done);
    assert!(p.clear_retry && !p.retry && p.flash.is_none());

    let p = store_event_plan(WriteKind::UpdateBlocks { id }, &err);
    assert!(p.retry);
    assert_eq!(p.flash, Some("Couldn't save those edits"));
    let p = store_event_plan(WriteKind::UpdateBlocks { id }, &done);
    assert!(!p.clear_retry && !p.retry && p.flash.is_none() && !p.unexpected);

    let p = store_event_plan(WriteKind::Delete { id }, &err);
    assert!(!p.retry);
    assert_eq!(p.flash, Some("Couldn't remove all snip files"));
    let p = store_event_plan(WriteKind::Wipe, &err);
    assert!(!p.retry);
    assert_eq!(p.flash, Some("Couldn't clear the snip library"));

    let p = store_event_plan(WriteKind::Wipe, &thumb);
    assert!(p.unexpected && p.flash.is_none());
    let p = store_event_plan(WriteKind::Insert { id, revision: 3 }, &done);
    assert!(!p.stored && !p.unexpected && !p.clear_retry);
}

fn day(year: i32, month: u8, day: u8) -> CivilDate {
    CivilDate { year, month, day }
}

#[test]
fn calendar_days_and_their_successors() {
    assert!(is_valid_civil(day(2024, 2, 29)));
    assert!(!is_valid_civil(day(2023, 2, 29)));
    assert!(!is_valid_civil(day(1900, 2, 29)));
    assert!(is_valid_civil(day(2000, 2, 29)));
    assert!(is_valid_civil(day(-4, 2, 29)), "5 BCE is a leap year");
    assert!(!is_valid_civil(day(2015, 0, 14)));
    assert!(!is_valid_civil(day(400000, 1, 1)));
    assert_eq!(next_day(day(2024, 2, 28)), Some(day(2024, 2, 29)));
    assert_eq!(next_day(day(2023, 2, 28)), Some(day(2023, 3, 1)));
    assert_eq!(next_day(day(2023, 12, 31)), Some(day(2024, 1, 1)));
    assert_eq!(next_day(day(2023, 4, 31)), None);
    assert_eq!(next_day(day(262142, 12, 31)), None);
}

#[test]
fn windows_open_where_a_day_does_not_exist() {
    let r = DateRange { start_day: Some(day(2024, 2, 30)), end_day: Some(day(2024, 13, 1)) };
    assert_eq!(window_days(r), (None, None));
    assert_eq!(range_to_ms(r), (0, i64::MAX));
    assert!(instant_in_range(1_000, r));
    let r = DateRange { start_day: Some(day(2024, 3, 1)), end_day: Some(day(2024, 3, 31)) };
    assert_eq!(window_days(r), (Some(day(2024, 3, 1)), Some(day(2024, 4, 1))));
    assert_eq!(DateRange::last_n_days(day(2024, 2, 30), i64::MAX).start_day, None);
}

#[test]
fn recognition_results_plan_the_follow_up() {
    let c = ocr_completion(true, true, true, false, true, true);
    assert_eq!(c.doc, OcrDocUpdate::Untouched);
    assert!(c.finish_job && !c.follow_up && !c.ready && !c.autocopy);
    let c = ocr_completion(false, true, true, false, true, true);
    assert_eq!(c.doc, OcrDocUpdate::Ready { replace_blocks: true });
    assert!(c.finish_job && c.follow_up && c.ready && c.autocopy);
    let c = ocr_completion(false, true, true, true, true, false);
    assert_eq!(c.doc, OcrDocUpdate::Ready { replace_blocks: false });
    assert!(c.ready && !c.autocopy);
    let c = ocr_completion(false, true, false, false, true, true);
    assert_eq!(c.doc, OcrDocUpdate::Failed);
    assert!(c.follow_up && !c.ready && !c.autocopy);
    let c = ocr_completion(false, false, true, false, true, true);
    assert_eq!(c.doc, OcrDocUpdate::Untouched);
    assert!(c.follow_up && !c.ready && !c.autocopy);
}

#[test]
fn flush_reply_lists_what_still_fails() {
    let mut ledger = FailureLedger::new();
    assert_eq!(ledger.flush_reply(), Ok(()));
    ledger.record(WriteKind::Delete { id: 4 }, Some("busy".to_string()));
    assert_eq!(ledger.flush_reply(), Err(vec![(4, 3)]));
    ledger.record(WriteKind::Delete { id: 4 }, None);
    assert_eq!(ledger.flush_reply(), Ok(()));
}
