use localtex::wrap::{is_cjk, wrap_units};

#[test]
fn wrap_units_breaks_on_spaces() {
    let parts = wrap_units("hello world");
    assert_eq!(parts, vec![(0, "hello ".into()), (6, "world".into())]);
}

#[test]
fn wrap_units_does_not_emit_leading_space() {
    let parts = wrap_units(" world");
    assert_eq!(parts, vec![(1, "world".into())]);
}

#[test]
fn wrap_units_attaches_double_space_to_previous_word() {
    let parts = wrap_units("hello  world");
    assert_eq!(parts, vec![(0, "hello  ".into()), (7, "world".into())]);
}

#[test]
fn wrap_units_breaks_cjk_per_char() {
    let parts = wrap_units("你好");
    assert_eq!(parts, vec![(0, "你".into()), ("你".len(), "好".into())]);
}

#[test]
fn wrap_units_keeps_latin_word() {
    let parts = wrap_units("E=mc^2");
    assert_eq!(parts, vec![(0, "E=mc^2".into())]);
}

#[test]
fn wrap_units_mixes_scripts_and_counts_bytes() {
    let parts = wrap_units("é中x\u{3000}y");
    assert_eq!(
        parts,
        vec![(0, "é".into()), (2, "中".into()), (5, "x\u{3000}".into()), (9, "y".into())]
    );
    assert!(is_cjk('の') && !is_cjk('a'));
    assert!(wrap_units("   ").is_empty());
}
