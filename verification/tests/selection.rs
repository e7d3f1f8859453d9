use localtex::selection::PreviewSel;

fn sel(text: &str, anchor: usize, head: usize) -> PreviewSel {
    PreviewSel { key: "k".to_string(), text: text.to_string(), anchor, head, dragging: false }
}

#[test]
fn selection_reads_between_character_boundaries() {
    let text = "aé中b";
    assert_eq!(sel(text, 1, 6).selected_text(), Some("é中".to_string()));
    assert_eq!(sel(text, 6, 1).selected_text(), Some("é中".to_string()), "either direction");
    assert_eq!(sel(text, 0, 7).selected_text(), Some(text.to_string()));
    assert_eq!(sel(text, 3, 3).selected_text(), None, "empty selection");
    assert_eq!(sel(text, 2, 6).selected_text(), None, "inside a character");
    assert_eq!(sel(text, 1, 8).selected_text(), None, "past the end");
}

#[test]
fn selection_range_puts_low_end_first() {
    assert_eq!(sel("abc", 2, 1).range(), 1..2);
    assert_eq!(sel("abc", 0, 3).range(), 0..3);
}

#[test]
fn clearing_forgets_label_and_offsets() {
    let mut s = sel("abc", 1, 2);
    s.dragging = true;
    s.clear();
    assert!(s.key.is_empty() && s.text.is_empty());
    assert_eq!((s.anchor, s.head, s.dragging), (0, 0, false));
    let d = PreviewSel::default();
    assert_eq!(d.selected_text(), None);
}
