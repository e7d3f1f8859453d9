use localtex::strip::OrigStrip;
use uuid::Uuid;

#[test]
fn bind_doc_reports_change_only() {
    let mut strip = OrigStrip::new();
    let a = Uuid::from_u128(0x6f1c_2a90_0000_4000_8000_0000_0000_0001).as_u128();
    let b = Uuid::from_u128(0x6f1c_2a90_0000_4000_8000_0000_0000_0002).as_u128();
    assert!(strip.bind_doc(Some(a)));
    assert!(!strip.bind_doc(Some(a)));
    assert!(strip.bind_doc(Some(b)));
    assert!(strip.bind_doc(None));
    assert!(!strip.bind_doc(None));
}

#[test]
fn binding_keeps_split_hover() {
    let mut strip = OrigStrip::new();
    strip.split_hover = true;
    assert!(strip.bind_doc(Some(3)));
    assert!(strip.split_hover);
}
