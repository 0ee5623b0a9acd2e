use plc_decoder::charset::{candidates, decode_bytes, select_text, Charset, Decoding};

fn attempt(text: &str, malformed: bool) -> Decoding {
    Decoding { text: text.to_string(), malformed }
}

#[test]
fn encodings_are_tried_in_fixed_order() {
    assert_eq!(
        candidates(),
        vec![Charset::Gb18030, Charset::Utf8, Charset::Windows1251, Charset::Windows1252]
    );
}

#[test]
fn first_complete_attempt_is_selected() {
    let attempts = vec![attempt("a", true), attempt("b", false), attempt("c", false)];
    assert_eq!(select_text(attempts), Some("b".to_string()));
    let attempts = vec![attempt("a", false), attempt("b", false)];
    assert_eq!(select_text(attempts), Some("a".to_string()));
    let attempts = vec![attempt("a", true), attempt("b", true), attempt("c", true), attempt("d", false)];
    assert_eq!(select_text(attempts), Some("d".to_string()));
}

#[test]
fn no_complete_attempt_selects_nothing() {
    assert_eq!(select_text(vec![attempt("a", true), attempt("b", true)]), None);
    assert_eq!(select_text(Vec::new()), None);
}

#[test]
fn ascii_reads_as_itself() {
    assert_eq!(decode_bytes(b"Hello"), Some("Hello".to_string()));
    assert_eq!(decode_bytes(b""), Some(String::new()));
}

#[test]
fn chinese_encoding_comes_first() {
    assert_eq!(decode_bytes(&[0xC4, 0xE3, 0xBA, 0xC3]), Some("你好".to_string()));
    assert_eq!(decode_bytes(&[0xC2, 0xA9]), Some("漏".to_string()));
}

#[test]
fn utf8_wins_over_single_byte_encodings() {
    assert_eq!(decode_bytes(&[0xE2, 0x82, 0xAC]), Some("€".to_string()));
}

#[test]
fn cyrillic_comes_after_utf8() {
    assert_eq!(decode_bytes(&[0xCC, 0xE8, 0xF0]), Some("Мир".to_string()));
}

#[test]
fn lone_high_byte_reads_as_cyrillic_code_page() {
    assert_eq!(decode_bytes(&[0x98]), Some("\u{98}".to_string()));
    assert_eq!(decode_bytes(&[0xFF]), Some("я".to_string()));
}

#[test]
fn byte_order_mark_is_honoured() {
    assert_eq!(decode_bytes(&[0xEF, 0xBB, 0xBF, 0x41]), Some("A".to_string()));
}
