use gguf::infer::stream::{next_text, push_streamed_bytes, utf8_complete_len, ByteStyle};

#[test]
fn complete_prefix_is_measured() {
    assert_eq!(utf8_complete_len(b""), None);
    assert_eq!(utf8_complete_len(b"abc"), Some(3));
    assert_eq!(utf8_complete_len("中".as_bytes()), Some(3));
    assert_eq!(utf8_complete_len(&"中".as_bytes()[..2]), None);
    assert_eq!(utf8_complete_len(&[b'a', 0xe4, 0xb8]), Some(1));
    assert_eq!(utf8_complete_len(&[0xc3]), None);
    assert_eq!(utf8_complete_len(&[0xf0, 0x9f, 0x98]), None);
    assert_eq!(utf8_complete_len(&[b'a', 0x80, b'b']), Some(2));
    assert_eq!(utf8_complete_len(&[0xff, b'b']), Some(1));
}

#[test]
fn pieces_make_the_whole_text() {
    let text = "aé中\u{1f600}z";
    for cut in 1..5 {
        let mut pending = Vec::new();
        let mut told = String::new();
        for part in text.as_bytes().chunks(cut) {
            pending.extend_from_slice(part);
            while let Some(t) = next_text(&mut pending) {
                told.push_str(&t);
            }
        }
        assert_eq!(told, text);
        assert!(pending.is_empty());
    }
}

#[test]
fn bytes_that_are_no_text_are_dropped() {
    let mut pending = vec![0x80, b'a', 0xe4];
    assert_eq!(next_text(&mut pending), Some("a".to_string()));
    assert_eq!(next_text(&mut pending), None);
    assert_eq!(pending, vec![0xe4]);
}

#[test]
fn token_bytes_go_by_the_style() {
    let mut whole = Vec::new();
    push_streamed_bytes(&mut whole, ByteStyle::WholeToken, "Ġa");
    assert_eq!(whole, b" a");
    let mut mixed = Vec::new();
    push_streamed_bytes(&mut mixed, ByteStyle::WholeToken, "Ġ中");
    assert_eq!(mixed, "Ġ中".as_bytes());
    let mut each = Vec::new();
    push_streamed_bytes(&mut each, ByteStyle::PerCharacter, "Ġ中");
    assert_eq!(each, " 中".as_bytes());
}
