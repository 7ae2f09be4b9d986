use lindera_ffi::tokenizer::{input_text, DICTIONARY_URI};
use lindera_ffi::lindera_tokenize;

#[test]
fn whole_buffer_of_valid_utf8_is_text() {
    let text = "東京都に住んでいます";
    assert_eq!(input_text(Some(text.as_bytes()), text.len() as i32), Some(text));
    assert_eq!(input_text(Some(b"abc"), 3), Some("abc"));
}

#[test]
fn only_the_first_text_len_bytes_are_read() {
    assert_eq!(input_text(Some(b"abcdef"), 2), Some("ab"));
    assert_eq!(input_text(Some("東京".as_bytes()), 3), Some("東"));
    assert_eq!(input_text(Some(&[b'a', 0xFF]), 1), Some("a"));
}

#[test]
fn length_zero_is_the_empty_text() {
    assert_eq!(input_text(Some(b""), 0), Some(""));
    assert_eq!(input_text(Some(b"abc"), 0), Some(""));
    assert_eq!(input_text(None, 0), Some(""));
}

#[test]
fn absent_buffer_with_a_length_is_rejected() {
    assert_eq!(input_text(None, 1), None);
    assert_eq!(input_text(None, i32::MAX), None);
}

#[test]
fn negative_length_is_rejected() {
    assert_eq!(input_text(Some(b"abc"), -1), None);
    assert_eq!(input_text(Some(b"abc"), i32::MIN), None);
    assert_eq!(input_text(None, -1), None);
}

#[test]
fn length_past_the_buffer_is_rejected() {
    assert_eq!(input_text(Some(b"abc"), 4), None);
    assert_eq!(input_text(Some(b""), 1), None);
}

#[test]
fn malformed_utf8_is_rejected() {
    assert_eq!(input_text(Some(&[0xFF]), 1), None);
    assert_eq!(input_text(Some(&[b'a', 0x80, b'b']), 3), None);
    assert_eq!(input_text(Some(&[0xC0, 0x80]), 2), None);
    assert_eq!(input_text(Some(&[0xED, 0xA0, 0x80]), 3), None);
    assert_eq!(input_text(Some(&[0xF4, 0x90, 0x80, 0x80]), 4), None);
}

#[test]
fn text_cut_inside_a_character_is_rejected() {
    let text = "東京".as_bytes();
    assert_eq!(input_text(Some(text), 1), None);
    assert_eq!(input_text(Some(text), 2), None);
    assert_eq!(input_text(Some(text), 4), None);
    assert_eq!(input_text(Some(text), 5), None);
}

#[test]
fn terminator_inside_the_text_is_valid_utf8() {
    assert_eq!(input_text(Some(b"a\0b"), 3), Some("a\0b"));
}

#[test]
fn no_tokenizer_gives_no_result() {
    assert!(lindera_tokenize(None, Some(b"abc"), 3).is_none());
    assert!(lindera_tokenize(None, None, 0).is_none());
}

#[test]
fn dictionary_is_the_embedded_ipadic() {
    assert_eq!(DICTIONARY_URI, "embedded://ipadic");
}
