use lindera_ffi::token::TokenData as Token;
use lindera_ffi::tokenizer::{tokenizer_from_dictionary, tokens_from_segmentation};
use lindera_ffi::tokens::{marshal_tokens, release_strings, NO_HANDLE};
use lindera_ffi::{
    lindera_tokenizer_destroy, lindera_tokens_count, lindera_tokens_destroy, lindera_tokens_get,
    RawToken, TokenData,
};

fn raw(surface: &str, byte_start: usize, byte_end: usize, details: &[&str]) -> RawToken {
    RawToken {
        surface: surface.to_string(),
        byte_start,
        byte_end,
        details: details.iter().map(|d| d.to_string()).collect(),
    }
}

fn three() -> Vec<RawToken> {
    vec![
        raw("ab", 0, 2, &["noun", "*"]),
        raw("c", 2, 3, &["verb"]),
        raw("de", 4, 6, &[]),
    ]
}

fn lindera_error() -> lindera::error::LinderaError {
    lindera::dictionary::load_dictionary("nowhere://nothing").err().unwrap()
}

#[test]
fn marshalled_tokens_keep_order_and_get_dense_positions() {
    let handle = marshal_tokens(&three()).unwrap();
    assert_eq!(lindera_tokens_count(Some(&handle)), 3);
    let first = lindera_tokens_get(Some(&handle), 0).unwrap();
    assert_eq!(first.text.as_deref(), Some(&b"ab\0"[..]));
    assert_eq!(first.details.as_deref(), Some(&b"noun,*\0"[..]));
    assert_eq!((first.byte_start, first.byte_end, first.position), (0, 2, 0));
    let second = lindera_tokens_get(Some(&handle), 1).unwrap();
    assert_eq!(second.text.as_deref(), Some(&b"c\0"[..]));
    assert_eq!(second.details.as_deref(), Some(&b"verb\0"[..]));
    assert_eq!((second.byte_start, second.byte_end, second.position), (2, 3, 1));
    let last = lindera_tokens_get(Some(&handle), 2).unwrap();
    assert_eq!(last.text.as_deref(), Some(&b"de\0"[..]));
    assert_eq!(last.details.as_deref(), Some(&b"\0"[..]));
    assert_eq!((last.byte_start, last.byte_end, last.position), (4, 6, 2));
    lindera_tokens_destroy(Some(handle));
}

#[test]
fn one_token_is_marshalled_field_by_field() {
    let token = TokenData::marshal(&raw("東京", 3, 9, &["名詞", "固有名詞"]), 7);
    assert_eq!(token.text, Some(vec![0xE6, 0x9D, 0xB1, 0xE4, 0xBA, 0xAC, 0]));
    assert_eq!(token.details, Some("名詞,固有名詞\0".as_bytes().to_vec()));
    assert_eq!(token.byte_start, 3);
    assert_eq!(token.byte_end, 9);
    assert_eq!(token.position, 7);
}

#[test]
fn string_with_a_terminator_is_marshalled_empty() {
    let token = TokenData::marshal(&raw("a\0b", 0, 3, &["x\0y", "z"]), 0);
    assert_eq!(token.text, Some(vec![0]));
    assert_eq!(token.details, Some(vec![0]));
    assert_eq!((token.byte_start, token.byte_end), (0, 3));
}

#[test]
fn offsets_are_cut_to_their_low_32_bits() {
    let token = TokenData::marshal(&raw("a", u32::MAX as usize, u32::MAX as usize, &[]), 0);
    assert_eq!((token.byte_start, token.byte_end), (u32::MAX, u32::MAX));
    if usize::BITS > 32 {
        let wide: usize = (1usize << 32) + 5;
        let token = TokenData::marshal(&raw("a", wide, wide + 1, &[]), 0);
        assert_eq!((token.byte_start, token.byte_end), (5, 6));
    }
}

#[test]
fn no_raw_token_gives_a_handle_with_count_zero() {
    let handle = marshal_tokens(&Vec::new());
    assert!(handle.is_some());
    assert_eq!(lindera_tokens_count(handle.as_deref()), 0);
    assert!(lindera_tokens_get(handle.as_deref(), 0).is_none());
    lindera_tokens_destroy(handle);
}

#[test]
fn count_without_a_handle_is_minus_one() {
    assert_eq!(lindera_tokens_count(None), -1);
    assert_eq!(NO_HANDLE, -1);
}

#[test]
fn count_is_the_same_however_often_it_is_asked() {
    let handle = marshal_tokens(&three());
    assert_eq!(lindera_tokens_count(handle.as_deref()), 3);
    assert!(lindera_tokens_get(handle.as_deref(), 1).is_some());
    assert_eq!(lindera_tokens_count(handle.as_deref()), 3);
}

#[test]
fn get_outside_the_count_gives_nothing() {
    let handle = marshal_tokens(&three());
    assert!(lindera_tokens_get(handle.as_deref(), -1).is_none());
    assert!(lindera_tokens_get(handle.as_deref(), 3).is_none());
    assert!(lindera_tokens_get(handle.as_deref(), i32::MAX).is_none());
    assert!(lindera_tokens_get(handle.as_deref(), i32::MIN).is_none());
    assert!(lindera_tokens_get(None, 0).is_none());
}

#[test]
fn every_index_below_the_count_gives_its_token() {
    let handle = marshal_tokens(&three());
    let count = lindera_tokens_count(handle.as_deref());
    for i in 0..count {
        let token = lindera_tokens_get(handle.as_deref(), i).unwrap();
        assert_eq!(token.position, i as u32);
        assert!(token.text.is_some());
        assert!(token.details.is_some());
    }
}

#[test]
fn successful_segmentation_gives_the_marshalled_tokens() {
    let handle = tokens_from_segmentation(Ok(three()));
    assert_eq!(lindera_tokens_count(handle.as_deref()), 3);
    let second = lindera_tokens_get(handle.as_deref(), 1).unwrap();
    assert_eq!(second.text.as_deref(), Some(&b"c\0"[..]));
    assert_eq!((second.byte_start, second.byte_end, second.position), (2, 3, 1));
}

#[test]
fn failed_segmentation_gives_no_handle() {
    assert!(tokens_from_segmentation(Err(lindera_error())).is_none());
}

#[test]
fn dictionary_that_did_not_load_gives_no_tokenizer() {
    let handle = tokenizer_from_dictionary(Err(lindera_error()));
    assert!(handle.is_none());
    lindera_tokenizer_destroy(handle);
}

#[test]
fn free_releases_both_strings_and_keeps_the_numbers() {
    let mut token = Token::marshal(&raw("ab", 1, 3, &["x"]), 4);
    token.free();
    assert_eq!(token.text, None);
    assert_eq!(token.details, None);
    assert_eq!((token.byte_start, token.byte_end, token.position), (1, 3, 4));
    token.free();
    assert_eq!(token.text, None);
    assert_eq!(token.details, None);
}

#[test]
fn releasing_leaves_no_string_behind() {
    let mut tokens: Vec<TokenData> =
        three().iter().enumerate().map(|(i, r)| TokenData::marshal(r, i as u32)).collect();
    release_strings(&mut tokens);
    assert_eq!(tokens.len(), 3);
    for (i, token) in tokens.iter().enumerate() {
        assert!(token.text.is_none());
        assert!(token.details.is_none());
        assert_eq!(token.position, i as u32);
    }
    assert_eq!((tokens[2].byte_start, tokens[2].byte_end), (4, 6));

    let mut none: Vec<TokenData> = Vec::new();
    release_strings(&mut none);
    assert!(none.is_empty());
}

#[test]
fn destroying_a_handle_or_none_returns() {
    lindera_tokens_destroy(marshal_tokens(&three()));
    lindera_tokens_destroy(marshal_tokens(&Vec::new()));
    lindera_tokens_destroy(None);
}
