//! The tokenizer handle and the tokenization call.

use vstd::prelude::*;
use vstd::slice::slice_subrange;
use vstd::string::StringSliceAdditionalSpecFns;
use vstd::utf8::{decode_utf8, encode_utf8_decode_utf8, valid_utf8};
use crate::backend::{
    new_segmenter, segment_text, segmentation, segmenter_of, tokenizer_of, SegmentationMode,
};
use crate::token::{raw_views, tokens_in_order, tokens_within, RawToken, TokenView};
use crate::tokens::{
    lemma_marshalling_keeps_spans, marshal_tokens, marshalled_all, well_formed,
    LinderaTokenResultHandle,
};

verus! {

/// The dictionary that every tokenizer of this library is built on.
pub const DICTIONARY_URI: &'static str = "embedded://ipadic";

/// An initialized tokenizer. A caller owns it from creation to destruction
/// and may use it for any number of tokenization calls.
pub struct LinderaTokenizerHandle {
    tokenizer: lindera::tokenizer::Tokenizer,
}

/// The tokenizer is one in normal mode, over some dictionary, without
/// filters.
pub open spec fn in_normal_mode(tokenizer: lindera::tokenizer::Tokenizer) -> bool {
    exists|dictionary: lindera::dictionary::Dictionary|
        tokenizer == tokenizer_of(#[trigger] segmenter_of(SegmentationMode::Normal, dictionary))
}

impl LinderaTokenizerHandle {
    /// The tokenizer behind the handle.
    pub closed spec fn tokenizer(&self) -> lindera::tokenizer::Tokenizer {
        self.tokenizer
    }

    #[verifier::type_invariant]
    spec fn holds(self) -> bool {
        in_normal_mode(self.tokenizer)
    }
}

/// The input is one that a tokenization call takes up: the length is not
/// negative and does not reach past the buffer, and a buffer may be absent
/// only where the length is zero.
pub open spec fn input_accepted(text: Option<&[u8]>, text_len: i32) -> bool {
    &&& 0 <= text_len
    &&& match text {
        Some(buffer) => text_len <= buffer@.len(),
        None => text_len == 0,
    }
}

/// The bytes that an accepted input stands for: the first `text_len` bytes
/// of the buffer.
pub open spec fn input_bytes(text: Option<&[u8]>, text_len: i32) -> Seq<u8> {
    match text {
        Some(buffer) => buffer@.subrange(0, text_len as int),
        None => Seq::empty(),
    }
}

/// Reads the input of a tokenization call as text, without copying it.
/// It is text exactly where the input is accepted and its bytes are
/// well-formed UTF-8; the text is then made of those bytes.
pub fn input_text<'a>(text: Option<&'a [u8]>, text_len: i32) -> (parsed: Option<&'a str>)
    ensures
        parsed is Some <==> input_accepted(text, text_len) && valid_utf8(
            input_bytes(text, text_len),
        ),
        parsed matches Some(s) ==> s.spec_bytes() == input_bytes(text, text_len),
{
    if text_len < 0 {
        return None;
    }
    match text {
        None => {
            if text_len == 0 {
                proof {
                    reveal_strlit("");
                    assert(""@ =~= Seq::<char>::empty());
                }
                Some("")
            } else {
                None
            }
        },
        Some(buffer) => {
            let len: usize = text_len as usize;
            if len > buffer.len() {
                return None;
            }
            match core::str::from_utf8(slice_subrange(buffer, 0, len)) {
                Ok(s) => Some(s),
                Err(_) => None,
            }
        },
    }
}

/// The tokens that a tokenization call gives: none where the handle is
/// absent, the input is not accepted or its bytes are not well-formed UTF-8;
/// otherwise what the tokenizer returns for the text, marshalled, or none
/// where it returns more tokens than a count can express.
pub open spec fn tokenized(
    handle: Option<&LinderaTokenizerHandle>,
    text: Option<&[u8]>,
    text_len: i32,
) -> Option<Seq<TokenView>> {
    if handle is Some && input_accepted(text, text_len) && valid_utf8(input_bytes(text, text_len)) {
        let raw = segmentation(handle->0.tokenizer(), decode_utf8(input_bytes(text, text_len)));
        if raw.len() <= i32::MAX {
            Some(marshalled_all(raw))
        } else {
            None
        }
    } else {
        None
    }
}

/// Builds a tokenizer handle from what loading the dictionary gave: a
/// tokenizer in normal mode over the dictionary, or no handle where the
/// dictionary could not be loaded.
pub fn tokenizer_from_dictionary(
    loaded: Result<lindera::dictionary::Dictionary, lindera::error::LinderaError>,
) -> (handle: Option<Box<LinderaTokenizerHandle>>)
    ensures
        loaded matches Ok(dictionary) ==> (handle matches Some(h) && h.tokenizer() == tokenizer_of(
            segmenter_of(SegmentationMode::Normal, dictionary),
        )),
        loaded is Err ==> handle is None,
{
    match loaded {
        Ok(dictionary) => {
            let segmenter = new_segmenter(SegmentationMode::Normal, dictionary);
            let tokenizer = lindera::tokenizer::Tokenizer::new(segmenter);
            Some(Box::new(LinderaTokenizerHandle { tokenizer }))
        },
        Err(_) => None,
    }
}

/// Creates a tokenizer over the embedded dictionary, in normal mode.
/// Gives no handle where the dictionary cannot be loaded; whether it can is
/// lindera's matter.
pub fn lindera_tokenizer_create() -> (handle: Option<Box<LinderaTokenizerHandle>>)
    ensures
        handle matches Some(h) ==> in_normal_mode(h.tokenizer()),
{
    tokenizer_from_dictionary(lindera::dictionary::load_dictionary(DICTIONARY_URI))
}

/// Destroys a tokenizer handle, and with it the tokenizer and its
/// dictionary. Without a handle it does nothing.
pub fn lindera_tokenizer_destroy(handle: Option<Box<LinderaTokenizerHandle>>) {
    let _ = handle;
}

/// Builds the result handle from what segmentation gave: the marshalled
/// tokens, or no handle where segmentation failed or gave more tokens than
/// a count can express.
pub fn tokens_from_segmentation(
    segmented: Result<Vec<RawToken>, lindera::error::LinderaError>,
) -> (result: Option<Box<LinderaTokenResultHandle>>)
    ensures
        result is Some <==> (segmented matches Ok(raw) && raw@.len() <= i32::MAX),
        result matches Some(r) ==> (segmented matches Ok(raw) && r@ == marshalled_all(
            raw_views(raw@),
        ) && well_formed(r@)),
{
    match segmented {
        Ok(raw) => marshal_tokens(&raw),
        Err(_) => None,
    }
}

/// Tokenizes the first `text_len` bytes of `text`. There is no result
/// where the handle is absent, the input is not accepted or is not
/// well-formed UTF-8; otherwise the result holds, marshalled, the tokens
/// that the tokenizer returns for the text: their spans lie within the
/// text, in order and without overlap. The empty text always gives a
/// result, with no token in it. The handle is only read.
pub fn lindera_tokenize(
    handle: Option<&LinderaTokenizerHandle>,
    text: Option<&[u8]>,
    text_len: i32,
) -> (result: Option<Box<LinderaTokenResultHandle>>)
    ensures
        result matches Some(r) ==> tokenized(handle, text, text_len) == Some(r@) && well_formed(
            r@,
        ),
        result is None ==> tokenized(handle, text, text_len) is None,
        result is Some ==> handle is Some && input_accepted(text, text_len) && valid_utf8(
            input_bytes(text, text_len),
        ),
        handle is Some && text_len == 0 ==> (result matches Some(r) && r@.len() == 0),
        result matches Some(r) ==> tokens_in_order(r@) && tokens_within(r@, text_len as nat),
{
    match handle {
        None => None,
        Some(h) => match input_text(text, text_len) {
            None => None,
            Some(parsed) => {
                proof {
                    use_type_invariant(h);
                    encode_utf8_decode_utf8(parsed@);
                    let dictionary = choose|dictionary: lindera::dictionary::Dictionary|
                        h.tokenizer == tokenizer_of(
                            #[trigger] segmenter_of(SegmentationMode::Normal, dictionary),
                        );
                    assert(h.tokenizer == tokenizer_of(
                        segmenter_of(SegmentationMode::Normal, dictionary),
                    ));
                }
                let segmented = segment_text(&h.tokenizer, parsed);
                proof {
                    lemma_marshalling_keeps_spans(raw_views(segmented->Ok_0@), text_len as nat);
                }
                tokens_from_segmentation(segmented)
            },
        },
    }
}

} // verus!
