//! What holds of every tokenization call, and of the strings and spans of
//! every marshalled token.

use vstd::prelude::*;
use vstd::utf8::{
    decode_utf8, encode_utf8, encode_utf8_valid_utf8, is_ascii_chars_encode_utf8, valid_utf8,
    valid_utf8_concat,
};
use crate::backend::segmentation;
use crate::c_string::{c_string_content, has_nul, joined, lemma_c_string_of_is_c_string, COMMA, NUL};
use crate::token::{marshalled, utf8_fields, RawToken, RawTokenView};
use crate::tokenizer::{input_accepted, input_bytes, tokenized, LinderaTokenizerHandle};
use crate::tokens::{lemma_marshalled_all_well_formed, well_formed};

verus! {

/// A tokenization call gives a result exactly for a handle and an accepted
/// input of well-formed UTF-8 for which the tokenizer returns no more
/// tokens than a count can express. The result has exactly as many tokens
/// as the tokenizer returned, each with its index as its position and both
/// its strings.
pub proof fn lemma_tokenized_count_and_positions(
    handle: Option<&LinderaTokenizerHandle>,
    text: Option<&[u8]>,
    text_len: i32,
)
    ensures
        tokenized(handle, text, text_len) is Some <==> {
            &&& handle is Some
            &&& input_accepted(text, text_len)
            &&& valid_utf8(input_bytes(text, text_len))
            &&& segmentation(
                handle->0.tokenizer(),
                decode_utf8(input_bytes(text, text_len)),
            ).len() <= i32::MAX
        },
        tokenized(handle, text, text_len) matches Some(tokens) ==> {
            &&& tokens.len() == segmentation(
                handle->0.tokenizer(),
                decode_utf8(input_bytes(text, text_len)),
            ).len()
            &&& well_formed(tokens)
            &&& forall|i: int| 0 <= i < tokens.len() ==> (#[trigger] tokens[i]).position == i
        },
{
    if tokenized(handle, text, text_len) is Some {
        lemma_marshalled_all_well_formed(
            segmentation(handle->0.tokenizer(), decode_utf8(input_bytes(text, text_len))),
        );
    }
}

/// Bytes that are not well-formed UTF-8 give no result, whatever the
/// handle; and so does an input that is not accepted.
pub proof fn lemma_malformed_input_gives_no_result(
    handle: Option<&LinderaTokenizerHandle>,
    text: Option<&[u8]>,
    text_len: i32,
)
    requires
        !input_accepted(text, text_len) || !valid_utf8(input_bytes(text, text_len)),
    ensures
        tokenized(handle, text, text_len) is None,
{
}

/// Where a raw token's surface is the part of the input that its span
/// names, and holds no terminator, the caller reads from the marshalled
/// token's text exactly the input bytes between its two offsets.
pub proof fn lemma_text_covers_span(input: Seq<u8>, raw: RawTokenView, index: nat)
    requires
        input.len() <= i32::MAX,
        raw.byte_start <= raw.byte_end <= input.len(),
        raw.surface == input.subrange(raw.byte_start as int, raw.byte_end as int),
        !has_nul(raw.surface),
    ensures
        marshalled(raw, index).text matches Some(text) && c_string_content(text) == input.subrange(
            marshalled(raw, index).byte_start as int,
            marshalled(raw, index).byte_end as int,
        ),
{
    assert(raw.surface.push(NUL).drop_last() =~= raw.surface);
}

/// The fields of a list of strings, joined by commas, are well-formed UTF-8.
pub proof fn lemma_joined_fields_are_utf8(fields: Seq<String>)
    ensures
        valid_utf8(joined(utf8_fields(fields), COMMA)),
    decreases fields.len(),
{
    let bytes = utf8_fields(fields);
    if fields.len() == 0 {
    } else if fields.len() == 1 {
        encode_utf8_valid_utf8(fields[0]@);
    } else {
        lemma_joined_fields_are_utf8(fields.drop_last());
        assert(utf8_fields(fields.drop_last()) =~= bytes.drop_last());
        let head = joined(bytes.drop_last(), COMMA);
        let comma = seq![','];
        is_ascii_chars_encode_utf8(comma);
        encode_utf8_valid_utf8(comma);
        assert(encode_utf8(comma) =~= seq![COMMA]);
        valid_utf8_concat(head, seq![COMMA]);
        assert(head + seq![COMMA] =~= head.push(COMMA));
        encode_utf8_valid_utf8(fields.last()@);
        valid_utf8_concat(head.push(COMMA), bytes.last());
    }
}

/// What the caller reads from either string of a marshalled token is
/// well-formed UTF-8: no character is cut.
pub proof fn lemma_token_strings_are_utf8(raw: RawToken, index: nat)
    ensures
        marshalled(raw@, index).text matches Some(text) && valid_utf8(c_string_content(text)),
        marshalled(raw@, index).details matches Some(details) && valid_utf8(
            c_string_content(details),
        ),
{
    let view = raw@;
    let fields = joined(view.details, COMMA);
    encode_utf8_valid_utf8(raw.surface@);
    lemma_joined_fields_are_utf8(raw.details@);
    lemma_c_string_of_is_c_string(view.surface);
    lemma_c_string_of_is_c_string(fields);
    assert(valid_utf8(Seq::<u8>::empty()));
}

} // verus!
