//! Tokens on both sides of the boundary: as the tokenizer hands them over,
//! and as the caller reads them.

use vstd::prelude::*;
use vstd::utf8::encode_utf8;
use crate::c_string::{
    c_string_of, is_c_string, joined, lemma_c_string_of_is_c_string, to_c_string, COMMA,
};

verus! {

/// A token as the tokenizer produced it.
pub struct RawToken {
    /// The token's text.
    pub surface: String,
    /// Where the token begins in the input, in bytes.
    pub byte_start: usize,
    /// Where the token ends in the input, in bytes.
    pub byte_end: usize,
    /// The token's morphological attributes, in the dictionary's order.
    pub details: Vec<String>,
}

/// What a raw token holds: its text and its attributes as UTF-8 bytes, and
/// its span.
pub struct RawTokenView {
    pub surface: Seq<u8>,
    pub byte_start: nat,
    pub byte_end: nat,
    pub details: Seq<Seq<u8>>,
}

/// The UTF-8 bytes of each string of a list.
pub open spec fn utf8_fields(fields: Seq<String>) -> Seq<Seq<u8>> {
    Seq::new(fields.len(), |i: int| encode_utf8(fields[i]@))
}

impl View for RawToken {
    type V = RawTokenView;

    open spec fn view(&self) -> RawTokenView {
        RawTokenView {
            surface: encode_utf8(self.surface@),
            byte_start: self.byte_start as nat,
            byte_end: self.byte_end as nat,
            details: utf8_fields(self.details@),
        }
    }
}

/// The views of a sequence of raw tokens.
pub open spec fn raw_views(raw: Seq<RawToken>) -> Seq<RawTokenView> {
    Seq::new(raw.len(), |i: int| raw[i]@)
}

/// A token as the caller reads it. The two strings are owned by the token
/// until they are released; a released string is absent.
pub struct TokenData {
    /// The surface text, NUL-terminated.
    pub text: Option<Vec<u8>>,
    /// Where the token begins in the input, in bytes.
    pub byte_start: u32,
    /// Where the token ends in the input, in bytes.
    pub byte_end: u32,
    /// The token's index in its sequence.
    pub position: u32,
    /// The attributes, joined by commas and NUL-terminated.
    pub details: Option<Vec<u8>>,
}

/// What a token holds.
pub struct TokenView {
    pub text: Option<Seq<u8>>,
    pub byte_start: u32,
    pub byte_end: u32,
    pub position: u32,
    pub details: Option<Seq<u8>>,
}

impl View for TokenData {
    type V = TokenView;

    open spec fn view(&self) -> TokenView {
        TokenView {
            text: match self.text {
                Some(bytes) => Some(bytes@),
                None => None,
            },
            byte_start: self.byte_start,
            byte_end: self.byte_end,
            position: self.position,
            details: match self.details {
                Some(bytes) => Some(bytes@),
                None => None,
            },
        }
    }
}

impl TokenView {
    /// Both strings are held, and both are well-formed C strings.
    pub open spec fn is_live(self) -> bool {
        &&& self.text matches Some(text) && is_c_string(text)
        &&& self.details matches Some(details) && is_c_string(details)
    }

    /// The token after its strings were released: the numbers stay.
    pub open spec fn released(self) -> TokenView {
        TokenView { text: None, details: None, ..self }
    }
}

/// Every raw span is a span of a text of `text_len` bytes: it does not end
/// before it begins, nor after the text.
pub open spec fn spans_within(raw: Seq<RawTokenView>, text_len: nat) -> bool {
    forall|i: int|
        0 <= i < raw.len() ==> (#[trigger] raw[i]).byte_start <= raw[i].byte_end <= text_len
}

/// No raw span begins before the one in front of it has ended.
pub open spec fn spans_in_order(raw: Seq<RawTokenView>) -> bool {
    forall|i: int| 0 < i < raw.len() ==> raw[i - 1].byte_end <= (#[trigger] raw[i]).byte_start
}

/// Every token's span is a span of a text of `text_len` bytes.
pub open spec fn tokens_within(tokens: Seq<TokenView>, text_len: nat) -> bool {
    forall|i: int|
        0 <= i < tokens.len() ==> (#[trigger] tokens[i]).byte_start <= tokens[i].byte_end
            <= text_len
}

/// No token begins before the one in front of it has ended.
pub open spec fn tokens_in_order(tokens: Seq<TokenView>) -> bool {
    forall|i: int|
        0 < i < tokens.len() ==> tokens[i - 1].byte_end <= (#[trigger] tokens[i]).byte_start
}

/// The token that the caller gets for the raw token at `index`: the surface
/// and the comma-joined attributes as C strings, the span cut to 32 bits,
/// and the index as the position.
pub open spec fn marshalled(raw: RawTokenView, index: nat) -> TokenView {
    TokenView {
        text: Some(c_string_of(raw.surface)),
        byte_start: raw.byte_start as u32,
        byte_end: raw.byte_end as u32,
        position: index as u32,
        details: Some(c_string_of(joined(raw.details, COMMA))),
    }
}

/// A marshalled token holds both its strings, well formed.
pub proof fn lemma_marshalled_is_live(raw: RawTokenView, index: nat)
    ensures
        marshalled(raw, index).is_live(),
{
    lemma_c_string_of_is_c_string(raw.surface);
    lemma_c_string_of_is_c_string(joined(raw.details, COMMA));
}

/// Writes the strings of a list one after the other, as UTF-8, with a comma
/// between neighbours.
pub fn join_fields(fields: &Vec<String>) -> (out: Vec<u8>)
    ensures
        out@ == joined(utf8_fields(fields@), COMMA),
{
    let ghost all = utf8_fields(fields@);
    let mut out: Vec<u8> = Vec::new();
    let mut i: usize = 0;
    while i < fields.len()
        invariant
            i <= fields.len(),
            all == utf8_fields(fields@),
            out@ == joined(all.take(i as int), COMMA),
        decreases fields.len() - i,
    {
        let ghost before = out@;
        if i > 0 {
            out.push(COMMA);
        }
        let bytes = fields[i].as_str().as_bytes();
        out.extend_from_slice(bytes);
        proof {
            let next = all.take(i + 1);
            assert(next.drop_last() =~= all.take(i as int));
            assert(next.last() == bytes@);
            if i > 0 {
                assert(out@ =~= before.push(COMMA) + bytes@);
            } else {
                assert(out@ =~= bytes@);
            }
        }
        i += 1;
    }
    proof {
        assert(all.take(fields.len() as int) =~= all);
    }
    out
}

impl TokenData {
    /// Builds the caller's token from the raw token at `index`.
    pub fn marshal(raw: &RawToken, index: u32) -> (token: TokenData)
        ensures
            token@ == marshalled(raw@, index as nat),
            token@.is_live(),
    {
        let text = to_c_string(raw.surface.as_str().as_bytes());
        let joined_details = join_fields(&raw.details);
        let details = to_c_string(joined_details.as_slice());
        proof {
            lemma_marshalled_is_live(raw@, index as nat);
        }
        TokenData {
            text: Some(text),
            byte_start: #[verifier::truncate] (raw.byte_start as u32),
            byte_end: #[verifier::truncate] (raw.byte_end as u32),
            position: index,
            details: Some(details),
        }
    }

    /// Releases both strings, each at most once: a string already released
    /// stays absent. The numbers are left as they are.
    pub fn free(&mut self)
        ensures
            final(self)@ == old(self)@.released(),
    {
        self.text = None;
        self.details = None;
    }
}

} // verus!
