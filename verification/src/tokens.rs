//! The result handle: the token sequence that one tokenization call
//! produced, and the operations a caller has on it.

use vstd::prelude::*;
use crate::token::{
    lemma_marshalled_is_live, marshalled, raw_views, spans_in_order, spans_within, tokens_in_order,
    tokens_within, RawToken, RawTokenView, TokenData, TokenView,
};

verus! {

/// What `lindera_tokens_count` returns where there is no handle.
pub const NO_HANDLE: i32 = -1;

/// The views of a sequence of tokens.
pub open spec fn token_views(tokens: Seq<TokenData>) -> Seq<TokenView> {
    Seq::new(tokens.len(), |i: int| tokens[i]@)
}

/// The tokens that the caller gets for a sequence of raw tokens: one for
/// each, in the same order, each with its index as its position.
pub open spec fn marshalled_all(raw: Seq<RawTokenView>) -> Seq<TokenView> {
    Seq::new(raw.len(), |i: int| marshalled(raw[i], i as nat))
}

/// What holds of the tokens of every result handle: their number fits the
/// count that a caller is given, the position of each is its index, and
/// each holds both its strings.
pub open spec fn well_formed(tokens: Seq<TokenView>) -> bool {
    &&& tokens.len() <= i32::MAX
    &&& forall|i: int|
        0 <= i < tokens.len() ==> (#[trigger] tokens[i]).position == i && tokens[i].is_live()
}

/// Every token has had both its strings released.
pub open spec fn all_released(tokens: Seq<TokenView>) -> bool {
    forall|i: int|
        0 <= i < tokens.len() ==> (#[trigger] tokens[i]).text is None && tokens[i].details is None
}

/// The tokens of one tokenization call. The sequence is fixed when the
/// handle is made.
pub struct LinderaTokenResultHandle {
    tokens: Vec<TokenData>,
}

impl View for LinderaTokenResultHandle {
    type V = Seq<TokenView>;

    closed spec fn view(&self) -> Seq<TokenView> {
        token_views(self.tokens@)
    }
}

impl LinderaTokenResultHandle {
    #[verifier::type_invariant]
    spec fn holds(self) -> bool {
        well_formed(self@)
    }
}

/// Marshalling gives well-formed tokens, as long as their number fits the
/// count.
pub proof fn lemma_marshalled_all_well_formed(raw: Seq<RawTokenView>)
    requires
        raw.len() <= i32::MAX,
    ensures
        well_formed(marshalled_all(raw)),
{
    assert forall|i: int| 0 <= i < raw.len() implies (#[trigger] marshalled_all(raw)[i]).position
        == i && marshalled_all(raw)[i].is_live() by {
        lemma_marshalled_is_live(raw[i], i as nat);
    }
}

/// Where the tokenizer's spans lie in order within a text that a
/// tokenization call accepts, the marshalled spans are the same numbers: in
/// the same order, without overlap, within the text.
pub proof fn lemma_marshalling_keeps_spans(raw: Seq<RawTokenView>, text_len: nat)
    requires
        text_len <= i32::MAX,
        spans_within(raw, text_len),
        spans_in_order(raw),
    ensures
        forall|i: int|
            0 <= i < raw.len() ==> (#[trigger] marshalled_all(raw)[i]).byte_start
                == raw[i].byte_start && marshalled_all(raw)[i].byte_end == raw[i].byte_end,
        tokens_in_order(marshalled_all(raw)),
        tokens_within(marshalled_all(raw), text_len),
{
    let tokens = marshalled_all(raw);
    assert forall|i: int| 0 <= i < raw.len() implies (#[trigger] tokens[i]).byte_start
        == raw[i].byte_start && tokens[i].byte_end == raw[i].byte_end by {
        assert(raw[i].byte_start <= raw[i].byte_end <= text_len);
    }
    assert forall|i: int| 0 < i < tokens.len() implies tokens[i - 1].byte_end <= (
    #[trigger] tokens[i]).byte_start by {
        assert(raw[i - 1].byte_end <= raw[i].byte_start);
        assert(tokens[i - 1].byte_end == raw[i - 1].byte_end);
    }
}

/// Builds the result handle for raw tokens: the caller's token for each,
/// in order. More tokens than a count can express give no handle.
pub fn marshal_tokens(raw: &Vec<RawToken>) -> (handle: Option<Box<LinderaTokenResultHandle>>)
    ensures
        handle is Some <==> raw@.len() <= i32::MAX,
        handle matches Some(h) ==> h@ == marshalled_all(raw_views(raw@)) && well_formed(h@),
{
    if raw.len() > 0x7fff_ffff {
        return None;
    }
    let ghost target = marshalled_all(raw_views(raw@));
    let mut tokens: Vec<TokenData> = Vec::new();
    let mut i: usize = 0;
    while i < raw.len()
        invariant
            i <= raw.len() <= i32::MAX,
            target == marshalled_all(raw_views(raw@)),
            tokens@.len() == i,
            forall|k: int| 0 <= k < i ==> (#[trigger] tokens@[k])@ == target[k],
        decreases raw.len() - i,
    {
        let token = TokenData::marshal(&raw[i], i as u32);
        tokens.push(token);
        i += 1;
    }
    proof {
        assert(token_views(tokens@) =~= target);
        lemma_marshalled_all_well_formed(raw_views(raw@));
    }
    Some(Box::new(LinderaTokenResultHandle { tokens }))
}

/// The number of tokens behind a handle, or `NO_HANDLE` where there is no
/// handle.
pub fn lindera_tokens_count(handle: Option<&LinderaTokenResultHandle>) -> (count: i32)
    ensures
        handle is None ==> count == NO_HANDLE,
        handle matches Some(h) ==> count == h@.len() && well_formed(h@),
{
    match handle {
        None => NO_HANDLE,
        Some(h) => {
            proof {
                use_type_invariant(h);
            }
            h.tokens.len() as i32
        },
    }
}

/// The token at `index`, or nothing where there is no handle or the index
/// is not below the count.
pub fn lindera_tokens_get<'a>(handle: Option<&'a LinderaTokenResultHandle>, index: i32) -> (token:
    Option<&'a TokenData>)
    ensures
        token is Some <==> (handle matches Some(h) && 0 <= index < h@.len()),
        token matches Some(t) ==> (handle matches Some(h) && t@ == h@[index as int] && t.position
            == index && t@.is_live()),
{
    match handle {
        None => None,
        Some(h) => {
            proof {
                use_type_invariant(h);
            }
            if index < 0 {
                return None;
            }
            let at: usize = index as usize;
            if at >= h.tokens.len() {
                return None;
            }
            Some(&h.tokens[at])
        },
    }
}

/// Releases both strings of every token, each exactly once, and leaves the
/// numbers as they were.
pub fn release_strings(tokens: &mut Vec<TokenData>)
    ensures
        final(tokens)@.len() == old(tokens)@.len(),
        forall|i: int|
            0 <= i < old(tokens)@.len() ==> (#[trigger] final(tokens)@[i])@ == old(
                tokens,
            )@[i]@.released(),
        all_released(token_views(final(tokens)@)),
{
    let mut i: usize = 0;
    while i < tokens.len()
        invariant
            i <= tokens@.len() == old(tokens)@.len(),
            forall|k: int| 0 <= k < i ==> (#[trigger] tokens@[k])@ == old(tokens)@[k]@.released(),
            forall|k: int| i <= k < tokens@.len() ==> tokens@[k] == old(tokens)@[k],
        decreases tokens.len() - i,
    {
        tokens[i].free();
        i += 1;
    }
}

/// Destroys a result handle: releases the strings of every token, then the
/// sequence, then the handle itself. Without a handle it does nothing.
pub fn lindera_tokens_destroy(handle: Option<Box<LinderaTokenResultHandle>>) {
    if let Some(boxed) = handle {
        let LinderaTokenResultHandle { tokens } = *boxed;
        let mut tokens = tokens;
        release_strings(&mut tokens);
    }
}

} // verus!
