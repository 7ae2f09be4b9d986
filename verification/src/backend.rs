//! What this library takes on trust: the lindera items it calls, and the one
//! function of the standard library whose behaviour vstd leaves unstated.
//! Verus believes the contracts in this file without proof.

use vstd::prelude::*;
use vstd::string::StringSliceAdditionalSpecFns;
use vstd::utf8::valid_utf8;
use crate::token::{raw_views, spans_in_order, spans_within, RawToken, RawTokenView};

verus! {

/// lindera's loaded dictionary. Nothing inside it is visible here.
#[verifier::external_type_specification]
#[verifier::external_body]
pub struct ExDictionary(lindera::dictionary::Dictionary);

/// lindera's segmenter: a dictionary together with a segmentation mode.
#[verifier::external_type_specification]
#[verifier::external_body]
pub struct ExSegmenter(lindera::segmenter::Segmenter);

/// lindera's tokenizer: a segmenter and the filters around it.
#[verifier::external_type_specification]
#[verifier::external_body]
pub struct ExTokenizer(lindera::tokenizer::Tokenizer);

/// lindera's error value.
#[verifier::external_type_specification]
#[verifier::external_body]
pub struct ExLinderaError(lindera::error::LinderaError);

/// The standard library's report of malformed UTF-8.
#[verifier::external_type_specification]
#[verifier::external_body]
pub struct ExUtf8Error(core::str::Utf8Error);

/// How a segmenter cuts text: lindera's two modes, the second with
/// lindera's default penalties.
pub enum SegmentationMode {
    Normal,
    Decompose,
}

/// The segmenter that lindera builds for a mode and a dictionary, without
/// a user dictionary.
pub uninterp spec fn segmenter_of(
    mode: SegmentationMode,
    dictionary: lindera::dictionary::Dictionary,
) -> lindera::segmenter::Segmenter;

/// The tokenizer that lindera builds over a segmenter.
pub uninterp spec fn tokenizer_of(
    segmenter: lindera::segmenter::Segmenter,
) -> lindera::tokenizer::Tokenizer;

/// The tokens that a lindera tokenizer without filters returns for a text,
/// in order. Such a tokenizer reads nothing but the text and the dictionary
/// it was built on, so the same tokenizer gives the same tokens for the
/// same text.
pub uninterp spec fn segmentation(
    tokenizer: lindera::tokenizer::Tokenizer,
    text: Seq<char>,
) -> Seq<RawTokenView>;

/// `core::str::from_utf8`: succeeds exactly on well-formed UTF-8, and the
/// string it then returns is made of the very bytes it was given.
pub assume_specification[ core::str::from_utf8 ](v: &[u8]) -> (text: Result<
    &str,
    core::str::Utf8Error,
>)
    ensures
        text is Ok <==> valid_utf8(v@),
        text matches Ok(s) ==> s.spec_bytes() == v@,
;

/// `lindera::dictionary::load_dictionary`: loads the dictionary that a URI
/// or a path names. Whether it succeeds depends on how lindera was built
/// and on what the path holds, so nothing is claimed of the result.
pub assume_specification[ lindera::dictionary::load_dictionary ](uri: &str) -> (loaded:
    lindera::LinderaResult<lindera::dictionary::Dictionary>)
;

/// `lindera::tokenizer::Tokenizer::new`: the tokenizer over the given
/// segmenter, with no character filter and no token filter. Of the result
/// only its name is claimed: the same segmenter gives the same tokenizer.
pub assume_specification[ lindera::tokenizer::Tokenizer::new ](
    segmenter: lindera::segmenter::Segmenter,
) -> (tokenizer: lindera::tokenizer::Tokenizer)
    ensures
        tokenizer == tokenizer_of(segmenter),
;

/// `lindera::segmenter::Segmenter::new`, called with the mode that `mode`
/// stands for, the given dictionary and no user dictionary. Of the result
/// only its name is claimed: the same mode and dictionary give the same
/// segmenter.
#[verifier::external_body]
pub(crate) fn new_segmenter(
    mode: SegmentationMode,
    dictionary: lindera::dictionary::Dictionary,
) -> (segmenter: lindera::segmenter::Segmenter)
    ensures
        segmenter == segmenter_of(mode, dictionary),
{
    let mode = match mode {
        SegmentationMode::Normal => lindera::mode::Mode::Normal,
        SegmentationMode::Decompose => lindera::mode::Mode::Decompose(
            lindera::mode::Penalty::default(),
        ),
    };
    lindera::segmenter::Segmenter::new(mode, dictionary, None)
}

/// `lindera::tokenizer::Tokenizer::tokenize` on `text`, each token handed
/// out as a `RawToken`: its surface, its two byte offsets, and the strings
/// that `lindera::token::Token::details` gives for it. It is for a
/// tokenizer as `Tokenizer::new` builds it, which holds no filter, so that
/// what `Segmenter::segment_with_lattice` computes comes back unchanged.
/// Of the result its name is claimed, and what that function's text shows
/// of every outcome:
/// - it is never an error: without filters no step of `tokenize` can fail;
/// - the empty text gives no token, since the loop over the text is then
///   not entered;
/// - each token's offsets are a running count of bytes before and after the
///   token (`token_start = byte_position`, then `byte_position += byte_end -
///   byte_start`, then `token_end = byte_position`), where the bytes
///   counted are those of slices of the text that do not overlap: so no
///   token ends before it begins, none begins before the one in front of it
///   has ended, and none ends after the text.
/// Which tokens come back is lindera's matter.
#[verifier::external_body]
pub(crate) fn segment_text(tokenizer: &lindera::tokenizer::Tokenizer, text: &str) -> (segmented:
    Result<Vec<RawToken>, lindera::error::LinderaError>)
    requires
        exists|segmenter: lindera::segmenter::Segmenter| *tokenizer == tokenizer_of(segmenter),
    ensures
        segmented is Ok,
        segmented matches Ok(raw) ==> segmentation(*tokenizer, text@) == raw_views(raw@),
        segmented matches Ok(raw) ==> text@.len() == 0 ==> raw@.len() == 0,
        segmented matches Ok(raw) ==> spans_within(raw_views(raw@), text.spec_bytes().len()),
        segmented matches Ok(raw) ==> spans_in_order(raw_views(raw@)),
{
    let mut tokens = tokenizer.tokenize(text)?;
    let mut raw: Vec<RawToken> = Vec::with_capacity(tokens.len());
    for token in tokens.iter_mut() {
        let details: Vec<String> = token.details().iter().map(|d| d.to_string()).collect();
        let (byte_start, byte_end) = (token.byte_start, token.byte_end);
        raw.push(RawToken { surface: token.surface.to_string(), byte_start, byte_end, details });
    }
    Ok(raw)
}

} // verus!
