//! NUL-terminated byte strings, as a C caller reads them.

use vstd::prelude::*;
use vstd::slice::slice_to_vec;

verus! {

/// The byte that ends a C string.
pub const NUL: u8 = 0;

/// The byte that separates the fields of a joined list.
pub const COMMA: u8 = 0x2C;

/// Some byte of `content` is the terminator.
pub open spec fn has_nul(content: Seq<u8>) -> bool {
    content.contains(NUL)
}

/// `bytes` is a well-formed C string: it ends with the terminator, and the
/// terminator occurs nowhere before the end.
pub open spec fn is_c_string(bytes: Seq<u8>) -> bool {
    &&& bytes.len() > 0
    &&& bytes.last() == NUL
    &&& !has_nul(bytes.drop_last())
}

/// What a C caller reads from a well-formed C string: all but the terminator.
pub open spec fn c_string_content(bytes: Seq<u8>) -> Seq<u8> {
    bytes.drop_last()
}

/// The C string that stands for `content`: `content` followed by the
/// terminator, or the empty C string where `content` itself holds a
/// terminator and so cannot be represented.
pub open spec fn c_string_of(content: Seq<u8>) -> Seq<u8> {
    if has_nul(content) {
        seq![NUL]
    } else {
        content.push(NUL)
    }
}

/// The fields of a list, written one after the other with `separator`
/// between neighbours: nothing for no field, the field itself for one.
pub open spec fn joined(fields: Seq<Seq<u8>>, separator: u8) -> Seq<u8>
    decreases fields.len(),
{
    if fields.len() == 0 {
        Seq::empty()
    } else if fields.len() == 1 {
        fields[0]
    } else {
        joined(fields.drop_last(), separator).push(separator) + fields.last()
    }
}

/// The C string of any content is well formed, and a caller reads from it
/// the content itself, or nothing where the content held a terminator.
pub proof fn lemma_c_string_of_is_c_string(content: Seq<u8>)
    ensures
        is_c_string(c_string_of(content)),
        c_string_content(c_string_of(content)) == (if has_nul(content) {
            Seq::<u8>::empty()
        } else {
            content
        }),
{
    if has_nul(content) {
        assert(seq![NUL].drop_last() =~= Seq::<u8>::empty());
    } else {
        assert(content.push(NUL).drop_last() =~= content);
    }
}

/// Tells whether `content` holds the terminator.
pub fn contains_nul(content: &[u8]) -> (found: bool)
    ensures
        found == has_nul(content@),
{
    let mut i: usize = 0;
    while i < content.len()
        invariant
            i <= content.len(),
            forall|k: int| 0 <= k < i ==> content@[k] != NUL,
        decreases content.len() - i,
    {
        if content[i] == NUL {
            return true;
        }
        i += 1;
    }
    false
}

/// Copies `content` into a fresh NUL-terminated buffer. Content that holds
/// a terminator of its own gives the empty C string.
pub fn to_c_string(content: &[u8]) -> (out: Vec<u8>)
    ensures
        out@ == c_string_of(content@),
        is_c_string(out@),
{
    let mut out: Vec<u8> = if contains_nul(content) {
        Vec::new()
    } else {
        slice_to_vec(content)
    };
    out.push(NUL);
    proof {
        lemma_c_string_of_is_c_string(content@);
    }
    out
}

/// Releases a string that this library handed out. Without a string it
/// does nothing.
pub fn lindera_string_free(string: Option<Vec<u8>>) {
    let _ = string;
}

} // verus!
