//! A boundary layer around the lindera morphological tokenizer.
//!
//! A host that cannot call lindera directly works with two kinds of handle:
//! a tokenizer handle, created once, and a result handle, created by each
//! tokenization call. The result handle owns an ordered sequence of tokens;
//! each token carries its surface text and its details as NUL-terminated
//! byte strings, its byte span in the input and its index in the sequence.
//! Every failure is reported as an absent handle or a negative count.

pub mod c_string;
pub mod token;
pub mod backend;
pub mod tokens;
pub mod tokenizer;
pub mod laws;

pub use crate::c_string::lindera_string_free;
pub use crate::token::{RawToken, TokenData};
pub use crate::tokenizer::{
    lindera_tokenize, lindera_tokenizer_create, lindera_tokenizer_destroy, LinderaTokenizerHandle,
};
pub use crate::tokens::{
    lindera_tokens_count, lindera_tokens_destroy, lindera_tokens_get, LinderaTokenResultHandle,
};
