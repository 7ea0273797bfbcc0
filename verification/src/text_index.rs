//! Configuration types for a full-text payload index.
//!
//! These types only carry configuration; the serialized API copies of them
//! live outside the verified library.

use vstd::prelude::*;

verus! {

/// Kind of full-text index attached to a payload field.
#[derive(Default, Debug, Clone, Copy, PartialEq, Eq, Hash, Structural)]
pub enum TextIndexType {
    #[default]
    Text,
}

/// How field text is split into tokens before indexing.
#[derive(Default, Debug, Clone, Copy, PartialEq, Eq, Hash, Structural)]
pub enum TokenizerType {
    Prefix,
    Whitespace,
    #[default]
    Word,
    Multilingual,
}

/// Parameters of a full-text payload index.
#[derive(Debug, Clone, Copy, PartialEq, Eq, Hash)]
pub struct TextIndexParams {
    pub index_type: TextIndexType,
    pub tokenizer: TokenizerType,
    pub min_token_len: Option<usize>,
    pub max_token_len: Option<usize>,
    /// If true, lowercase all tokens. Default: true.
    pub lowercase: Option<bool>,
}

impl Default for TextIndexParams {
    /// Default parameters: whole-word tokenization with no length limits.
    fn default() -> (r: Self)
        ensures
            r.index_type == TextIndexType::Text,
            r.tokenizer == TokenizerType::Word,
            r.min_token_len is None,
            r.max_token_len is None,
            r.lowercase is None,
    {
        TextIndexParams {
            index_type: TextIndexType::Text,
            tokenizer: TokenizerType::Word,
            min_token_len: None,
            max_token_len: None,
            lowercase: None,
        }
    }
}

} // verus!
