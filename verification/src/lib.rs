//! A small JSON reader: a scanner that turns a document's text into
//! tokens, and a recursive-descent parser that turns the tokens into a
//! tree whose children keep the order of the document. Nothing is ever
//! rejected: what cannot be read is passed over.

use vstd::prelude::*;

pub mod laws;
pub mod number;
pub mod parser;
pub mod text;
pub mod tokenizer;

pub use crate::parser::{Array, Object, Parser, Property, PropertyView, Root, Value, ValueView};
pub use crate::tokenizer::{Token, TokenView, Tokenizer};
use crate::parser::root_value;
use crate::tokenizer::tokens_of;

verus! {

/// The top-level value of the document `s`: the first value among its
/// tokens, if there is one.
pub open spec fn document_value(s: Seq<char>) -> Option<ValueView> {
    root_value(tokens_of(s), 0).0
}

/// Reads the document `json` into a tree. The root has no child where the
/// document holds no value.
pub fn parse(json: String) -> (root: Root)
    ensures
        root@ == document_value(json@),
{
    let mut tokenizer_struct = Tokenizer::new(json);
    let tokens = tokenizer_struct.generate();
    let mut parser_struct = Parser::new(tokens);
    parser_struct.parse()
}

} // verus!
