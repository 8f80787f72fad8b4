//! A lossless concrete-syntax-tree parser for JSON.
//!
//! Text is split into tokens that keep every character, whitespace included
//! (`scan`, `lexer`).  A recursive-descent parser (`parser`, with its grammar
//! stated in `grammar`) drives a tree builder (`builder`) that seals nodes into
//! an immutable, position-free green tree (`green`).  Red nodes (`red`) place
//! green nodes at offsets of the text for traversal, and `dump` prints a tree.
//! Putting the leaf texts of a parsed tree together gives its input back exactly.
use vstd::prelude::*;

pub mod kind;
pub mod scan;
pub mod lexer;
pub mod green;
pub mod builder;
pub mod parser;
pub mod grammar;
pub mod red;
pub mod dump;

verus! {

} // verus!
