//! A tokenizer for a small imperative language.
//!
//! Source text is turned into a flat sequence of tokens by a trie-shaped
//! matching automaton (the lex tree) driven over a character stream that
//! supports pushback, so that over-eager matches can be undone and the
//! characters re-lexed.  Keywords and operators are recognised by
//! longest-match walks over the trie; numeric literals and identifiers are
//! recognised by dedicated sub-parsers.

pub mod ast;
pub mod chars;
pub mod char_iter;
pub mod lex_tree;
pub mod laws;
pub mod lexer;
pub mod token;
pub mod tokenizer;
