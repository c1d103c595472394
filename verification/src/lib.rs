//! An interactive command loop over a declarative command grammar.
//!
//! A raw line is split into words with shell quoting, the words are matched
//! against a read-only tree of commands, flags and positional arguments, and
//! the same tree drives completion at a cursor position.  Reading lines and
//! running handlers is left to the embedding program: this crate decides,
//! it performs no I/O.

pub mod completion;
pub mod grammar;
pub mod lexer;
pub mod parser;
pub mod read_loop;
