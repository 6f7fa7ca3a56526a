//! Turns a small line-oriented configuration format into a map of shell
//! `cd` aliases.
//!
//! Each configuration line names a filesystem path, optionally prefixed by a
//! bracketed custom alias name or by a bracketed `*` that requests expansion
//! of the path's immediate subdirectories into one alias each.  The crate
//! provides the tokenizer ([`lexer`]), the alias-name derivation rules
//! ([`naming`]), the accumulated alias map ([`alias_map`]) and the
//! recursive-descent parser ([`parser`]).  Directory listings themselves are
//! supplied by the caller: the parser reports which directory it needs and
//! accepts the entries through [`parser::Parser::provide_entries`].

pub mod alias_map;
pub mod lexer;
pub mod naming;
pub mod parser;
pub mod text;
