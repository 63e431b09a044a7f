//! A PEG (Parsing Expression Grammar) runtime and parser generator.
//!
//! The library has three layers:
//!
//! * a combinator runtime of matcher values with PEG semantics — ordered
//!   choice, greedy repetition, syntactic predicates, lexical fusion —
//!   applied to a byte input with Unicode-aware primitives ([`exprs`],
//!   [`unicode`], [`state`], [`node`]);
//! * a parser for the PEG grammar language itself, whose lexical rules
//!   are compositions of those matchers and whose structural rules are
//!   recursive-descent functions ([`peg`]);
//! * an emitter that walks a parsed grammar tree and writes source text
//!   for a recursive-descent parser over the same runtime, together with
//!   the escape decoder and re-escaper that literal contents go through
//!   ([`generator`], [`unescape`]).
//!
//! The meaning of every matcher is a specification interpreter
//! ([`exprs::apply_v`]); each executable `apply` returns exactly what the
//! interpreter says, and the interpreter is proved sound: a successful
//! application advances the offset by exactly the width of the `Data`
//! leaves it produced, and the produced tree is well-formed over the
//! input ([`exprs::lemma_apply_v_ok`]).  The same guarantee is proved for
//! whole-grammar parses ([`peg::lemma_parse_tree_ok`]), and the escape
//! decoder is proved to invert the canonical re-escaper
//! ([`unescape::lemma_unescape_escape`]).
#![allow(non_snake_case)]

pub mod exprs;
pub mod generator;
pub mod node;
pub mod peg;
pub mod state;
pub mod unescape;
pub mod unicode;
