//! A small library of composable, backtracking parsers over text, and the
//! arithmetic grammar built from them.
//!
//! A parser is any function from an input text to a [`ParseOutcome`]: a
//! value and the text that is left, or a failure. The primitives in
//! [`primitive`] consume one character. The combinators in [`repetition`],
//! [`sequencing`], [`whitespace`] and [`memo`] build new parsers from old
//! ones. [`numeral`] and [`grammar`] build, from these, the parsers of
//! numbers and of arithmetic expressions, and [`calculator`] says what a
//! line of input comes to.
//!
//! Each function that returns a parser `r` says two things of it. It says
//! on which inputs `r` may be run: `call_requires(r, (input,))`, on all of
//! them unless a parser or function handed to the combinator restricts it.
//! And it says what `r` computes, by naming its model, a function on
//! sequences of characters: `implements(r, model)`, where the models of
//! the parsers handed to a combinator give the model of the parser that
//! comes back. The models are in [`model`], what holds of them in [`laws`],
//! and the few facts about the standard library that are taken on trust in
//! [`trusted`].
//!
//! `seq` is not among the names below: it is reached as
//! [`sequencing::seq`].

pub mod outcome;
pub mod model;
pub mod trusted;
pub mod primitive;
pub mod repetition;
pub mod sequencing;
pub mod whitespace;
pub mod memo;
pub mod numeral;
pub mod grammar;
pub mod calculator;
pub mod laws;

pub use outcome::ParseOutcome;
pub use primitive::{char_parser, digit, item, sat};
pub use repetition::{many, some};
pub use sequencing::{alt, ret, ret_checked};
pub use whitespace::{space, token};
pub use memo::{lazy, Memo};
pub use numeral::{assemble, natural};
pub use grammar::{expr, factor, term};
pub use calculator::{calculate, Reading, MAX_LINE};
