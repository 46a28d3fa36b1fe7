//! A small line-oriented scripting language: one prefix command per line,
//! blocks closed by `end`, and values that are text, numbers or shared lists.
//!
//! The crate holds the language itself: the line parser and the block pass,
//! the values and the errors, the builtin commands, and the interpreter as a
//! machine that runs in steps. Whatever needs the outside world (the
//! console, the clock, arithmetic on doubles) is handed to the caller as a
//! [`builtins::Request`] in a [`run::Action`], and comes back as a
//! [`run::Reply`].
//!
//! A program is run like this: [`parse::parse`] turns its text into lines,
//! [`run::State::new`] sets the machine up, and [`run::execute`] runs it
//! until it asks, finishes or fails; [`run::State::answer`] takes the reply
//! to what it asked.

pub mod text;
pub mod number;
pub mod value;
pub mod table;
pub mod parse;
pub mod matching;
pub mod error;
pub mod builtins;
pub mod run;
