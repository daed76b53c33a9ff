//! A minimal interpreter for a parenthesized symbolic-expression language.
//!
//! Text is split into tokens ([`tokenizer`]), the tokens are read into an
//! expression tree ([`parser`]), and the tree is reduced to a value
//! ([`eval`]) against a table of named operations ([`env`], [`builtin`]).
//! [`session`] says what is done with one line of input.
//!
//! Numbers are 64-bit IEEE-754 values, held by their bit patterns. The
//! interpreter carries them and never looks inside: reading a number from a
//! token, adding, subtracting and showing it are the caller's, handed in as
//! functions. What is proved holds for whatever those functions return.
//!
//! [`spelling`] and [`roundtrip`] state how text, tokens and trees are turned
//! into each other and back.

pub mod builtin;
pub mod env;
pub mod error;
pub mod eval;
pub mod expr;
pub mod parser;
pub mod roundtrip;
pub mod session;
pub mod spelling;
pub mod text;
pub mod tokenizer;

pub use builtin::{parse_list_of_floats, parse_single_float, sum};
pub use env::{default_env, Env};
pub use error::Error;
pub use eval::{eval, string_to_exp};
pub use expr::{Builtin, Expr};
pub use parser::{parse, parse_atom, read_seq, read_tokens, Token};
pub use session::{step, Step};
pub use tokenizer::{is_whitespace, tokenize};
