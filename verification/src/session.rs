//! A session: what the interpreter does with one line of input after the
//! other.

use vstd::prelude::*;
use crate::builtin::{arithmetic, total};
use crate::env::Env;
use crate::error::Error;
use crate::eval::{interprets, string_to_exp};
use crate::expr::{renders, shown_by, Sexp};
use crate::text::same_text;

verus! {

/// What is to be done after a line was taken in.
#[derive(Debug, PartialEq, Eq)]
pub enum Step {
    /// End the session.
    Quit,
    /// Print the value of the line, given here as text, and go on.
    Print(String),
    /// The line could not be interpreted.
    Fail(Error),
}

/// The line that ends a session.
pub open spec fn quit_line() -> Seq<char> {
    "quit"@
}

/// `step` is a possible answer to `line` in `env`: the line `quit` ends the
/// session, and any other line is interpreted and its value rendered.
pub open spec fn answers<R: Fn(&str) -> Option<u64>, P: Fn(u64, u64) -> u64, M: Fn(
    u64,
    u64,
) -> u64, S: Fn(u64) -> String>(
    line: Seq<char>,
    env: Map<Seq<char>, Sexp>,
    read: &R,
    plus: &P,
    minus: &M,
    show: &S,
    step: Step,
) -> bool {
    if line == quit_line() {
        step is Quit
    } else {
        exists|outcome: Result<Sexp, Seq<char>>| #[trigger]
            interprets(line, env, read, arithmetic(plus, minus), outcome) && match outcome {
                Ok(value) => step matches Step::Print(text) && renders(
                    value,
                    ","@,
                    shown_by(show),
                    text@,
                ),
                Err(e) => step matches Step::Fail(error) && error@ == e,
            }
    }
}

/// Takes in one line: says whether the session ends, and if it does not,
/// what the line's value is as text, or why it has none.
pub fn step<R, P, M, S>(
    line: String,
    env: &mut Env,
    read: &R,
    plus: &P,
    minus: &M,
    show: &S,
) -> (out: Step)
    where
        R: Fn(&str) -> Option<u64>,
        P: Fn(u64, u64) -> u64,
        M: Fn(u64, u64) -> u64,
        S: Fn(u64) -> String,
    requires
        forall|s: &str| read.requires((s,)),
        total(plus),
        total(minus),
        forall|bits: u64| show.requires((bits,)),
    ensures
        *final(env) == *old(env),
        answers(line@, old(env)@, read, plus, minus, show, out),
{
    if same_text(line.as_str(), "quit") {
        return Step::Quit;
    }
    match string_to_exp(line, env, read, plus, minus) {
        Ok(value) => Step::Print(value.render(show)),
        Err(e) => Step::Fail(e),
    }
}

} // verus!
