//! Expressions: the syntax tree, which is also the type of runtime values.

use vstd::prelude::*;
use vstd::string::StringExecFns;
use crate::text::joined;

verus! {

/// A native operation of the interpreter.
#[derive(Clone, Copy, Debug, PartialEq, Eq)]
pub enum Builtin {
    /// `+`: the sum of its arguments.
    Add,
    /// `-`: its first argument, less the sum of the others.
    Sub,
}

/// An expression. Parsing produces the first three variants; `Func` only
/// arises when a symbol is looked up in an environment.
#[derive(Debug, PartialEq, Eq)]
pub enum Expr {
    /// An identifier.
    Symbol(String),
    /// A 64-bit IEEE-754 number, held by its bit pattern.
    Number(u64),
    /// A compound form; the first item stands in operator position.
    List(Vec<Expr>),
    /// A native operation.
    Func(Builtin),
}

/// The mathematical value of an expression.
pub enum Sexp {
    Symbol(Seq<char>),
    Number(u64),
    List(Seq<Sexp>),
    Func(Builtin),
}

impl View for Expr {
    type V = Sexp;

    open spec fn view(&self) -> Sexp
        decreases self,
    {
        match self {
            Expr::Symbol(name) => Sexp::Symbol(name@),
            Expr::Number(bits) => Sexp::Number(*bits),
            Expr::List(items) => Sexp::List(views(items@)),
            Expr::Func(op) => Sexp::Func(*op),
        }
    }
}

/// The values of a sequence of expressions, item by item.
pub open spec fn views(items: Seq<Expr>) -> Seq<Sexp>
    decreases items,
{
    Seq::new(items.len(), |i: int| if 0 <= i < items.len() { items[i]@ } else { arbitrary() })
}

impl Clone for Expr {
    fn clone(&self) -> (copy: Expr)
        ensures
            copy@ == self@,
        decreases self,
    {
        match self {
            Expr::Symbol(name) => Expr::Symbol(name.clone()),
            Expr::Number(bits) => Expr::Number(*bits),
            Expr::List(items) => {
                let mut copies: Vec<Expr> = Vec::new();
                let mut i: usize = 0;
                while i < items.len()
                    invariant
                        i <= items.len(),
                        copies.len() == i,
                        forall|j: int| 0 <= j < i ==> copies[j]@ == items[j]@,
                        decreases_to!(self => items),
                    decreases items.len() - i,
                {
                    copies.push(items[i].clone());
                    i += 1;
                }
                assert(views(copies@) =~= views(items@));
                Expr::List(copies)
            },
            Expr::Func(op) => Expr::Func(*op),
        }
    }
}

/// The text that stands for a native operation.
pub open spec fn function_text() -> Seq<char> {
    "Function"@
}

/// `text` is a rendering of `e`, where `shows(bits, t)` holds when `t` is a
/// possible text of the number `bits`. A symbol is its name; a list is the
/// renderings of its items between parentheses, with `separator` between
/// one and the next.
pub open spec fn renders(
    e: Sexp,
    separator: Seq<char>,
    shows: spec_fn(u64, Seq<char>) -> bool,
    text: Seq<char>,
) -> bool
    decreases e,
{
    match e {
        Sexp::Symbol(name) => text == name,
        Sexp::Number(bits) => shows(bits, text),
        Sexp::List(items) => exists|parts: Seq<Seq<char>>|
            #![trigger parts.len()]
            {
                &&& parts.len() == items.len()
                &&& forall|i: int|
                    #![trigger items[i]]
                    #![trigger parts[i]]
                    0 <= i < items.len() ==> renders(items[i], separator, shows, parts[i])
                &&& text == "("@ + joined(parts, separator) + ")"@
            },
        Sexp::Func(_) => text == function_text(),
    }
}

/// The texts that an executable function may show a number as.
pub open spec fn shown_by<S: Fn(u64) -> String>(show: &S) -> spec_fn(u64, Seq<char>) -> bool {
    |bits: u64, text: Seq<char>| exists|t: String| t@ == text && #[trigger] show.ensures((bits,), t)
}

impl Expr {
    /// The expression as text, the items of its lists joined by commas;
    /// `show` gives the text of a number.
    pub fn render<S: Fn(u64) -> String>(&self, show: &S) -> (text: String)
        requires
            forall|bits: u64| show.requires((bits,)),
        ensures
            renders(self@, ","@, shown_by(show), text@),
    {
        self.render_with(",", show)
    }

    /// The expression as text, the items of its lists joined by `separator`;
    /// `show` gives the text of a number.
    pub fn render_with<S: Fn(u64) -> String>(&self, separator: &str, show: &S) -> (text: String)
        requires
            forall|bits: u64| show.requires((bits,)),
        ensures
            renders(self@, separator@, shown_by(show), text@),
        decreases self,
    {
        match self {
            Expr::Symbol(name) => name.clone(),
            Expr::Number(bits) => show(*bits),
            Expr::List(items) => {
                let mut text = String::from_str("(");
                let ghost mut parts: Seq<Seq<char>> = Seq::empty();
                let mut i: usize = 0;
                while i < items.len()
                    invariant
                        i <= items.len(),
                        parts.len() == i,
                        forall|bits: u64| show.requires((bits,)),
                        decreases_to!(self => items),
                        forall|j: int|
                            0 <= j < i ==> renders(
                                #[trigger] items[j]@,
                                separator@,
                                shown_by(show),
                                parts[j],
                            ),
                        text@ == "("@ + joined(parts, separator@),
                    decreases items.len() - i,
                {
                    let part = items[i].render_with(separator, show);
                    if i > 0 {
                        text.append(separator);
                    }
                    text.append(part.as_str());
                    proof {
                        let longer = parts.push(part@);
                        assert(longer.drop_last() =~= parts);
                        parts = longer;
                    }
                    i += 1;
                }
                text.append(")");
                proof {
                    assert(views(items@).len() == parts.len());
                    assert forall|j: int| 0 <= j < parts.len() implies renders(
                        #[trigger] views(items@)[j],
                        separator@,
                        shown_by(show),
                        parts[j],
                    ) by {
                        assert(views(items@)[j] == items[j]@);
                    }
                }
                text
            },
            Expr::Func(_) => String::from_str("Function"),
        }
    }
}

} // verus!
