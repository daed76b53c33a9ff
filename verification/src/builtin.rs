//! The native operations, and the arithmetic that they rest on.
//!
//! The interpreter does no floating-point arithmetic of its own. The two
//! operations it needs, adding and subtracting two numbers given by their bit
//! patterns, are handed to it as functions, and every statement made here
//! holds for whatever results those functions may return.

use vstd::prelude::*;
use vstd::slice::slice_subrange;
use crate::error::{msg_expected_number, msg_no_operand, Error};
use crate::expr::{views, Builtin, Expr, Sexp};

verus! {

/// What the caller's arithmetic may return: `plus(a, b, r)` holds when `r` is
/// a possible result of adding `a` and `b`, and `minus(a, b, r)` when `r` is a
/// possible result of subtracting `b` from `a`.
pub struct Arithmetic {
    pub plus: spec_fn(u64, u64, u64) -> bool,
    pub minus: spec_fn(u64, u64, u64) -> bool,
}

/// The results that an executable function of two numbers may return.
pub open spec fn results_of<F: Fn(u64, u64) -> u64>(f: &F) -> spec_fn(u64, u64, u64) -> bool {
    |a: u64, b: u64, r: u64| f.ensures((a, b), r)
}

/// The function `f` may be called on every pair of numbers.
pub open spec fn total<F: Fn(u64, u64) -> u64>(f: &F) -> bool {
    forall|a: u64, b: u64| f.requires((a, b))
}

/// The arithmetic that a pair of executable functions provides.
pub open spec fn arithmetic<P: Fn(u64, u64) -> u64, M: Fn(u64, u64) -> u64>(
    plus: &P,
    minus: &M,
) -> Arithmetic {
    Arithmetic { plus: results_of(plus), minus: results_of(minus) }
}

/// What evaluation hands back, as a mathematical value.
pub open spec fn outcome(result: Result<Expr, Error>) -> Result<Sexp, Seq<char>> {
    match result {
        Ok(value) => Ok(value@),
        Err(e) => Err(e@),
    }
}

/// The bit pattern of positive zero, from which every sum starts.
pub open spec fn zero() -> u64 {
    0
}

/// `total` is a possible result of adding up `xs` from left to right,
/// starting from zero.
pub open spec fn sums_to(plus: spec_fn(u64, u64, u64) -> bool, xs: Seq<u64>, total: u64) -> bool
    decreases xs.len(),
{
    if xs.len() == 0 {
        total == zero()
    } else {
        exists|partial: u64|
            #![trigger plus(partial, xs.last(), total)]
            sums_to(plus, xs.drop_last(), partial) && plus(partial, xs.last(), total)
    }
}

/// Every one of `args` is a number.
pub open spec fn all_numbers(args: Seq<Sexp>) -> bool {
    forall|i: int| 0 <= i < args.len() ==> #[trigger] args[i] is Number
}

/// The numbers that `args` hold.
pub open spec fn numbers(args: Seq<Sexp>) -> Seq<u64> {
    Seq::new(args.len(), |i: int| args[i]->Number_0)
}

/// `out` is a possible result of applying `op` to the evaluated arguments
/// `args`.
pub open spec fn applies(
    op: Builtin,
    args: Seq<Sexp>,
    arith: Arithmetic,
    out: Result<Sexp, Seq<char>>,
) -> bool {
    if !all_numbers(args) {
        out == Err::<Sexp, Seq<char>>(msg_expected_number())
    } else {
        match op {
            Builtin::Add => exists|total: u64|
                #![trigger sums_to(arith.plus, numbers(args), total)]
                sums_to(arith.plus, numbers(args), total) && out == Ok::<Sexp, Seq<char>>(
                    Sexp::Number(total),
                ),
            Builtin::Sub => if args.len() == 0 {
                out == Err::<Sexp, Seq<char>>(msg_no_operand())
            } else {
                exists|rest: u64, difference: u64|
                    #![trigger (arith.minus)(numbers(args)[0], rest, difference)]
                    sums_to(arith.plus, numbers(args).drop_first(), rest) && (arith.minus)(
                        numbers(args)[0],
                        rest,
                        difference,
                    ) && out == Ok::<Sexp, Seq<char>>(Sexp::Number(difference))
            },
        }
    }
}

/// The number that an expression holds; anything but a number is refused.
pub fn parse_single_float(exp: &Expr) -> (out: Result<u64, Error>)
    ensures
        match out {
            Ok(bits) => exp@ == Sexp::Number(bits),
            Err(e) => !(exp@ is Number) && e@ == msg_expected_number(),
        },
{
    match exp {
        Expr::Number(bits) => Ok(*bits),
        _ => Err(Error::new("expected a number")),
    }
}

/// The numbers that a list of expressions holds; a list with anything but
/// numbers in it is refused.
pub fn parse_list_of_floats(floats: &[Expr]) -> (out: Result<Vec<u64>, Error>)
    ensures
        match out {
            Ok(xs) => all_numbers(views(floats@)) && xs@ == numbers(views(floats@)),
            Err(e) => !all_numbers(views(floats@)) && e@ == msg_expected_number(),
        },
{
    let mut xs: Vec<u64> = Vec::new();
    let mut i: usize = 0;
    while i < floats.len()
        invariant
            i <= floats.len(),
            xs.len() == i,
            forall|j: int| 0 <= j < i ==> #[trigger] floats[j]@ == Sexp::Number(xs[j]),
        decreases floats.len() - i,
    {
        match parse_single_float(&floats[i]) {
            Ok(bits) => xs.push(bits),
            Err(e) => {
                assert(!(views(floats@)[i as int] is Number));
                return Err(e);
            },
        }
        i += 1;
    }
    assert(all_numbers(views(floats@))) by {
        assert forall|j: int| 0 <= j < floats.len() implies #[trigger] views(floats@)[j] is Number by {
            assert(floats[j]@ == Sexp::Number(xs[j]));
        }
    }
    assert(xs@ =~= numbers(views(floats@))) by {
        assert forall|j: int| 0 <= j < floats.len() implies xs[j] == numbers(views(floats@))[j] by {
            assert(floats[j]@ == Sexp::Number(xs[j]));
        }
    }
    Ok(xs)
}

/// Adds up `xs` from left to right, starting from zero.
pub fn sum<P: Fn(u64, u64) -> u64>(xs: &[u64], plus: &P) -> (total: u64)
    requires
        self::total(plus),
    ensures
        sums_to(results_of(plus), xs@, total),
{
    let mut acc: u64 = 0;
    let mut i: usize = 0;
    while i < xs.len()
        invariant
            i <= xs.len(),
            self::total(plus),
            sums_to(results_of(plus), xs@.take(i as int), acc),
        decreases xs.len() - i,
    {
        let next = plus(acc, xs[i]);
        proof {
            let upto = xs@.take(i + 1);
            assert(upto.drop_last() =~= xs@.take(i as int));
            assert(upto.last() == xs[i as int]);
            assert(results_of(plus)(acc, xs[i as int], next));
        }
        acc = next;
        i += 1;
    }
    assert(xs@.take(i as int) =~= xs@);
    acc
}

impl Builtin {
    /// Applies the operation to arguments that have been evaluated.
    pub fn apply<P, M>(&self, args: &[Expr], plus: &P, minus: &M) -> (out: Result<Expr, Error>)
        where P: Fn(u64, u64) -> u64, M: Fn(u64, u64) -> u64
        requires
            total(plus),
            total(minus),
        ensures
            applies(*self, views(args@), arithmetic(plus, minus), outcome(out)),
    {
        let floats = match parse_list_of_floats(args) {
            Ok(floats) => floats,
            Err(e) => {
                return Err(e);
            },
        };
        match self {
            Builtin::Add => {
                let all = sum(floats.as_slice(), plus);
                assert(sums_to(arithmetic(plus, minus).plus, numbers(views(args@)), all));
                Ok(Expr::Number(all))
            },
            Builtin::Sub => {
                if floats.len() == 0 {
                    return Err(Error::new("`-` requires at least one operand"));
                }
                let rest = sum(slice_subrange(floats.as_slice(), 1, floats.len()), plus);
                let difference = minus(floats[0], rest);
                proof {
                    let xs = numbers(views(args@));
                    assert((arithmetic(plus, minus).minus)(xs[0], rest, difference));
                }
                Ok(Expr::Number(difference))
            },
        }
    }
}

/// The sum of no numbers is zero.
pub proof fn law_empty_sum(arith: Arithmetic, out: Result<Sexp, Seq<char>>)
    ensures
        applies(Builtin::Add, Seq::empty(), arith, out) <==> out == Ok::<Sexp, Seq<char>>(
            Sexp::Number(zero()),
        ),
{
    let none = Seq::<Sexp>::empty();
    assert(sums_to(arith.plus, numbers(none), zero()));
}

/// Subtraction needs something to subtract from.
pub proof fn law_difference_needs_operand(arith: Arithmetic, out: Result<Sexp, Seq<char>>)
    ensures
        applies(Builtin::Sub, Seq::empty(), arith, out) <==> out == Err::<Sexp, Seq<char>>(
            msg_no_operand(),
        ),
{
}

/// Subtraction of one number is no negation: it takes the sum of no numbers,
/// which is zero, from that number.
pub proof fn law_single_difference(bits: u64, arith: Arithmetic, out: Result<Sexp, Seq<char>>)
    ensures
        applies(Builtin::Sub, seq![Sexp::Number(bits)], arith, out) <==> exists|difference: u64|
            #[trigger] (arith.minus)(bits, zero(), difference) && out == Ok::<Sexp, Seq<char>>(
                Sexp::Number(difference),
            ),
{
    let args = seq![Sexp::Number(bits)];
    assert(numbers(args)[0] == bits);
}

/// An operation on anything but numbers fails.
pub proof fn law_arguments_must_be_numbers(
    op: Builtin,
    args: Seq<Sexp>,
    arith: Arithmetic,
    out: Result<Sexp, Seq<char>>,
)
    requires
        !all_numbers(args),
    ensures
        applies(op, args, arith, out) <==> out == Err::<Sexp, Seq<char>>(msg_expected_number()),
{
}

/// The arithmetic gives one result at most for each pair of numbers.
pub open spec fn single_valued(arith: Arithmetic) -> bool {
    &&& forall|a: u64, b: u64, r: u64, s: u64|
        #[trigger] (arith.plus)(a, b, r) && #[trigger] (arith.plus)(a, b, s) ==> r == s
    &&& forall|a: u64, b: u64, r: u64, s: u64|
        #[trigger] (arith.minus)(a, b, r) && #[trigger] (arith.minus)(a, b, s) ==> r == s
}

/// Where addition gives one result at most, so do sums.
pub proof fn lemma_sum_is_determined(arith: Arithmetic, xs: Seq<u64>, s: u64, t: u64)
    requires
        single_valued(arith),
        sums_to(arith.plus, xs, s),
        sums_to(arith.plus, xs, t),
    ensures
        s == t,
    decreases xs.len(),
{
    if xs.len() > 0 {
        let p = choose|p: u64|
            #![trigger (arith.plus)(p, xs.last(), s)]
            sums_to(arith.plus, xs.drop_last(), p) && (arith.plus)(p, xs.last(), s);
        let q = choose|q: u64|
            #![trigger (arith.plus)(q, xs.last(), t)]
            sums_to(arith.plus, xs.drop_last(), q) && (arith.plus)(q, xs.last(), t);
        lemma_sum_is_determined(arith, xs.drop_last(), p, q);
    }
}

/// Where the arithmetic gives one result at most, so does the application of
/// an operation.
pub proof fn lemma_application_is_determined(
    op: Builtin,
    args: Seq<Sexp>,
    arith: Arithmetic,
    a: Result<Sexp, Seq<char>>,
    b: Result<Sexp, Seq<char>>,
)
    requires
        single_valued(arith),
        applies(op, args, arith, a),
        applies(op, args, arith, b),
    ensures
        a == b,
{
    if all_numbers(args) {
        let xs = numbers(args);
        match op {
            Builtin::Add => {
                let s = choose|s: u64|
                    #![trigger sums_to(arith.plus, xs, s)]
                    sums_to(arith.plus, xs, s) && a == Ok::<Sexp, Seq<char>>(Sexp::Number(s));
                let t = choose|t: u64|
                    #![trigger sums_to(arith.plus, xs, t)]
                    sums_to(arith.plus, xs, t) && b == Ok::<Sexp, Seq<char>>(Sexp::Number(t));
                lemma_sum_is_determined(arith, xs, s, t);
            },
            Builtin::Sub => {
                if args.len() > 0 {
                    let (s, d) = choose|s: u64, d: u64|
                        #![trigger (arith.minus)(xs[0], s, d)]
                        sums_to(arith.plus, xs.drop_first(), s) && (arith.minus)(xs[0], s, d) && a
                            == Ok::<Sexp, Seq<char>>(Sexp::Number(d));
                    let (t, e) = choose|t: u64, e: u64|
                        #![trigger (arith.minus)(xs[0], t, e)]
                        sums_to(arith.plus, xs.drop_first(), t) && (arith.minus)(xs[0], t, e) && b
                            == Ok::<Sexp, Seq<char>>(Sexp::Number(e));
                    lemma_sum_is_determined(arith, xs.drop_first(), s, t);
                }
            },
        }
    }
}

/// A sum is taken from left to right: the sum of `xs` and one more number
/// is the sum of `xs` with that number added to it.
pub proof fn law_sum_step(plus: spec_fn(u64, u64, u64) -> bool, xs: Seq<u64>, x: u64, total: u64)
    ensures
        sums_to(plus, xs.push(x), total) <==> exists|partial: u64|
            sums_to(plus, xs, partial) && #[trigger] plus(partial, x, total),
{
    assert(xs.push(x).drop_last() =~= xs);
    assert(xs.push(x).last() == x);
}

} // verus!
