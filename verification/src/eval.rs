//! Evaluation: reducing an expression to a value against an environment.

use vstd::prelude::*;
use crate::builtin::{
    all_numbers, applies, arithmetic, lemma_application_is_determined, outcome, single_valued,
    total, Arithmetic,
};
use crate::env::Env;
use crate::error::{
    msg_bare_function, msg_empty_list, msg_expected_number, msg_no_operand, msg_not_a_function,
    msg_unbound, unbound, Error,
};
use crate::expr::{views, Builtin, Expr, Sexp};
use crate::parser::{is_reading, parse, parse_spec, read_tokens, Token};
use crate::tokenizer::{tokenize, tokens_of};

verus! {

/// `out` is a possible result of evaluating `e` in `env`. A symbol stands
/// for what the environment binds it to, a number for itself, and a list is
/// a call.
pub open spec fn evaluates(
    e: Sexp,
    env: Map<Seq<char>, Sexp>,
    arith: Arithmetic,
    out: Result<Sexp, Seq<char>>,
) -> bool
    decreases e, 0nat,
{
    match e {
        Sexp::Symbol(name) => if env.contains_key(name) {
            out == Ok::<Sexp, Seq<char>>(env[name])
        } else {
            out == Err::<Sexp, Seq<char>>(msg_unbound(name))
        },
        Sexp::Number(_) => out == Ok::<Sexp, Seq<char>>(e),
        Sexp::List(items) => if items.len() == 0 {
            out == Err::<Sexp, Seq<char>>(msg_empty_list())
        } else {
            exists|values: Seq<Sexp>|
                #![trigger values.len()]
                values.len() <= items.len() && call_steps(items, env, arith, values, out)
        },
        Sexp::Func(_) => out == Err::<Sexp, Seq<char>>(msg_bare_function()),
    }
}

/// The steps of the call `items`. Its items are evaluated from left to
/// right, the head first; `values` are the results of those that were
/// evaluated and did not fail, and `out` is the result of the call. A failure
/// is the result of the call at once. A head that is no native operation ends
/// the call before any argument is evaluated. Where all items have their
/// values, the head is applied to the others.
pub open spec fn call_steps(
    items: Seq<Sexp>,
    env: Map<Seq<char>, Sexp>,
    arith: Arithmetic,
    values: Seq<Sexp>,
    out: Result<Sexp, Seq<char>>,
) -> bool
    decreases items, 1nat,
{
    &&& 0 < items.len()
    &&& values.len() <= items.len()
    &&& forall|i: int|
        #![trigger items[i]]
        #![trigger values[i]]
        0 <= i < values.len() ==> evaluates(items[i], env, arith, Ok(values[i]))
    &&& if values.len() == 0 {
        out is Err && evaluates(items[0], env, arith, out)
    } else if !(values[0] is Func) {
        values.len() == 1 && out == Err::<Sexp, Seq<char>>(msg_not_a_function())
    } else if values.len() < items.len() {
        out is Err && evaluates(items[values.len() as int], env, arith, out)
    } else {
        applies(values[0]->Func_0, values.drop_first(), arith, out)
    }
}

/// What is known of a value before any arithmetic is done.
pub enum Shape {
    /// The value itself: a number that was written down, or what a symbol is
    /// bound to.
    Given(Sexp),
    /// A number that the arithmetic yields.
    Computed,
}

/// The shape is that of a number.
pub open spec fn is_number(shape: Shape) -> bool {
    match shape {
        Shape::Given(value) => value is Number,
        Shape::Computed => true,
    }
}

/// Whether the evaluation of `e` fails, and with what; and what is known of
/// its value where it does not fail. None of this depends on the
/// arithmetic.
pub open spec fn shape_of(e: Sexp, env: Map<Seq<char>, Sexp>) -> Result<Shape, Seq<char>>
    decreases e, 0nat,
{
    match e {
        Sexp::Symbol(name) => if env.contains_key(name) {
            Ok(Shape::Given(env[name]))
        } else {
            Err(msg_unbound(name))
        },
        Sexp::Number(_) => Ok(Shape::Given(e)),
        Sexp::List(items) => if items.len() == 0 {
            Err(msg_empty_list())
        } else {
            match shape_of(items[0], env) {
                Err(reason) => Err(reason),
                Ok(Shape::Given(Sexp::Func(op))) => match args_are_numbers(items, env, 1) {
                    Err(reason) => Err(reason),
                    Ok(false) => Err(msg_expected_number()),
                    Ok(true) => if op == Builtin::Sub && items.len() == 1 {
                        Err(msg_no_operand())
                    } else {
                        Ok(Shape::Computed)
                    },
                },
                Ok(_) => Err(msg_not_a_function()),
            }
        },
        Sexp::Func(_) => Err(msg_bare_function()),
    }
}

/// Whether the items of `items` from the one at `from` on are all numbers,
/// once evaluated; or the first failure among them.
pub open spec fn args_are_numbers(items: Seq<Sexp>, env: Map<Seq<char>, Sexp>, from: nat) -> Result<
    bool,
    Seq<char>,
>
    decreases items, items.len() - from,
{
    if from >= items.len() {
        Ok(true)
    } else {
        match shape_of(items[from as int], env) {
            Err(reason) => Err(reason),
            Ok(shape) => match args_are_numbers(items, env, from + 1) {
                Err(reason) => Err(reason),
                Ok(others) => Ok(is_number(shape) && others),
            },
        }
    }
}

/// The result `out` has the shape `shape`.
pub open spec fn has_shape(out: Result<Sexp, Seq<char>>, shape: Result<Shape, Seq<char>>) -> bool {
    match shape {
        Err(reason) => out == Err::<Sexp, Seq<char>>(reason),
        Ok(Shape::Given(value)) => out == Ok::<Sexp, Seq<char>>(value),
        Ok(Shape::Computed) => out matches Ok(value) && value is Number,
    }
}

/// `out` is a possible result of interpreting `text` in `env`: the text is
/// split into tokens, each token is read, the first expression of the tokens
/// is parsed, and that expression is evaluated. What follows the first
/// expression is not looked at.
pub open spec fn interprets<R: Fn(&str) -> Option<u64>>(
    text: Seq<char>,
    env: Map<Seq<char>, Sexp>,
    read: &R,
    arith: Arithmetic,
    out: Result<Sexp, Seq<char>>,
) -> bool {
    exists|tokens: Seq<Token>|
        #![trigger tokens.len()]
        {
            &&& tokens.len() == tokens_of(text).len()
            &&& forall|i: int|
                0 <= i < tokens.len() ==> is_reading(read, tokens_of(text)[i], #[trigger] tokens[i])
            &&& match parse_spec(tokens) {
                Ok((tree, _)) => evaluates(tree, env, arith, out),
                Err(e) => out == Err::<Sexp, Seq<char>>(e),
            }
        }
}

/// Interprets `lexemes` in `env`: tokenizes the text, parses the first
/// expression in it and evaluates that expression.
pub fn string_to_exp<R, P, M>(
    lexemes: String,
    env: &mut Env,
    read: &R,
    plus: &P,
    minus: &M,
) -> (out: Result<Expr, Error>)
    where R: Fn(&str) -> Option<u64>, P: Fn(u64, u64) -> u64, M: Fn(u64, u64) -> u64
    requires
        forall|s: &str| read.requires((s,)),
        total(plus),
        total(minus),
    ensures
        *final(env) == *old(env),
        interprets(lexemes@, old(env)@, read, arithmetic(plus, minus), outcome(out)),
{
    let texts = tokenize(lexemes);
    let tokens = read_tokens(texts.as_slice(), read);
    match parse(tokens.as_slice()) {
        Ok((parsed, _)) => eval(&parsed, env, plus, minus),
        Err(e) => Err(e),
    }
}

/// Evaluates `exp` in `env`. A symbol stands for what the environment binds
/// it to, a number for itself, and a list is a call of its head on its other
/// items. The environment is left as it was. Whether the evaluation fails,
/// and with what reason, is settled by the expression and the environment
/// alone.
pub fn eval<P, M>(exp: &Expr, env: &mut Env, plus: &P, minus: &M) -> (out: Result<Expr, Error>)
    where P: Fn(u64, u64) -> u64, M: Fn(u64, u64) -> u64
    requires
        total(plus),
        total(minus),
    ensures
        *final(env) == *old(env),
        evaluates(exp@, old(env)@, arithmetic(plus, minus), outcome(out)) && has_shape(
            outcome(out),
            shape_of(exp@, old(env)@),
        ),
    decreases exp,
{
    assert forall|o: Result<Sexp, Seq<char>>| #[trigger]
        evaluates(exp@, env@, arithmetic(plus, minus), o) implies has_shape(
        o,
        shape_of(exp@, env@),
    ) by {
        law_outcome_has_shape(exp@, env@, arithmetic(plus, minus), o);
    }
    match exp {
        Expr::Symbol(symbol) => match env.data.get(symbol.as_str()) {
            Some(bound) => Ok(bound.clone()),
            None => Err(unbound(symbol.as_str())),
        },
        Expr::Number(_) => Ok(exp.clone()),
        Expr::List(list) => {
            if list.len() == 0 {
                return Err(Error::new("expected non-empty list"));
            }
            let ghost arith = arithmetic(plus, minus);
            let ghost items = views(list@);
            // The values of the items evaluated so far.
            let ghost mut values = Seq::<Sexp>::empty();
            let op = match eval(&list[0], env, plus, minus) {
                Ok(op) => op,
                Err(e) => {
                    assert(call_steps(items, env@, arith, values, Err(e@)));
                    return Err(e);
                },
            };
            proof {
                values = values.push(op@);
            }
            let f = match op {
                Expr::Func(f) => f,
                _ => {
                    assert(call_steps(items, env@, arith, values, Err(msg_not_a_function())));
                    return Err(Error::new("operator must be a function"));
                },
            };
            let mut args: Vec<Expr> = Vec::new();
            let mut i: usize = 1;
            while i < list.len()
                invariant
                    1 <= i <= list.len(),
                    *env == *old(env),
                    total(plus),
                    total(minus),
                    arith == arithmetic(plus, minus),
                    items == views(list@),
                    exp@ == Sexp::List(items),
                    decreases_to!(exp => list),
                    forall|o: Result<Sexp, Seq<char>>| #[trigger]
                        evaluates(exp@, env@, arith, o) ==> has_shape(o, shape_of(exp@, env@)),
                    values == seq![Sexp::Func(f)] + views(args@),
                    values.len() == i,
                    forall|j: int| 0 <= j < i ==> evaluates(#[trigger] items[j], env@, arith, Ok(values[j])),
                decreases list.len() - i,
            {
                match eval(&list[i], env, plus, minus) {
                    Ok(value) => {
                        proof {
                            values = values.push(value@);
                        }
                        args.push(value);
                    },
                    Err(e) => {
                        return Err(e);
                    },
                }
                i += 1;
            }
            let out = f.apply(args.as_slice(), plus, minus);
            proof {
                assert(values.drop_first() =~= views(args@));
            }
            out
        },
        Expr::Func(_) => Err(Error::new("cannot evaluate a function")),
    }
}

/// `part` occurs in `text`.
pub open spec fn mentions(text: Seq<char>, part: Seq<char>) -> bool {
    exists|at: int|
        0 <= at && at + part.len() <= text.len() && #[trigger] text.subrange(
            at,
            at + part.len(),
        ) == part
}

/// A number evaluates to itself, and to nothing else.
pub proof fn law_number_is_a_value(
    bits: u64,
    env: Map<Seq<char>, Sexp>,
    arith: Arithmetic,
    out: Result<Sexp, Seq<char>>,
)
    ensures
        evaluates(Sexp::Number(bits), env, arith, out) <==> out == Ok::<Sexp, Seq<char>>(
            Sexp::Number(bits),
        ),
{
}

/// A bound symbol evaluates to what it is bound to. An unbound one fails,
/// and the reason mentions its name.
pub proof fn law_symbol_lookup(
    name: Seq<char>,
    env: Map<Seq<char>, Sexp>,
    arith: Arithmetic,
    out: Result<Sexp, Seq<char>>,
)
    ensures
        env.contains_key(name) ==> (evaluates(Sexp::Symbol(name), env, arith, out) <==> out == Ok::<
            Sexp,
            Seq<char>,
        >(env[name])),
        !env.contains_key(name) ==> (evaluates(Sexp::Symbol(name), env, arith, out) <==> out
            == Err::<Sexp, Seq<char>>(msg_unbound(name))),
        mentions(msg_unbound(name), name),
{
    let before = "unexpected symbol `"@;
    let message = msg_unbound(name);
    assert(message.subrange(before.len() as int, before.len() as int + name.len()) =~= name);
}

/// The empty list fails to evaluate.
pub proof fn law_empty_list(
    env: Map<Seq<char>, Sexp>,
    arith: Arithmetic,
    out: Result<Sexp, Seq<char>>,
)
    ensures
        evaluates(Sexp::List(Seq::empty()), env, arith, out) <==> out == Err::<Sexp, Seq<char>>(
            msg_empty_list(),
        ),
{
}

/// A native operation fails to evaluate where it stands as an expression of
/// its own.
pub proof fn law_bare_function(
    op: Builtin,
    env: Map<Seq<char>, Sexp>,
    arith: Arithmetic,
    out: Result<Sexp, Seq<char>>,
)
    ensures
        evaluates(Sexp::Func(op), env, arith, out) <==> out == Err::<Sexp, Seq<char>>(
            msg_bare_function(),
        ),
{
}

/// A list with a number in operator position fails to evaluate, whatever
/// its other items are: none of them is evaluated.
pub proof fn law_operator_must_be_function(
    items: Seq<Sexp>,
    env: Map<Seq<char>, Sexp>,
    arith: Arithmetic,
    out: Result<Sexp, Seq<char>>,
)
    requires
        items.len() > 0,
        items[0] is Number,
    ensures
        evaluates(Sexp::List(items), env, arith, out) <==> out == Err::<Sexp, Seq<char>>(
            msg_not_a_function(),
        ),
{
    reveal_with_fuel(evaluates, 2);
    if out == Err::<Sexp, Seq<char>>(msg_not_a_function()) {
        let values = seq![items[0]];
        assert(values.len() == 1);
    }
}

/// Evaluation is as determined as the arithmetic is: where the arithmetic
/// gives one result at most for each pair of numbers, an expression has one
/// result at most.
pub proof fn law_evaluation_is_determined(
    e: Sexp,
    env: Map<Seq<char>, Sexp>,
    arith: Arithmetic,
    a: Result<Sexp, Seq<char>>,
    b: Result<Sexp, Seq<char>>,
)
    requires
        single_valued(arith),
        evaluates(e, env, arith, a),
        evaluates(e, env, arith, b),
    ensures
        a == b,
    decreases e,
{
    match e {
        Sexp::List(items) => {
            if items.len() > 0 {
                let va = choose|values: Seq<Sexp>|
                    #![trigger values.len()]
                    values.len() <= items.len() && call_steps(items, env, arith, values, a);
                let vb = choose|values: Seq<Sexp>|
                    #![trigger values.len()]
                    values.len() <= items.len() && call_steps(items, env, arith, values, b);
                assert forall|i: int| 0 <= i < va.len() && i < vb.len() implies va[i] == vb[i] by {
                    law_evaluation_is_determined(items[i], env, arith, Ok(va[i]), Ok(vb[i]));
                }
                if va.len() < vb.len() {
                    let n = va.len() as int;
                    law_evaluation_is_determined(items[n], env, arith, a, Ok(vb[n]));
                } else if vb.len() < va.len() {
                    let n = vb.len() as int;
                    law_evaluation_is_determined(items[n], env, arith, b, Ok(va[n]));
                } else {
                    assert(va =~= vb);
                    let n = va.len() as int;
                    if n == 0 {
                        law_evaluation_is_determined(items[0], env, arith, a, b);
                    } else if va[0] is Func && n < items.len() {
                        law_evaluation_is_determined(items[n], env, arith, a, b);
                    } else if va[0] is Func {
                        lemma_application_is_determined(
                            va[0]->Func_0,
                            va.drop_first(),
                            arith,
                            a,
                            b,
                        );
                    }
                }
            }
        },
        _ => {},
    }
}

/// Whether evaluation fails, and with what reason, does not depend on the
/// arithmetic; nor does its value, unless it is a number that was computed.
pub proof fn law_outcome_has_shape(
    e: Sexp,
    env: Map<Seq<char>, Sexp>,
    arith: Arithmetic,
    out: Result<Sexp, Seq<char>>,
)
    requires
        evaluates(e, env, arith, out),
    ensures
        has_shape(out, shape_of(e, env)),
    decreases e, 0nat,
{
    match e {
        Sexp::List(items) => {
            if items.len() > 0 {
                let values = choose|values: Seq<Sexp>|
                    #![trigger values.len()]
                    values.len() <= items.len() && call_steps(items, env, arith, values, out);
                let n = values.len() as int;
                if n == 0 {
                    law_outcome_has_shape(items[0], env, arith, out);
                } else {
                    law_outcome_has_shape(items[0], env, arith, Ok(values[0]));
                    if values[0] is Func {
                        lemma_args_have_shape(items, env, arith, values, out, 1);
                        if n == items.len() {
                            assert(all_numbers(values.skip(1)) == all_numbers(values.drop_first()));
                        }
                    }
                }
            }
        },
        _ => {},
    }
}

/// The arguments of a call, from the one at `from` on, fail as their shapes
/// say, and are numbers where their shapes say so.
pub proof fn lemma_args_have_shape(
    items: Seq<Sexp>,
    env: Map<Seq<char>, Sexp>,
    arith: Arithmetic,
    values: Seq<Sexp>,
    out: Result<Sexp, Seq<char>>,
    from: nat,
)
    requires
        0 < from <= values.len() <= items.len(),
        values[0] is Func,
        call_steps(items, env, arith, values, out),
    ensures
        values.len() < items.len() ==> out is Err && args_are_numbers(items, env, from) == Err::<
            bool,
            Seq<char>,
        >(out->Err_0),
        values.len() == items.len() ==> args_are_numbers(items, env, from) == Ok::<bool, Seq<char>>(
            all_numbers(values.skip(from as int)),
        ),
    decreases items, items.len() - from,
{
    if from < values.len() {
        law_outcome_has_shape(items[from as int], env, arith, Ok(values[from as int]));
        lemma_args_have_shape(items, env, arith, values, out, from + 1);
        if values.len() == items.len() {
            let rest = values.skip(from as int);
            let fewer = values.skip(from as int + 1);
            assert(all_numbers(rest) == (values[from as int] is Number && all_numbers(fewer))) by {
                if all_numbers(rest) {
                    assert(rest[0] is Number);
                    assert forall|i: int| 0 <= i < fewer.len() implies #[trigger] fewer[i] is Number by {
                        assert(rest[i + 1] is Number);
                    }
                }
                if values[from as int] is Number && all_numbers(fewer) {
                    assert forall|i: int| 0 <= i < rest.len() implies #[trigger] rest[i] is Number by {
                        if i > 0 {
                            assert(fewer[i - 1] is Number);
                        }
                    }
                }
            }
        }
    } else if from < items.len() {
        law_outcome_has_shape(items[from as int], env, arith, out);
    }
}

/// What a call evaluates to, if it does not fail, is a number.
pub proof fn law_call_yields_number(
    items: Seq<Sexp>,
    env: Map<Seq<char>, Sexp>,
    arith: Arithmetic,
    value: Sexp,
)
    requires
        evaluates(Sexp::List(items), env, arith, Ok(value)),
    ensures
        value is Number,
{
}

} // verus!
