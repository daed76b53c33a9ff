//! Spelling: the tokens that an expression is written with. Parsing and
//! spelling undo each other, and parsing succeeds exactly on tokens that
//! begin with the spelling of an expression.

use vstd::prelude::*;
use crate::error::{msg_no_token, msg_unclosed, msg_unexpected_close};
use crate::expr::Sexp;
use crate::parser::{
    atom, close_paren, lemma_parens, lemma_parse_takes_tokens, open_paren, parse_spec,
    read_seq_spec, Token,
};

verus! {

/// What a token is to the parser.
pub enum Lexeme {
    Open,
    Close,
    Atom(Sexp),
}

/// The lexeme of a token with the given text and reading.
pub open spec fn lexeme_of(text: Seq<char>, number: Option<u64>) -> Lexeme {
    if text == open_paren() {
        Lexeme::Open
    } else if text == close_paren() {
        Lexeme::Close
    } else {
        Lexeme::Atom(atom(text, number))
    }
}

/// The lexeme of a token.
pub open spec fn lexeme(token: Token) -> Lexeme {
    lexeme_of(token.text@, token.number)
}

/// The lexemes of a sequence of tokens.
pub open spec fn lexemes(tokens: Seq<Token>) -> Seq<Lexeme> {
    Seq::new(tokens.len(), |i: int| lexeme(tokens[i]))
}

/// The lexemes that spell an expression: an atom is spelled by itself, a
/// list by its items between `Open` and `Close`.
pub open spec fn flatten(e: Sexp) -> Seq<Lexeme>
    decreases e, 0nat,
{
    match e {
        Sexp::List(items) => seq![Lexeme::Open] + flatten_from(items, 0) + seq![Lexeme::Close],
        _ => seq![Lexeme::Atom(e)],
    }
}

/// The lexemes that spell the items of `items` from the one at `start` on.
pub open spec fn flatten_from(items: Seq<Sexp>, start: nat) -> Seq<Lexeme>
    decreases items, items.len() - start,
{
    if start >= items.len() {
        Seq::empty()
    } else {
        flatten(items[start as int]) + flatten_from(items, start + 1)
    }
}

/// The spelling of a list's items does not depend on what stands before
/// them in a longer list.
pub proof fn lemma_flatten_shift(item: Sexp, items: Seq<Sexp>, start: nat)
    ensures
        flatten_from(seq![item] + items, start + 1) == flatten_from(items, start),
    decreases items.len() - start,
{
    if start < items.len() {
        lemma_flatten_shift(item, items, start + 1);
    }
}

/// The tokens that `parse` takes spell the expression that it gives: parsing
/// loses nothing but the texts of the numbers.
pub proof fn law_parsed_tokens_spell_tree(tokens: Seq<Token>)
    ensures
        parse_spec(tokens) matches Ok((tree, used)) ==> used <= tokens.len() && lexemes(
            tokens.take(used as int),
        ) == flatten(tree),
        read_seq_spec(tokens) matches Ok((items, used)) ==> used <= tokens.len() && lexemes(
            tokens.take(used as int),
        ) == flatten_from(items, 0) + seq![Lexeme::Close],
    decreases tokens.len(),
{
    lemma_parens();
    if tokens.len() > 0 {
        let following = tokens.skip(1);
        law_parsed_tokens_spell_tree(following);
        if let Ok((tree, used)) = parse_spec(tokens) {
            if tokens[0].text@ == open_paren() {
                assert(lexemes(tokens.take(used as int)) =~= seq![Lexeme::Open] + lexemes(
                    following.take(used - 1),
                ));
            }
        }
        if let Ok((_, used)) = read_seq_spec(tokens) {
            if tokens[0].text@ != close_paren() {
                let (item, first) = parse_spec(tokens)->Ok_0;
                let after = tokens.skip(first as int);
                let (others, more) = read_seq_spec(after)->Ok_0;
                law_parsed_tokens_spell_tree(after);
                lemma_flatten_shift(item, others, 0);
                assert(lexemes(tokens.take(used as int)) =~= lexemes(tokens.take(first as int))
                    + lexemes(after.take(more as int)));
            }
        }
    }
}

/// `tokens` begin with the lexemes `spelling`.
pub open spec fn begins_with(tokens: Seq<Token>, spelling: Seq<Lexeme>) -> bool {
    spelling.len() <= tokens.len() && lexemes(tokens).take(spelling.len() as int) == spelling
}

/// Tokens that begin with the spelling of an expression parse to that
/// expression, whatever follows: parsing undoes spelling.
pub proof fn law_spelled_tree_is_parsed(tree: Sexp, tokens: Seq<Token>)
    requires
        begins_with(tokens, flatten(tree)),
    ensures
        parse_spec(tokens) == Ok::<(Sexp, nat), Seq<char>>((tree, flatten(tree).len())),
    decreases tree, 0nat,
{
    let spelling = flatten(tree);
    assert(lexemes(tokens)[0] == spelling[0]);
    match tree {
        Sexp::List(items) => {
            let inner = flatten_from(items, 0) + seq![Lexeme::Close];
            let following = tokens.skip(1);
            assert(spelling =~= seq![Lexeme::Open] + inner);
            assert(lexemes(following).take(inner.len() as int) =~= lexemes(tokens).take(
                spelling.len() as int,
            ).skip(1));
            assert((seq![Lexeme::Open] + inner).skip(1) =~= inner);
            lemma_spelled_items(items, 0, following);
            assert(items.skip(0) =~= items);
        },
        _ => {},
    }
}

/// Tokens that begin with the spelling of the items of a list from `start`
/// on, and then with the closing token, are read as those items.
pub proof fn lemma_spelled_items(items: Seq<Sexp>, start: nat, tokens: Seq<Token>)
    requires
        start <= items.len(),
        begins_with(tokens, flatten_from(items, start) + seq![Lexeme::Close]),
    ensures
        read_seq_spec(tokens) == Ok::<(Seq<Sexp>, nat), Seq<char>>(
            (items.skip(start as int), flatten_from(items, start).len() + 1),
        ),
    decreases items, items.len() - start,
{
    lemma_parens();
    let spelling = flatten_from(items, start) + seq![Lexeme::Close];
    assert(lexemes(tokens)[0] == spelling[0]);
    if start == items.len() {
        assert(items.skip(start as int) =~= Seq::<Sexp>::empty());
    } else {
        let item = items[start as int];
        let first = flatten(item);
        let others = flatten_from(items, start + 1) + seq![Lexeme::Close];
        let after = tokens.skip(first.len() as int);
        assert(spelling =~= first + others);
        assert(lexemes(tokens).take(first.len() as int) =~= lexemes(tokens).take(
            spelling.len() as int,
        ).take(first.len() as int));
        assert((first + others).take(first.len() as int) =~= first);
        law_spelled_tree_is_parsed(item, tokens);
        assert(lexemes(after).take(others.len() as int) =~= lexemes(tokens).take(
            spelling.len() as int,
        ).skip(first.len() as int));
        assert((first + others).skip(first.len() as int) =~= others);
        lemma_spelled_items(items, start + 1, after);
        assert(seq![item] + items.skip(start as int + 1) =~= items.skip(start as int));
    }
}

/// What a lexeme adds to the nesting depth.
pub open spec fn weight(l: Lexeme) -> int {
    match l {
        Lexeme::Open => 1,
        Lexeme::Close => -1,
        Lexeme::Atom(_) => 0,
    }
}

/// The nesting depth after `spelling`: how many more lists it opens than it
/// closes.
pub open spec fn depth(spelling: Seq<Lexeme>) -> int
    decreases spelling.len(),
{
    if spelling.len() == 0 {
        0
    } else {
        depth(spelling.drop_last()) + weight(spelling.last())
    }
}

/// The first `k` tokens are balanced: they close every list that they open.
pub open spec fn balanced_at(tokens: Seq<Token>, k: int) -> bool {
    1 <= k <= tokens.len() && depth(lexemes(tokens).take(k)) == 0
}

/// The tokens begin with a whole expression: the first token does not close
/// a list, and the tokens are balanced at some point.
pub open spec fn closes(tokens: Seq<Token>) -> bool {
    &&& tokens.len() > 0
    &&& lexeme(tokens[0]) != Lexeme::Close
    &&& exists|k: int| balanced_at(tokens, k)
}

/// The depth after two spellings in a row is the sum of their depths.
pub proof fn lemma_depth_concat(a: Seq<Lexeme>, b: Seq<Lexeme>)
    ensures
        depth(a + b) == depth(a) + depth(b),
    decreases b.len(),
{
    if b.len() > 0 {
        assert((a + b).drop_last() =~= a + b.drop_last());
        lemma_depth_concat(a, b.drop_last());
    }
}

/// The depth after a single lexeme is its weight.
pub proof fn lemma_depth_single(l: Lexeme)
    ensures
        depth(seq![l]) == weight(l),
{
    assert(seq![l].drop_last() =~= Seq::<Lexeme>::empty());
    assert(depth(Seq::<Lexeme>::empty()) == 0);
}

/// The spelling of an expression is balanced, and never closes more than it
/// has opened.
pub proof fn lemma_flatten_depth(tree: Sexp)
    ensures
        depth(flatten(tree)) == 0,
        forall|k: int| 0 <= k <= flatten(tree).len() ==> depth(#[trigger] flatten(tree).take(k)) >= 0,
    decreases tree, 0nat,
{
    let spelling = flatten(tree);
    match tree {
        Sexp::List(items) => {
            let inner = flatten_from(items, 0);
            lemma_flatten_from_depth(items, 0);
            lemma_depth_single(Lexeme::Open);
            lemma_depth_single(Lexeme::Close);
            lemma_depth_concat(seq![Lexeme::Open], inner);
            lemma_depth_concat(seq![Lexeme::Open] + inner, seq![Lexeme::Close]);
            assert forall|k: int| 0 <= k <= spelling.len() implies depth(
                #[trigger] spelling.take(k),
            ) >= 0 by {
                if 0 < k < spelling.len() {
                    assert(spelling.take(k) =~= seq![Lexeme::Open] + inner.take(k - 1));
                    lemma_depth_concat(seq![Lexeme::Open], inner.take(k - 1));
                } else if k == spelling.len() {
                    assert(spelling.take(k) =~= spelling);
                }
            }
        },
        _ => {
            lemma_depth_single(Lexeme::Atom(tree));
            assert forall|k: int| 0 <= k <= spelling.len() implies depth(
                #[trigger] spelling.take(k),
            ) >= 0 by {
                if k > 0 {
                    assert(spelling.take(k) =~= spelling);
                }
            }
        },
    }
}

/// The spelling of the items of a list is balanced, and never closes more
/// than it has opened.
pub proof fn lemma_flatten_from_depth(items: Seq<Sexp>, start: nat)
    ensures
        depth(flatten_from(items, start)) == 0,
        forall|k: int|
            0 <= k <= flatten_from(items, start).len() ==> depth(
                #[trigger] flatten_from(items, start).take(k),
            ) >= 0,
    decreases items, items.len() - start,
{
    let spelling = flatten_from(items, start);
    if start < items.len() {
        let first = flatten(items[start as int]);
        let others = flatten_from(items, start + 1);
        lemma_flatten_depth(items[start as int]);
        lemma_flatten_from_depth(items, start + 1);
        lemma_depth_concat(first, others);
        assert forall|k: int| 0 <= k <= spelling.len() implies depth(#[trigger] spelling.take(k))
            >= 0 by {
            if k <= first.len() {
                assert(spelling.take(k) =~= first.take(k));
            } else {
                assert(spelling.take(k) =~= first + others.take(k - first.len()));
                lemma_depth_concat(first, others.take(k - first.len()));
            }
        }
    } else {
        assert forall|k: int| 0 <= k <= spelling.len() implies depth(#[trigger] spelling.take(k))
            >= 0 by {}
    }
}

/// Where the items of a list are never closed, no point of the tokens lies
/// below the depth at which they begin. The one failure of reading a list is
/// that its closing token is missing.
pub proof fn lemma_unclosed(tokens: Seq<Token>)
    ensures
        read_seq_spec(tokens) is Err ==> read_seq_spec(tokens) == Err::<(Seq<Sexp>, nat), Seq<char>>(
            msg_unclosed(),
        ) && forall|k: int|
            0 <= k <= tokens.len() ==> depth(#[trigger] lexemes(tokens).take(k)) >= 0,
        parse_spec(tokens) is Err && tokens.len() > 0 && lexeme(tokens[0]) != Lexeme::Close
            ==> parse_spec(tokens) == Err::<(Sexp, nat), Seq<char>>(msg_unclosed()) && forall|k: int|
            1 <= k <= tokens.len() ==> depth(#[trigger] lexemes(tokens).take(k)) > 0,
    decreases tokens.len(),
{
    lemma_parse_takes_tokens(tokens);
    let all = lexemes(tokens);
    if tokens.len() > 0 {
        let following = tokens.skip(1);
        lemma_unclosed(following);
        lemma_depth_single(all[0]);
        if parse_spec(tokens) is Err && lexeme(tokens[0]) != Lexeme::Close {
            assert forall|k: int| 1 <= k <= tokens.len() implies depth(#[trigger] all.take(k))
                > 0 by {
                assert(all.take(k) =~= seq![all[0]] + lexemes(following).take(k - 1));
                lemma_depth_concat(seq![all[0]], lexemes(following).take(k - 1));
            }
        }
        if read_seq_spec(tokens) is Err {
            match parse_spec(tokens) {
                Ok((item, used)) => {
                    let after = tokens.skip(used as int);
                    lemma_unclosed(after);
                    law_parsed_tokens_spell_tree(tokens);
                    lemma_flatten_depth(item);
                    assert forall|k: int| 0 <= k <= tokens.len() implies depth(
                        #[trigger] all.take(k),
                    ) >= 0 by {
                        if k <= used {
                            assert(all.take(k) =~= flatten(item).take(k));
                        } else {
                            assert(all.take(k) =~= flatten(item) + lexemes(after).take(k - used));
                            lemma_depth_concat(flatten(item), lexemes(after).take(k - used));
                        }
                    }
                },
                Err(_) => {
                    assert forall|k: int| 0 <= k <= tokens.len() implies depth(
                        #[trigger] all.take(k),
                    ) >= 0 by {}
                },
            }
        }
    } else {
        assert forall|k: int| 0 <= k <= tokens.len() implies depth(#[trigger] all.take(k)) >= 0 by {}
    }
}

/// When parsing succeeds and how it fails. It succeeds exactly on tokens
/// that begin with a whole expression. It fails on no tokens at all, on a
/// `)` that closes nothing, and on a list that is opened and never closed:
/// parentheses that do not balance are refused in both directions.
pub proof fn law_parse_outcome(tokens: Seq<Token>)
    ensures
        parse_spec(tokens) is Ok <==> closes(tokens),
        tokens.len() == 0 ==> parse_spec(tokens) == Err::<(Sexp, nat), Seq<char>>(msg_no_token()),
        tokens.len() > 0 && lexeme(tokens[0]) == Lexeme::Close ==> parse_spec(tokens) == Err::<
            (Sexp, nat),
            Seq<char>,
        >(msg_unexpected_close()),
        tokens.len() > 0 && lexeme(tokens[0]) != Lexeme::Close && !closes(tokens) ==> parse_spec(
            tokens,
        ) == Err::<(Sexp, nat), Seq<char>>(msg_unclosed()),
{
    lemma_unclosed(tokens);
    if let Ok((tree, used)) = parse_spec(tokens) {
        law_parsed_tokens_spell_tree(tokens);
        lemma_flatten_depth(tree);
        assert(lexemes(tokens).take(used as int) =~= lexemes(tokens.take(used as int)));
        assert(balanced_at(tokens, used as int));
    }
}

} // verus!
