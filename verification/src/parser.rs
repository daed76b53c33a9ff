//! The parser: from a sequence of tokens to one expression tree and the
//! tokens that follow it.

use vstd::prelude::*;
use vstd::slice::slice_subrange;
use crate::error::{msg_no_token, msg_unclosed, msg_unexpected_close, Error};
use crate::expr::{views, Expr, Sexp};
use crate::text::same_text;

verus! {

/// A token: its text, and the number that the text reads as, if it reads
/// wholly as a number.
#[derive(Debug, PartialEq, Eq)]
pub struct Token {
    pub text: String,
    pub number: Option<u64>,
}

/// The text of the token that opens a list.
pub open spec fn open_paren() -> Seq<char> {
    "("@
}

/// The text of the token that closes a list.
pub open spec fn close_paren() -> Seq<char> {
    ")"@
}

/// The atom that a token stands for: a number where it reads as one, and a
/// symbol with the token's text where it does not.
pub open spec fn atom(text: Seq<char>, number: Option<u64>) -> Sexp {
    match number {
        Some(bits) => Sexp::Number(bits),
        None => Sexp::Symbol(text),
    }
}

/// The expression at the head of `tokens`, and how many tokens it takes.
pub open spec fn parse_spec(tokens: Seq<Token>) -> Result<(Sexp, nat), Seq<char>>
    decreases tokens.len(), 0nat,
{
    if tokens.len() == 0 {
        Err(msg_no_token())
    } else if tokens[0].text@ == open_paren() {
        match read_seq_spec(tokens.skip(1)) {
            Ok((items, used)) => Ok((Sexp::List(items), used + 1)),
            Err(e) => Err(e),
        }
    } else if tokens[0].text@ == close_paren() {
        Err(msg_unexpected_close())
    } else {
        Ok((atom(tokens[0].text@, tokens[0].number), 1))
    }
}

/// The items of a list whose opening token has been taken, up to the token
/// that closes it, and how many tokens they take, the closing one included.
pub open spec fn read_seq_spec(tokens: Seq<Token>) -> Result<(Seq<Sexp>, nat), Seq<char>>
    decreases tokens.len(), 1nat,
{
    if tokens.len() == 0 {
        Err(msg_unclosed())
    } else if tokens[0].text@ == close_paren() {
        Ok((Seq::empty(), 1))
    } else {
        match parse_spec(tokens) {
            Ok((item, used)) => if 0 < used <= tokens.len() {
                match read_seq_spec(tokens.skip(used as int)) {
                    Ok((items, more)) => Ok((seq![item] + items, used + more)),
                    Err(e) => Err(e),
                }
            } else {
                // An item takes at least one token: this branch is never taken,
                // and only shows that the definition ends.
                Err(msg_unclosed())
            },
            Err(e) => Err(e),
        }
    }
}

/// What a parsing function hands back, as mathematical values: the tree, and
/// the number of tokens that came before `rest` in `tokens`.
pub open spec fn parsed(tokens: Seq<Token>, out: Result<(Expr, &[Token]), Error>) -> Result<
    (Sexp, nat),
    Seq<char>,
> {
    match out {
        Ok((exp, rest)) => Ok((exp@, (tokens.len() - rest@.len()) as nat)),
        Err(e) => Err(e@),
    }
}

/// `rest` is what is left of `tokens` after some of them.
pub open spec fn is_rest_of(tokens: Seq<Token>, out: Result<(Expr, &[Token]), Error>) -> bool {
    match out {
        Ok((_, rest)) => rest@.len() <= tokens.len() && rest@ == tokens.skip(
            tokens.len() - rest@.len(),
        ),
        Err(_) => true,
    }
}

/// No native operation occurs in `e`, and no symbol of `e` is a parenthesis.
pub open spec fn is_syntax(e: Sexp) -> bool
    decreases e,
{
    match e {
        Sexp::Symbol(name) => name != open_paren() && name != close_paren(),
        Sexp::Number(_) => true,
        Sexp::List(items) => forall|i: int| 0 <= i < items.len() ==> is_syntax(#[trigger] items[i]),
        Sexp::Func(_) => false,
    }
}

/// An expression takes at least one token, and no more than there are.
pub proof fn lemma_parse_takes_tokens(tokens: Seq<Token>)
    ensures
        parse_spec(tokens) matches Ok((_, used)) ==> 0 < used <= tokens.len(),
        read_seq_spec(tokens) matches Ok((_, used)) ==> 0 < used <= tokens.len(),
    decreases tokens.len(),
{
    if tokens.len() > 0 {
        lemma_parse_takes_tokens(tokens.skip(1));
        if let Ok((_, used)) = parse_spec(tokens) {
            if 0 < used <= tokens.len() {
                lemma_parse_takes_tokens(tokens.skip(used as int));
            }
        }
    }
}

/// The results that an executable reader of numbers may return on `text`.
pub open spec fn readings_of<R: Fn(&str) -> Option<u64>>(
    read: &R,
    text: Seq<char>,
    number: Option<u64>,
) -> bool {
    exists|s: &str| s@ == text && #[trigger] read.ensures((s,), number)
}

/// `token` is the text `text` with a possible reading of it. A parenthesis
/// is not read: it is no number.
pub open spec fn is_reading<R: Fn(&str) -> Option<u64>>(
    read: &R,
    text: Seq<char>,
    token: Token,
) -> bool {
    &&& token.text@ == text
    &&& if text == open_paren() || text == close_paren() {
        token.number is None
    } else {
        readings_of(read, text, token.number)
    }
}

/// Pairs every token text with what `read` makes of it: the number that the
/// text reads as, if it reads wholly as a number.
pub fn read_tokens<R: Fn(&str) -> Option<u64>>(texts: &[String], read: &R) -> (tokens: Vec<Token>)
    requires
        forall|s: &str| read.requires((s,)),
    ensures
        tokens.len() == texts.len(),
        forall|i: int| 0 <= i < texts.len() ==> is_reading(read, texts[i]@, #[trigger] tokens[i]),
{
    let mut tokens: Vec<Token> = Vec::new();
    let mut i: usize = 0;
    while i < texts.len()
        invariant
            i <= texts.len(),
            tokens.len() == i,
            forall|s: &str| read.requires((s,)),
            forall|j: int| 0 <= j < i ==> is_reading(read, texts[j]@, #[trigger] tokens[j]),
        decreases texts.len() - i,
    {
        let text = texts[i].clone();
        let number = if same_text(text.as_str(), "(") || same_text(text.as_str(), ")") {
            None
        } else {
            read(text.as_str())
        };
        tokens.push(Token { text, number });
        i += 1;
    }
    tokens
}

/// Classifies a token that is no parenthesis: `number` is what the token's
/// text reads as, if it reads wholly as a number.
pub fn parse_atom(token: &str, number: Option<u64>) -> (exp: Expr)
    ensures
        exp@ == atom(token@, number),
{
    match number {
        Some(bits) => Expr::Number(bits),
        None => Expr::Symbol(token.to_owned()),
    }
}

/// Reads one expression from the head of `tokens` and hands it back with the
/// tokens that follow it. No native operation occurs in what is read.
pub fn parse<'a>(tokens: &'a [Token]) -> (out: Result<(Expr, &'a [Token]), Error>)
    ensures
        parsed(tokens@, out) == parse_spec(tokens@),
        is_rest_of(tokens@, out),
        out matches Ok((exp, _)) ==> is_syntax(exp@),
    decreases tokens.len(), 0nat,
{
    if tokens.len() == 0 {
        return Err(Error::new("could not get token"));
    }
    let token = &tokens[0];
    let rest = slice_subrange(tokens, 1, tokens.len());
    if same_text(token.text.as_str(), "(") {
        let out = read_seq(rest);
        proof {
            if let Ok((_, after)) = out {
                assert(after@ =~= tokens@.skip(tokens@.len() - after@.len()));
            }
        }
        out
    } else if same_text(token.text.as_str(), ")") {
        Err(Error::new("unexpected `)`"))
    } else {
        Ok((parse_atom(token.text.as_str(), token.number), rest))
    }
}

/// Reads the items of a list up to the token that closes it, and hands back
/// the list with the tokens that follow that token.
pub fn read_seq<'a>(tokens: &'a [Token]) -> (out: Result<(Expr, &'a [Token]), Error>)
    ensures
        match read_seq_spec(tokens@) {
            Ok((items, used)) => parsed(tokens@, out) == Ok::<(Sexp, nat), Seq<char>>(
                (Sexp::List(items), used),
            ),
            Err(e) => parsed(tokens@, out) == Err::<(Sexp, nat), Seq<char>>(e),
        },
        is_rest_of(tokens@, out),
        out matches Ok((exp, _)) ==> is_syntax(exp@),
    decreases tokens.len(), 1nat,
{
    let mut result: Vec<Expr> = Vec::new();
    let mut xs = tokens;
    loop
        invariant
            xs@.len() <= tokens@.len(),
            xs@ == tokens@.skip(tokens@.len() - xs@.len()),
            match read_seq_spec(xs@) {
                Ok((items, used)) => read_seq_spec(tokens@) == Ok::<(Seq<Sexp>, nat), Seq<char>>(
                    (views(result@) + items, (tokens@.len() - xs@.len() + used) as nat),
                ),
                Err(e) => read_seq_spec(tokens@) == Err::<(Seq<Sexp>, nat), Seq<char>>(e),
            },
        decreases xs@.len(),
    {
        if xs.len() == 0 {
            return Err(Error::new("could not find closing `)`"));
        }
        if same_text(xs[0].text.as_str(), ")") {
            let rest = slice_subrange(xs, 1, xs.len());
            proof {
                assert(rest@ =~= tokens@.skip(tokens@.len() - rest@.len()));
                law_parsed_is_syntax(tokens@);
                assert(read_seq_spec(tokens@) matches Ok((items, _)) && items == views(result@));
            }
            return Ok((Expr::List(result), rest));
        }
        match parse(xs) {
            Ok((exp, new_xs)) => {
                proof {
                    if let Ok((items, _)) = read_seq_spec(new_xs@) {
                        assert(views(result@) + (seq![exp@] + items) =~= views(result@.push(exp))
                            + items);
                    }
                }
                result.push(exp);
                xs = new_xs;
            },
            Err(e) => {
                return Err(e);
            },
        }
    }
}

/// The two parentheses are different texts, of one character each.
pub proof fn lemma_parens()
    ensures
        open_paren() == seq!['('],
        close_paren() == seq![')'],
        open_paren() != close_paren(),
{
    reveal_strlit("(");
    reveal_strlit(")");
    assert(seq!['('][0] != seq![')'][0]);
}

/// No native operation and no parenthesis symbol comes out of parsing.
pub proof fn law_parsed_is_syntax(tokens: Seq<Token>)
    ensures
        parse_spec(tokens) matches Ok((tree, _)) ==> is_syntax(tree),
        read_seq_spec(tokens) matches Ok((items, _)) ==> forall|i: int|
            0 <= i < items.len() ==> is_syntax(#[trigger] items[i]),
    decreases tokens.len(),
{
    if tokens.len() > 0 {
        law_parsed_is_syntax(tokens.skip(1));
        if let Ok((items, _)) = read_seq_spec(tokens) {
            if tokens[0].text@ != close_paren() {
                let (_, first) = parse_spec(tokens)->Ok_0;
                law_parsed_is_syntax(tokens.skip(first as int));
            }
        }
    }
}

} // verus!
