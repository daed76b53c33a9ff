//! Round trips: an expression that is written out as text is read back as
//! itself.

use vstd::prelude::*;
use crate::expr::{renders, Sexp};
use crate::parser::{close_paren, lemma_parens, parse_spec, read_seq_spec, Token};
use crate::spelling::{
    flatten, flatten_from, law_parsed_tokens_spell_tree, law_spelled_tree_is_parsed, lexeme_of,
    lexemes, Lexeme,
};
use crate::text::joined;
use crate::tokenizer::{
    blank, is_token, is_word, law_paren_is_token, law_token_is_itself, law_tokens_are_tokens,
    law_whitespace_run, tokens_of,
};

verus! {

/// The lexemes of a sequence of token texts, each read by `reads`.
pub open spec fn spelled_by(
    words: Seq<Seq<char>>,
    reads: spec_fn(Seq<char>) -> Option<u64>,
) -> Seq<Lexeme> {
    Seq::new(words.len(), |i: int| lexeme_of(words[i], reads(words[i])))
}

/// `e` can be written out and read back: it holds no native operation, and
/// each of its symbols is a word that `reads` takes for no number.
pub open spec fn writable(e: Sexp, reads: spec_fn(Seq<char>) -> Option<u64>) -> bool
    decreases e,
{
    match e {
        Sexp::Symbol(name) => is_word(name) && reads(name) is None,
        Sexp::Number(_) => true,
        Sexp::List(items) => forall|i: int|
            0 <= i < items.len() ==> writable(#[trigger] items[i], reads),
        Sexp::Func(_) => false,
    }
}

/// Every text that a number is shown as is a word, and reads as that number.
pub open spec fn shown_numbers_read_back(
    shows: spec_fn(u64, Seq<char>) -> bool,
    reads: spec_fn(Seq<char>) -> Option<u64>,
) -> bool {
    forall|bits: u64, text: Seq<char>| #[trigger]
        shows(bits, text) ==> is_word(text) && reads(text) == Some(bits)
}

/// The tokens of the texts `parts`, one text after the other.
pub open spec fn gathered(parts: Seq<Seq<char>>) -> Seq<Seq<char>>
    decreases parts.len(),
{
    if parts.len() == 0 {
        Seq::empty()
    } else {
        gathered(parts.drop_last()) + tokens_of(parts.last())
    }
}

/// The tokens of texts that are joined by whitespace are the tokens of the
/// texts, one text after the other.
pub proof fn lemma_tokens_of_joined(parts: Seq<Seq<char>>, separator: Seq<char>)
    requires
        separator.len() > 0,
        blank(separator),
    ensures
        tokens_of(joined(parts, separator)) == gathered(parts),
    decreases parts.len(),
{
    if parts.len() == 1 {
        assert(gathered(parts.drop_last()) =~= Seq::<Seq<char>>::empty());
    } else if parts.len() > 1 {
        lemma_tokens_of_joined(parts.drop_last(), separator);
        law_whitespace_run(joined(parts.drop_last(), separator), separator, parts.last());
    }
}

/// The spelling of the items of a list is the spelling of all but the last,
/// then the spelling of the last.
pub proof fn lemma_flatten_last(items: Seq<Sexp>, start: nat)
    requires
        start < items.len(),
    ensures
        flatten_from(items, start) == flatten_from(items.drop_last(), start) + flatten(
            items.last(),
        ),
    decreases items.len() - start,
{
    if start + 1 == items.len() {
        assert(flatten_from(items, start + 1) =~= Seq::<Lexeme>::empty());
    } else {
        lemma_flatten_last(items, start + 1);
    }
}

/// Where the tokens of each text spell the item that the text stands for,
/// the tokens of all the texts spell all the items.
pub proof fn lemma_gathered_spells(
    items: Seq<Sexp>,
    parts: Seq<Seq<char>>,
    reads: spec_fn(Seq<char>) -> Option<u64>,
)
    requires
        parts.len() == items.len(),
        forall|i: int|
            #![trigger items[i]]
            0 <= i < items.len() ==> spelled_by(tokens_of(parts[i]), reads) == flatten(items[i]),
    ensures
        spelled_by(gathered(parts), reads) == flatten_from(items, 0),
    decreases items.len(),
{
    if items.len() > 0 {
        let fewer = items.drop_last();
        let shorter = parts.drop_last();
        assert forall|i: int| 0 <= i < fewer.len() implies spelled_by(
            tokens_of(shorter[i]),
            reads,
        ) == flatten(#[trigger] fewer[i]) by {}
        lemma_gathered_spells(fewer, shorter, reads);
        lemma_flatten_last(items, 0);
        assert(spelled_by(tokens_of(parts.last()), reads) == flatten(items.last()));
    }
}

/// Writing undoes reading: where an expression is rendered with whitespace
/// between the items of its lists, the tokens of the rendering spell the
/// expression. This asks that the expression can be written, and that numbers
/// are shown as words that read back as themselves.
pub proof fn law_rendering_spells_tree(
    e: Sexp,
    separator: Seq<char>,
    shows: spec_fn(u64, Seq<char>) -> bool,
    reads: spec_fn(Seq<char>) -> Option<u64>,
    text: Seq<char>,
)
    requires
        renders(e, separator, shows, text),
        separator.len() > 0,
        blank(separator),
        writable(e, reads),
        shown_numbers_read_back(shows, reads),
    ensures
        spelled_by(tokens_of(text), reads) == flatten(e),
    decreases e,
{
    lemma_parens();
    match e {
        Sexp::List(items) => {
            let parts = choose|parts: Seq<Seq<char>>|
                {
                    &&& parts.len() == items.len()
                    &&& forall|i: int|
                        #![trigger items[i]]
                        #![trigger parts[i]]
                        0 <= i < items.len() ==> renders(items[i], separator, shows, parts[i])
                    &&& text == "("@ + joined(parts, separator) + ")"@
                };
            assert forall|i: int| 0 <= i < items.len() implies spelled_by(
                tokens_of(parts[i]),
                reads,
            ) == flatten(#[trigger] items[i]) by {
                law_rendering_spells_tree(items[i], separator, shows, reads, parts[i]);
            }
            lemma_gathered_spells(items, parts, reads);
            lemma_tokens_of_joined(parts, separator);
            let body = joined(parts, separator);
            let nothing = Seq::<char>::empty();
            assert(text =~= seq!['('] + (body + seq![')'] + nothing));
            law_paren_is_token(nothing, '(', body + seq![')'] + nothing);
            law_paren_is_token(body, ')', nothing);
        },
        _ => {
            law_token_is_itself(text);
        },
    }
}

/// `tokens` are the token texts `words`, each with what `reads` makes of it.
pub open spec fn read_as(
    tokens: Seq<Token>,
    words: Seq<Seq<char>>,
    reads: spec_fn(Seq<char>) -> Option<u64>,
) -> bool {
    &&& tokens.len() == words.len()
    &&& forall|i: int|
        0 <= i < tokens.len() ==> (#[trigger] tokens[i]).text@ == words[i] && tokens[i].number
            == reads(words[i])
}

/// What is parsed from tokens that the tokenizer gave can be written out and
/// read back.
pub proof fn law_parsed_is_writable(tokens: Seq<Token>, reads: spec_fn(Seq<char>) -> Option<u64>)
    requires
        forall|i: int|
            0 <= i < tokens.len() ==> is_token((#[trigger] tokens[i]).text@) && tokens[i].number
                == reads(tokens[i].text@),
    ensures
        parse_spec(tokens) matches Ok((tree, _)) ==> writable(tree, reads),
        read_seq_spec(tokens) matches Ok((items, _)) ==> forall|i: int|
            0 <= i < items.len() ==> writable(#[trigger] items[i], reads),
    decreases tokens.len(),
{
    lemma_parens();
    if tokens.len() > 0 {
        let following = tokens.skip(1);
        assert forall|i: int| 0 <= i < following.len() implies is_token(
            (#[trigger] following[i]).text@,
        ) && following[i].number == reads(following[i].text@) by {}
        law_parsed_is_writable(following, reads);
        if let Ok((items, _)) = read_seq_spec(tokens) {
            if tokens[0].text@ != close_paren() {
                let (_, first) = parse_spec(tokens)->Ok_0;
                let after = tokens.skip(first as int);
                assert forall|i: int| 0 <= i < after.len() implies is_token(
                    (#[trigger] after[i]).text@,
                ) && after[i].number == reads(after[i].text@) by {}
                law_parsed_is_writable(after, reads);
                assert forall|i: int| 0 <= i < items.len() implies writable(
                    #[trigger] items[i],
                    reads,
                ) by {}
            }
        }
    }
}

/// The round trip: an expression that is rendered with whitespace between
/// the items of its lists, tokenized and read is parsed as itself, with no
/// token left over.
pub proof fn law_round_trip(
    e: Sexp,
    separator: Seq<char>,
    shows: spec_fn(u64, Seq<char>) -> bool,
    reads: spec_fn(Seq<char>) -> Option<u64>,
    text: Seq<char>,
    tokens: Seq<Token>,
)
    requires
        renders(e, separator, shows, text),
        separator.len() > 0,
        blank(separator),
        writable(e, reads),
        shown_numbers_read_back(shows, reads),
        read_as(tokens, tokens_of(text), reads),
    ensures
        parse_spec(tokens) == Ok::<(Sexp, nat), Seq<char>>((e, tokens.len())),
{
    law_rendering_spells_tree(e, separator, shows, reads, text);
    assert(lexemes(tokens).take(flatten(e).len() as int) =~= flatten(e));
    law_spelled_tree_is_parsed(e, tokens);
}

/// The round trip from text to text: where the first expression of a text
/// is parsed, rendered with whitespace between the items of its lists, and
/// the rendering is tokenized and read again, the tokens that come out are,
/// as lexemes, the tokens that the parser took; and they parse to the same
/// expression.
pub proof fn law_text_round_trip(
    text: Seq<char>,
    tokens: Seq<Token>,
    reads: spec_fn(Seq<char>) -> Option<u64>,
    shows: spec_fn(u64, Seq<char>) -> bool,
    separator: Seq<char>,
    rendering: Seq<char>,
    again: Seq<Token>,
)
    requires
        read_as(tokens, tokens_of(text), reads),
        parse_spec(tokens) is Ok,
        renders(parse_spec(tokens)->Ok_0.0, separator, shows, rendering),
        separator.len() > 0,
        blank(separator),
        shown_numbers_read_back(shows, reads),
        read_as(again, tokens_of(rendering), reads),
    ensures
        lexemes(again) == lexemes(tokens.take(parse_spec(tokens)->Ok_0.1 as int)),
        parse_spec(again) == Ok::<(Sexp, nat), Seq<char>>(
            (parse_spec(tokens)->Ok_0.0, again.len()),
        ),
{
    let (tree, _) = parse_spec(tokens)->Ok_0;
    law_tokens_are_tokens(text);
    law_parsed_is_writable(tokens, reads);
    law_parsed_tokens_spell_tree(tokens);
    law_rendering_spells_tree(tree, separator, shows, reads, rendering);
    law_round_trip(tree, separator, shows, reads, rendering, again);
}

} // verus!
