//! The tokenizer: from raw text to a flat sequence of token texts.
//!
//! Every `(` and `)` is set apart by padding it with spaces, and the padded
//! text is split on runs of whitespace. Nothing is quoted or escaped: what
//! stands between whitespace is one token, unless it holds a parenthesis.

use vstd::prelude::*;
use vstd::std_specs::iter::IteratorSpec;
use crate::text::joined;

verus! {

/// The characters that separate tokens: those with the Unicode property
/// `White_Space`.
pub open spec fn white_space(c: char) -> bool {
    let n = c as u32;
    ||| 0x09 <= n <= 0x0d
    ||| n == 0x20
    ||| n == 0x85
    ||| n == 0xa0
    ||| n == 0x1680
    ||| 0x2000 <= n <= 0x200a
    ||| n == 0x2028
    ||| n == 0x2029
    ||| n == 0x202f
    ||| n == 0x205f
    ||| n == 0x3000
}

/// The two characters that are tokens of their own.
pub open spec fn is_paren(c: char) -> bool {
    c == '(' || c == ')'
}

/// The text with a space before and after every parenthesis.
pub open spec fn pad_parens(text: Seq<char>) -> Seq<char>
    decreases text.len(),
{
    if text.len() == 0 {
        Seq::empty()
    } else if is_paren(text[0]) {
        seq![' ', text[0], ' '] + pad_parens(text.drop_first())
    } else {
        seq![text[0]] + pad_parens(text.drop_first())
    }
}

/// The length of the word at the head of `text`: of its longest prefix
/// without whitespace.
pub open spec fn word_len(text: Seq<char>) -> nat
    decreases text.len(),
{
    if text.len() == 0 || white_space(text[0]) {
        0
    } else {
        1 + word_len(text.drop_first())
    }
}

/// The words of `text`: its longest stretches without whitespace, in order.
pub open spec fn split_whitespace(text: Seq<char>) -> Seq<Seq<char>>
    decreases text.len(),
{
    if text.len() == 0 {
        Seq::empty()
    } else if white_space(text[0]) {
        split_whitespace(text.drop_first())
    } else if word_len(text) <= text.len() {
        seq![text.take(word_len(text) as int)] + split_whitespace(text.skip(word_len(text) as int))
    } else {
        // A word is no longer than the text it heads: this branch is never
        // taken, and only shows that the definition ends.
        Seq::empty()
    }
}

/// The tokens of `text`.
pub open spec fn tokens_of(text: Seq<char>) -> Seq<Seq<char>> {
    split_whitespace(pad_parens(text))
}

/// The texts of a sequence of strings.
pub open spec fn texts(tokens: Seq<String>) -> Seq<Seq<char>> {
    Seq::new(tokens.len(), |i: int| tokens[i]@)
}

/// Whether `c` separates tokens.
pub fn is_whitespace(c: char) -> (separates: bool)
    ensures
        separates == white_space(c),
{
    let n: u32 = c as u32;
    (0x09 <= n && n <= 0x0d) || n == 0x20 || n == 0x85 || n == 0xa0 || n == 0x1680 || (0x2000 <= n
        && n <= 0x200a) || n == 0x2028 || n == 0x2029 || n == 0x202f || n == 0x205f || n == 0x3000
}

/// Splits `expr` into its tokens. Every text has tokens, possibly none.
pub fn tokenize(expr: String) -> (tokens: Vec<String>)
    ensures
        texts(tokens@) == tokens_of(expr@),
{
    broadcast use vstd::string::group_string_axioms;

    let mut tokens: Vec<String> = Vec::new();
    // The word that the characters taken so far have begun.
    let mut word = String::new();
    let mut chars = expr.as_str().chars();
    assert(texts(tokens@) + split_whitespace(word@ + pad_parens(expr@)) =~= tokens_of(expr@));
    loop
        invariant
            chars.obeys_prophetic_iter_laws(),
            chars.decrease() is Some,
            solid(word@),
            tokens_of(expr@) == texts(tokens@) + split_whitespace(
                word@ + pad_parens(chars.remaining()),
            ),
        ensures
            chars.remaining().len() == 0,
        decreases chars.decrease()->0,
    {
        match chars.next() {
            None => {
                break ;
            },
            Some(c) => {
                let ghost padded = pad_parens(chars.remaining());
                if c == '(' || c == ')' {
                    let mut paren = String::new();
                    paren.push(c);
                    proof {
                        assert(seq![' ', c, ' '] + padded =~= seq![' '] + (paren@ + (seq![' ']
                            + padded)));
                        lemma_split_space(' ', paren@ + (seq![' '] + padded));
                        lemma_split_word(paren@, seq![' '] + padded);
                        lemma_split_space(' ', padded);
                        if word@.len() > 0 {
                            lemma_split_word(word@, seq![' ', c, ' '] + padded);
                        }
                    }
                    if !word.as_str().is_empty() {
                        tokens.push(word);
                        word = String::new();
                    }
                    tokens.push(paren);
                } else if is_whitespace(c) {
                    proof {
                        lemma_split_space(c, padded);
                        if word@.len() > 0 {
                            lemma_split_word(word@, seq![c] + padded);
                        }
                    }
                    if !word.as_str().is_empty() {
                        tokens.push(word);
                        word = String::new();
                    }
                } else {
                    assert(word@ + (seq![c] + padded) =~= word@.push(c) + padded);
                    word.push(c);
                }
            },
        }
    }
    proof {
        if word@.len() > 0 {
            lemma_split_word(word@, Seq::empty());
        }
    }
    if !word.as_str().is_empty() {
        tokens.push(word);
    }
    tokens
}

/// No character of `word` is whitespace.
pub open spec fn solid(word: Seq<char>) -> bool {
    forall|i: int| 0 <= i < word.len() ==> !white_space(#[trigger] word[i])
}

/// Every character of `run` is whitespace.
pub open spec fn blank(run: Seq<char>) -> bool {
    forall|i: int| 0 <= i < run.len() ==> white_space(#[trigger] run[i])
}

/// A character that is neither whitespace nor a parenthesis.
pub open spec fn plain(c: char) -> bool {
    !white_space(c) && !is_paren(c)
}

/// `word` is not empty, and every character of it is plain.
pub open spec fn is_word(word: Seq<char>) -> bool {
    word.len() > 0 && forall|i: int| 0 <= i < word.len() ==> plain(#[trigger] word[i])
}

/// `text` is what a token can be: a single parenthesis, or a word.
pub open spec fn is_token(text: Seq<char>) -> bool {
    text == seq!['('] || text == seq![')'] || is_word(text)
}

/// A word is no longer than the text it heads.
pub proof fn lemma_word_len_bound(text: Seq<char>)
    ensures
        word_len(text) <= text.len(),
    decreases text.len(),
{
    if text.len() != 0 && !white_space(text[0]) {
        lemma_word_len_bound(text.drop_first());
    }
}

/// A stretch without whitespace that is followed by whitespace, or by
/// nothing, is the word at the head of the text.
pub proof fn lemma_word_len_of_word(word: Seq<char>, rest: Seq<char>)
    requires
        solid(word),
        rest.len() == 0 || white_space(rest[0]),
    ensures
        word_len(word + rest) == word.len(),
    decreases word.len(),
{
    if word.len() > 0 {
        assert((word + rest).drop_first() =~= word.drop_first() + rest);
        assert forall|i: int| 0 <= i < word.drop_first().len() implies !white_space(
            #[trigger] word.drop_first()[i],
        ) by {}
        lemma_word_len_of_word(word.drop_first(), rest);
    }
}

/// The word at the head of a text is not changed by what is appended to the
/// text, where the word ends inside the text or the appended part begins
/// with whitespace.
pub proof fn lemma_word_len_append(text: Seq<char>, more: Seq<char>)
    requires
        word_len(text) < text.len() || more.len() == 0 || white_space(more[0]),
    ensures
        word_len(text + more) == word_len(text),
    decreases text.len(),
{
    if text.len() > 0 && !white_space(text[0]) {
        assert((text + more).drop_first() =~= text.drop_first() + more);
        lemma_word_len_append(text.drop_first(), more);
    }
}

/// Splitting a text that begins with a word: the word, then the words of
/// what follows it.
pub proof fn lemma_split_word(word: Seq<char>, rest: Seq<char>)
    requires
        word.len() > 0,
        solid(word),
        rest.len() == 0 || white_space(rest[0]),
    ensures
        split_whitespace(word + rest) == seq![word] + split_whitespace(rest),
{
    lemma_word_len_of_word(word, rest);
    assert((word + rest).take(word.len() as int) =~= word);
    assert((word + rest).skip(word.len() as int) =~= rest);
}

/// Whitespace at the head of a text adds no word.
pub proof fn lemma_split_space(c: char, rest: Seq<char>)
    requires
        white_space(c),
    ensures
        split_whitespace(seq![c] + rest) == split_whitespace(rest),
{
    assert((seq![c] + rest).drop_first() =~= rest);
}

/// The words on the two sides of a whitespace character are the words of
/// the whole.
pub proof fn lemma_split_concat(x: Seq<char>, c: char, y: Seq<char>)
    requires
        white_space(c),
    ensures
        split_whitespace(x + seq![c] + y) == split_whitespace(x) + split_whitespace(y),
    decreases x.len(),
{
    let whole = x + seq![c] + y;
    if x.len() == 0 {
        lemma_split_space(c, y);
    } else if white_space(x[0]) {
        assert(whole.drop_first() =~= x.drop_first() + seq![c] + y);
        lemma_split_concat(x.drop_first(), c, y);
    } else {
        let n = word_len(x) as int;
        lemma_word_len_bound(x);
        assert(whole =~= x + (seq![c] + y));
        lemma_word_len_append(x, seq![c] + y);
        assert(whole.take(n) =~= x.take(n));
        assert(whole.skip(n) =~= x.skip(n) + seq![c] + y);
        lemma_split_concat(x.skip(n), c, y);
    }
}

/// Padding goes through concatenation.
pub proof fn lemma_pad_concat(a: Seq<char>, b: Seq<char>)
    ensures
        pad_parens(a + b) == pad_parens(a) + pad_parens(b),
    decreases a.len(),
{
    if a.len() > 0 {
        assert((a + b).drop_first() =~= a.drop_first() + b);
        lemma_pad_concat(a.drop_first(), b);
    }
}

/// The padding of a single character.
pub proof fn lemma_pad_single(c: char)
    ensures
        pad_parens(seq![c]) == if is_paren(c) {
            seq![' ', c, ' ']
        } else {
            seq![c]
        },
{
    let nothing = Seq::<char>::empty();
    assert(seq![c].drop_first() =~= nothing);
    assert(pad_parens(nothing) =~= nothing);
}

/// Text without parentheses is not changed by padding.
pub proof fn lemma_pad_plain(text: Seq<char>)
    requires
        forall|i: int| 0 <= i < text.len() ==> !is_paren(#[trigger] text[i]),
    ensures
        pad_parens(text) == text,
    decreases text.len(),
{
    if text.len() > 0 {
        let rest = text.drop_first();
        assert forall|i: int| 0 <= i < rest.len() implies !is_paren(#[trigger] rest[i]) by {}
        lemma_pad_plain(rest);
    }
}

/// Whitespace separates: the tokens of a text with a whitespace character in
/// it are the tokens of what stands before the character, then those of what
/// stands after it.
pub proof fn law_whitespace_separates(before: Seq<char>, c: char, after: Seq<char>)
    requires
        white_space(c),
    ensures
        tokens_of(before + seq![c] + after) == tokens_of(before) + tokens_of(after),
{
    lemma_pad_concat(before + seq![c], after);
    lemma_pad_concat(before, seq![c]);
    lemma_pad_single(c);
    lemma_split_concat(pad_parens(before), c, pad_parens(after));
}

/// The amount and the kind of whitespace between tokens do not matter: any
/// run of whitespace, of whatever length and characters, separates what
/// stands before it from what stands after it, and adds no token.
pub proof fn law_whitespace_run(before: Seq<char>, run: Seq<char>, after: Seq<char>)
    requires
        run.len() > 0,
        blank(run),
    ensures
        tokens_of(before + run + after) == tokens_of(before) + tokens_of(after),
    decreases run.len(),
{
    let c = run[0];
    let shorter = run.drop_first();
    assert(before + run + after =~= before + seq![c] + (shorter + after));
    law_whitespace_separates(before, c, shorter + after);
    if shorter.len() > 0 {
        assert forall|i: int| 0 <= i < shorter.len() implies white_space(#[trigger] shorter[i]) by {}
        law_whitespace_run(Seq::empty(), shorter, after);
    }
}

/// Text that is empty, or whitespace throughout, has no tokens.
pub proof fn law_blank_text(text: Seq<char>)
    requires
        blank(text),
    ensures
        tokens_of(text) == Seq::<Seq<char>>::empty(),
{
    if text.len() > 0 {
        law_whitespace_run(Seq::empty(), text, Seq::empty());
    }
}

/// A parenthesis is a token of its own, wherever it stands.
pub proof fn law_paren_is_token(before: Seq<char>, paren: char, after: Seq<char>)
    requires
        is_paren(paren),
    ensures
        tokens_of(before + seq![paren] + after) == tokens_of(before) + seq![seq![paren]]
            + tokens_of(after),
{
    let a = pad_parens(before);
    let b = pad_parens(after);
    lemma_pad_concat(before + seq![paren], after);
    lemma_pad_concat(before, seq![paren]);
    lemma_pad_single(paren);
    assert(a + seq![' ', paren, ' '] + b =~= a + seq![' '] + (seq![paren] + seq![' '] + b));
    lemma_split_concat(a, ' ', seq![paren] + seq![' '] + b);
    lemma_split_concat(seq![paren], ' ', b);
    lemma_split_word(seq![paren], Seq::empty());
}

/// The text of a token has that token, and no other.
pub proof fn law_token_is_itself(text: Seq<char>)
    requires
        is_token(text),
    ensures
        tokens_of(text) == seq![text],
{
    let nothing = Seq::<char>::empty();
    assert(tokens_of(nothing) =~= Seq::<Seq<char>>::empty());
    if text == seq!['('] || text == seq![')'] {
        law_paren_is_token(nothing, text[0], nothing);
    } else {
        lemma_pad_plain(text);
        lemma_split_word(text, nothing);
    }
}

/// Tokenizing undoes joining: tokens that are written in a row, with
/// whitespace of any kind and amount between one and the next, come out of
/// the tokenizer as they went in.
pub proof fn law_tokenize_joined(tokens: Seq<Seq<char>>, separator: Seq<char>)
    requires
        forall|i: int| 0 <= i < tokens.len() ==> is_token(#[trigger] tokens[i]),
        separator.len() > 0,
        blank(separator),
    ensures
        tokens_of(joined(tokens, separator)) == tokens,
    decreases tokens.len(),
{
    if tokens.len() == 1 {
        law_token_is_itself(tokens[0]);
    } else if tokens.len() > 1 {
        let others = tokens.drop_last();
        assert forall|i: int| 0 <= i < others.len() implies is_token(#[trigger] others[i]) by {}
        law_tokenize_joined(others, separator);
        law_token_is_itself(tokens.last());
        law_whitespace_run(joined(others, separator), separator, tokens.last());
    }
}

/// Whitespace at the end of a text adds no token.
pub proof fn lemma_append_blank(text: Seq<char>, run: Seq<char>)
    requires
        blank(run),
    ensures
        tokens_of(text + run) == tokens_of(text),
{
    if run.len() > 0 {
        law_whitespace_run(text, run, Seq::empty());
    }
}

/// Nothing need stand between `text` and a token that follows it: the text
/// is empty or ends in whitespace or in a parenthesis, or the token is a
/// parenthesis.
pub open spec fn set_apart(text: Seq<char>, token: Seq<char>) -> bool {
    text.len() == 0 || !plain(text.last()) || !is_word(token)
}

/// A token that is appended to a text from which it is set apart is the
/// last token of the whole.
pub proof fn lemma_append_token(text: Seq<char>, token: Seq<char>)
    requires
        is_token(token),
        set_apart(text, token),
    ensures
        tokens_of(text + token) == tokens_of(text) + seq![token],
{
    let nothing = Seq::<char>::empty();
    law_token_is_itself(token);
    if !is_word(token) {
        law_paren_is_token(text, token[0], nothing);
    } else if text.len() > 0 {
        let c = text.last();
        let before = text.drop_last();
        assert(text =~= before + seq![c] + nothing);
        if white_space(c) {
            law_whitespace_separates(before, c, token);
            law_whitespace_separates(before, c, nothing);
        } else {
            law_paren_is_token(before, c, token);
            law_paren_is_token(before, c, nothing);
        }
    }
}

/// The tokens `tokens` written in a row, with `gaps[0]` before the first,
/// `gaps[i]` between the one at `i - 1` and the one at `i`, and the last gap
/// after the last.
pub open spec fn spaced(tokens: Seq<Seq<char>>, gaps: Seq<Seq<char>>) -> Seq<char>
    decreases tokens.len(),
{
    if tokens.len() == 0 || gaps.len() != tokens.len() + 1 {
        gaps.first()
    } else {
        spaced(tokens.drop_last(), gaps.drop_last()) + tokens.last() + gaps.last()
    }
}

/// The gaps can stand between the tokens: there is one more gap than there
/// are tokens, every gap is whitespace throughout, and a gap between two
/// words is not empty.
pub open spec fn gaps_fit(tokens: Seq<Seq<char>>, gaps: Seq<Seq<char>>) -> bool {
    &&& gaps.len() == tokens.len() + 1
    &&& forall|i: int| 0 <= i < gaps.len() ==> blank(#[trigger] gaps[i])
    &&& forall|i: int|
        0 < i < tokens.len() && is_word(tokens[i - 1]) && is_word(tokens[i]) ==> (
        #[trigger] gaps[i]).len() > 0
}

/// Spaced tokens are the tokens of their text; and where the text ends in a
/// plain character, that character ends the last token.
pub proof fn lemma_tokens_of_spaced(tokens: Seq<Seq<char>>, gaps: Seq<Seq<char>>)
    requires
        forall|i: int| 0 <= i < tokens.len() ==> is_token(#[trigger] tokens[i]),
        gaps_fit(tokens, gaps),
    ensures
        tokens_of(spaced(tokens, gaps)) == tokens,
        spaced(tokens, gaps).len() > 0 && plain(spaced(tokens, gaps).last()) ==> tokens.len() > 0
            && is_word(tokens.last()) && gaps.last().len() == 0,
    decreases tokens.len(),
{
    if tokens.len() == 0 {
        law_blank_text(gaps[0]);
    } else {
        let fewer = tokens.drop_last();
        let narrower = gaps.drop_last();
        let before = spaced(fewer, narrower);
        assert forall|i: int| 0 <= i < fewer.len() implies is_token(#[trigger] fewer[i]) by {}
        assert(gaps_fit(fewer, narrower)) by {
            assert forall|i: int| 0 <= i < narrower.len() implies blank(#[trigger] narrower[i]) by {}
            assert forall|i: int|
                0 < i < fewer.len() && is_word(fewer[i - 1]) && is_word(fewer[i]) implies (
            #[trigger] narrower[i]).len() > 0 by {}
        }
        lemma_tokens_of_spaced(fewer, narrower);
        assert(set_apart(before, tokens.last()));
        lemma_append_token(before, tokens.last());
        lemma_append_blank(before + tokens.last(), gaps.last());
    }
}

/// However tokens are spaced, they come out of the tokenizer as they went
/// in: the amount and the kind of whitespace between them, before them and
/// after them do not matter, and next to a parenthesis none is needed.
pub proof fn law_tokens_of_spaced(tokens: Seq<Seq<char>>, gaps: Seq<Seq<char>>)
    requires
        forall|i: int| 0 <= i < tokens.len() ==> is_token(#[trigger] tokens[i]),
        gaps_fit(tokens, gaps),
    ensures
        tokens_of(spaced(tokens, gaps)) == tokens,
{
    lemma_tokens_of_spaced(tokens, gaps);
}

/// How many plain characters stand at the head of `text`.
pub open spec fn plain_len(text: Seq<char>) -> nat
    decreases text.len(),
{
    if text.len() == 0 || !plain(text[0]) {
        0
    } else {
        1 + plain_len(text.drop_first())
    }
}

/// The plain characters at the head of a text are a prefix of it, and what
/// follows them does not begin with a plain character.
pub proof fn lemma_plain_len(text: Seq<char>)
    ensures
        plain_len(text) <= text.len(),
        forall|i: int| 0 <= i < plain_len(text) ==> plain(#[trigger] text[i]),
        plain_len(text) < text.len() ==> !plain(text[plain_len(text) as int]),
    decreases text.len(),
{
    if text.len() != 0 && plain(text[0]) {
        let rest = text.drop_first();
        lemma_plain_len(rest);
        assert forall|i: int| 0 <= i < plain_len(text) implies plain(#[trigger] text[i]) by {
            if i > 0 {
                assert(text[i] == rest[i - 1]);
            }
        }
    }
}

/// Every token is a single parenthesis or a word: what stands between
/// whitespace is one token, unless it holds a parenthesis.
pub proof fn law_tokens_are_tokens(text: Seq<char>)
    ensures
        forall|i: int| 0 <= i < tokens_of(text).len() ==> is_token(#[trigger] tokens_of(text)[i]),
    decreases text.len(),
{
    lemma_plain_len(text);
    let n = plain_len(text) as int;
    if 0 < n == text.len() {
        law_token_is_itself(text);
    } else if n < text.len() {
        // The text is a word, possibly empty, then a character that ends
        // it, then the rest.
        let word = text.take(n);
        let c = text[n];
        let rest = text.skip(n + 1);
        law_tokens_are_tokens(rest);
        assert(text =~= word + seq![c] + rest);
        let head = if n == 0 {
            Seq::<Seq<char>>::empty()
        } else {
            seq![word]
        };
        assert(tokens_of(word) == head) by {
            if n > 0 {
                law_token_is_itself(word);
            }
        }
        let middle = if white_space(c) {
            Seq::<Seq<char>>::empty()
        } else {
            seq![seq![c]]
        };
        assert(tokens_of(text) =~= head + middle + tokens_of(rest)) by {
            if white_space(c) {
                law_whitespace_separates(word, c, rest);
            } else {
                law_paren_is_token(word, c, rest);
            }
        }
    }
}

} // verus!
