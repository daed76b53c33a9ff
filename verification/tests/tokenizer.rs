use largo::{is_whitespace, tokenize};

fn texts(tokens: &[&str]) -> Vec<String> {
    tokens.iter().map(|t| t.to_string()).collect()
}

/// The tokenizer as the standard library spells it: pad, then split.
fn padded_and_split(text: &str) -> Vec<String> {
    text.replace("(", " ( ")
        .replace(")", " ) ")
        .split_whitespace()
        .map(|x| x.to_owned())
        .collect()
}

#[test]
fn whitespace_is_unicode_white_space() {
    for c in '\0'..=char::MAX {
        assert_eq!(is_whitespace(c), c.is_whitespace(), "{:?}", c);
    }
}

#[test]
fn whitespace_at_the_edges_of_its_ranges() {
    assert!(!is_whitespace('\u{8}'));
    assert!(is_whitespace('\u{9}'));
    assert!(is_whitespace('\u{d}'));
    assert!(!is_whitespace('\u{e}'));
    assert!(is_whitespace(' '));
    assert!(is_whitespace('\u{85}'));
    assert!(is_whitespace('\u{a0}'));
    assert!(is_whitespace('\u{1680}'));
    assert!(!is_whitespace('\u{1fff}'));
    assert!(is_whitespace('\u{2000}'));
    assert!(is_whitespace('\u{200a}'));
    assert!(!is_whitespace('\u{200b}'));
    assert!(is_whitespace('\u{2028}'));
    assert!(is_whitespace('\u{2029}'));
    assert!(is_whitespace('\u{202f}'));
    assert!(is_whitespace('\u{205f}'));
    assert!(is_whitespace('\u{3000}'));
    assert!(!is_whitespace('('));
    assert!(!is_whitespace(')'));
    assert!(!is_whitespace('a'));
}

#[test]
fn empty_text_has_no_tokens() {
    assert_eq!(tokenize(String::new()), Vec::<String>::new());
}

#[test]
fn blank_text_has_no_tokens() {
    assert_eq!(tokenize(" \t\r\n \u{3000}\u{a0}".to_owned()), Vec::<String>::new());
}

#[test]
fn amount_of_whitespace_does_not_matter() {
    let expected = texts(&["(", "+", "1", "2", ")"]);
    assert_eq!(tokenize("(+ 1 2)".to_owned()), expected);
    assert_eq!(tokenize("  (  +   1     2  )  ".to_owned()), expected);
    assert_eq!(tokenize("(+ 1 2 )".to_owned()), expected);
    assert_eq!(tokenize("( + 1 2)".to_owned()), expected);
}

#[test]
fn kind_of_whitespace_does_not_matter() {
    let expected = texts(&["(", "+", "1", "2", ")"]);
    assert_eq!(tokenize("(+\t1\n2)".to_owned()), expected);
    assert_eq!(tokenize("(+\r\n1\u{b}\u{c}2)".to_owned()), expected);
    assert_eq!(tokenize("(+\u{a0}1\u{2003}2\u{3000})".to_owned()), expected);
    assert_eq!(tokenize("\u{2028}(+\u{85}1\u{1680}2)\u{205f}".to_owned()), expected);
}

#[test]
fn parentheses_need_no_whitespace() {
    assert_eq!(
        tokenize("((a)b)".to_owned()),
        texts(&["(", "(", "a", ")", "b", ")"])
    );
    assert_eq!(tokenize("()".to_owned()), texts(&["(", ")"]));
    assert_eq!(tokenize(")(".to_owned()), texts(&[")", "("]));
    assert_eq!(tokenize("a(b".to_owned()), texts(&["a", "(", "b"]));
}

#[test]
fn a_word_is_one_token() {
    assert_eq!(tokenize("hello".to_owned()), texts(&["hello"]));
    assert_eq!(tokenize("  hello  ".to_owned()), texts(&["hello"]));
    assert_eq!(tokenize("-12.5e3".to_owned()), texts(&["-12.5e3"]));
}

#[test]
fn nothing_is_quoted_or_escaped() {
    assert_eq!(
        tokenize("\"a b\" 'c ; \\( #".to_owned()),
        texts(&["\"a", "b\"", "'c", ";", "\\", "(", "#"])
    );
}

#[test]
fn characters_beyond_ascii_are_kept() {
    assert_eq!(
        tokenize("(λ 越 déjà)".to_owned()),
        texts(&["(", "λ", "越", "déjà", ")"])
    );
    assert_eq!(tokenize("a\u{200b}b".to_owned()), texts(&["a\u{200b}b"]));
}

#[test]
fn tokens_are_single_parentheses_or_words() {
    for text in ["(+ 1 (foo bar))", " a(b)c ", "((()))", "x\ty\nz", "(- 2 (+ 1 2 3))"] {
        for token in tokenize(text.to_owned()) {
            let word = !token.is_empty()
                && token
                    .chars()
                    .all(|c| !c.is_whitespace() && c != '(' && c != ')');
            assert!(token == "(" || token == ")" || word, "{:?}", token);
        }
    }
}

#[test]
fn tokenizing_undoes_joining() {
    let tokens = texts(&["(", "+", "1", "(", "foo", "2.5", ")", ")", "bar"]);
    assert_eq!(tokenize(tokens.join(" ")), tokens);
    assert_eq!(tokenize(tokens.join("\n\t ")), tokens);
    assert_eq!(tokenize(tokens.join("\u{3000}")), tokens);
}

#[test]
fn tokenizing_is_padding_and_splitting() {
    for text in [
        "",
        " ",
        "(+ 1 2)",
        "(+ 1 (+ 2 3 4))",
        "((a)b)c",
        ")(",
        "  lots   of    space  ",
        "tabs\tand\nlines\r\n",
        "(λ 越\u{3000}déjà)",
        "a\u{a0}b\u{2009}c",
        "\"quoted (text)\"",
    ] {
        assert_eq!(tokenize(text.to_owned()), padded_and_split(text), "{:?}", text);
    }
}

#[test]
fn spacing_does_not_matter() {
    let tokens = texts(&["(", "+", "1", "(", "foo", ")", ")", "bar"]);
    let spacings: [[&str; 9]; 4] = [
        ["", "", " ", "", "", "", "", "", ""],
        [" ", " ", " ", " ", " ", " ", " ", " ", " "],
        ["\n\n", "", "\t", "\u{a0}\u{2003}", "", " ", "", "\r\n", "\u{3000}"],
        ["", "  ", "  ", "", "  ", "", "  ", "", ""],
    ];
    for gaps in spacings {
        let mut text = String::from(gaps[0]);
        for (token, gap) in tokens.iter().zip(&gaps[1..]) {
            text.push_str(token);
            text.push_str(gap);
        }
        assert_eq!(tokenize(text), tokens);
    }
}

#[test]
fn words_that_touch_are_one_word() {
    assert_eq!(tokenize("foobar".to_owned()), texts(&["foobar"]));
    assert_eq!(tokenize("1+2".to_owned()), texts(&["1+2"]));
}
