use largo::{parse, parse_atom, read_seq, read_tokens, tokenize, Error, Expr, Token};

fn read(token: &str) -> Option<u64> {
    token.parse::<f64>().ok().map(f64::to_bits)
}

fn number(value: f64) -> Expr {
    Expr::Number(value.to_bits())
}

fn symbol(name: &str) -> Expr {
    Expr::Symbol(name.to_owned())
}

fn tokens_of(text: &str) -> Vec<Token> {
    read_tokens(&tokenize(text.to_owned()), &read)
}

fn reason<T: std::fmt::Debug>(result: Result<T, Error>) -> String {
    result.unwrap_err().to_string()
}

/// The tokens that spell an expression, numbers in their shortest form.
fn spell(exp: &Expr, out: &mut Vec<String>) {
    match exp {
        Expr::Symbol(name) => out.push(name.clone()),
        Expr::Number(bits) => out.push(f64::from_bits(*bits).to_string()),
        Expr::List(items) => {
            out.push("(".to_owned());
            for item in items {
                spell(item, out);
            }
            out.push(")".to_owned());
        }
        Expr::Func(_) => out.push("Function".to_owned()),
    }
}

fn has_func(exp: &Expr) -> bool {
    match exp {
        Expr::Func(_) => true,
        Expr::List(items) => items.iter().any(has_func),
        _ => false,
    }
}

#[test]
fn tokens_are_read_one_by_one() {
    let tokens = tokens_of("(+ 1.5 x)");
    assert_eq!(
        tokens,
        vec![
            Token { text: "(".to_owned(), number: None },
            Token { text: "+".to_owned(), number: None },
            Token { text: "1.5".to_owned(), number: Some(1.5f64.to_bits()) },
            Token { text: "x".to_owned(), number: None },
            Token { text: ")".to_owned(), number: None },
        ]
    );
}

#[test]
fn parentheses_are_never_read_as_numbers() {
    let everything_is_seven = |_: &str| Some(7.0f64.to_bits());
    let texts = vec!["(".to_owned(), "a".to_owned(), ")".to_owned()];
    let tokens = read_tokens(&texts, &everything_is_seven);
    assert_eq!(tokens[0].number, None);
    assert_eq!(tokens[1].number, Some(7.0f64.to_bits()));
    assert_eq!(tokens[2].number, None);
    let (exp, rest) = parse(&tokens).unwrap();
    assert_eq!(exp, Expr::List(vec![number(7.0)]));
    assert!(rest.is_empty());
}

#[test]
fn an_atom_is_a_number_where_it_reads_as_one() {
    assert_eq!(parse_atom("12", Some(12.0f64.to_bits())), number(12.0));
    assert_eq!(parse_atom("12", None), symbol("12"));
    assert_eq!(parse_atom("-0.5e1", read("-0.5e1")), number(-5.0));
    assert_eq!(parse_atom("+", read("+")), symbol("+"));
    assert_eq!(parse_atom("1.0.0", read("1.0.0")), symbol("1.0.0"));
    assert_eq!(parse_atom("inf", read("inf")), number(f64::INFINITY));
}

#[test]
fn no_tokens_cannot_be_parsed() {
    assert_eq!(reason(parse(&tokens_of(""))), "could not get token");
    assert_eq!(reason(parse(&tokens_of("   "))), "could not get token");
}

#[test]
fn a_stray_closing_parenthesis_is_refused() {
    assert_eq!(reason(parse(&tokens_of(")"))), "unexpected `)`");
    assert_eq!(reason(parse(&tokens_of(") 1 2"))), "unexpected `)`");
    assert_eq!(reason(parse(&tokens_of(")("))), "unexpected `)`");
}

#[test]
fn an_unclosed_list_is_refused() {
    assert_eq!(reason(parse(&tokens_of("("))), "could not find closing `)`");
    assert_eq!(reason(parse(&tokens_of("(+ 1 2"))), "could not find closing `)`");
    assert_eq!(reason(parse(&tokens_of("(+ 1 (2)"))), "could not find closing `)`");
    assert_eq!(reason(parse(&tokens_of("(((("))), "could not find closing `)`");
    assert_eq!(reason(read_seq(&tokens_of("+ 1 2"))), "could not find closing `)`");
    assert_eq!(reason(read_seq(&tokens_of(""))), "could not find closing `)`");
}

#[test]
fn an_atom_is_parsed_alone() {
    let tokens = tokens_of("42");
    let (exp, rest) = parse(&tokens).unwrap();
    assert_eq!(exp, number(42.0));
    assert!(rest.is_empty());

    let tokens = tokens_of("foo");
    let (exp, rest) = parse(&tokens).unwrap();
    assert_eq!(exp, symbol("foo"));
    assert!(rest.is_empty());
}

#[test]
fn the_empty_list_is_parsed() {
    let tokens = tokens_of("()");
    let (exp, rest) = parse(&tokens).unwrap();
    assert_eq!(exp, Expr::List(vec![]));
    assert!(rest.is_empty());
}

#[test]
fn lists_nest() {
    let tokens = tokens_of("(- 2 (+ 1 (a) ()) b)");
    let (exp, rest) = parse(&tokens).unwrap();
    assert_eq!(
        exp,
        Expr::List(vec![
            symbol("-"),
            number(2.0),
            Expr::List(vec![
                symbol("+"),
                number(1.0),
                Expr::List(vec![symbol("a")]),
                Expr::List(vec![]),
            ]),
            symbol("b"),
        ])
    );
    assert!(rest.is_empty());
}

#[test]
fn what_follows_the_first_expression_is_handed_back() {
    let tokens = tokens_of("1 2 3");
    let (exp, rest) = parse(&tokens).unwrap();
    assert_eq!(exp, number(1.0));
    assert_eq!(rest, &tokens[1..]);

    let tokens = tokens_of("(a b) c ) (");
    let (exp, rest) = parse(&tokens).unwrap();
    assert_eq!(exp, Expr::List(vec![symbol("a"), symbol("b")]));
    assert_eq!(rest, &tokens[4..]);
}

#[test]
fn read_seq_reads_up_to_the_closing_parenthesis() {
    let tokens = tokens_of("+ 1 2 ) tail");
    let (exp, rest) = read_seq(&tokens).unwrap();
    assert_eq!(exp, Expr::List(vec![symbol("+"), number(1.0), number(2.0)]));
    assert_eq!(rest, &tokens[4..]);

    let tokens = tokens_of(")");
    let (exp, rest) = read_seq(&tokens).unwrap();
    assert_eq!(exp, Expr::List(vec![]));
    assert!(rest.is_empty());
}

#[test]
fn parsing_yields_no_native_operation() {
    for text in ["(+ 1 2)", "+", "(- (+ -) +)", "Function", "((+))"] {
        let tokens = tokens_of(text);
        let (exp, _) = parse(&tokens).unwrap();
        assert!(!has_func(&exp), "{:?}", text);
    }
}

#[test]
fn the_tokens_taken_spell_the_tree() {
    for text in ["(+ 1 2)", "x", "(a (b (c)) () 4.5) rest", "(- 2 (+ 1 2 3))", "7 8"] {
        let texts = tokenize(text.to_owned());
        let tokens = read_tokens(&texts, &read);
        let (exp, rest) = parse(&tokens).unwrap();
        let used = tokens.len() - rest.len();
        let mut spelled = Vec::new();
        spell(&exp, &mut spelled);
        assert_eq!(spelled, texts[..used].to_vec(), "{:?}", text);
    }
}

#[test]
fn parsing_undoes_spelling() {
    let tree = Expr::List(vec![
        symbol("f"),
        number(1.0),
        Expr::List(vec![symbol("g"), number(-2.5), Expr::List(vec![])]),
        symbol("x"),
    ]);
    let mut spelled = Vec::new();
    spell(&tree, &mut spelled);
    spelled.push("more".to_owned());
    let tokens = read_tokens(&spelled, &read);
    let (exp, rest) = parse(&tokens).unwrap();
    assert_eq!(exp, tree);
    assert_eq!(rest.len(), 1);

    let text = spelled.join(" ");
    let tokens = tokens_of(&text);
    let (exp, _) = parse(&tokens).unwrap();
    assert_eq!(exp, tree);
}

#[test]
fn parsing_succeeds_exactly_on_balanced_beginnings() {
    for (text, succeeds) in [
        ("(", false),
        (")", false),
        ("()", true),
        ("(()", false),
        ("())", true),
        ("a", true),
        ("a )", true),
        ("( a ( b ) ", false),
        ("( a ( b ) )", true),
        ("", false),
    ] {
        assert_eq!(parse(&tokens_of(text)).is_ok(), succeeds, "{:?}", text);
    }
}
