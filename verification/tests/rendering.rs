use largo::{parse, read_tokens, tokenize, Builtin, Expr};

fn show(bits: u64) -> String {
    f64::from_bits(bits).to_string()
}

fn read(token: &str) -> Option<u64> {
    token.parse::<f64>().ok().map(f64::to_bits)
}

fn number(value: f64) -> Expr {
    Expr::Number(value.to_bits())
}

fn symbol(name: &str) -> Expr {
    Expr::Symbol(name.to_owned())
}

#[test]
fn a_symbol_is_rendered_as_its_name() {
    assert_eq!(symbol("foo").render(&show), "foo");
    assert_eq!(symbol("+").render(&show), "+");
}

#[test]
fn a_number_is_rendered_as_it_is_shown() {
    assert_eq!(number(3.0).render(&show), "3");
    assert_eq!(number(-1.5).render(&show), "-1.5");
    assert_eq!(number(1.0).render(&|_: u64| "one".to_owned()), "one");
}

#[test]
fn a_list_is_rendered_with_commas() {
    let list = Expr::List(vec![symbol("+"), number(1.0), number(2.0)]);
    assert_eq!(list.render(&show), "(+,1,2)");
    assert_eq!(Expr::List(vec![]).render(&show), "()");
    assert_eq!(Expr::List(vec![symbol("a")]).render(&show), "(a)");
}

#[test]
fn nested_lists_are_rendered() {
    let list = Expr::List(vec![
        symbol("-"),
        number(2.0),
        Expr::List(vec![symbol("+"), Expr::List(vec![]), number(0.5)]),
    ]);
    assert_eq!(list.render(&show), "(-,2,(+,(),0.5))");
}

#[test]
fn a_native_operation_is_rendered_as_a_placeholder() {
    assert_eq!(Expr::Func(Builtin::Add).render(&show), "Function");
    assert_eq!(Expr::Func(Builtin::Sub).render(&show), "Function");
    let list = Expr::List(vec![Expr::Func(Builtin::Add), number(1.0)]);
    assert_eq!(list.render(&show), "(Function,1)");
}

#[test]
fn a_copy_equals_what_was_copied() {
    let list = Expr::List(vec![
        symbol("-"),
        number(2.0),
        Expr::List(vec![Expr::Func(Builtin::Sub), Expr::List(vec![])]),
    ]);
    assert_eq!(list.clone(), list);
    assert_ne!(list.clone(), Expr::List(vec![]));
}

#[test]
fn the_separator_can_be_chosen() {
    let list = Expr::List(vec![
        symbol("-"),
        number(2.0),
        Expr::List(vec![symbol("+"), Expr::List(vec![]), number(0.5)]),
    ]);
    assert_eq!(list.render_with(" ", &show), "(- 2 (+ () 0.5))");
    assert_eq!(list.render_with("", &show), "(-2(+()0.5))");
    assert_eq!(list.render_with(" . ", &show), "(- . 2 . (+ . () . 0.5))");
    assert_eq!(list.render_with(",", &show), list.render(&show));
    assert_eq!(symbol("a").render_with(" ", &show), "a");
}

#[test]
fn what_is_written_with_whitespace_is_read_back() {
    let tree = Expr::List(vec![
        symbol("f"),
        number(1.0),
        Expr::List(vec![symbol("g"), number(-2.5), Expr::List(vec![])]),
        number(1.0e300),
        symbol("x"),
    ]);
    for separator in [" ", "\n", "\t \u{3000}"] {
        let text = tree.render_with(separator, &show);
        let tokens = read_tokens(&tokenize(text), &read);
        let (exp, rest) = parse(&tokens).unwrap();
        assert_eq!(exp, tree);
        assert!(rest.is_empty());
    }
}

#[test]
fn text_survives_the_round_trip_as_lexemes() {
    for text in ["(+ 1 2)", "(- 2 (+ 1.0 2e0 3))", "x", "((a) () b)", "  ( + 1\t2 )  tail"] {
        let tokens = read_tokens(&tokenize(text.to_owned()), &read);
        let (tree, rest) = parse(&tokens).unwrap();
        let used = tokens.len() - rest.len();
        let rendering = tree.render_with(" ", &show);
        let again = read_tokens(&tokenize(rendering), &read);
        assert_eq!(again.len(), used);
        for (new, old) in again.iter().zip(tokens.iter()) {
            assert_eq!(new.number, old.number);
            if old.number.is_none() {
                assert_eq!(new.text, old.text);
            }
        }
        let (same, rest) = parse(&again).unwrap();
        assert_eq!(same, tree);
        assert!(rest.is_empty());
    }
}

#[test]
fn what_is_written_with_commas_is_not_read_back() {
    let tree = Expr::List(vec![symbol("+"), number(1.0), number(2.0)]);
    let text = tree.render(&show);
    assert_eq!(
        tokenize(text),
        vec!["(".to_owned(), "+,1,2".to_owned(), ")".to_owned()]
    );
}
