use largo::{default_env, eval, parse, parse_atom, tokenize, Builtin, Env, Error, Expr, Token};

fn read(token: &str) -> Option<u64> {
    token.parse::<f64>().ok().map(f64::to_bits)
}

fn plus(a: u64, b: u64) -> u64 {
    (f64::from_bits(a) + f64::from_bits(b)).to_bits()
}

fn minus(a: u64, b: u64) -> u64 {
    (f64::from_bits(a) - f64::from_bits(b)).to_bits()
}

fn number(value: f64) -> Expr {
    Expr::Number(value.to_bits())
}

fn tokens_of(text: &str) -> Vec<Token> {
    tokenize(text.to_owned())
        .into_iter()
        .map(|text| {
            let number = read(&text);
            Token { text, number }
        })
        .collect()
}

#[test]
fn check_error() {
    assert_eq!(
        "Hello there".to_owned(),
        Error::Reason("Hello there".to_owned()).to_string()
    );
}

#[test]
fn check_tokenize() {
    assert_eq!(
        tokenize("(+ 1 2)".to_owned()),
        vec![
            "(".to_owned(),
            "+".to_owned(),
            "1".to_owned(),
            "2".to_owned(),
            ")".to_owned()
        ]
    );
}

#[test]
fn check_parse() {
    let tokens = tokens_of("(+ 1 2)");
    let (exp, rest) = parse(tokens.as_slice()).unwrap();
    assert_eq!(
        exp,
        Expr::List(vec![
            Expr::Symbol("+".to_owned()),
            number(1.0),
            number(2.0),
        ])
    );
    assert!(rest.is_empty());
}

#[test]
fn check_parse_atom() {
    assert_eq!(parse_atom("1.0", read("1.0")), number(1.0));
    assert_eq!(
        parse_atom("Hello", read("Hello")),
        Expr::Symbol("Hello".to_owned())
    );
    assert_eq!(
        parse_atom("hi1.0hi", read("hi1.0hi")),
        Expr::Symbol("hi1.0hi".to_owned())
    );
}

#[test]
fn check_default_env() {
    let Env { data } = default_env();

    let add = *match data.get("+").unwrap() {
        Expr::Func(f) => f,
        _ => panic!("data did not return addition"),
    };
    let sub = *match data.get("-").unwrap() {
        Expr::Func(f) => f,
        _ => panic!("data did not return subtraction"),
    };

    let exps = vec![number(1.0), number(2.0), number(3.0)];

    assert_eq!(add.apply(&exps, &plus, &minus).unwrap(), number(6.0));
    assert_eq!(sub.apply(&exps, &plus, &minus).unwrap(), number(-4.0));
    assert_eq!(add, Builtin::Add);
    assert_eq!(sub, Builtin::Sub);
}

#[test]
fn check_eval() {
    let mut env = default_env();

    let (exp1, _) = parse(&tokens_of("(+ 1 2)")).unwrap();
    let (exp2, _) = parse(&tokens_of("(+ 1 (+ 2 3 4))")).unwrap();
    let (exp3, _) = parse(&tokens_of("(- 2 3)")).unwrap();
    let (exp4, _) = parse(&tokens_of("(- 2 (+ 1 2 3))")).unwrap();

    assert_eq!(eval(&exp1, &mut env, &plus, &minus).unwrap(), number(3.0));
    assert_eq!(eval(&exp2, &mut env, &plus, &minus).unwrap(), number(10.0));
    assert_eq!(eval(&exp3, &mut env, &plus, &minus).unwrap(), number(-1.0));
    assert_eq!(eval(&exp4, &mut env, &plus, &minus).unwrap(), number(-4.0));
}
