use largo::{default_env, step, Error, Step};

fn read(token: &str) -> Option<u64> {
    token.parse::<f64>().ok().map(f64::to_bits)
}

fn plus(a: u64, b: u64) -> u64 {
    (f64::from_bits(a) + f64::from_bits(b)).to_bits()
}

fn minus(a: u64, b: u64) -> u64 {
    (f64::from_bits(a) - f64::from_bits(b)).to_bits()
}

fn show(bits: u64) -> String {
    f64::from_bits(bits).to_string()
}

fn answer(line: &str) -> Step {
    let mut env = default_env();
    step(line.to_owned(), &mut env, &read, &plus, &minus, &show)
}

#[test]
fn quit_ends_the_session() {
    assert_eq!(answer("quit"), Step::Quit);
}

#[test]
fn only_the_very_line_quit_ends_the_session() {
    assert_eq!(
        answer("Quit"),
        Step::Fail(Error::new("unexpected symbol `Quit`"))
    );
    assert_eq!(
        answer("quit now"),
        Step::Fail(Error::new("unexpected symbol `quit`"))
    );
    assert_eq!(
        answer(" quit"),
        Step::Fail(Error::new("unexpected symbol `quit`"))
    );
    assert_eq!(
        answer("(quit)"),
        Step::Fail(Error::new("unexpected symbol `quit`"))
    );
}

#[test]
fn a_value_is_printed() {
    assert_eq!(answer("(+ 1 2)"), Step::Print("3".to_owned()));
    assert_eq!(answer("(- 2 (+ 1 2 3))"), Step::Print("-4".to_owned()));
    assert_eq!(answer("(+ 0.5 0.25)"), Step::Print("0.75".to_owned()));
    assert_eq!(answer("+"), Step::Print("Function".to_owned()));
    assert_eq!(answer("(+)"), Step::Print("0".to_owned()));
}

#[test]
fn a_failure_is_handed_on() {
    assert_eq!(answer(""), Step::Fail(Error::new("could not get token")));
    assert_eq!(answer(")"), Step::Fail(Error::new("unexpected `)`")));
    assert_eq!(
        answer("(+ 1"),
        Step::Fail(Error::new("could not find closing `)`"))
    );
    assert_eq!(answer("()"), Step::Fail(Error::new("expected non-empty list")));
    assert_eq!(
        answer("(-)"),
        Step::Fail(Error::new("`-` requires at least one operand"))
    );
}

#[test]
fn a_session_goes_on_after_a_line() {
    let mut env = default_env();
    assert_eq!(
        step("(+ 1 2)".to_owned(), &mut env, &read, &plus, &minus, &show),
        Step::Print("3".to_owned())
    );
    assert_eq!(
        step("x".to_owned(), &mut env, &read, &plus, &minus, &show),
        Step::Fail(Error::new("unexpected symbol `x`"))
    );
    assert_eq!(
        step("(- 3 2)".to_owned(), &mut env, &read, &plus, &minus, &show),
        Step::Print("1".to_owned())
    );
    assert_eq!(
        step("quit".to_owned(), &mut env, &read, &plus, &minus, &show),
        Step::Quit
    );
}
