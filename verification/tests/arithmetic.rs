use pratt::{
    check, infix, integer, just, left, parse, postfix, prefix, right, Boxed, Mapped, Parser,
};

fn factorial(x: i64) -> i64 {
    if x == 0 {
        1
    } else {
        x * factorial(x - 1)
    }
}

fn number(digits: Vec<char>) -> i64 {
    digits.into_iter().collect::<String>().parse().unwrap()
}

fn parser() -> impl Parser<Output = i64> {
    let atom = Mapped::new(integer().padded(), number);

    atom.with_operators((
        prefix(2, just('-'), |_, x: i64| -x),
        (
            postfix(2, just('!'), |x, _| factorial(x)),
            (
                infix(left(0), just('+'), |l: i64, _, r: i64| l + r),
                (
                    infix(left(0), just('-'), |l: i64, _, r: i64| l - r),
                    (
                        infix(left(1), just('*'), |l: i64, _, r: i64| l * r),
                        (infix(left(1), just('/'), |l: i64, _, r: i64| l / r),),
                    ),
                ),
            ),
        ),
    ))
}

fn parser_dynamic() -> impl Parser<Output = i64> {
    let atom = Mapped::new(integer().padded(), number);

    atom.with_operators(vec![
        Boxed::new(prefix(2, just('-'), |_, x: i64| -x)),
        Boxed::new(postfix(2, just('!'), |x, _| factorial(x))),
        Boxed::new(infix(left(0), just('+'), |l: i64, _, r: i64| l + r)),
        Boxed::new(infix(left(0), just('-'), |l: i64, _, r: i64| l - r)),
        Boxed::new(infix(left(1), just('*'), |l: i64, _, r: i64| l * r)),
        Boxed::new(infix(left(1), just('/'), |l: i64, _, r: i64| l / r)),
    ])
}

#[test]
fn precedence() {
    assert_eq!(parse(&parser(), "2 + 3 * 4"), Ok(14));
    assert_eq!(parse(&parser(), "2 * 3 + 4"), Ok(10));
}

#[test]
fn unary() {
    assert_eq!(parse(&parser(), "-2"), Ok(-2));
    assert_eq!(parse(&parser(), "4!"), Ok(24));
    assert_eq!(parse(&parser(), "2 + 4!"), Ok(26));
    assert_eq!(parse(&parser(), "-2 + 2"), Ok(0));
}

#[test]
fn dynamic_list_agrees_with_chain() {
    let texts =
        ["2 + 3 * 4", "2 * 3 + 4", "-2", "4!", "2 + 4!", "-2 + 2", "2 +", "", "-3!*2 - 8 / 4"];
    for text in texts {
        assert_eq!(parse(&parser_dynamic(), text), parse(&parser(), text), "{text:?}");
    }
    assert_eq!(parse(&parser_dynamic(), "-3!*2 - 8 / 4"), Ok(-14));
}

#[test]
fn check_agrees_with_parse() {
    for text in ["2 + 3 * 4", "-2 + 2", "2 +", "", "4!!", "1 2", " 7 "] {
        assert_eq!(check(&parser(), text), parse(&parser(), text).is_ok(), "{text:?}");
    }
}

#[test]
fn powers_factorials_and_signs() {
    let op = |c| just(c).padded();
    let expr = Mapped::new(integer().padded(), number).with_operators((
        postfix(4, op('!'), |x: i64, _| (1..=x).product()),
        (
            infix(right(3), op('^'), |l: i64, _, r: i64| l.pow(r as u32)),
            (
                prefix(2, op('-'), |_, x: i64| -x),
                (
                    infix(left(1), op('+'), |l: i64, _, r: i64| l + r),
                    (infix(left(1), op('-'), |l: i64, _, r: i64| l - r),),
                ),
            ),
        ),
    ));

    assert_eq!(parse(&expr, "1 + -2! - -3^2"), Ok(8));
    assert_eq!(parse(&expr, "2 ^ 3 ^ 2"), Ok(512));
    assert_eq!(parse(&expr, " 3 ! ! "), Ok(720));
}
