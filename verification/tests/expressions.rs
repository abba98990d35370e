use pratt::{
    infix, integer, just, left, parse as parse_all, parse_lazy, postfix, prefix, right, Failure,
    Mapped, Parser,
};
use std::ops::Range;

enum Expr {
    Literal(i64),
    Not(Box<Expr>),
    Negate(Box<Expr>),
    Confusion(Box<Expr>),
    Factorial(Box<Expr>),
    Value(Box<Expr>),
    Add(Box<Expr>, Box<Expr>),
    Sub(Box<Expr>, Box<Expr>),
    Mul(Box<Expr>, Box<Expr>),
    Div(Box<Expr>, Box<Expr>),
}

impl Expr {
    fn to_string(&self) -> String {
        match self {
            Self::Literal(literal) => format!("{literal}"),
            Self::Not(right) => format!("(~{})", right.to_string()),
            Self::Negate(right) => format!("(-{})", right.to_string()),
            Self::Confusion(right) => format!("(§{})", right.to_string()),
            Self::Factorial(right) => format!("({}!)", right.to_string()),
            Self::Value(right) => format!("({}$)", right.to_string()),
            Self::Add(left, right) => format!("({} + {})", left.to_string(), right.to_string()),
            Self::Sub(left, right) => format!("({} - {})", left.to_string(), right.to_string()),
            Self::Mul(left, right) => format!("({} * {})", left.to_string(), right.to_string()),
            Self::Div(left, right) => format!("({} / {})", left.to_string(), right.to_string()),
        }
    }
}

fn u(e: fn(Box<Expr>) -> Expr, r: Expr) -> Expr {
    e(Box::new(r))
}

fn i(e: fn(Box<Expr>, Box<Expr>) -> Expr, l: Expr, r: Expr) -> Expr {
    e(Box::new(l), Box::new(r))
}

fn literal(digits: Vec<char>) -> Expr {
    Expr::Literal(digits.into_iter().collect::<String>().parse().unwrap())
}

fn expr_parser() -> impl Parser<Output = String> {
    let atom = Mapped::new(integer(), literal);

    Mapped::new(
        atom.with_operators((
            infix(left(0), just('+'), |l, _, r| i(Expr::Add, l, r)),
            (
                infix(left(0), just('-'), |l, _, r| i(Expr::Sub, l, r)),
                (
                    infix(right(1), just('*'), |l, _, r| i(Expr::Mul, l, r)),
                    (infix(right(1), just('/'), |l, _, r| i(Expr::Div, l, r)),),
                ),
            ),
        )),
        |x: Expr| x.to_string(),
    )
}

fn parse(input: &str) -> Result<String, Vec<Failure>> {
    parse_all(&expr_parser(), input)
}

fn parse_partial(input: &str) -> Result<String, Vec<Failure>> {
    parse_lazy(&expr_parser(), input)
}

fn unexpected(found: Option<char>, span: Range<usize>) -> Failure {
    Failure { start: span.start, end: span.end, found }
}

#[test]
fn missing_first_expression() {
    assert_eq!(parse(""), Err(vec![unexpected(None, 0..0)]))
}

#[test]
fn missing_later_expression() {
    assert_eq!(parse("1+"), Err(vec![unexpected(None, 2..2)]),);
}

#[test]
fn invalid_first_expression() {
    assert_eq!(parse("?"), Err(vec![unexpected(Some('?'), 0..1)]),);
}

#[test]
fn invalid_later_expression() {
    assert_eq!(parse("1+?"), Err(vec![unexpected(Some('?'), 2..3)]),);
}

#[test]
fn invalid_operator() {
    assert_eq!(parse("1?"), Err(vec![unexpected(Some('?'), 1..2)]),);
}

#[test]
fn invalid_operator_incomplete() {
    assert_eq!(parse_partial("1?"), Ok("1".to_string()),);
}

#[test]
fn complex_nesting() {
    assert_eq!(
        parse_partial("1+2*3/4*5-6*7+8-9+10"),
        Ok("(((((1 + (2 * (3 / (4 * 5)))) - (6 * 7)) + 8) - 9) + 10)".to_string()),
    );
}

#[test]
fn with_prefix_ops() {
    let atom = Mapped::new(integer(), literal);

    let parser = Mapped::new(
        atom.with_operators((
            prefix(2, just('-'), |_, r| u(Expr::Negate, r)),
            (
                prefix(2, just('~'), |_, r| u(Expr::Not, r)),
                (
                    prefix(1, just('§'), |_, r| u(Expr::Confusion, r)),
                    (
                        infix(left(0), just('+'), |l, _, r| i(Expr::Add, l, r)),
                        (
                            infix(left(0), just('-'), |l, _, r| i(Expr::Sub, l, r)),
                            (
                                infix(right(1), just('*'), |l, _, r| i(Expr::Mul, l, r)),
                                (infix(right(1), just('/'), |l, _, r| i(Expr::Div, l, r)),),
                            ),
                        ),
                    ),
                ),
            ),
        )),
        |x: Expr| x.to_string(),
    );

    assert_eq!(
        parse_all(&parser, "-1+§~2*3"),
        Ok("((-1) + (§((~2) * 3)))".to_string()),
    )
}

#[test]
fn with_postfix_ops() {
    let atom = Mapped::new(integer(), literal);

    let parser = Mapped::new(
        atom.with_operators((
            postfix(2, just('!'), |l, _| u(Expr::Factorial, l)),
            (
                postfix(0, just('$'), |l, _| u(Expr::Value, l)),
                (
                    infix(left(1), just('+'), |l, _, r| i(Expr::Add, l, r)),
                    (
                        infix(left(1), just('-'), |l, _, r| i(Expr::Sub, l, r)),
                        (
                            infix(right(2), just('*'), |l, _, r| i(Expr::Mul, l, r)),
                            (infix(right(2), just('/'), |l, _, r| i(Expr::Div, l, r)),),
                        ),
                    ),
                ),
            ),
        )),
        |x: Expr| x.to_string(),
    );

    assert_eq!(
        parse_all(&parser, "1+2!$*3"),
        Ok("(((1 + (2!))$) * 3)".to_string()),
    )
}

#[test]
fn with_pre_and_postfix_ops() {
    let atom = Mapped::new(integer(), literal);

    let parser = Mapped::new(
        atom.with_operators((
            prefix(4, just('-'), |_, r| u(Expr::Negate, r)),
            (
                prefix(4, just('~'), |_, r| u(Expr::Not, r)),
                (
                    prefix(1, just('§'), |_, r| u(Expr::Confusion, r)),
                    (
                        postfix(5, just('!'), |l, _| u(Expr::Factorial, l)),
                        (
                            postfix(0, just('$'), |l, _| u(Expr::Value, l)),
                            (
                                infix(left(1), just('+'), |l, _, r| i(Expr::Add, l, r)),
                                (
                                    infix(left(1), just('-'), |l, _, r| i(Expr::Sub, l, r)),
                                    (
                                        infix(right(2), just('*'), |l, _, r| i(Expr::Mul, l, r)),
                                        (
                                            infix(
                                                right(2),
                                                just('/'),
                                                |l, _, r| i(Expr::Div, l, r),
                                            ),
                                        ),
                                    ),
                                ),
                            ),
                        ),
                    ),
                ),
            ),
        )),
        |x: Expr| x.to_string(),
    );
    assert_eq!(
        parse_all(&parser, "§1+-~2!$*3"),
        Ok("(((§(1 + (-(~(2!)))))$) * 3)".to_string()),
    )
}
