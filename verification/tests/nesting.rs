use pratt::{
    infix, integer, just, left, parse, postfix, prefix, right, Failure, Input, Mapped, Mode,
    Parser,
};

#[derive(Debug, PartialEq)]
enum Expr {
    Literal(i64),
    Negate(Box<Expr>),
    Factorial(Box<Expr>),
    Add(Box<Expr>, Box<Expr>),
    Sub(Box<Expr>, Box<Expr>),
    Mul(Box<Expr>, Box<Expr>),
    Pow(Box<Expr>, Box<Expr>),
}

fn print(e: &Expr) -> String {
    match e {
        Expr::Literal(n) => format!("{n}"),
        Expr::Negate(x) => format!("(-{})", print(x)),
        Expr::Factorial(x) => format!("({}!)", print(x)),
        Expr::Add(l, r) => format!("({} + {})", print(l), print(r)),
        Expr::Sub(l, r) => format!("({} - {})", print(l), print(r)),
        Expr::Mul(l, r) => format!("({} * {})", print(l), print(r)),
        Expr::Pow(l, r) => format!("({} ^ {})", print(l), print(r)),
    }
}

fn literal() -> impl Parser<Output = Expr> {
    Mapped::new(integer().padded(), |digits: Vec<char>| {
        Expr::Literal(digits.into_iter().collect::<String>().parse().unwrap())
    })
}

fn expressions(atom: impl Parser<Output = Expr>) -> impl Parser<Output = Expr> {
    let op = |c| just(c).padded();
    atom.with_operators((
        postfix(4, op('!'), |x, _| Expr::Factorial(Box::new(x))),
        (
            infix(right(3), op('^'), |l, _, r| Expr::Pow(Box::new(l), Box::new(r))),
            (
                prefix(2, op('-'), |_, x| Expr::Negate(Box::new(x))),
                (
                    infix(left(1), op('*'), |l, _, r| Expr::Mul(Box::new(l), Box::new(r))),
                    (
                        infix(left(0), op('+'), |l, _, r| Expr::Add(Box::new(l), Box::new(r))),
                        (infix(left(0), op('-'), |l, _, r| Expr::Sub(Box::new(l), Box::new(r))),),
                    ),
                ),
            ),
        ),
    ))
}

fn bracketed(inner: impl Parser<Output = Expr>) -> impl Parser<Output = Expr> {
    inner.delimited_by(just('(').padded(), just(')').padded()).or(literal())
}

fn nested() -> impl Parser<Output = Expr> {
    let depth0 = expressions(literal());
    let depth1 = expressions(bracketed(depth0));
    let depth2 = expressions(bracketed(depth1));
    let depth3 = expressions(bracketed(depth2));
    let depth4 = expressions(bracketed(depth3));
    let depth5 = expressions(bracketed(depth4));
    expressions(bracketed(depth5))
}

#[test]
fn brackets_override_binding_powers() {
    assert_eq!(parse(&nested(), "(1 + 2) * 3").map(|e| print(&e)), Ok("((1 + 2) * 3)".to_string()));
    assert_eq!(parse(&nested(), "1 + 2 * 3").map(|e| print(&e)), Ok("(1 + (2 * 3))".to_string()));
    assert_eq!(parse(&nested(), "(2 ^ 3) ^ 2").map(|e| print(&e)), Ok("((2 ^ 3) ^ 2)".to_string()));
    assert_eq!(parse(&nested(), "-(2!)").map(|e| print(&e)), Ok("(-(2!))".to_string()));
    assert_eq!(parse(&nested(), "(-2)!").map(|e| print(&e)), Ok("((-2)!)".to_string()));
    assert_eq!(parse(&nested(), "1 - (2 - 3)").map(|e| print(&e)), Ok("(1 - (2 - 3))".to_string()));
}

#[test]
fn printed_form_parses_to_the_same_tree() {
    let texts = [
        "7",
        "1 + 2 * 3",
        "1 * 2 + 3",
        "1 - 2 - 3",
        "2 ^ 3 ^ 2",
        "-2!",
        "-2 ^ 2",
        "- - 1",
        "3!!",
        "1 + -2! - -3 ^ 2",
        "1 + 2 * 3 ^ 4 ! - 5",
        "(1 - 2) * -(3 + 4)!",
        "1+2*3-4*5+6-7+8",
    ];
    for text in texts {
        let tree = parse(&nested(), text).unwrap();
        let printed = print(&tree);
        let again = parse(&nested(), &printed).unwrap();
        assert_eq!(again, tree, "{text:?} printed as {printed:?}");
        assert_eq!(print(&again), printed, "{text:?}");
    }
}

#[test]
fn printed_form_of_a_tree_made_by_hand() {
    let b = |e| Box::new(e);
    let tree = Expr::Sub(
        b(Expr::Mul(b(Expr::Add(b(Expr::Literal(1)), b(Expr::Literal(2)))), b(Expr::Literal(3)))),
        b(Expr::Negate(b(Expr::Pow(
            b(Expr::Factorial(b(Expr::Literal(4)))),
            b(Expr::Sub(b(Expr::Literal(5)), b(Expr::Literal(6)))),
        )))),
    );
    let printed = print(&tree);
    assert_eq!(printed, "(((1 + 2) * 3) - (-((4!) ^ (5 - 6))))");
    assert_eq!(parse(&nested(), &printed), Ok(tree));
}

#[test]
fn unclosed_bracket_fails_where_the_bracket_is_missed() {
    assert_eq!(
        parse(&nested(), "(1 + 2").map(|e| print(&e)),
        Err(vec![Failure { start: 6, end: 6, found: None }]),
    );
    assert_eq!(
        parse(&nested(), "1 + )").map(|e| print(&e)),
        Err(vec![Failure { start: 4, end: 5, found: Some(')') }]),
    );
}

#[test]
fn or_takes_the_first_that_matches() {
    let either = just('a').or(just('b'));
    assert_eq!(parse(&either, "a"), Ok('a'));
    assert_eq!(parse(&either, "b"), Ok('b'));
    assert_eq!(parse(&either, "c"), Err(vec![Failure { start: 0, end: 1, found: Some('c') }]));
    let longer = just('a').delimited_by(just('<'), just('>')).or(just('<'));
    let mut inp = Input::from_str("<a)");
    assert_eq!(longer.go(&mut inp, Mode::Emit), Ok(Some('<')));
    assert_eq!(inp.offset(), 1);
    assert_eq!(inp.furthest_failure(), Some(Failure { start: 2, end: 3, found: Some(')') }));
}

#[test]
fn delimited_yields_what_stands_between() {
    let quoted = integer().delimited_by(just('['), just(']'));
    assert_eq!(parse(&quoted, "[42]"), Ok(vec!['4', '2']));
    assert_eq!(parse(&quoted, "[42"), Err(vec![Failure { start: 3, end: 3, found: None }]));
    assert_eq!(parse(&quoted, "42]"), Err(vec![Failure { start: 0, end: 1, found: Some('4') }]));
    assert_eq!(parse(&quoted, "[]"), Err(vec![Failure { start: 1, end: 2, found: Some(']') }]));
    let mut inp = Input::from_str("[7]");
    assert_eq!(quoted.go(&mut inp, Mode::Check), Ok(None));
    assert!(inp.at_end());
}
