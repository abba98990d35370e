use pratt::{
    infix, integer, just, left, parse, parse_lazy, postfix, prefix, right, Associativity, Boxed,
    Failure, Mapped, Parser,
};

fn text(digits: Vec<char>) -> String {
    digits.into_iter().collect()
}

fn atom() -> impl Parser<Output = String> + 'static {
    Mapped::new(integer(), text)
}

fn binary(assoc: Associativity, token: char) -> Boxed<String, char> {
    Boxed::new(infix(assoc, just(token), |l: String, op: char, r: String| format!("({l}{op}{r})")))
}

fn before(power: u16, token: char) -> Boxed<String, char> {
    Boxed::new(prefix(power, just(token), |op: char, r: String| format!("({op}{r})")))
}

fn behind(power: u16, token: char) -> Boxed<String, char> {
    Boxed::new(postfix(power, just(token), |l: String, op: char| format!("({l}{op})")))
}

fn grouped(ops: Vec<Boxed<String, char>>, input: &str) -> Result<String, Vec<Failure>> {
    parse(&atom().with_operators(ops), input)
}

fn arithmetic() -> Vec<Boxed<String, char>> {
    vec![
        binary(left(0), '+'),
        binary(left(0), '-'),
        binary(left(1), '*'),
        binary(left(1), '/'),
    ]
}

#[test]
fn stronger_operator_takes_its_operands_first() {
    assert_eq!(grouped(arithmetic(), "2+3*4"), Ok("(2+(3*4))".to_string()));
    assert_eq!(grouped(arithmetic(), "2*3+4"), Ok("((2*3)+4)".to_string()));
    assert_eq!(grouped(arithmetic(), "1+2*3-4/5"), Ok("((1+(2*3))-(4/5))".to_string()));
}

#[test]
fn left_associative_chain_groups_to_the_left() {
    assert_eq!(grouped(arithmetic(), "1-2-3"), Ok("((1-2)-3)".to_string()));
    assert_eq!(grouped(arithmetic(), "1-2+3-4"), Ok("(((1-2)+3)-4)".to_string()));
    assert_eq!(grouped(arithmetic(), "8/4/2*3"), Ok("(((8/4)/2)*3)".to_string()));
}

#[test]
fn right_associative_chain_groups_to_the_right() {
    let ops = || vec![binary(left(0), '+'), binary(right(1), '*'), binary(right(1), '/')];
    assert_eq!(grouped(ops(), "1*2*3"), Ok("(1*(2*3))".to_string()));
    assert_eq!(grouped(ops(), "1*2/3*4"), Ok("(1*(2/(3*4)))".to_string()));
    assert_eq!(grouped(ops(), "1*2+3*4*5"), Ok("((1*2)+(3*(4*5)))".to_string()));
}

#[test]
fn equal_powers_of_mixed_associativity() {
    let ops = || vec![binary(left(1), '<'), binary(right(1), '>')];
    assert_eq!(grouped(ops(), "1<2<3"), Ok("((1<2)<3)".to_string()));
    assert_eq!(grouped(ops(), "1>2>3"), Ok("(1>(2>3))".to_string()));
    assert_eq!(grouped(ops(), "1<2>3"), Ok("(1<(2>3))".to_string()));
    assert_eq!(grouped(ops(), "1>2<3"), Ok("(1>(2<3))".to_string()));
}

#[test]
fn postfix_stronger_than_prefix_binds_first() {
    let ops = vec![before(1, '-'), behind(2, '!')];
    assert_eq!(grouped(ops, "-2!"), Ok("(-(2!))".to_string()));
}

#[test]
fn postfix_weaker_than_prefix_binds_last() {
    let ops = vec![before(2, '-'), behind(1, '!')];
    assert_eq!(grouped(ops, "-2!"), Ok("((-2)!)".to_string()));
}

#[test]
fn postfix_as_strong_as_prefix_binds_first() {
    let ops = vec![before(2, '-'), behind(2, '!')];
    assert_eq!(grouped(ops, "-2!"), Ok("(-(2!))".to_string()));
}

#[test]
fn prefix_operand_takes_stronger_infix_only() {
    let ops = || vec![before(1, '-'), binary(left(0), '+'), binary(left(2), '*')];
    assert_eq!(grouped(ops(), "-1*2"), Ok("(-(1*2))".to_string()));
    assert_eq!(grouped(ops(), "-1+2"), Ok("((-1)+2)".to_string()));
    assert_eq!(grouped(ops(), "-1*2+3"), Ok("((-(1*2))+3)".to_string()));
}

#[test]
fn prefix_operators_nest() {
    let ops = vec![before(3, '-'), before(3, '~'), behind(4, '!'), behind(0, '$')];
    assert_eq!(grouped(ops, "-~-2!!$$"), Ok("(((-(~(-((2!)!))))$)$)".to_string()));
}

#[test]
fn prefix_and_infix_may_share_a_token() {
    let ops = || vec![before(2, '-'), binary(left(1), '-'), binary(left(1), '+')];
    assert_eq!(grouped(ops(), "1--2"), Ok("(1-(-2))".to_string()));
    assert_eq!(grouped(ops(), "-1-2"), Ok("((-1)-2)".to_string()));
    assert_eq!(grouped(ops(), "-1+-2--3"), Ok("(((-1)+(-2))-(-3))".to_string()));
}

fn tagged(assoc: Associativity, token: char, tag: char) -> Boxed<String, char> {
    Boxed::new(
        infix(assoc, just(token), move |l: String, _: char, r: String| format!("({l}{tag}{r})")),
    )
}

#[test]
fn earlier_declared_infix_wins() {
    let ops = vec![tagged(left(1), '+', 'a'), tagged(left(1), '+', 'b')];
    assert_eq!(grouped(ops, "1+2+3"), Ok("((1a2)a3)".to_string()));
    let ops = vec![tagged(left(1), '+', 'b'), tagged(left(1), '+', 'a')];
    assert_eq!(grouped(ops, "1+2+3"), Ok("((1b2)b3)".to_string()));
}

#[test]
fn earlier_declared_wins_among_those_strong_enough() {
    let ops = vec![tagged(left(0), '+', 'a'), tagged(left(9), '+', 'b')];
    assert_eq!(grouped(ops, "1+2+3"), Ok("(1a(2b3))".to_string()));
    let ops = vec![tagged(left(9), '+', 'b'), tagged(left(0), '+', 'a')];
    assert_eq!(grouped(ops, "1+2+3"), Ok("((1b2)b3)".to_string()));
}

#[test]
fn later_declared_is_found_where_the_earlier_is_too_weak() {
    let ops = vec![tagged(left(0), '+', 'a'), tagged(left(9), '+', 'b'), binary(left(5), '*')];
    assert_eq!(grouped(ops, "1*2+3"), Ok("(1*(2b3))".to_string()));
}

#[test]
fn earlier_declared_prefix_wins() {
    let first = Boxed::new(prefix(1, just('-'), |_: char, r: String| format!("(first {r})")));
    let second = Boxed::new(prefix(1, just('-'), |_: char, r: String| format!("(second {r})")));
    assert_eq!(grouped(vec![first, second], "--1"), Ok("(first (first 1))".to_string()));
}

#[test]
fn earlier_declared_postfix_wins() {
    let first = Boxed::new(postfix(1, just('!'), |l: String, _: char| format!("({l} first)")));
    let second = Boxed::new(postfix(1, just('!'), |l: String, _: char| format!("({l} second)")));
    assert_eq!(grouped(vec![second, first], "1!!"), Ok("((1 second) second)".to_string()));
}

#[test]
fn postfix_goes_before_infix_wherever_declared() {
    let ops = || vec![binary(left(1), '!'), behind(1, '!')];
    assert_eq!(parse_lazy(&atom().with_operators(ops()), "1!2"), Ok("(1!)".to_string()));
    assert_eq!(
        grouped(ops(), "1!2"),
        Err(vec![Failure { start: 2, end: 3, found: Some('2') }]),
    );
}

#[test]
fn operators_too_weak_for_the_threshold_are_left_for_the_caller() {
    let ops = vec![binary(left(3), '^'), behind(1, '!'), binary(left(0), '+')];
    assert_eq!(grouped(ops, "1^2!+3"), Ok("(((1^2)!)+3)".to_string()));
}

#[test]
fn no_operators_leaves_the_atom() {
    assert_eq!(grouped(Vec::new(), "12"), Ok("12".to_string()));
    assert_eq!(
        grouped(Vec::new(), "12+3"),
        Err(vec![Failure { start: 2, end: 3, found: Some('+') }]),
    );
}

#[test]
fn same_input_gives_the_same_result() {
    let once = grouped(arithmetic(), "1+2*3/4*5-6*7+8-9+10");
    let twice = grouped(arithmetic(), "1+2*3/4*5-6*7+8-9+10");
    assert_eq!(once, twice);
    assert_eq!(once, Ok("(((((1+(((2*3)/4)*5))-(6*7))+8)-9)+10)".to_string()));
}
