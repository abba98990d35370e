use pratt::{
    infix, integer, just, left, postfix, prefix, right, Associativity, Boxed, Failure, Input,
    Mapped, Mode, Operator, Parser, Role,
};

fn add(l: i64, _: char, r: i64) -> i64 {
    l + r
}

fn negate(_: char, x: i64) -> i64 {
    -x
}

fn square(x: i64, _: char) -> i64 {
    x * x
}

#[test]
fn infix_reports_its_role_and_associativity() {
    let op = infix(right(4), just('^'), add);
    assert!(op.is_infix());
    assert!(!op.is_prefix());
    assert!(!op.is_postfix());
    assert_eq!(op.associativity(), Associativity::Right(4));
    assert_eq!(op.associativity().left_power(), 9);
    assert_eq!(op.associativity().right_power(), 8);
}

#[test]
fn prefix_reports_its_role_and_power() {
    let op = prefix(3, just('-'), negate);
    assert!(op.is_prefix());
    assert!(!op.is_infix());
    assert!(!op.is_postfix());
    assert_eq!(op.associativity(), Associativity::Left(3));
    assert_eq!(op.associativity().left_power(), 6);
}

#[test]
fn postfix_reports_its_role_and_power() {
    let op = postfix(5, just('!'), square);
    assert!(op.is_postfix());
    assert!(!op.is_infix());
    assert!(!op.is_prefix());
    assert_eq!(op.associativity(), Associativity::Left(5));
    assert_eq!(op.associativity().right_power(), 11);
}

#[test]
fn each_operator_has_exactly_one_role() {
    let roles = |op: &dyn Operator<i64, Tok = char>| {
        [op.is_prefix(), op.is_postfix(), op.is_infix()].iter().filter(|b| **b).count()
    };
    assert_eq!(roles(&infix(left(1), just('+'), add)), 1);
    assert_eq!(roles(&prefix(1, just('-'), negate)), 1);
    assert_eq!(roles(&postfix(1, just('!'), square)), 1);
    assert_eq!(roles(&Boxed::new(infix(left(1), just('+'), add))), 1);
    assert_eq!(roles(&Boxed::new(prefix(1, just('-'), negate))), 1);
    assert_eq!(roles(&Boxed::new(postfix(1, just('!'), square))), 1);
}

#[test]
fn operator_token_is_read_by_its_parser() {
    let op = infix(left(1), just('+').padded(), add);
    let mut inp = Input::from_str(" + 2");
    assert_eq!(op.parse_op(&mut inp, Mode::Emit), Ok(Some('+')));
    assert_eq!(inp.offset(), 3);
    let mut inp = Input::from_str(" - 2");
    assert_eq!(op.parse_op(&mut inp, Mode::Emit), Err(()));
    assert_eq!(inp.furthest_failure(), Some(Failure { start: 1, end: 2, found: Some('-') }));
    let mut inp = Input::from_str("+");
    assert_eq!(op.parse_op(&mut inp, Mode::Check), Ok(None));
}

#[test]
fn fold_hands_operands_and_token_to_the_function() {
    let minus = infix(left(1), just('-'), |l: i64, op: char, r: i64| {
        assert_eq!(op, '-');
        l - r
    });
    assert_eq!(minus.fold(Some(7), '-', Some(2)), 5);
    assert_eq!(prefix(1, just('-'), negate).fold(None, '-', Some(4)), -4);
    assert_eq!(postfix(1, just('!'), square).fold(Some(4), '!', None), 16);
}

#[test]
fn token_may_be_of_any_type() {
    let digit = Mapped::new(integer(), |d: Vec<char>| d.len());
    let op = infix(left(1), digit, |l: String, n: usize, r: String| format!("{l}<{n}>{r}"));
    assert_eq!(op.fold(Some("a".to_string()), 3, Some("b".to_string())), "a<3>b");
}

#[test]
fn boxed_operator_behaves_as_the_one_in_the_box() {
    let plain = infix(right(2), just('^'), add);
    let boxed = Boxed::new(infix(right(2), just('^'), add));
    assert_eq!(boxed.is_infix(), plain.is_infix());
    assert_eq!(boxed.is_prefix(), plain.is_prefix());
    assert_eq!(boxed.is_postfix(), plain.is_postfix());
    assert_eq!(boxed.associativity(), plain.associativity());
    assert_eq!(boxed.fold(Some(1), '^', Some(2)), plain.fold(Some(1), '^', Some(2)));
    let mut a = Input::from_str("^x");
    let mut b = Input::from_str("^x");
    assert_eq!(boxed.parse_op(&mut a, Mode::Emit), plain.parse_op(&mut b, Mode::Emit));
    assert_eq!(a.offset(), b.offset());
    assert_eq!(boxed.parse_op(&mut a, Mode::Emit), plain.parse_op(&mut b, Mode::Emit));
    assert_eq!(a.furthest_failure(), b.furthest_failure());
}

#[test]
fn boxed_operators_of_all_roles() {
    let list: Vec<Boxed<i64, char>> = vec![
        Boxed::new(prefix(1, just('-'), negate)),
        Boxed::new(postfix(2, just('!'), square)),
        Boxed::new(infix(left(3), just('+'), add)),
    ];
    assert!(list[0].is_prefix());
    assert!(list[1].is_postfix());
    assert!(list[2].is_infix());
    assert_eq!(list[0].associativity(), left(1));
    assert_eq!(list[1].associativity(), left(2));
    assert_eq!(list[2].associativity(), left(3));
}

#[test]
fn clone_keeps_the_operator() {
    let op = infix(right(2), just('^'), add);
    let copy = op.clone();
    assert_eq!(copy.associativity(), right(2));
    assert_eq!(copy.fold(Some(1), '^', Some(2)), 3);
    let op = prefix(2, just('-'), negate);
    let copy = op.clone();
    assert_eq!(copy.associativity(), left(2));
    assert_eq!(copy.fold(None, '-', Some(2)), -2);
    let op = postfix(2, just('!'), square);
    let copy = op.clone();
    assert_eq!(copy.associativity(), left(2));
    assert_eq!(copy.fold(Some(3), '!', None), 9);
}

#[test]
fn clone_of_a_boxed_operator_shares_the_box() {
    let boxed: Boxed<i64, char> = Boxed::new(infix(right(2), just('^'), add));
    let copy = boxed.clone();
    assert!(copy.is_infix());
    assert_eq!(copy.associativity(), right(2));
    assert_eq!(copy.fold(Some(1), '^', Some(2)), 3);
    assert_eq!(boxed.fold(Some(2), '^', Some(2)), 4);
    let list = vec![boxed.clone(), copy, boxed];
    let mut inp = Input::from_str("^");
    assert_eq!(list[1].parse_op(&mut inp, Mode::Emit), Ok(Some('^')));
}

#[test]
fn roles_are_three() {
    assert_ne!(Role::Prefix, Role::Postfix);
    assert_ne!(Role::Prefix, Role::Infix);
    assert_ne!(Role::Postfix, Role::Infix);
}
