use pratt::{
    check, infix, integer, just, left, parse, parse_lazy, postfix, prefix, Failure, Input,
    Mapped, Mode, Parser,
};

fn number(digits: Vec<char>) -> i64 {
    digits.into_iter().collect::<String>().parse().unwrap()
}

fn sums() -> impl Parser<Output = i64> {
    Mapped::new(integer(), number).with_operators((
        prefix(3, just('-'), |_, x: i64| -x),
        (
            postfix(4, just('!'), |x: i64, _| (1..=x).product()),
            (
                infix(left(1), just('+'), |l: i64, _, r: i64| l + r),
                (infix(left(2), just('*'), |l: i64, _, r: i64| l * r),),
            ),
        ),
    ))
}

fn at(start: usize, end: usize, found: Option<char>) -> Vec<Failure> {
    vec![Failure { start, end, found }]
}

#[test]
fn missing_right_operand_fails_behind_the_operator() {
    assert_eq!(parse(&sums(), "1+"), Err(at(2, 2, None)));
    assert_eq!(parse(&sums(), "1+2*"), Err(at(4, 4, None)));
    assert_eq!(parse(&sums(), "1+-"), Err(at(3, 3, None)));
}

#[test]
fn unknown_operator_fails_where_it_stands() {
    assert_eq!(parse(&sums(), "1?"), Err(at(1, 2, Some('?'))));
    assert_eq!(parse(&sums(), "1+2?3"), Err(at(3, 4, Some('?'))));
}

#[test]
fn missing_atom_fails_at_the_start() {
    assert_eq!(parse(&sums(), ""), Err(at(0, 0, None)));
    assert_eq!(parse(&sums(), "+1"), Err(at(0, 1, Some('+'))));
    assert_eq!(parse_lazy(&sums(), ""), Err(at(0, 0, None)));
}

#[test]
fn prefix_without_operand_fails_behind_the_prefix() {
    assert_eq!(parse(&sums(), "-"), Err(at(1, 1, None)));
    assert_eq!(parse(&sums(), "--*"), Err(at(2, 3, Some('*'))));
    assert_eq!(parse_lazy(&sums(), "-"), Err(at(1, 1, None)));
}

#[test]
fn operator_without_right_operand_is_left_unread() {
    assert_eq!(parse_lazy(&sums(), "1+"), Ok(1));
    assert_eq!(parse_lazy(&sums(), "1+2*"), Ok(3));
    assert_eq!(parse_lazy(&sums(), "2*3+?"), Ok(6));
    assert_eq!(parse_lazy(&sums(), "1?"), Ok(1));
}

#[test]
fn cursor_stops_behind_the_expression() {
    let mut inp = Input::from_str("1+2*3+?");
    assert_eq!(sums().go(&mut inp, Mode::Emit), Ok(Some(7)));
    assert_eq!(inp.offset(), 5);
    assert_eq!(inp.peek(), Some('+'));
    assert_eq!(inp.furthest_failure(), Some(Failure { start: 6, end: 7, found: Some('?') }));
}

#[test]
fn failed_expression_leaves_its_record() {
    let mut inp = Input::from_str("-?");
    assert_eq!(sums().go(&mut inp, Mode::Emit), Err(()));
    assert_eq!(inp.furthest_failure(), Some(Failure { start: 1, end: 2, found: Some('?') }));
}

#[test]
fn expression_can_start_anywhere() {
    let mut inp = Input::from_str("??3!+1");
    inp.skip();
    inp.skip();
    assert_eq!(sums().go(&mut inp, Mode::Emit), Ok(Some(7)));
    assert!(inp.at_end());
}

#[test]
fn check_mode_reads_as_far_and_records_as_much() {
    for text in ["1+2*3+?", "-?", "", "1+", "-2!*3", "4!!", "1+2"] {
        let mut emitted = Input::from_str(text);
        let mut checked = Input::from_str(text);
        let value = sums().go(&mut emitted, Mode::Emit);
        let seen = sums().go(&mut checked, Mode::Check);
        assert_eq!(seen.is_ok(), value.is_ok(), "{text:?}");
        assert_eq!(seen.unwrap_or(None), None, "{text:?}");
        if value.is_ok() {
            assert_eq!(checked.offset(), emitted.offset(), "{text:?}");
        }
        assert_eq!(checked.furthest_failure(), emitted.furthest_failure(), "{text:?}");
        assert_eq!(check(&sums(), text), parse(&sums(), text).is_ok(), "{text:?}");
    }
}

#[test]
fn check_mode_calls_no_fold_function() {
    let strict = Mapped::new(integer(), number).with_operators((
        infix(left(1), just('+'), |_: i64, _: char, _: i64| -> i64 { panic!("folded") }),
    ));
    assert!(check(&strict, "1+2+3"));
    assert!(!check(&strict, "1+2+"));
}
