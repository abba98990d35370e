use pratt::pratt::{do_parse_infix, pratt_go};
use pratt::{
    check, empty, infix, integer, just, left, parse, parse_lazy, postfix, prefix, right, Boxed,
    Failure, Input, Mapped, Mode, Parser,
};

fn number(digits: Vec<char>) -> i64 {
    digits.into_iter().collect::<String>().parse().unwrap()
}

fn text(digits: Vec<char>) -> String {
    digits.into_iter().collect()
}

#[test]
fn empty_matches_everywhere_and_reads_nothing() {
    let mut inp = Input::from_str("ab");
    assert_eq!(empty().go(&mut inp, Mode::Emit), Ok(Some(())));
    assert_eq!(inp.offset(), 0);
    assert_eq!(empty().go(&mut inp, Mode::Check), Ok(None));
    inp.skip();
    inp.skip();
    assert_eq!(empty().go(&mut inp, Mode::Emit), Ok(Some(())));
    assert_eq!(inp.offset(), 2);
    assert_eq!(inp.furthest_failure(), None);
    assert_eq!(parse(&empty(), ""), Ok(()));
}

#[test]
fn atoms_side_by_side_are_folded() {
    let pairs = just('a').with_operators((infix(left(1), empty(), |_: char, _: (), r: char| r),));
    let mut inp = Input::from_str("aa");
    assert_eq!(pairs.go(&mut inp, Mode::Emit), Ok(Some('a')));
    assert_eq!(inp.offset(), 2);
    let counted = Mapped::new(just('a'), |_| 1u32)
        .with_operators((infix(left(1), empty(), |l: u32, _: (), r: u32| l + r),));
    assert_eq!(parse(&counted, "a"), Ok(1));
    assert_eq!(parse(&counted, "aa"), Ok(2));
    assert_eq!(parse(&counted, "aaaaa"), Ok(5));
    assert!(check(&counted, "aaa"));
    assert!(!check(&counted, "aab"));
}

fn products() -> impl Parser<Output = String> {
    Mapped::new(integer().padded(), text).with_operators((
        prefix(3, just('-').padded(), |_, x: String| format!("(-{x})")),
        (
            postfix(4, just('!').padded(), |x: String, _| format!("({x}!)")),
            (
                infix(left(0), just('+').padded(), |l: String, _, r: String| format!("({l}+{r})")),
                (infix(left(2), Mapped::new(empty(), |_| '*'), |l: String, _, r: String| {
                    format!("({l} {r})")
                }),),
            ),
        ),
    ))
}

#[test]
fn juxtaposition_has_its_binding_power() {
    assert_eq!(parse(&products(), "2 3"), Ok("(2 3)".to_string()));
    assert_eq!(parse(&products(), "2 3 4"), Ok("((2 3) 4)".to_string()));
    assert_eq!(parse(&products(), "1 + 2 3"), Ok("(1+(2 3))".to_string()));
    assert_eq!(parse(&products(), "1 2 + 3 4"), Ok("((1 2)+(3 4))".to_string()));
    assert_eq!(parse(&products(), "2! 3"), Ok("((2!) 3)".to_string()));
    assert_eq!(parse(&products(), "2 3!"), Ok("(2 (3!))".to_string()));
    assert_eq!(parse(&products(), "-2 3"), Ok("((-2) 3)".to_string()));
    assert_eq!(parse(&products(), "2"), Ok("2".to_string()));
}

#[test]
fn right_associative_juxtaposition() {
    let apply = |l: String, _, r: String| format!("({l} {r})");
    let applied =
        Mapped::new(integer().padded(), text).with_operators((infix(right(1), empty(), apply),));
    assert_eq!(parse(&applied, "1 2 3 4"), Ok("(1 (2 (3 4)))".to_string()));
}

#[test]
fn empty_token_without_right_operand_is_no_match() {
    assert_eq!(parse_lazy(&products(), "2 +"), Ok("2".to_string()));
    let stray = Failure { start: 2, end: 3, found: Some('?') };
    assert_eq!(parse(&products(), "2 ?"), Err(vec![stray]));
    assert_eq!(parse(&products(), ""), Err(vec![Failure { start: 0, end: 0, found: None }]));
    let mut inp = Input::from_str("2 ?");
    assert_eq!(products().go(&mut inp, Mode::Emit), Ok(Some("2".to_string())));
    assert_eq!(inp.offset(), 2);
}

#[test]
fn declared_before_an_empty_token_wins() {
    let ops = || -> Vec<Boxed<String, char>> {
        vec![
            Boxed::new(infix(left(1), just('-'), |l: String, _, r: String| format!("({l}-{r})"))),
            Boxed::new(infix(left(1), Mapped::new(empty(), |_| ' '), |l: String, _, r: String| {
                format!("({l} {r})")
            })),
            Boxed::new(prefix(2, just('-'), |_, x: String| format!("(-{x})"))),
        ]
    };
    let p = Mapped::new(integer(), text).with_operators(ops());
    assert_eq!(parse(&p, "1-2"), Ok("(1-2)".to_string()));
    let mut swapped = ops();
    swapped.swap(0, 1);
    let p = Mapped::new(integer(), text).with_operators(swapped);
    assert_eq!(parse(&p, "1-2"), Ok("(1 (-2))".to_string()));
    assert_eq!(parse(&p, "1-2-3"), Ok("((1 (-2)) (-3))".to_string()));
}

fn maybe() -> impl Parser<Output = String> {
    Mapped::new(integer(), text).or(Mapped::new(empty(), |_| "_".to_string()))
}

#[test]
fn empty_token_behind_empty_operand_is_no_match() {
    let p = maybe()
        .with_operators((infix(left(1), empty(), |l: String, _, r: String| format!("({l} {r})")),));
    assert_eq!(parse(&p, ""), Ok("_".to_string()));
    assert_eq!(parse(&p, "1"), Ok("1".to_string()));
    assert_eq!(parse_lazy(&p, "1+"), Ok("1".to_string()));
}

#[test]
fn empty_operands_between_tokens() {
    let p = maybe().with_operators((
        infix(left(1), just('+'), |l: String, _, r: String| format!("({l}+{r})")),
        (postfix(2, just('!'), |x: String, _| format!("({x}!)")),),
    ));
    assert_eq!(parse(&p, "+"), Ok("(_+_)".to_string()));
    assert_eq!(parse(&p, "1+"), Ok("(1+_)".to_string()));
    assert_eq!(parse(&p, "+2+"), Ok("((_+2)+_)".to_string()));
    assert_eq!(parse(&p, "!"), Ok("(_!)".to_string()));
}

#[test]
fn empty_prefix_and_postfix_tokens_are_no_tokens() {
    let p = Mapped::new(integer(), text).with_operators((
        prefix(1, empty(), |_, x: String| format!("(pre {x})")),
        (postfix(1, empty(), |x: String, _| format!("({x} post)")),),
    ));
    assert_eq!(parse(&p, "12"), Ok("12".to_string()));
    assert_eq!(parse(&p, ""), Err(vec![Failure { start: 0, end: 0, found: None }]));
}

#[test]
fn attempt_knows_where_the_expression_began() {
    let atom = Mapped::new(just('a'), |_| 1u32);
    let ops = (infix(left(1), empty(), |l: u32, _: (), r: u32| l + r),);
    let mut inp = Input::from_str("aa");
    let began = inp.save();
    assert_eq!(do_parse_infix(&atom, &ops, 0, &mut inp, began, Some(7), Mode::Emit), Err(Some(7)));
    let mut inp = Input::from_str("aa");
    let began = inp.save();
    assert_eq!(began.offset(), 0);
    inp.skip();
    assert_eq!(do_parse_infix(&atom, &ops, 0, &mut inp, began, Some(7), Mode::Emit), Ok(Some(8)));
    assert_eq!(inp.offset(), 2);
    let mut inp = Input::from_str("a");
    let began = inp.save();
    inp.skip();
    assert_eq!(do_parse_infix(&atom, &ops, 0, &mut inp, began, Some(7), Mode::Emit), Err(Some(7)));
    let mut inp = Input::from_str("aaa");
    assert_eq!(pratt_go(&atom, &ops, &mut inp, 0, Mode::Emit), Ok(Some(3)));
    assert_eq!(pratt_go(&atom, &ops, &mut inp, 0, Mode::Emit), Err(()));
}
