use pratt::parser::{is_digit, is_whitespace};
use pratt::{
    check, integer, just, parse, parse_lazy, Failure, Input, Mapped, Mode,
    Parser,
};

fn text(digits: Vec<char>) -> String {
    digits.into_iter().collect()
}

#[test]
fn just_matches_its_character_only() {
    let mut inp = Input::from_str("+-");
    assert_eq!(just('+').go(&mut inp, Mode::Emit), Ok(Some('+')));
    assert_eq!(inp.offset(), 1);
    assert_eq!(just('+').go(&mut inp, Mode::Emit), Err(()));
    assert_eq!(inp.furthest_failure(), Some(Failure { start: 1, end: 2, found: Some('-') }));
}

#[test]
fn just_fails_at_the_end() {
    let mut inp = Input::from_str("");
    assert_eq!(just('+').go(&mut inp, Mode::Emit), Err(()));
    assert_eq!(inp.furthest_failure(), Some(Failure { start: 0, end: 0, found: None }));
}

#[test]
fn check_mode_builds_no_value() {
    let mut inp = Input::from_str("+12");
    assert_eq!(just('+').go(&mut inp, Mode::Check), Ok(None));
    assert_eq!(inp.offset(), 1);
    assert_eq!(integer().go(&mut inp, Mode::Check), Ok(None));
    assert_eq!(inp.offset(), 3);
    let mut inp = Input::from_str(" 7 ");
    let counted = Mapped::new(integer().padded(), |digits: Vec<char>| digits.len());
    assert_eq!(counted.go(&mut inp, Mode::Check), Ok(None));
    assert_eq!(inp.offset(), 3);
}

#[test]
fn integer_reads_all_digits() {
    assert_eq!(parse(&Mapped::new(integer(), text), "120"), Ok("120".to_string()));
    assert_eq!(parse(&Mapped::new(integer(), text), "7"), Ok("7".to_string()));
    assert_eq!(parse(&Mapped::new(integer(), text), "0"), Ok("0".to_string()));
}

#[test]
fn integer_has_no_leading_zeros() {
    assert_eq!(parse_lazy(&Mapped::new(integer(), text), "007"), Ok("0".to_string()));
    assert_eq!(
        parse(&Mapped::new(integer(), text), "007"),
        Err(vec![Failure { start: 1, end: 2, found: Some('0') }]),
    );
}

#[test]
fn integer_needs_a_digit() {
    assert_eq!(
        parse(&Mapped::new(integer(), text), "x1"),
        Err(vec![Failure { start: 0, end: 1, found: Some('x') }]),
    );
    assert_eq!(
        parse(&Mapped::new(integer(), text), ""),
        Err(vec![Failure { start: 0, end: 0, found: None }]),
    );
    assert_eq!(
        parse(&Mapped::new(integer(), text), "١"),
        Err(vec![Failure { start: 0, end: 1, found: Some('١') }]),
    );
}

#[test]
fn integer_stops_at_the_first_other_character() {
    let mut inp = Input::from_str("42+1");
    let digits = integer().go(&mut inp, Mode::Emit);
    assert_eq!(digits, Ok(Some(vec!['4', '2'])));
    assert_eq!(inp.offset(), 2);
    assert_eq!(inp.furthest_failure(), None);
}

#[test]
fn padded_skips_white_space_on_both_sides() {
    let mut inp = Input::from_str(" \t\n12 \u{2003}+");
    assert_eq!(integer().padded().go(&mut inp, Mode::Emit), Ok(Some(vec!['1', '2'])));
    assert_eq!(inp.peek(), Some('+'));
    assert_eq!(inp.offset(), 7);
}

#[test]
fn padded_failure_is_that_of_the_inner_parser() {
    let mut inp = Input::from_str("  x");
    assert_eq!(just('y').padded().go(&mut inp, Mode::Emit), Err(()));
    assert_eq!(inp.furthest_failure(), Some(Failure { start: 2, end: 3, found: Some('x') }));
}

#[test]
fn white_space_is_what_unicode_says() {
    let white = [
        ' ', '\t', '\n', '\u{0B}', '\u{0C}', '\r', '\u{85}', '\u{A0}', '\u{1680}', '\u{2000}',
        '\u{200A}', '\u{2028}', '\u{2029}', '\u{202F}', '\u{205F}', '\u{3000}',
    ];
    for c in white {
        assert!(is_whitespace(c), "{c:?}");
    }
    for c in ['a', '0', '_', '\u{08}', '\u{0E}', '\u{1F}', '\u{200B}', '\u{FEFF}', '§'] {
        assert!(!is_whitespace(c), "{c:?}");
    }
    let mut n = 0u32;
    while n <= 0x3100 {
        if let Some(c) = char::from_u32(n) {
            assert_eq!(is_whitespace(c), c.is_whitespace(), "{c:?}");
        }
        n += 1;
    }
}

#[test]
fn digits_are_the_ten_decimal_ones() {
    for c in "0123456789".chars() {
        assert!(is_digit(c));
    }
    for c in ['/', ':', 'a', 'F', '٣', ' '] {
        assert!(!is_digit(c));
    }
}

#[test]
fn mapped_applies_the_function() {
    let doubled =
        Mapped::new(integer(), |digits: Vec<char>| text(digits).parse::<u32>().unwrap() * 2);
    assert_eq!(parse(&doubled, "21"), Ok(42));
}

#[test]
fn parse_wants_the_whole_input() {
    assert_eq!(parse(&just('a'), "a"), Ok('a'));
    assert_eq!(parse(&just('a'), "ab"), Err(vec![Failure { start: 1, end: 2, found: Some('b') }]));
    assert_eq!(parse(&just('a'), "b"), Err(vec![Failure { start: 0, end: 1, found: Some('b') }]));
    assert_eq!(parse(&just('a'), ""), Err(vec![Failure { start: 0, end: 0, found: None }]));
}

#[test]
fn parse_lazy_leaves_the_rest() {
    assert_eq!(parse_lazy(&just('a'), "ab"), Ok('a'));
    assert_eq!(
        parse_lazy(&just('a'), "ba"),
        Err(vec![Failure { start: 0, end: 1, found: Some('b') }]),
    );
}

#[test]
fn check_says_whether_parse_would_succeed() {
    assert!(check(&just('a'), "a"));
    assert!(!check(&just('a'), "ab"));
    assert!(!check(&just('a'), ""));
    assert!(check(&integer().padded(), "  12  "));
}
