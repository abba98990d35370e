//! What a parser is, and the few primitive parsers that expressions are
//! built from.

use crate::input::{failure_at, furthest, Failure, Input, InputView};
use crate::pratt::Pratt;
use vstd::prelude::*;

verus! {

/// Whether a parser builds its value or only finds out where it would end.
#[derive(Copy, Clone, Debug, PartialEq, Eq, Structural)]
pub enum Mode {
    /// Only success, the end of the match and the failures are worked out:
    /// no value is built and no fold function is called.
    Check,
    /// The value is built.
    Emit,
}

/// What an attempt at one position comes to, whatever the mode.
pub ghost struct Reply {
    /// Where the match ends, or `None` where there is no match.
    pub end: Option<int>,
    /// The furthest failure that the attempt records, if it records any.
    pub alt: Option<Failure>,
}

/// What [`Parser::go`] and [`crate::operator::Operator::parse_op`] hand back:
/// `Err(())` for no match, `Ok(None)` for a match in [`Mode::Check`], and
/// `Ok(Some(value))` for a match in [`Mode::Emit`].
pub type PResult<T> = Result<Option<T>, ()>;

/// The part of the contract of a parsing step that does not depend on whose
/// step it is: the input is the same, the failures of the attempt are added
/// to the record, a match ends where `reply` says and has a value exactly in
/// [`Mode::Emit`], and a failed attempt leaves a record.
pub open spec fn step_obeys<T>(
    before: InputView,
    after: InputView,
    mode: Mode,
    reply: Reply,
    r: PResult<T>,
) -> bool {
    &&& after.src == before.src
    &&& after.alt == furthest(before.alt, reply.alt)
    &&& match r {
        Ok(out) => {
            &&& reply.end == Some(after.pos)
            &&& before.pos <= after.pos <= after.src.len()
            &&& (out is Some <==> mode is Emit)
        },
        Err(()) => {
            &&& reply.end is None
            &&& 0 <= after.pos <= after.src.len()
            &&& after.alt is Some
        },
    }
}

/// A parser: something that reads from an [`Input`] and either matches,
/// leaving the cursor behind what it matched, or does not.
///
/// Where a parser matches and what it records is a function of the input
/// and the position ([`Self::reply`]); the value of a match is whatever
/// [`Self::yields`] allows.
pub trait Parser {
    /// The type of the values that the parser builds.
    type Output;

    /// What an attempt at `pos` comes to.
    spec fn reply(&self, src: Seq<char>, pos: int) -> Reply;

    /// Whether `out` can be the value of a match at `pos`.
    spec fn yields(&self, src: Seq<char>, pos: int, out: Self::Output) -> bool;

    /// Runs the parser at the cursor. After a failed attempt the cursor may
    /// be anywhere: the caller rewinds.
    ///
    /// The type of the value is named through the parser here. On a parser
    /// made of closures Verus does not tell that type from the name, and a
    /// caller then learns where the match ends but not what is said of the
    /// value. [`parse`], [`parse_lazy`] and, for expressions,
    /// [`Pratt::parse_expr`] and [`crate::pratt::pratt_go`] name the type by
    /// itself and say it.
    fn go(&self, inp: &mut Input, mode: Mode) -> (r: PResult<Self::Output>)
        requires
            old(inp).wf(),
        ensures
            step_obeys(old(inp)@, final(inp)@, mode, self.reply(old(inp)@.src, old(inp)@.pos), r),
            r matches Ok(Some(out)) ==> self.yields(old(inp)@.src, old(inp)@.pos, out),
    ;

    /// This parser with white space allowed before and after it.
    fn padded(self) -> (p: Padded<Self>) where Self: Sized
        ensures
            p.inner() == self,
    {
        Padded { parser: self }
    }

    /// This parser, or `other` where this one does not match.
    fn or<B>(self, other: B) -> (p: Or<Self, B>) where Self: Sized
        ensures
            p.first() == self,
            p.second() == other,
    {
        Or { first: self, second: other }
    }

    /// This parser between `open` and `close`.
    fn delimited_by<L, R>(self, open: L, close: R) -> (p: Delimited<L, Self, R>) where Self: Sized
        ensures
            p.open() == open,
            p.inner() == self,
            p.close() == close,
    {
        Delimited { open, inner: self, close }
    }

    /// The parser for expressions that have this parser for their atoms and
    /// `ops` for their operators.
    fn with_operators<Ops>(self, ops: Ops) -> (pratt: Pratt<Self, Ops>) where Self: Sized
        ensures
            pratt.atom() == self,
            pratt.ops() == ops,
    {
        Pratt::new(self, ops)
    }
}

/// See [`just`].
#[derive(Copy, Clone, Debug)]
pub struct Just {
    token: char,
}

/// A parser that matches the one character `token` and yields it.
pub fn just(token: char) -> (p: Just)
    ensures
        p.token() == token,
{
    Just { token }
}

impl Just {
    /// The character that is matched.
    pub closed spec fn token(&self) -> char {
        self.token
    }
}

impl Parser for Just {
    type Output = char;

    open spec fn reply(&self, src: Seq<char>, pos: int) -> Reply {
        if 0 <= pos < src.len() && src[pos] == self.token() {
            Reply { end: Some(pos + 1), alt: None }
        } else {
            Reply { end: None, alt: Some(failure_at(src, pos)) }
        }
    }

    open spec fn yields(&self, src: Seq<char>, pos: int, out: char) -> bool {
        out == self.token()
    }

    fn go(&self, inp: &mut Input, mode: Mode) -> (r: PResult<char>) {
        match inp.peek() {
            Some(c) if c == self.token => {
                inp.skip();
                match mode {
                    Mode::Emit => Ok(Some(c)),
                    Mode::Check => Ok(None),
                }
            },
            _ => {
                inp.reject();
                Err(())
            },
        }
    }
}

/// See [`empty`].
#[derive(Copy, Clone, Debug)]
pub struct Empty {}

/// A parser that matches wherever it is tried, reads nothing and yields
/// `()`. As the token parser of an infix operator it makes an expression of
/// operands that stand side by side.
pub fn empty() -> Empty {
    Empty {  }
}

impl Parser for Empty {
    type Output = ();

    open spec fn reply(&self, src: Seq<char>, pos: int) -> Reply {
        Reply { end: Some(pos), alt: None }
    }

    open spec fn yields(&self, src: Seq<char>, pos: int, out: ()) -> bool {
        true
    }

    fn go(&self, inp: &mut Input, mode: Mode) -> (r: PResult<()>) {
        match mode {
            Mode::Emit => Ok(Some(())),
            Mode::Check => Ok(None),
        }
    }
}

/// White space as Unicode has it (the property `White_Space`).
pub open spec fn spec_is_whitespace(c: char) -> bool {
    let n = c as u32;
    ||| 0x09 <= n <= 0x0D
    ||| n == 0x20
    ||| n == 0x85
    ||| n == 0xA0
    ||| n == 0x1680
    ||| 0x2000 <= n <= 0x200A
    ||| n == 0x2028
    ||| n == 0x2029
    ||| n == 0x202F
    ||| n == 0x205F
    ||| n == 0x3000
}

/// Whether `c` is white space.
pub fn is_whitespace(c: char) -> (b: bool)
    ensures
        b == spec_is_whitespace(c),
{
    let n = c as u32;
    (0x09 <= n && n <= 0x0D) || n == 0x20 || n == 0x85 || n == 0xA0 || n == 0x1680 || (0x2000 <= n
        && n <= 0x200A) || n == 0x2028 || n == 0x2029 || n == 0x202F || n == 0x205F || n == 0x3000
}

/// The first position from `pos` on that holds no white space.
pub open spec fn skip_whitespace(src: Seq<char>, pos: int) -> int
    decreases src.len() - pos,
{
    if 0 <= pos < src.len() && spec_is_whitespace(src[pos]) {
        skip_whitespace(src, pos + 1)
    } else {
        pos
    }
}

/// Skipping white space moves forward and stays within the input.
pub proof fn lemma_skip_whitespace_bounds(src: Seq<char>, pos: int)
    requires
        0 <= pos <= src.len(),
    ensures
        pos <= skip_whitespace(src, pos) <= src.len(),
    decreases src.len() - pos,
{
    if pos < src.len() && spec_is_whitespace(src[pos]) {
        lemma_skip_whitespace_bounds(src, pos + 1);
    }
}

fn skip_padding(inp: &mut Input)
    requires
        old(inp).wf(),
    ensures
        final(inp).wf(),
        final(inp)@ == (InputView {
            pos: skip_whitespace(old(inp)@.src, old(inp)@.pos),
            ..old(inp)@
        }),
{
    loop
        invariant
            inp.wf(),
            inp@.src == old(inp)@.src,
            inp@.alt == old(inp)@.alt,
            old(inp)@.pos <= inp@.pos,
            skip_whitespace(inp@.src, inp@.pos) == skip_whitespace(old(inp)@.src, old(inp)@.pos),
        ensures
            inp.wf(),
            inp@ == (InputView {
                pos: skip_whitespace(old(inp)@.src, old(inp)@.pos),
                ..old(inp)@
            }),
        decreases inp@.src.len() - inp@.pos,
    {
        match inp.peek() {
            Some(c) if is_whitespace(c) => {
                inp.skip();
            },
            _ => {
                break ;
            },
        }
    }
}

/// See [`Parser::padded`].
#[derive(Copy, Clone, Debug)]
pub struct Padded<P> {
    parser: P,
}

impl<P> Padded<P> {
    /// The parser between the white space.
    pub closed spec fn inner(&self) -> P {
        self.parser
    }
}

impl<P: Parser> Parser for Padded<P> {
    type Output = P::Output;

    open spec fn reply(&self, src: Seq<char>, pos: int) -> Reply {
        let inner = self.inner().reply(src, skip_whitespace(src, pos));
        Reply {
            end: match inner.end {
                Some(e) => Some(skip_whitespace(src, e)),
                None => None,
            },
            alt: inner.alt,
        }
    }

    open spec fn yields(&self, src: Seq<char>, pos: int, out: P::Output) -> bool {
        self.inner().yields(src, skip_whitespace(src, pos), out)
    }

    fn go(&self, inp: &mut Input, mode: Mode) -> (r: PResult<P::Output>) {
        proof {
            lemma_skip_whitespace_bounds(inp@.src, inp@.pos);
        }
        skip_padding(inp);
        let r = self.parser.go(inp, mode);
        if r.is_ok() {
            proof {
                lemma_skip_whitespace_bounds(inp@.src, inp@.pos);
            }
            skip_padding(inp);
        }
        r
    }
}

/// See [`Parser::or`].
#[derive(Copy, Clone, Debug)]
pub struct Or<A, B> {
    first: A,
    second: B,
}

impl<A, B> Or<A, B> {
    /// The parser that is tried first.
    pub closed spec fn first(&self) -> A {
        self.first
    }

    /// The parser that is tried where the first does not match.
    pub closed spec fn second(&self) -> B {
        self.second
    }
}

impl<A: Parser, B: Parser<Output = A::Output>> Parser for Or<A, B> {
    type Output = A::Output;

    open spec fn reply(&self, src: Seq<char>, pos: int) -> Reply {
        let first = self.first().reply(src, pos);
        if first.end is Some {
            first
        } else {
            let second = self.second().reply(src, pos);
            Reply { end: second.end, alt: furthest(first.alt, second.alt) }
        }
    }

    open spec fn yields(&self, src: Seq<char>, pos: int, out: A::Output) -> bool {
        if self.first().reply(src, pos).end is Some {
            self.first().yields(src, pos, out)
        } else {
            self.second().yields(src, pos, out)
        }
    }

    fn go(&self, inp: &mut Input, mode: Mode) -> (r: PResult<A::Output>) {
        let before = inp.save();
        match self.first.go(inp, mode) {
            Ok(out) => Ok(out),
            Err(()) => {
                inp.rewind(before);
                self.second.go(inp, mode)
            },
        }
    }
}

/// See [`Parser::delimited_by`].
#[derive(Copy, Clone, Debug)]
pub struct Delimited<L, P, R> {
    open: L,
    inner: P,
    close: R,
}

impl<L, P, R> Delimited<L, P, R> {
    /// The parser for what stands before.
    pub closed spec fn open(&self) -> L {
        self.open
    }

    /// The parser between the two.
    pub closed spec fn inner(&self) -> P {
        self.inner
    }

    /// The parser for what stands behind.
    pub closed spec fn close(&self) -> R {
        self.close
    }
}

/// What the next part of a sequence comes to, where the part before it ends
/// at `before`: nothing where that part did not match.
pub open spec fn next_part(before: Option<int>, part: spec_fn(int) -> Reply) -> Reply {
    match before {
        Some(pos) => part(pos),
        None => Reply { end: None, alt: None },
    }
}

impl<L: Parser, P: Parser, R: Parser> Parser for Delimited<L, P, R> {
    type Output = P::Output;

    open spec fn reply(&self, src: Seq<char>, pos: int) -> Reply {
        let open = self.open().reply(src, pos);
        let inner = next_part(open.end, |at: int| self.inner().reply(src, at));
        let close = next_part(inner.end, |at: int| self.close().reply(src, at));
        Reply { end: close.end, alt: furthest(furthest(open.alt, inner.alt), close.alt) }
    }

    open spec fn yields(&self, src: Seq<char>, pos: int, out: P::Output) -> bool {
        self.open().reply(src, pos).end matches Some(at) && self.inner().yields(src, at, out)
    }

    fn go(&self, inp: &mut Input, mode: Mode) -> (r: PResult<P::Output>) {
        match self.open.go(inp, Mode::Check) {
            Ok(_) => {},
            Err(()) => {
                return Err(());
            },
        }
        let out = match self.inner.go(inp, mode) {
            Ok(out) => out,
            Err(()) => {
                return Err(());
            },
        };
        match self.close.go(inp, Mode::Check) {
            Ok(_) => Ok(out),
            Err(()) => Err(()),
        }
    }
}

/// A parser with a function applied to the value of each match (see
/// [`Mapped::new`]).
#[verifier::reject_recursive_types(P)]
#[verifier::reject_recursive_types(T)]
#[verifier::reject_recursive_types(U)]
pub struct Mapped<P: Parser<Output = T>, F: Fn(T) -> U, T, U> {
    parser: P,
    f: F,
    phantom: Ghost<Option<(T, U)>>,
}

impl<P: Parser<Output = T>, F: Fn(T) -> U, T, U> Mapped<P, F, T, U> {
    /// `parser` with `f` applied to the value of each match. `f` must accept
    /// every value.
    pub fn new(parser: P, f: F) -> (p: Self)
        requires
            forall|x: T| call_requires(f, (x,)),
        ensures
            p.inner() == parser,
            p.function() == f,
            forall|src: Seq<char>, pos: int| #[trigger] p.reply(src, pos) == parser.reply(src, pos),
            forall|src: Seq<char>, pos: int, out: U| #[trigger]
                p.yields(src, pos, out) == (exists|x: T|
                    parser.yields(src, pos, x) && #[trigger] call_ensures(f, (x,), out)),
    {
        Mapped { parser, f, phantom: Ghost(None) }
    }

    /// The parser whose values are mapped.
    pub closed spec fn inner(&self) -> P {
        self.parser
    }

    /// The function applied to them.
    pub closed spec fn function(&self) -> F {
        self.f
    }

    #[verifier::type_invariant]
    spec fn accepts_every_value(self) -> bool {
        forall|x: T| call_requires(self.f, (x,))
    }
}

impl<P: Parser<Output = T>, F: Fn(T) -> U, T, U> Parser for Mapped<P, F, T, U> {
    type Output = U;

    open spec fn reply(&self, src: Seq<char>, pos: int) -> Reply {
        self.inner().reply(src, pos)
    }

    open spec fn yields(&self, src: Seq<char>, pos: int, out: U) -> bool {
        exists|x: T|
            self.inner().yields(src, pos, x) && #[trigger] call_ensures(self.function(), (x,), out)
    }

    fn go(&self, inp: &mut Input, mode: Mode) -> (r: PResult<U>) {
        proof {
            use_type_invariant(self);
        }
        match self.parser.go(inp, mode) {
            Ok(Some(x)) => {
                let out = (self.f)(x);
                assert(call_ensures(self.function(), (x,), out));
                Ok(Some(out))
            },
            Ok(None) => Ok(None),
            Err(()) => Err(()),
        }
    }
}

/// The decimal digits `0` to `9`.
pub open spec fn spec_is_digit(c: char) -> bool {
    0x30 <= c as u32 <= 0x39
}

/// Whether `c` is a decimal digit.
pub fn is_digit(c: char) -> (b: bool)
    ensures
        b == spec_is_digit(c),
{
    let n = c as u32;
    0x30 <= n && n <= 0x39
}

/// The first position from `pos` on that holds no digit.
pub open spec fn skip_digits(src: Seq<char>, pos: int) -> int
    decreases src.len() - pos,
{
    if 0 <= pos < src.len() && spec_is_digit(src[pos]) {
        skip_digits(src, pos + 1)
    } else {
        pos
    }
}

/// Where the integer literal that starts at `pos` ends: behind a single
/// `0`, or behind the digits that follow a first digit other than `0`.
/// `None` where no digit stands at `pos`.
pub open spec fn integer_end(src: Seq<char>, pos: int) -> Option<int> {
    if 0 <= pos < src.len() && spec_is_digit(src[pos]) {
        if src[pos] == '0' {
            Some(pos + 1)
        } else {
            Some(skip_digits(src, pos + 1))
        }
    } else {
        None
    }
}

/// See [`integer`].
#[derive(Copy, Clone, Debug)]
pub struct Integer {}

/// A parser for a non-negative decimal integer written without leading
/// zeros. It yields the digits.
pub fn integer() -> Integer {
    Integer {  }
}

impl Parser for Integer {
    type Output = Vec<char>;

    open spec fn reply(&self, src: Seq<char>, pos: int) -> Reply {
        match integer_end(src, pos) {
            Some(end) => Reply { end: Some(end), alt: None },
            None => Reply { end: None, alt: Some(failure_at(src, pos)) },
        }
    }

    open spec fn yields(&self, src: Seq<char>, pos: int, out: Vec<char>) -> bool {
        integer_end(src, pos) matches Some(end) && out@ == src.subrange(pos, end)
    }

    fn go(&self, inp: &mut Input, mode: Mode) -> (r: PResult<Vec<char>>) {
        let ghost src = inp@.src;
        let ghost start = inp@.pos;
        let emit = matches!(mode, Mode::Emit);
        match inp.peek() {
            Some(first) if is_digit(first) => {
                let mut digits: Vec<char> = Vec::new();
                if emit {
                    digits.push(first);
                }
                inp.skip();
                assert(emit ==> digits@ =~= src.subrange(start, start + 1));
                if first != '0' {
                    loop
                        invariant
                            inp.wf(),
                            inp@.src == src,
                            inp@.alt == old(inp)@.alt,
                            0 <= start < inp@.pos,
                            skip_digits(src, inp@.pos) == skip_digits(src, start + 1),
                            emit ==> digits@ == src.subrange(start, inp@.pos),
                        ensures
                            inp.wf(),
                            inp@.src == src,
                            inp@.alt == old(inp)@.alt,
                            inp@.pos == skip_digits(src, start + 1),
                            start < inp@.pos,
                            emit ==> digits@ == src.subrange(start, inp@.pos),
                        decreases src.len() - inp@.pos,
                    {
                        match inp.peek() {
                            Some(c) if is_digit(c) => {
                                if emit {
                                    digits.push(c);
                                }
                                inp.skip();
                                assert(emit ==> digits@ =~= src.subrange(start, inp@.pos));
                            },
                            _ => {
                                break ;
                            },
                        }
                    }
                }
                if emit {
                    Ok(Some(digits))
                } else {
                    Ok(None)
                }
            },
            _ => {
                inp.reject();
                Err(())
            },
        }
    }
}

/// What is reported where `parser` does not match the whole of `src`: the
/// furthest failure met, the characters left over counting as one.
pub open spec fn complaint<P: Parser>(parser: P, src: Seq<char>) -> Option<Failure> {
    let reply = parser.reply(src, 0);
    match reply.end {
        Some(end) => furthest(reply.alt, Some(failure_at(src, end))),
        None => reply.alt,
    }
}

/// Parses the whole of `text`. Where `parser` does not match, or matches and
/// leaves something over, the furthest failure is reported.
///
/// A parser for expressions nests its calls as deeply as the operands in
/// `text` are nested, and no guard bounds that depth (see
/// [`crate::pratt::pratt_go`]): `text` that is not trusted should be bounded
/// in length.
pub fn parse<P: Parser<Output = O>, O>(parser: &P, text: &str) -> (r: Result<O, Vec<Failure>>)
    ensures
        r is Ok <==> parser.reply(text@, 0).end == Some(text@.len() as int),
        r matches Ok(out) ==> parser.yields(text@, 0, out),
        r matches Err(errors) ==> complaint(*parser, text@) is Some && errors@ == seq![
            complaint(*parser, text@)->0,
        ],
{
    let mut inp = Input::from_str(text);
    let mut errors: Vec<Failure> = Vec::new();
    match parser.go(&mut inp, Mode::Emit) {
        Ok(Some(out)) => {
            if inp.at_end() {
                return Ok(out);
            }
            inp.reject();
        },
        _ => {},
    }
    match inp.furthest_failure() {
        Some(failure) => {
            errors.push(failure);
        },
        None => {},
    }
    Err(errors)
}

/// Parses what `parser` matches at the start of `text`, whatever follows.
pub fn parse_lazy<P: Parser<Output = O>, O>(parser: &P, text: &str) -> (r: Result<
    O,
    Vec<Failure>,
>)
    ensures
        r is Ok <==> parser.reply(text@, 0).end is Some,
        r matches Ok(out) ==> parser.yields(text@, 0, out),
        r matches Err(errors) ==> parser.reply(text@, 0).alt is Some && errors@ == seq![
            parser.reply(text@, 0).alt->0,
        ],
{
    let mut inp = Input::from_str(text);
    let mut errors: Vec<Failure> = Vec::new();
    match parser.go(&mut inp, Mode::Emit) {
        Ok(Some(out)) => {
            return Ok(out);
        },
        _ => {},
    }
    match inp.furthest_failure() {
        Some(failure) => {
            errors.push(failure);
        },
        None => {},
    }
    Err(errors)
}

/// Whether `parser` matches the whole of `text`. No value is built.
pub fn check<P: Parser>(parser: &P, text: &str) -> (b: bool)
    ensures
        b == (parser.reply(text@, 0).end == Some(text@.len() as int)),
{
    let mut inp = Input::from_str(text);
    match parser.go(&mut inp, Mode::Check) {
        Ok(_) => inp.at_end(),
        Err(()) => false,
    }
}

} // verus!
