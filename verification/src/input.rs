//! The input cursor: a sequence of characters, a read position that can be
//! saved and restored, and the furthest failure met so far.

use vstd::prelude::*;

verus! {

/// Where a parser stopped and what it found there in place of what it
/// wanted: the span of the offending character, or an empty span at the end
/// of the input.
#[derive(Copy, Clone, Debug, PartialEq, Eq, Structural)]
pub struct Failure {
    /// The offset at which the parser could not go on.
    pub start: usize,
    /// One past `start` where a character was found, `start` at the end of
    /// the input.
    pub end: usize,
    /// The character found, `None` at the end of the input.
    pub found: Option<char>,
}

/// The failure of a parser that cannot accept what stands at `pos`.
pub open spec fn failure_at(src: Seq<char>, pos: int) -> Failure {
    if 0 <= pos < src.len() {
        Failure { start: pos as usize, end: (pos + 1) as usize, found: Some(src[pos]) }
    } else {
        Failure { start: pos as usize, end: pos as usize, found: None }
    }
}

/// The furthest of two failures. Of two at the same offset the first stays.
pub open spec fn furthest(a: Option<Failure>, b: Option<Failure>) -> Option<Failure> {
    match (a, b) {
        (None, _) => b,
        (_, None) => a,
        (Some(x), Some(y)) => if y.start > x.start {
            b
        } else {
            a
        },
    }
}

/// A saved read position (see [`Input::save`]).
#[derive(Copy, Clone, Debug)]
pub struct Checkpoint {
    pos: usize,
}

impl Checkpoint {
    /// The position that was saved.
    pub fn offset(&self) -> (pos: usize)
        ensures
            pos == self@,
    {
        self.pos
    }
}

impl View for Checkpoint {
    type V = int;

    closed spec fn view(&self) -> int {
        self.pos as int
    }
}

/// What an [`Input`] is to its users.
pub ghost struct InputView {
    /// The characters, all of them, read or not.
    pub src: Seq<char>,
    /// The read position.
    pub pos: int,
    /// The furthest failure recorded so far.
    pub alt: Option<Failure>,
}

/// A cursor over a sequence of characters.
pub struct Input {
    src: Vec<char>,
    pos: usize,
    alt: Option<Failure>,
}

impl View for Input {
    type V = InputView;

    closed spec fn view(&self) -> InputView {
        InputView { src: self.src@, pos: self.pos as int, alt: self.alt }
    }
}

impl Input {
    /// The read position lies within the input.
    pub open spec fn wf(&self) -> bool {
        0 <= self@.pos <= self@.src.len()
    }

    /// A cursor at the start of `src`, with no failure recorded.
    pub fn new(src: Vec<char>) -> (inp: Input)
        ensures
            inp.wf(),
            inp@ == (InputView { src: src@, pos: 0, alt: None }),
    {
        Input { src, pos: 0, alt: None }
    }

    /// A cursor at the start of the characters of `text`.
    pub fn from_str(text: &str) -> (inp: Input)
        ensures
            inp.wf(),
            inp@ == (InputView { src: text@, pos: 0, alt: None }),
    {
        let mut src: Vec<char> = Vec::new();
        for c in it: text.chars()
            invariant
                it.seq() == text@,
                src@ == it.seq().take(it.index() as int),
        {
            src.push(c);
        }
        assert(src@ =~= text@);
        Input { src, pos: 0, alt: None }
    }

    /// The read position.
    pub fn offset(&self) -> (pos: usize)
        ensures
            pos == self@.pos,
    {
        self.pos
    }

    /// Whether everything has been read.
    pub fn at_end(&self) -> (b: bool)
        requires
            self.wf(),
        ensures
            b == (self@.pos == self@.src.len()),
    {
        self.pos >= self.src.len()
    }

    /// The furthest failure recorded so far.
    pub fn furthest_failure(&self) -> (alt: Option<Failure>)
        ensures
            alt == self@.alt,
    {
        self.alt
    }

    /// The character at the read position, if there is one.
    pub fn peek(&self) -> (c: Option<char>)
        requires
            self.wf(),
        ensures
            c == if self@.pos < self@.src.len() {
                Some(self@.src[self@.pos])
            } else {
                None
            },
    {
        if self.pos < self.src.len() {
            Some(self.src[self.pos])
        } else {
            None
        }
    }

    /// Moves past one character; at the end of the input nothing happens.
    pub fn skip(&mut self)
        requires
            old(self).wf(),
        ensures
            final(self).wf(),
            final(self)@ == (InputView {
                pos: if old(self)@.pos < old(self)@.src.len() {
                    old(self)@.pos + 1
                } else {
                    old(self)@.pos
                },
                ..old(self)@
            }),
    {
        if self.pos < self.src.len() {
            self.pos = self.pos + 1;
        }
    }

    /// The read position as a value to come back to. Nothing is changed.
    pub fn save(&self) -> (cp: Checkpoint)
        ensures
            cp@ == self@.pos,
    {
        Checkpoint { pos: self.pos }
    }

    /// Puts the read position back where `cp` was taken. What was read since
    /// is unread; the furthest failure stays. A checkpoint that lies beyond
    /// the end, as one of a longer input would, is the end.
    pub fn rewind(&mut self, cp: Checkpoint)
        ensures
            final(self).wf(),
            final(self)@ == (InputView {
                pos: if cp@ <= old(self)@.src.len() {
                    cp@
                } else {
                    old(self)@.src.len() as int
                },
                ..old(self)@
            }),
    {
        if cp.pos <= self.src.len() {
            self.pos = cp.pos;
        } else {
            self.pos = self.src.len();
        }
    }

    /// Records that what stands at the read position was not expected. The
    /// record replaces the one kept only where it lies further on.
    pub fn reject(&mut self)
        requires
            old(self).wf(),
        ensures
            final(self).wf(),
            final(self)@ == (InputView {
                alt: furthest(old(self)@.alt, Some(failure_at(old(self)@.src, old(self)@.pos))),
                ..old(self)@
            }),
            final(self)@.alt is Some,
    {
        let found = self.peek();
        let end = if self.pos < self.src.len() {
            self.pos + 1
        } else {
            self.pos
        };
        let failure = Failure { start: self.pos, end, found };
        let keep = match self.alt {
            Some(old_failure) => old_failure.start >= self.pos,
            None => false,
        };
        if !keep {
            self.alt = Some(failure);
        }
    }
}

} // verus!
