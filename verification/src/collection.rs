//! Collections of operators: what the engine asks of one, and the two kinds
//! that there are.
//!
//! A `Vec` holds operators of one type, which may be [`crate::Boxed`]; its
//! length is known when the program runs. A chain of tuples such as
//! `(a, (b, (c,)))` holds operators of a type each; what it holds is known
//! when the program is compiled, and nothing is dispatched. (A chain counts
//! no more operators than a `usize` can number.)

use crate::assoc::Associativity;
use crate::input::Input;
use crate::operator::{operands_fit, Operator, Role};
use crate::parser::{step_obeys, Mode, PResult, Reply};
use vstd::prelude::*;

verus! {

/// One of two: the token of the first operator of a chain, or that of one of
/// the others.
pub enum Either<L, R> {
    /// A token of the first operator.
    Left(L),
    /// A token of one of the others.
    Right(R),
}

/// An ordered collection of operators, each known by the place where it was
/// declared. `O` is the type of the expressions.
pub trait Operators<O> {
    /// The type of what the token parsers yield.
    type Tok;

    /// How many operators there are.
    spec fn count(&self) -> nat;

    /// The role of the `i`-th operator.
    spec fn role_at(&self, i: int) -> Role;

    /// The associativity and binding power of the `i`-th operator.
    spec fn spec_associativity_at(&self, i: int) -> Associativity;

    /// What an attempt to read the token of the `i`-th operator at `pos`
    /// comes to.
    spec fn reply_at(&self, i: int, src: Seq<char>, pos: int) -> Reply;

    /// Whether `tok` is of the kind that the token parser of the `i`-th
    /// operator yields.
    spec fn owns(&self, i: int, tok: Self::Tok) -> bool;

    /// Whether `tok` can be what the token parser of the `i`-th operator
    /// yields for a match at `pos`.
    spec fn yields_at(&self, i: int, src: Seq<char>, pos: int, tok: Self::Tok) -> bool;

    /// Whether `out` can be what the fold function of the `i`-th operator
    /// gives for these operands and this token.
    spec fn folds_at(
        &self,
        i: int,
        lhs: Option<O>,
        tok: Self::Tok,
        rhs: Option<O>,
        out: O,
    ) -> bool;

    /// How many operators there are.
    fn len(&self) -> (n: usize)
        ensures
            n == self.count(),
    ;

    /// Whether the `i`-th operator stands between two operands.
    fn is_infix_at(&self, i: usize) -> (b: bool)
        requires
            i < self.count(),
        ensures
            b == (self.role_at(i as int) is Infix),
    ;

    /// Whether the `i`-th operator stands before its operand.
    fn is_prefix_at(&self, i: usize) -> (b: bool)
        requires
            i < self.count(),
        ensures
            b == (self.role_at(i as int) is Prefix),
    ;

    /// Whether the `i`-th operator stands behind its operand.
    fn is_postfix_at(&self, i: usize) -> (b: bool)
        requires
            i < self.count(),
        ensures
            b == (self.role_at(i as int) is Postfix),
    ;

    /// The associativity and binding power of the `i`-th operator.
    fn associativity_at(&self, i: usize) -> (a: Associativity)
        requires
            i < self.count(),
        ensures
            a == self.spec_associativity_at(i as int),
    ;

    /// Runs the token parser of the `i`-th operator at the cursor. After a
    /// failed attempt the cursor may be anywhere.
    fn parse_op_at(&self, i: usize, inp: &mut Input, mode: Mode) -> (r: PResult<Self::Tok>)
        requires
            i < self.count(),
            old(inp).wf(),
        ensures
            step_obeys(
                old(inp)@,
                final(inp)@,
                mode,
                self.reply_at(i as int, old(inp)@.src, old(inp)@.pos),
                r,
            ),
            r matches Ok(Some(tok)) ==> self.owns(i as int, tok) && self.yields_at(
                i as int,
                old(inp)@.src,
                old(inp)@.pos,
                tok,
            ),
    ;

    /// Folds the operands and a token of the `i`-th operator into one
    /// expression with the fold function of that operator.
    fn fold_at(&self, i: usize, lhs: Option<O>, tok: Self::Tok, rhs: Option<O>) -> (out: O)
        requires
            i < self.count(),
            self.owns(i as int, tok),
            operands_fit(self.role_at(i as int), lhs is Some, rhs is Some),
        ensures
            self.folds_at(i as int, lhs, tok, rhs, out),
    ;
}

impl<O, Op: Operator<O>> Operators<O> for Vec<Op> {
    type Tok = Op::Tok;

    open spec fn count(&self) -> nat {
        self@.len()
    }

    open spec fn role_at(&self, i: int) -> Role {
        self@[i].role()
    }

    open spec fn spec_associativity_at(&self, i: int) -> Associativity {
        self@[i].spec_associativity()
    }

    open spec fn reply_at(&self, i: int, src: Seq<char>, pos: int) -> Reply {
        self@[i].op_reply(src, pos)
    }

    open spec fn owns(&self, i: int, tok: Op::Tok) -> bool {
        true
    }

    open spec fn yields_at(&self, i: int, src: Seq<char>, pos: int, tok: Op::Tok) -> bool {
        self@[i].op_yields(src, pos, tok)
    }

    open spec fn folds_at(
        &self,
        i: int,
        lhs: Option<O>,
        tok: Op::Tok,
        rhs: Option<O>,
        out: O,
    ) -> bool {
        self@[i].folds(lhs, tok, rhs, out)
    }

    fn len(&self) -> (n: usize) {
        Vec::len(self)
    }

    fn is_infix_at(&self, i: usize) -> (b: bool) {
        self[i].is_infix()
    }

    fn is_prefix_at(&self, i: usize) -> (b: bool) {
        self[i].is_prefix()
    }

    fn is_postfix_at(&self, i: usize) -> (b: bool) {
        self[i].is_postfix()
    }

    fn associativity_at(&self, i: usize) -> (a: Associativity) {
        self[i].associativity()
    }

    fn parse_op_at(&self, i: usize, inp: &mut Input, mode: Mode) -> (r: PResult<Op::Tok>) {
        self[i].parse_op(inp, mode)
    }

    fn fold_at(&self, i: usize, lhs: Option<O>, tok: Op::Tok, rhs: Option<O>) -> (out: O) {
        self[i].fold(lhs, tok, rhs)
    }
}

impl<O, H: Operator<O>> Operators<O> for (H,) {
    type Tok = H::Tok;

    open spec fn count(&self) -> nat {
        1
    }

    open spec fn role_at(&self, i: int) -> Role {
        self.0.role()
    }

    open spec fn spec_associativity_at(&self, i: int) -> Associativity {
        self.0.spec_associativity()
    }

    open spec fn reply_at(&self, i: int, src: Seq<char>, pos: int) -> Reply {
        self.0.op_reply(src, pos)
    }

    open spec fn owns(&self, i: int, tok: H::Tok) -> bool {
        true
    }

    open spec fn yields_at(&self, i: int, src: Seq<char>, pos: int, tok: H::Tok) -> bool {
        self.0.op_yields(src, pos, tok)
    }

    open spec fn folds_at(
        &self,
        i: int,
        lhs: Option<O>,
        tok: H::Tok,
        rhs: Option<O>,
        out: O,
    ) -> bool {
        self.0.folds(lhs, tok, rhs, out)
    }

    fn len(&self) -> (n: usize) {
        1
    }

    fn is_infix_at(&self, i: usize) -> (b: bool) {
        self.0.is_infix()
    }

    fn is_prefix_at(&self, i: usize) -> (b: bool) {
        self.0.is_prefix()
    }

    fn is_postfix_at(&self, i: usize) -> (b: bool) {
        self.0.is_postfix()
    }

    fn associativity_at(&self, i: usize) -> (a: Associativity) {
        self.0.associativity()
    }

    fn parse_op_at(&self, i: usize, inp: &mut Input, mode: Mode) -> (r: PResult<H::Tok>) {
        self.0.parse_op(inp, mode)
    }

    fn fold_at(&self, i: usize, lhs: Option<O>, tok: H::Tok, rhs: Option<O>) -> (out: O) {
        self.0.fold(lhs, tok, rhs)
    }
}

impl<O, H: Operator<O>, T: Operators<O>> Operators<O> for (H, T) {
    type Tok = Either<H::Tok, T::Tok>;

    open spec fn count(&self) -> nat {
        if self.1.count() < usize::MAX {
            1 + self.1.count()
        } else {
            self.1.count()
        }
    }

    open spec fn role_at(&self, i: int) -> Role {
        if i == 0 {
            self.0.role()
        } else {
            self.1.role_at(i - 1)
        }
    }

    open spec fn spec_associativity_at(&self, i: int) -> Associativity {
        if i == 0 {
            self.0.spec_associativity()
        } else {
            self.1.spec_associativity_at(i - 1)
        }
    }

    open spec fn reply_at(&self, i: int, src: Seq<char>, pos: int) -> Reply {
        if i == 0 {
            self.0.op_reply(src, pos)
        } else {
            self.1.reply_at(i - 1, src, pos)
        }
    }

    open spec fn owns(&self, i: int, tok: Either<H::Tok, T::Tok>) -> bool {
        match tok {
            Either::Left(_) => i == 0,
            Either::Right(tok) => i != 0 && self.1.owns(i - 1, tok),
        }
    }

    open spec fn yields_at(
        &self,
        i: int,
        src: Seq<char>,
        pos: int,
        tok: Either<H::Tok, T::Tok>,
    ) -> bool {
        match tok {
            Either::Left(tok) => i == 0 && self.0.op_yields(src, pos, tok),
            Either::Right(tok) => i != 0 && self.1.yields_at(i - 1, src, pos, tok),
        }
    }

    open spec fn folds_at(
        &self,
        i: int,
        lhs: Option<O>,
        tok: Either<H::Tok, T::Tok>,
        rhs: Option<O>,
        out: O,
    ) -> bool {
        match tok {
            Either::Left(tok) => i == 0 && self.0.folds(lhs, tok, rhs, out),
            Either::Right(tok) => i != 0 && self.1.folds_at(i - 1, lhs, tok, rhs, out),
        }
    }

    fn len(&self) -> (n: usize) {
        let rest = self.1.len();
        if rest == usize::MAX {
            rest
        } else {
            rest + 1
        }
    }

    fn is_infix_at(&self, i: usize) -> (b: bool) {
        if i == 0 {
            self.0.is_infix()
        } else {
            self.1.is_infix_at(i - 1)
        }
    }

    fn is_prefix_at(&self, i: usize) -> (b: bool) {
        if i == 0 {
            self.0.is_prefix()
        } else {
            self.1.is_prefix_at(i - 1)
        }
    }

    fn is_postfix_at(&self, i: usize) -> (b: bool) {
        if i == 0 {
            self.0.is_postfix()
        } else {
            self.1.is_postfix_at(i - 1)
        }
    }

    fn associativity_at(&self, i: usize) -> (a: Associativity) {
        if i == 0 {
            self.0.associativity()
        } else {
            self.1.associativity_at(i - 1)
        }
    }

    fn parse_op_at(&self, i: usize, inp: &mut Input, mode: Mode) -> (r: PResult<
        Either<H::Tok, T::Tok>,
    >) {
        if i == 0 {
            match self.0.parse_op(inp, mode) {
                Ok(Some(tok)) => Ok(Some(Either::Left(tok))),
                Ok(None) => Ok(None),
                Err(()) => Err(()),
            }
        } else {
            match self.1.parse_op_at(i - 1, inp, mode) {
                Ok(Some(tok)) => Ok(Some(Either::Right(tok))),
                Ok(None) => Ok(None),
                Err(()) => Err(()),
            }
        }
    }

    fn fold_at(
        &self,
        i: usize,
        lhs: Option<O>,
        tok: Either<H::Tok, T::Tok>,
        rhs: Option<O>,
    ) -> (out: O) {
        match tok {
            Either::Left(tok) => self.0.fold(lhs, tok, rhs),
            Either::Right(tok) => self.1.fold_at(i - 1, lhs, tok, rhs),
        }
    }
}

/// What a list is as a collection: the `i`-th operator of the collection is
/// the `i`-th of the list. (Where the fold functions are closures, Verus does
/// not see through the definitions of [`Operators`] for the list by itself:
/// this states them. So do the two lemmas on chains.)
pub proof fn lemma_list<O, Tok, Op: Operator<O, Tok = Tok>>(list: Vec<Op>)
    ensures
        list.count() == list@.len(),
        forall|i: int| #[trigger] list.role_at(i) == list@[i].role(),
        forall|i: int| #[trigger]
            list.spec_associativity_at(i) == list@[i].spec_associativity(),
        forall|i: int, src: Seq<char>, pos: int| #[trigger]
            list.reply_at(i, src, pos) == list@[i].op_reply(src, pos),
        forall|i: int, tok: Tok| #[trigger] list.owns(i, tok),
        forall|i: int, src: Seq<char>, pos: int, tok: Tok| #[trigger]
            list.yields_at(i, src, pos, tok) == list@[i].op_yields(src, pos, tok),
        forall|i: int, lhs: Option<O>, tok: Tok, rhs: Option<O>, out: O| #[trigger]
            list.folds_at(i, lhs, tok, rhs, out) == list@[i].folds(lhs, tok, rhs, out),
{
}

/// What the last link of a chain is as a collection: its one operator.
pub proof fn lemma_chain_end<O, Tok, H: Operator<O, Tok = Tok>>(chain: (H,))
    ensures
        chain.count() == 1,
        forall|i: int| #[trigger] chain.role_at(i) == chain.0.role(),
        forall|i: int| #[trigger]
            chain.spec_associativity_at(i) == chain.0.spec_associativity(),
        forall|i: int, src: Seq<char>, pos: int| #[trigger]
            chain.reply_at(i, src, pos) == chain.0.op_reply(src, pos),
        forall|i: int, tok: Tok| #[trigger] chain.owns(i, tok),
        forall|i: int, src: Seq<char>, pos: int, tok: Tok| #[trigger]
            chain.yields_at(i, src, pos, tok) == chain.0.op_yields(src, pos, tok),
        forall|i: int, lhs: Option<O>, tok: Tok, rhs: Option<O>, out: O| #[trigger]
            chain.folds_at(i, lhs, tok, rhs, out) == chain.0.folds(lhs, tok, rhs, out),
{
}

/// What a link of a chain is as a collection: its operator first, then the
/// rest of the chain, with every place moved by one.
pub proof fn lemma_chain_link<
    O,
    TokH,
    TokT,
    H: Operator<O, Tok = TokH>,
    T: Operators<O, Tok = TokT>,
>(chain: (H, T))
    ensures
        chain.1.count() < usize::MAX ==> chain.count() == 1 + chain.1.count(),
        chain.role_at(0) == chain.0.role(),
        chain.spec_associativity_at(0) == chain.0.spec_associativity(),
        forall|src: Seq<char>, pos: int| #[trigger]
            chain.reply_at(0, src, pos) == chain.0.op_reply(src, pos),
        forall|src: Seq<char>, pos: int, tok: TokH| #[trigger]
            chain.yields_at(0, src, pos, Either::Left(tok)) == chain.0.op_yields(src, pos, tok),
        forall|lhs: Option<O>, tok: TokH, rhs: Option<O>, out: O| #[trigger]
            chain.folds_at(0, lhs, Either::Left(tok), rhs, out) == chain.0.folds(
                lhs,
                tok,
                rhs,
                out,
            ),
        forall|i: int| i != 0 ==> #[trigger] chain.role_at(i) == chain.1.role_at(i - 1),
        forall|i: int|
            i != 0 ==> #[trigger] chain.spec_associativity_at(i)
                == chain.1.spec_associativity_at(i - 1),
        forall|i: int, src: Seq<char>, pos: int|
            i != 0 ==> #[trigger] chain.reply_at(i, src, pos) == chain.1.reply_at(
                i - 1,
                src,
                pos,
            ),
        forall|i: int, src: Seq<char>, pos: int, tok: TokT|
            i != 0 ==> #[trigger] chain.yields_at(i, src, pos, Either::Right(tok))
                == chain.1.yields_at(i - 1, src, pos, tok),
        forall|i: int, lhs: Option<O>, tok: TokT, rhs: Option<O>, out: O|
            i != 0 ==> #[trigger] chain.folds_at(i, lhs, Either::Right(tok), rhs, out)
                == chain.1.folds_at(i - 1, lhs, tok, rhs, out),
        forall|src: Seq<char>, pos: int, tok: TokT|
            !#[trigger] chain.yields_at(0, src, pos, Either::Right(tok)),
        forall|i: int, src: Seq<char>, pos: int, tok: TokH|
            i != 0 ==> !#[trigger] chain.yields_at(i, src, pos, Either::Left(tok)),
{
}

} // verus!
