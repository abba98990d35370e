//! Operators: what the engine asks of one, and the three kinds that can be
//! declared.

use crate::assoc::Associativity;
use crate::input::Input;
use crate::parser::{step_obeys, Mode, PResult, Parser, Reply};
use std::rc::Rc;
use vstd::prelude::*;

verus! {

/// Where an operator stands relative to its operands.
#[derive(Copy, Clone, Debug, PartialEq, Eq, Structural)]
pub enum Role {
    /// Before its one operand.
    Prefix,
    /// Behind its one operand.
    Postfix,
    /// Between its two operands.
    Infix,
}

/// Whether operands are at hand on the sides where an operator of the given
/// role takes one, and only there.
pub open spec fn operands_fit(role: Role, left: bool, right: bool) -> bool {
    match role {
        Role::Prefix => !left && right,
        Role::Postfix => left && !right,
        Role::Infix => left && right,
    }
}

/// What the engine asks of an operator: its role, its binding power, a
/// parser for its token and a fold function.
///
/// An operator has exactly one role. `O` is the type of the expressions.
pub trait Operator<O> {
    /// The type of what the token parser yields.
    type Tok;

    /// The role of the operator.
    spec fn role(&self) -> Role;

    /// The associativity and binding power. For a prefix or postfix operator
    /// it is the left associativity of its binding power.
    spec fn spec_associativity(&self) -> Associativity;

    /// What an attempt to read the operator's token at `pos` comes to.
    spec fn op_reply(&self, src: Seq<char>, pos: int) -> Reply;

    /// Whether `tok` can be what the token parser yields for a match at
    /// `pos`.
    spec fn op_yields(&self, src: Seq<char>, pos: int, tok: Self::Tok) -> bool;

    /// Whether `out` can be what the fold function gives for these operands
    /// and this token.
    spec fn folds(&self, lhs: Option<O>, tok: Self::Tok, rhs: Option<O>, out: O) -> bool;

    /// Whether the operator stands between two operands.
    fn is_infix(&self) -> (b: bool)
        ensures
            b == (self.role() is Infix),
    ;

    /// Whether the operator stands before its operand.
    fn is_prefix(&self) -> (b: bool)
        ensures
            b == (self.role() is Prefix),
    ;

    /// Whether the operator stands behind its operand.
    fn is_postfix(&self) -> (b: bool)
        ensures
            b == (self.role() is Postfix),
    ;

    /// The associativity and binding power.
    fn associativity(&self) -> (a: Associativity)
        ensures
            a == self.spec_associativity(),
    ;

    /// Runs the token parser at the cursor. After a failed attempt the
    /// cursor may be anywhere: the caller rewinds.
    fn parse_op(&self, inp: &mut Input, mode: Mode) -> (r: PResult<Self::Tok>)
        requires
            old(inp).wf(),
        ensures
            step_obeys(
                old(inp)@,
                final(inp)@,
                mode,
                self.op_reply(old(inp)@.src, old(inp)@.pos),
                r,
            ),
            r matches Ok(Some(tok)) ==> self.op_yields(old(inp)@.src, old(inp)@.pos, tok),
    ;

    /// Folds the operands and the token into one expression. An operand is
    /// given on each side where the role takes one.
    fn fold(&self, lhs: Option<O>, tok: Self::Tok, rhs: Option<O>) -> (out: O)
        requires
            operands_fit(self.role(), lhs is Some, rhs is Some),
        ensures
            self.folds(lhs, tok, rhs, out),
    ;
}

/// See [`infix`].
#[verifier::reject_recursive_types(A)]
#[verifier::reject_recursive_types(Atom)]
#[verifier::reject_recursive_types(Op)]
pub struct Infix<A: Parser<Output = Op>, F: Fn(Atom, Op, Atom) -> Atom, Atom, Op> {
    op_parser: A,
    fold: F,
    associativity: Associativity,
    phantom: Ghost<Option<(Atom, Op)>>,
}

/// A binary infix operator with the given associativity and binding power,
/// token parser and fold function. The fold function gets the left operand,
/// the token and the right operand, and must accept whatever it is given.
pub fn infix<A: Parser<Output = Op>, F: Fn(Atom, Op, Atom) -> Atom, Atom, Op>(
    associativity: Associativity,
    op_parser: A,
    fold: F,
) -> (op: Infix<A, F, Atom, Op>)
    requires
        forall|lhs: Atom, tok: Op, rhs: Atom| call_requires(fold, (lhs, tok, rhs)),
    ensures
        op.op_parser() == op_parser,
        op.fold_fn() == fold,
        op.role() is Infix,
        op.spec_associativity() == associativity,
        forall|src: Seq<char>, pos: int| #[trigger]
            op.op_reply(src, pos) == op_parser.reply(src, pos),
        forall|src: Seq<char>, pos: int, tok: Op| #[trigger]
            op.op_yields(src, pos, tok) == op_parser.yields(src, pos, tok),
        forall|lhs: Option<Atom>, tok: Op, rhs: Option<Atom>, out: Atom| #[trigger]
            op.folds(lhs, tok, rhs, out) == (lhs is Some && rhs is Some && call_ensures(
                fold,
                (lhs->0, tok, rhs->0),
                out,
            )),
{
    Infix { op_parser, fold, associativity, phantom: Ghost(None) }
}

impl<A: Parser<Output = Op>, F: Fn(Atom, Op, Atom) -> Atom, Atom, Op> Infix<A, F, Atom, Op> {
    /// The token parser.
    pub closed spec fn op_parser(&self) -> A {
        self.op_parser
    }

    /// The fold function.
    pub closed spec fn fold_fn(&self) -> F {
        self.fold
    }

    /// The declared associativity.
    pub closed spec fn declared(&self) -> Associativity {
        self.associativity
    }

    #[verifier::type_invariant]
    spec fn fold_accepts_everything(self) -> bool {
        forall|lhs: Atom, tok: Op, rhs: Atom| call_requires(self.fold, (lhs, tok, rhs))
    }
}

impl<
    A: Parser<Output = Op> + Clone,
    F: Fn(Atom, Op, Atom) -> Atom + Copy,
    Atom,
    Op,
> Clone for Infix<A, F, Atom, Op> {
    fn clone(&self) -> (copy: Self)
        ensures
            vstd::pervasive::cloned(self.op_parser(), copy.op_parser()),
            copy.fold_fn() == self.fold_fn(),
            copy.spec_associativity() == self.spec_associativity(),
    {
        proof {
            use_type_invariant(self);
        }
        Infix {
            op_parser: self.op_parser.clone(),
            fold: self.fold,
            associativity: self.associativity,
            phantom: Ghost(None),
        }
    }
}

impl<A: Parser<Output = Op>, F: Fn(Atom, Op, Atom) -> Atom, Atom, Op> Operator<Atom> for Infix<
    A,
    F,
    Atom,
    Op,
> {
    type Tok = Op;

    open spec fn role(&self) -> Role {
        Role::Infix
    }

    open spec fn spec_associativity(&self) -> Associativity {
        self.declared()
    }

    open spec fn op_reply(&self, src: Seq<char>, pos: int) -> Reply {
        self.op_parser().reply(src, pos)
    }

    open spec fn op_yields(&self, src: Seq<char>, pos: int, tok: Op) -> bool {
        self.op_parser().yields(src, pos, tok)
    }

    open spec fn folds(&self, lhs: Option<Atom>, tok: Op, rhs: Option<Atom>, out: Atom) -> bool {
        &&& lhs matches Some(l)
        &&& rhs matches Some(r)
        &&& call_ensures(self.fold_fn(), (l, tok, r), out)
    }

    fn is_infix(&self) -> (b: bool) {
        true
    }

    fn is_prefix(&self) -> (b: bool) {
        false
    }

    fn is_postfix(&self) -> (b: bool) {
        false
    }

    fn associativity(&self) -> (a: Associativity) {
        self.associativity
    }

    fn parse_op(&self, inp: &mut Input, mode: Mode) -> (r: PResult<Op>) {
        self.op_parser.go(inp, mode)
    }

    fn fold(&self, lhs: Option<Atom>, tok: Op, rhs: Option<Atom>) -> (out: Atom) {
        proof {
            use_type_invariant(self);
        }
        match (lhs, rhs) {
            (Some(l), Some(r)) => (self.fold)(l, tok, r),
            _ => vstd::pervasive::unreached(),
        }
    }
}

/// See [`prefix`].
#[verifier::reject_recursive_types(A)]
#[verifier::reject_recursive_types(Atom)]
#[verifier::reject_recursive_types(Op)]
pub struct Prefix<A: Parser<Output = Op>, F: Fn(Op, Atom) -> Atom, Atom, Op> {
    op_parser: A,
    fold: F,
    binding_power: u16,
    phantom: Ghost<Option<(Atom, Op)>>,
}

/// A unary prefix operator with the given binding power, token parser and
/// fold function. The fold function gets the token and the operand, and must
/// accept whatever it is given.
pub fn prefix<A: Parser<Output = Op>, F: Fn(Op, Atom) -> Atom, Atom, Op>(
    binding_power: u16,
    op_parser: A,
    fold: F,
) -> (op: Prefix<A, F, Atom, Op>)
    requires
        forall|tok: Op, operand: Atom| call_requires(fold, (tok, operand)),
    ensures
        op.binding_power() == binding_power,
        op.op_parser() == op_parser,
        op.fold_fn() == fold,
        op.role() is Prefix,
        op.spec_associativity() == Associativity::Left(binding_power),
        forall|src: Seq<char>, pos: int| #[trigger]
            op.op_reply(src, pos) == op_parser.reply(src, pos),
        forall|src: Seq<char>, pos: int, tok: Op| #[trigger]
            op.op_yields(src, pos, tok) == op_parser.yields(src, pos, tok),
        forall|lhs: Option<Atom>, tok: Op, rhs: Option<Atom>, out: Atom| #[trigger]
            op.folds(lhs, tok, rhs, out) == (lhs is None && rhs is Some && call_ensures(
                fold,
                (tok, rhs->0),
                out,
            )),
{
    Prefix { op_parser, fold, binding_power, phantom: Ghost(None) }
}

impl<A: Parser<Output = Op>, F: Fn(Op, Atom) -> Atom, Atom, Op> Prefix<A, F, Atom, Op> {
    /// The token parser.
    pub closed spec fn op_parser(&self) -> A {
        self.op_parser
    }

    /// The fold function.
    pub closed spec fn fold_fn(&self) -> F {
        self.fold
    }

    /// The declared binding power.
    pub closed spec fn binding_power(&self) -> u16 {
        self.binding_power
    }

    #[verifier::type_invariant]
    spec fn fold_accepts_everything(self) -> bool {
        forall|tok: Op, operand: Atom| call_requires(self.fold, (tok, operand))
    }
}

impl<
    A: Parser<Output = Op> + Clone,
    F: Fn(Op, Atom) -> Atom + Copy,
    Atom,
    Op,
> Clone for Prefix<A, F, Atom, Op> {
    fn clone(&self) -> (copy: Self)
        ensures
            vstd::pervasive::cloned(self.op_parser(), copy.op_parser()),
            copy.fold_fn() == self.fold_fn(),
            copy.spec_associativity() == self.spec_associativity(),
    {
        proof {
            use_type_invariant(self);
        }
        Prefix {
            op_parser: self.op_parser.clone(),
            fold: self.fold,
            binding_power: self.binding_power,
            phantom: Ghost(None),
        }
    }
}

impl<A: Parser<Output = Op>, F: Fn(Op, Atom) -> Atom, Atom, Op> Operator<Atom> for Prefix<
    A,
    F,
    Atom,
    Op,
> {
    type Tok = Op;

    open spec fn role(&self) -> Role {
        Role::Prefix
    }

    open spec fn spec_associativity(&self) -> Associativity {
        Associativity::Left(self.binding_power())
    }

    open spec fn op_reply(&self, src: Seq<char>, pos: int) -> Reply {
        self.op_parser().reply(src, pos)
    }

    open spec fn op_yields(&self, src: Seq<char>, pos: int, tok: Op) -> bool {
        self.op_parser().yields(src, pos, tok)
    }

    open spec fn folds(&self, lhs: Option<Atom>, tok: Op, rhs: Option<Atom>, out: Atom) -> bool {
        &&& lhs is None
        &&& rhs matches Some(operand)
        &&& call_ensures(self.fold_fn(), (tok, operand), out)
    }

    fn is_infix(&self) -> (b: bool) {
        false
    }

    fn is_prefix(&self) -> (b: bool) {
        true
    }

    fn is_postfix(&self) -> (b: bool) {
        false
    }

    fn associativity(&self) -> (a: Associativity) {
        Associativity::Left(self.binding_power)
    }

    fn parse_op(&self, inp: &mut Input, mode: Mode) -> (r: PResult<Op>) {
        self.op_parser.go(inp, mode)
    }

    fn fold(&self, lhs: Option<Atom>, tok: Op, rhs: Option<Atom>) -> (out: Atom) {
        proof {
            use_type_invariant(self);
        }
        match rhs {
            Some(operand) => (self.fold)(tok, operand),
            None => vstd::pervasive::unreached(),
        }
    }
}

/// See [`postfix`].
#[verifier::reject_recursive_types(A)]
#[verifier::reject_recursive_types(Atom)]
#[verifier::reject_recursive_types(Op)]
pub struct Postfix<A: Parser<Output = Op>, F: Fn(Atom, Op) -> Atom, Atom, Op> {
    op_parser: A,
    fold: F,
    binding_power: u16,
    phantom: Ghost<Option<(Atom, Op)>>,
}

/// A unary postfix operator with the given binding power, token parser and
/// fold function. The fold function gets the operand and the token, and must
/// accept whatever it is given.
pub fn postfix<A: Parser<Output = Op>, F: Fn(Atom, Op) -> Atom, Atom, Op>(
    binding_power: u16,
    op_parser: A,
    fold: F,
) -> (op: Postfix<A, F, Atom, Op>)
    requires
        forall|operand: Atom, tok: Op| call_requires(fold, (operand, tok)),
    ensures
        op.binding_power() == binding_power,
        op.op_parser() == op_parser,
        op.fold_fn() == fold,
        op.role() is Postfix,
        op.spec_associativity() == Associativity::Left(binding_power),
        forall|src: Seq<char>, pos: int| #[trigger]
            op.op_reply(src, pos) == op_parser.reply(src, pos),
        forall|src: Seq<char>, pos: int, tok: Op| #[trigger]
            op.op_yields(src, pos, tok) == op_parser.yields(src, pos, tok),
        forall|lhs: Option<Atom>, tok: Op, rhs: Option<Atom>, out: Atom| #[trigger]
            op.folds(lhs, tok, rhs, out) == (lhs is Some && rhs is None && call_ensures(
                fold,
                (lhs->0, tok),
                out,
            )),
{
    Postfix { op_parser, fold, binding_power, phantom: Ghost(None) }
}

impl<A: Parser<Output = Op>, F: Fn(Atom, Op) -> Atom, Atom, Op> Postfix<A, F, Atom, Op> {
    /// The token parser.
    pub closed spec fn op_parser(&self) -> A {
        self.op_parser
    }

    /// The fold function.
    pub closed spec fn fold_fn(&self) -> F {
        self.fold
    }

    /// The declared binding power.
    pub closed spec fn binding_power(&self) -> u16 {
        self.binding_power
    }

    #[verifier::type_invariant]
    spec fn fold_accepts_everything(self) -> bool {
        forall|operand: Atom, tok: Op| call_requires(self.fold, (operand, tok))
    }
}

impl<
    A: Parser<Output = Op> + Clone,
    F: Fn(Atom, Op) -> Atom + Copy,
    Atom,
    Op,
> Clone for Postfix<A, F, Atom, Op> {
    fn clone(&self) -> (copy: Self)
        ensures
            vstd::pervasive::cloned(self.op_parser(), copy.op_parser()),
            copy.fold_fn() == self.fold_fn(),
            copy.spec_associativity() == self.spec_associativity(),
    {
        proof {
            use_type_invariant(self);
        }
        Postfix {
            op_parser: self.op_parser.clone(),
            fold: self.fold,
            binding_power: self.binding_power,
            phantom: Ghost(None),
        }
    }
}

impl<A: Parser<Output = Op>, F: Fn(Atom, Op) -> Atom, Atom, Op> Operator<Atom> for Postfix<
    A,
    F,
    Atom,
    Op,
> {
    type Tok = Op;

    open spec fn role(&self) -> Role {
        Role::Postfix
    }

    open spec fn spec_associativity(&self) -> Associativity {
        Associativity::Left(self.binding_power())
    }

    open spec fn op_reply(&self, src: Seq<char>, pos: int) -> Reply {
        self.op_parser().reply(src, pos)
    }

    open spec fn op_yields(&self, src: Seq<char>, pos: int, tok: Op) -> bool {
        self.op_parser().yields(src, pos, tok)
    }

    open spec fn folds(&self, lhs: Option<Atom>, tok: Op, rhs: Option<Atom>, out: Atom) -> bool {
        &&& lhs matches Some(operand)
        &&& rhs is None
        &&& call_ensures(self.fold_fn(), (operand, tok), out)
    }

    fn is_infix(&self) -> (b: bool) {
        false
    }

    fn is_prefix(&self) -> (b: bool) {
        false
    }

    fn is_postfix(&self) -> (b: bool) {
        true
    }

    fn associativity(&self) -> (a: Associativity) {
        Associativity::Left(self.binding_power)
    }

    fn parse_op(&self, inp: &mut Input, mode: Mode) -> (r: PResult<Op>) {
        self.op_parser.go(inp, mode)
    }

    fn fold(&self, lhs: Option<Atom>, tok: Op, rhs: Option<Atom>) -> (out: Atom) {
        proof {
            use_type_invariant(self);
        }
        match lhs {
            Some(operand) => (self.fold)(operand, tok),
            None => vstd::pervasive::unreached(),
        }
    }
}

/// What a boxed operator is used through: [`Operator`] with the type of
/// the token as a parameter, which is what a trait object can have. Every
/// operator is one.
trait DynOperator<O, Tok> {
    /// See [`Operator::role`].
    spec fn dyn_role(&self) -> Role;

    /// See [`Operator::spec_associativity`].
    spec fn dyn_associativity(&self) -> Associativity;

    /// See [`Operator::op_reply`].
    spec fn dyn_reply(&self, src: Seq<char>, pos: int) -> Reply;

    /// See [`Operator::op_yields`].
    spec fn dyn_yields(&self, src: Seq<char>, pos: int, tok: Tok) -> bool;

    /// See [`Operator::folds`].
    spec fn dyn_folds(&self, lhs: Option<O>, tok: Tok, rhs: Option<O>, out: O) -> bool;

    /// See [`Operator::is_infix`].
    fn dyn_is_infix(&self) -> (b: bool)
        ensures
            b == (self.dyn_role() is Infix),
    ;

    /// See [`Operator::is_prefix`].
    fn dyn_is_prefix(&self) -> (b: bool)
        ensures
            b == (self.dyn_role() is Prefix),
    ;

    /// See [`Operator::is_postfix`].
    fn dyn_is_postfix(&self) -> (b: bool)
        ensures
            b == (self.dyn_role() is Postfix),
    ;

    /// See [`Operator::associativity`].
    fn dyn_get_associativity(&self) -> (a: Associativity)
        ensures
            a == self.dyn_associativity(),
    ;

    /// See [`Operator::parse_op`].
    fn dyn_parse_op(&self, inp: &mut Input, mode: Mode) -> (r: PResult<Tok>)
        requires
            old(inp).wf(),
        ensures
            step_obeys(
                old(inp)@,
                final(inp)@,
                mode,
                self.dyn_reply(old(inp)@.src, old(inp)@.pos),
                r,
            ),
            r matches Ok(Some(tok)) ==> self.dyn_yields(old(inp)@.src, old(inp)@.pos, tok),
    ;

    /// See [`Operator::fold`].
    fn dyn_fold(&self, lhs: Option<O>, tok: Tok, rhs: Option<O>) -> (out: O)
        requires
            operands_fit(self.dyn_role(), lhs is Some, rhs is Some),
        ensures
            self.dyn_folds(lhs, tok, rhs, out),
    ;
}

impl<O, T: Operator<O>> DynOperator<O, T::Tok> for T {
    closed spec fn dyn_role(&self) -> Role {
        self.role()
    }

    closed spec fn dyn_associativity(&self) -> Associativity {
        self.spec_associativity()
    }

    closed spec fn dyn_reply(&self, src: Seq<char>, pos: int) -> Reply {
        self.op_reply(src, pos)
    }

    closed spec fn dyn_yields(&self, src: Seq<char>, pos: int, tok: T::Tok) -> bool {
        self.op_yields(src, pos, tok)
    }

    closed spec fn dyn_folds(&self, lhs: Option<O>, tok: T::Tok, rhs: Option<O>, out: O) -> bool {
        self.folds(lhs, tok, rhs, out)
    }

    fn dyn_is_infix(&self) -> (b: bool) {
        self.is_infix()
    }

    fn dyn_is_prefix(&self) -> (b: bool) {
        self.is_prefix()
    }

    fn dyn_is_postfix(&self) -> (b: bool) {
        self.is_postfix()
    }

    fn dyn_get_associativity(&self) -> (a: Associativity) {
        self.associativity()
    }

    fn dyn_parse_op(&self, inp: &mut Input, mode: Mode) -> (r: PResult<T::Tok>) {
        self.parse_op(inp, mode)
    }

    fn dyn_fold(&self, lhs: Option<O>, tok: T::Tok, rhs: Option<O>) -> (out: O) {
        self.fold(lhs, tok, rhs)
    }
}

/// An operator behind a shared pointer, used through dynamic dispatch:
/// operators of different types can stand in one list as `Boxed` values. A
/// boxed operator is in every respect the operator in the box (see
/// [`Boxed::new`]), and so is each clone of it, which shares the box.
#[verifier::reject_recursive_types(O)]
#[verifier::reject_recursive_types(Tok)]
pub struct Boxed<O, Tok>(Rc<Box<dyn DynOperator<O, Tok>>>);

impl<O, Tok> Boxed<O, Tok> {
    /// Boxes `op`: the result has the role, the binding power, the token
    /// syntax and the fold function of `op`.
    pub fn new<T: Operator<O, Tok = Tok> + 'static>(op: T) -> (boxed: Self)
        ensures
            boxed.role() == op.role(),
            boxed.spec_associativity() == op.spec_associativity(),
            forall|src: Seq<char>, pos: int| #[trigger]
                boxed.op_reply(src, pos) == op.op_reply(src, pos),
            forall|src: Seq<char>, pos: int, tok: Tok| #[trigger]
                boxed.op_yields(src, pos, tok) == op.op_yields(src, pos, tok),
            forall|lhs: Option<O>, tok: Tok, rhs: Option<O>, out: O| #[trigger]
                boxed.folds(lhs, tok, rhs, out) == op.folds(lhs, tok, rhs, out),
    {
        Boxed(Rc::new(Box::new(op)))
    }
}

impl<O, Tok> Clone for Boxed<O, Tok> {
    fn clone(&self) -> (copy: Self)
        ensures
            copy == *self,
    {
        Boxed(self.0.clone())
    }
}

impl<O, Tok> Operator<O> for Boxed<O, Tok> {
    type Tok = Tok;

    closed spec fn role(&self) -> Role {
        self.0.dyn_role()
    }

    closed spec fn spec_associativity(&self) -> Associativity {
        self.0.dyn_associativity()
    }

    closed spec fn op_reply(&self, src: Seq<char>, pos: int) -> Reply {
        self.0.dyn_reply(src, pos)
    }

    closed spec fn op_yields(&self, src: Seq<char>, pos: int, tok: Tok) -> bool {
        self.0.dyn_yields(src, pos, tok)
    }

    closed spec fn folds(&self, lhs: Option<O>, tok: Tok, rhs: Option<O>, out: O) -> bool {
        self.0.dyn_folds(lhs, tok, rhs, out)
    }

    fn is_infix(&self) -> (b: bool) {
        self.0.dyn_is_infix()
    }

    fn is_prefix(&self) -> (b: bool) {
        self.0.dyn_is_prefix()
    }

    fn is_postfix(&self) -> (b: bool) {
        self.0.dyn_is_postfix()
    }

    fn associativity(&self) -> (a: Associativity) {
        self.0.dyn_get_associativity()
    }

    fn parse_op(&self, inp: &mut Input, mode: Mode) -> (r: PResult<Tok>) {
        self.0.dyn_parse_op(inp, mode)
    }

    fn fold(&self, lhs: Option<O>, tok: Tok, rhs: Option<O>) -> (out: O) {
        self.0.dyn_fold(lhs, tok, rhs)
    }
}

} // verus!
