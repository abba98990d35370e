//! Binding powers: precedence and associativity as one pair of integers.

use vstd::prelude::*;

verus! {

/// The associativity and binding power of an operator (see [`left`] and
/// [`right`]). A higher binding power binds more tightly.
#[derive(Copy, Clone, Debug, PartialEq, Eq, PartialOrd, Ord, Structural)]
pub enum Associativity {
    /// Left-associative, with the given binding power.
    Left(u16),
    /// Right-associative, with the given binding power.
    Right(u16),
}

/// A left associativity with the given binding power: `a + b + c` groups as
/// `(a + b) + c`.
#[verifier::allow_in_spec]
pub fn left(binding_power: u16) -> (a: Associativity)
    returns
        Associativity::Left(binding_power),
{
    Associativity::Left(binding_power)
}

/// A right associativity with the given binding power: `a ^ b ^ c` groups as
/// `a ^ (b ^ c)`.
#[verifier::allow_in_spec]
pub fn right(binding_power: u16) -> (a: Associativity)
    returns
        Associativity::Right(binding_power),
{
    Associativity::Right(binding_power)
}

impl Associativity {
    /// The declared binding power.
    pub open spec fn power(self) -> nat {
        match self {
            Associativity::Left(p) => p as nat,
            Associativity::Right(p) => p as nat,
        }
    }

    /// How strongly the operator holds on to the operand on its left: twice
    /// the binding power, plus one for a right-associative operator.
    pub open spec fn spec_left_power(self) -> nat {
        match self {
            Associativity::Left(p) => 2 * (p as nat),
            Associativity::Right(p) => 2 * (p as nat) + 1,
        }
    }

    /// How strongly the operator holds on to the operand on its right: twice
    /// the binding power, plus one for a left-associative operator.
    pub open spec fn spec_right_power(self) -> nat {
        match self {
            Associativity::Left(p) => 2 * (p as nat) + 1,
            Associativity::Right(p) => 2 * (p as nat),
        }
    }

    /// The left binding power, compared with the threshold of the enclosing
    /// expression before an infix operator is tried.
    pub fn left_power(&self) -> (p: u32)
        ensures
            p == self.spec_left_power(),
    {
        match self {
            Associativity::Left(x) => *x as u32 * 2,
            Associativity::Right(x) => *x as u32 * 2 + 1,
        }
    }

    /// The right binding power: the threshold under which the operand on
    /// the right is parsed.
    pub fn right_power(&self) -> (p: u32)
        ensures
            p == self.spec_right_power(),
    {
        match self {
            Associativity::Left(x) => *x as u32 * 2 + 1,
            Associativity::Right(x) => *x as u32 * 2,
        }
    }
}

/// The two powers of one operator differ by exactly one, and the side on
/// which the larger one lies is the side of the associativity: a
/// left-associative operator is weaker on its left than on its right, a
/// right-associative one the other way round.
pub proof fn lemma_powers_adjacent(a: Associativity)
    ensures
        a is Left ==> a.spec_left_power() + 1 == a.spec_right_power(),
        a is Right ==> a.spec_right_power() + 1 == a.spec_left_power(),
        a.spec_left_power() / 2 == a.power(),
        a.spec_right_power() / 2 == a.power(),
{
}

/// A strictly higher binding power outranks every tie-break of a lower one:
/// both powers of the stronger operator lie above both powers of the weaker.
pub proof fn lemma_powers_monotonic(a: Associativity, b: Associativity)
    requires
        a.power() < b.power(),
    ensures
        a.spec_left_power() < b.spec_left_power(),
        a.spec_left_power() < b.spec_right_power(),
        a.spec_right_power() < b.spec_left_power(),
        a.spec_right_power() < b.spec_right_power(),
{
}

/// An operator may stand as the right operand of another of the same binding
/// power only where the outer one is right-associative: with equal powers,
/// `inner.left_power() >= outer.right_power()` holds unless the outer
/// operator is left-associative and the inner one is too.
pub proof fn lemma_equal_power_chains(outer: Associativity, inner: Associativity)
    requires
        outer.power() == inner.power(),
    ensures
        outer is Left && inner is Left ==> inner.spec_left_power() < outer.spec_right_power(),
        outer is Right ==> inner.spec_left_power() >= outer.spec_right_power(),
{
}

} // verus!
