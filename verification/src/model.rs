//! The expression that a position of the input denotes.
//!
//! The functions of this module say, without running anything, which syntax
//! tree an atom parser and an ordered list of operators give for the input
//! from a position on, where that tree ends, and which failures are met on
//! the way. The parser of [`crate::pratt`] is proved against them.

use crate::input::{furthest, Failure};
use crate::assoc::Associativity;
use crate::collection::Operators;
use crate::operator::Role;
use crate::parser::{Parser, Reply};
use vstd::prelude::*;

verus! {

/// A syntax tree. Operators are named by their place in the list of
/// operators; `at` is where an atom or an operator's token starts.
pub ghost enum Tree {
    /// An atom.
    Atom { at: int },
    /// A prefix operator and its operand.
    Prefix { op: int, at: int, operand: Box<Tree> },
    /// An operand and a postfix operator.
    Postfix { op: int, operand: Box<Tree>, at: int },
    /// An infix operator between its operands.
    Infix { op: int, lhs: Box<Tree>, at: int, rhs: Box<Tree> },
}

/// A tree and the position behind it.
pub ghost struct Parsed {
    pub tree: Tree,
    pub end: int,
}

/// What a part of the algorithm comes to: the tree it has built, if it has
/// built one, and the furthest failure met.
pub ghost struct Outcome {
    pub parsed: Option<Parsed>,
    pub alt: Option<Failure>,
}

/// A grammar of expressions, as far as the algorithm can tell one from
/// another: what the atom parser makes of each position, how many operators
/// there are, and for each operator, by its place in the order of
/// declaration, its role, its binding power, what its token parser makes of
/// each position and what its fold function can give.
#[verifier::reject_recursive_types(O)]
#[verifier::reject_recursive_types(Tok)]
pub ghost struct Grammar<O, Tok> {
    /// What an attempt to read an atom at a position comes to.
    pub atom_reply: spec_fn(Seq<char>, int) -> Reply,
    /// Whether a value can be that of the atom at a position.
    pub atom_yields: spec_fn(Seq<char>, int, O) -> bool,
    /// How many operators there are.
    pub count: nat,
    /// The role of an operator.
    pub role: spec_fn(int) -> Role,
    /// The associativity and binding power of an operator.
    pub associativity: spec_fn(int) -> Associativity,
    /// What an attempt to read the token of an operator at a position comes
    /// to.
    pub reply: spec_fn(int, Seq<char>, int) -> Reply,
    /// Whether a value can be that of the token of an operator at a
    /// position.
    pub yields: spec_fn(int, Seq<char>, int, Tok) -> bool,
    /// Whether the fold function of an operator can give a value for these
    /// operands and this token.
    pub folds: spec_fn(int, Option<O>, Tok, Option<O>, O) -> bool,
}

/// The grammar that an atom parser and a collection of operators make.
pub open spec fn grammar<A: Parser<Output = O>, Ops: Operators<O, Tok = Tok>, O, Tok>(
    atom: A,
    ops: Ops,
) -> Grammar<O, Tok> {
    Grammar {
        atom_reply: |src: Seq<char>, pos: int| atom.reply(src, pos),
        atom_yields: |src: Seq<char>, pos: int, out: O| atom.yields(src, pos, out),
        count: ops.count(),
        role: |i: int| ops.role_at(i),
        associativity: |i: int| ops.spec_associativity_at(i),
        reply: |i: int, src: Seq<char>, pos: int| ops.reply_at(i, src, pos),
        yields: |i: int, src: Seq<char>, pos: int, tok: Tok| ops.yields_at(i, src, pos, tok),
        folds: |i: int, lhs: Option<O>, tok: Tok, rhs: Option<O>, out: O|
            ops.folds_at(i, lhs, tok, rhs, out),
    }
}

/// Where the token of a prefix or postfix operator ends when it stands at
/// `pos`, given what the token parser makes of `pos`. A token parser that
/// matches without reading anything has not found a token: an operand before
/// or behind which it could stand again and again would never be finished.
pub open spec fn token_end(reply: Reply, src: Seq<char>, pos: int) -> Option<int> {
    match reply.end {
        Some(end) => if pos < end <= src.len() {
            Some(end)
        } else {
            None
        },
        None => None,
    }
}

/// Where the token of an infix operator ends when it stands at `pos`, in an
/// expression that began at `start`, given what the token parser makes of
/// `pos`. The token may be empty, as where two operands that stand side by
/// side make a product, but only behind an operand that is not: an empty
/// token behind an empty operand would leave the right operand to begin
/// where the expression began.
pub open spec fn infix_token_end(
    reply: Reply,
    src: Seq<char>,
    start: int,
    pos: int,
) -> Option<int> {
    match reply.end {
        Some(end) => if start <= pos <= end <= src.len() && (pos < end || start < pos) {
            Some(end)
        } else {
            None
        },
        None => None,
    }
}

/// Where the atom at `pos` ends, if there is one, given what the atom parser
/// makes of `pos`.
pub open spec fn atom_end(reply: Reply, src: Seq<char>, pos: int) -> Option<int> {
    match reply.end {
        Some(end) => if pos <= end <= src.len() {
            Some(end)
        } else {
            None
        },
        None => None,
    }
}

/// The left binding power of the `i`-th operator.
pub open spec fn left_power<O, Tok>(g: Grammar<O, Tok>, i: int) -> nat {
    (g.associativity)(i).spec_left_power()
}

/// The right binding power of the `i`-th operator.
pub open spec fn right_power<O, Tok>(g: Grammar<O, Tok>, i: int) -> nat {
    (g.associativity)(i).spec_right_power()
}

/// The expression at `pos` under the threshold `min_power`: an operand, and
/// after it every postfix and infix operator that binds at least as strongly
/// as the threshold.
pub open spec fn expr<O, Tok>(
    g: Grammar<O, Tok>,
    src: Seq<char>,
    pos: int,
    min_power: nat,
) -> Outcome
    decreases src.len() - pos, 5nat, 0nat,
{
    let head = operand(g, src, pos, 0, None);
    match head.parsed {
        Some(p) => if pos <= p.end <= src.len() {
            continuation(g, src, pos, p.tree, p.end, min_power, head.alt)
        } else {
            head
        },
        None => head,
    }
}

/// The operand at `pos`, looked for among the operators from the `i`-th on
/// and then as an atom: the first prefix operator in the order of
/// declaration whose token and operand are both found, or else the atom.
/// `acc` is the furthest failure of the attempts before the `i`-th.
pub open spec fn operand<O, Tok>(
    g: Grammar<O, Tok>,
    src: Seq<char>,
    pos: int,
    i: int,
    acc: Option<Failure>,
) -> Outcome
    decreases src.len() - pos, 4nat, g.count - i,
{
    if 0 <= i < g.count {
        if (g.role)(i) is Prefix {
            let attempt = prefix_attempt(g, src, pos, i);
            let acc = furthest(acc, attempt.alt);
            match attempt.parsed {
                Some(p) => Outcome { parsed: Some(p), alt: acc },
                None => operand(g, src, pos, i + 1, acc),
            }
        } else {
            operand(g, src, pos, i + 1, acc)
        }
    } else {
        Outcome {
            parsed: match atom_end((g.atom_reply)(src, pos), src, pos) {
                Some(end) => Some(Parsed { tree: Tree::Atom { at: pos }, end }),
                None => None,
            },
            alt: furthest(acc, (g.atom_reply)(src, pos).alt),
        }
    }
}

/// The `i`-th operator tried as a prefix operator at `pos`: its token, then
/// its operand under the operator's left binding power.
pub open spec fn prefix_attempt<O, Tok>(
    g: Grammar<O, Tok>,
    src: Seq<char>,
    pos: int,
    i: int,
) -> Outcome
    decreases src.len() - pos, 1nat, 0nat,
{
    let alt = (g.reply)(i, src, pos).alt;
    match token_end((g.reply)(i, src, pos), src, pos) {
        Some(end) => {
            let sub = expr(g, src, end, left_power(g, i));
            Outcome {
                parsed: match sub.parsed {
                    Some(p) => Some(
                        Parsed {
                            tree: Tree::Prefix { op: i, at: pos, operand: Box::new(p.tree) },
                            end: p.end,
                        },
                    ),
                    None => None,
                },
                alt: furthest(alt, sub.alt),
            }
        },
        None => Outcome { parsed: None, alt },
    }
}

/// What follows the operand `lhs` that began at `start` and ends at `pos`:
/// as long as a postfix operator, or else an infix operator with its right
/// operand, is found that binds at least as strongly as `min_power`, it is
/// folded in and the search starts again behind it.
pub open spec fn continuation<O, Tok>(
    g: Grammar<O, Tok>,
    src: Seq<char>,
    start: int,
    lhs: Tree,
    pos: int,
    min_power: nat,
    acc: Option<Failure>,
) -> Outcome
    decreases src.len() - start, 3nat, src.len() - pos,
{
    let post = postfix_scan(g, src, lhs, pos, min_power, 0, acc);
    match post.parsed {
        Some(p) => if pos < p.end <= src.len() {
            continuation(g, src, start, p.tree, p.end, min_power, post.alt)
        } else {
            post
        },
        None => {
            let inf = infix_scan(g, src, start, lhs, pos, min_power, 0, post.alt);
            match inf.parsed {
                Some(p) => if pos < p.end <= src.len() {
                    continuation(g, src, start, p.tree, p.end, min_power, inf.alt)
                } else {
                    inf
                },
                None => Outcome { parsed: Some(Parsed { tree: lhs, end: pos }), alt: inf.alt },
            }
        },
    }
}

/// The first postfix operator from the `i`-th on, in the order of
/// declaration, that binds at least as strongly as `min_power` and whose
/// token stands at `pos`, applied to `lhs`.
pub open spec fn postfix_scan<O, Tok>(
    g: Grammar<O, Tok>,
    src: Seq<char>,
    lhs: Tree,
    pos: int,
    min_power: nat,
    i: int,
    acc: Option<Failure>,
) -> Outcome
    decreases g.count - i,
{
    if 0 <= i < g.count {
        if (g.role)(i) is Postfix && right_power(g, i) >= min_power {
            let acc = furthest(acc, (g.reply)(i, src, pos).alt);
            match token_end((g.reply)(i, src, pos), src, pos) {
                Some(end) => Outcome {
                    parsed: Some(
                        Parsed {
                            tree: Tree::Postfix { op: i, operand: Box::new(lhs), at: pos },
                            end,
                        },
                    ),
                    alt: acc,
                },
                None => postfix_scan(g, src, lhs, pos, min_power, i + 1, acc),
            }
        } else {
            postfix_scan(g, src, lhs, pos, min_power, i + 1, acc)
        }
    } else {
        Outcome { parsed: None, alt: acc }
    }
}

/// The first infix operator from the `i`-th on, in the order of declaration,
/// that binds at least as strongly as `min_power` and whose token and right
/// operand are both found at `pos`, applied to `lhs`, which began at `start`.
pub open spec fn infix_scan<O, Tok>(
    g: Grammar<O, Tok>,
    src: Seq<char>,
    start: int,
    lhs: Tree,
    pos: int,
    min_power: nat,
    i: int,
    acc: Option<Failure>,
) -> Outcome
    decreases src.len() - start, 2nat, g.count - i,
{
    if 0 <= i < g.count {
        if (g.role)(i) is Infix && left_power(g, i) >= min_power {
            let attempt = infix_attempt(g, src, start, pos, i);
            let acc = furthest(acc, attempt.alt);
            match attempt.parsed {
                Some(p) => Outcome {
                    parsed: Some(
                        Parsed {
                            tree: Tree::Infix {
                                op: i,
                                lhs: Box::new(lhs),
                                at: pos,
                                rhs: Box::new(p.tree),
                            },
                            end: p.end,
                        },
                    ),
                    alt: acc,
                },
                None => infix_scan(g, src, start, lhs, pos, min_power, i + 1, acc),
            }
        } else {
            infix_scan(g, src, start, lhs, pos, min_power, i + 1, acc)
        }
    } else {
        Outcome { parsed: None, alt: acc }
    }
}

/// The `i`-th operator tried as an infix operator at `pos`, behind an
/// operand that began at `start`: its token, then its right operand under
/// the operator's right binding power. Token and right operand together must
/// reach beyond `pos`. The tree is that of the right operand.
pub open spec fn infix_attempt<O, Tok>(
    g: Grammar<O, Tok>,
    src: Seq<char>,
    start: int,
    pos: int,
    i: int,
) -> Outcome
    decreases src.len() - start, 1nat, 0nat,
{
    let alt = (g.reply)(i, src, pos).alt;
    match infix_token_end((g.reply)(i, src, pos), src, start, pos) {
        Some(end) => {
            let sub = expr(g, src, end, right_power(g, i));
            Outcome {
                parsed: match sub.parsed {
                    Some(p) => if pos < p.end {
                        Some(p)
                    } else {
                        None
                    },
                    None => None,
                },
                alt: furthest(alt, sub.alt),
            }
        },
        None => Outcome { parsed: None, alt },
    }
}

/// Whether `out` can be the value of `tree`: the value of an atom is one
/// that the atom parser yields where the atom stands, the value of an
/// operator node one that the operator's fold function gives for a token
/// that its token parser yields and for values of the operands.
pub open spec fn evaluates<O, Tok>(
    g: Grammar<O, Tok>,
    src: Seq<char>,
    tree: Tree,
    out: O,
) -> bool
    decreases tree,
{
    match tree {
        Tree::Atom { at } => (g.atom_yields)(src, at, out),
        Tree::Prefix { op, at, operand } => {
            &&& 0 <= op < g.count
            &&& exists|tok: Tok, x: O|
                {
                    &&& (g.yields)(op, src, at, tok)
                    &&& evaluates(g, src, *operand, x)
                    &&& #[trigger] (g.folds)(op, None, tok, Some(x), out)
                }
        },
        Tree::Postfix { op, operand, at } => {
            &&& 0 <= op < g.count
            &&& exists|tok: Tok, x: O|
                {
                    &&& (g.yields)(op, src, at, tok)
                    &&& evaluates(g, src, *operand, x)
                    &&& #[trigger] (g.folds)(op, Some(x), tok, None, out)
                }
        },
        Tree::Infix { op, lhs, at, rhs } => {
            &&& 0 <= op < g.count
            &&& exists|tok: Tok, x: O, y: O|
                {
                    &&& (g.yields)(op, src, at, tok)
                    &&& evaluates(g, src, *lhs, x)
                    &&& evaluates(g, src, *rhs, y)
                    &&& #[trigger] (g.folds)(op, Some(x), tok, Some(y), out)
                }
        },
    }
}

} // verus!
