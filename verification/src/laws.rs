//! What holds of every expression that the model denotes.
//!
//! The tree of an expression is the one tree that reads the input operator by
//! operator, each the first in the order of declaration that applies, and
//! that cannot go on ([`lemma_expr_is_the_sound_tree`]). From this follow what
//! the order of declaration decides, where alone an expression fails, how
//! binding powers and associativity shape a tree, and that they decide nothing
//! where each operator stands alone with its atoms, as it does in a rendering
//! with a pair of brackets for every operator.

use crate::input::{furthest, Failure};
use crate::collection::{Either, Operators};
use crate::model::grammar;
use crate::operator::{Operator, Role};
use crate::parser::Parser;
use crate::model::{
    atom_end,
    continuation,
    evaluates,
    expr,
    infix_attempt,
    infix_scan,
    infix_token_end,
    left_power,
    operand,
    postfix_scan,
    prefix_attempt,
    right_power,
    token_end,
    Grammar,
    Parsed,
    Tree,
};
use vstd::prelude::*;

verus! {

/// The `i`-th operator is a prefix operator and is found, operand and all,
/// at `pos`.
pub open spec fn prefix_applies<O, Tok>(
    g: Grammar<O, Tok>,
    src: Seq<char>,
    pos: int,
    i: int,
) -> bool {
    &&& 0 <= i < g.count
    &&& (g.role)(i) is Prefix
    &&& prefix_attempt(g, src, pos, i).parsed is Some
}

/// The `i`-th operator is a postfix operator that binds at least as strongly
/// as `min_power`, and its token stands at `pos`.
pub open spec fn postfix_applies<O, Tok>(
    g: Grammar<O, Tok>,
    src: Seq<char>,
    pos: int,
    min_power: nat,
    i: int,
) -> bool {
    &&& 0 <= i < g.count
    &&& (g.role)(i) is Postfix
    &&& right_power(g, i) >= min_power
    &&& token_end((g.reply)(i, src, pos), src, pos) is Some
}

/// The `i`-th operator is an infix operator that binds at least as strongly
/// as `min_power`, and is found, right operand and all, at `pos`, behind an
/// operand that began at `start`.
pub open spec fn infix_applies<O, Tok>(
    g: Grammar<O, Tok>,
    src: Seq<char>,
    start: int,
    pos: int,
    min_power: nat,
    i: int,
) -> bool {
    &&& 0 <= i < g.count
    &&& (g.role)(i) is Infix
    &&& left_power(g, i) >= min_power
    &&& infix_attempt(g, src, start, pos, i).parsed is Some
}

/// Of the prefix operators from the `from`-th on, the `k`-th is the first
/// that applies at `pos`.
pub open spec fn first_prefix<O, Tok>(
    g: Grammar<O, Tok>,
    src: Seq<char>,
    pos: int,
    from: int,
    k: int,
) -> bool {
    &&& from <= k
    &&& prefix_applies(g, src, pos, k)
    &&& forall|j: int| from <= j < k ==> !#[trigger] prefix_applies(g, src, pos, j)
}

/// No prefix operator from the `from`-th on applies at `pos`.
pub open spec fn no_prefix<O, Tok>(
    g: Grammar<O, Tok>,
    src: Seq<char>,
    pos: int,
    from: int,
) -> bool {
    forall|j: int| from <= j ==> !#[trigger] prefix_applies(g, src, pos, j)
}

/// Of the postfix operators from the `from`-th on, the `k`-th is the first
/// that applies at `pos` under `min_power`.
pub open spec fn first_postfix<O, Tok>(
    g: Grammar<O, Tok>,
    src: Seq<char>,
    pos: int,
    min_power: nat,
    from: int,
    k: int,
) -> bool {
    &&& from <= k
    &&& postfix_applies(g, src, pos, min_power, k)
    &&& forall|j: int| from <= j < k ==> !#[trigger] postfix_applies(g, src, pos, min_power, j)
}

/// No postfix operator from the `from`-th on applies at `pos` under
/// `min_power`.
pub open spec fn no_postfix<O, Tok>(
    g: Grammar<O, Tok>,
    src: Seq<char>,
    pos: int,
    min_power: nat,
    from: int,
) -> bool {
    forall|j: int| from <= j ==> !#[trigger] postfix_applies(g, src, pos, min_power, j)
}

/// Of the infix operators from the `from`-th on, the `k`-th is the first
/// that applies at `pos` under `min_power`.
pub open spec fn first_infix<O, Tok>(
    g: Grammar<O, Tok>,
    src: Seq<char>,
    start: int,
    pos: int,
    min_power: nat,
    from: int,
    k: int,
) -> bool {
    &&& from <= k
    &&& infix_applies(g, src, start, pos, min_power, k)
    &&& forall|j: int|
        from <= j < k ==> !#[trigger] infix_applies(g, src, start, pos, min_power, j)
}

/// No infix operator from the `from`-th on applies at `pos` under
/// `min_power`.
pub open spec fn no_infix<O, Tok>(
    g: Grammar<O, Tok>,
    src: Seq<char>,
    start: int,
    pos: int,
    min_power: nat,
    from: int,
) -> bool {
    forall|j: int| from <= j ==> !#[trigger] infix_applies(g, src, start, pos, min_power, j)
}

/// An expression that ends at `pos` cannot go on under `min_power`: no
/// postfix and no infix operator that binds at least as strongly applies
/// there.
pub open spec fn stops<O, Tok>(
    g: Grammar<O, Tok>,
    src: Seq<char>,
    start: int,
    pos: int,
    min_power: nat,
) -> bool {
    &&& no_postfix(g, src, pos, min_power, 0)
    &&& no_infix(g, src, start, pos, min_power, 0)
}

/// `tree` is the reading of the input from `start` to `end` that the
/// algorithm makes under the threshold `min_power`, stopped or not: the
/// innermost left operand is the first prefix operator that applies at
/// `start`, or the atom where none applies; each operator further out is the
/// first that applies where its operand ends, a postfix operator if one
/// applies and an infix operator else; and the operand of a prefix operator
/// and the right operand of an infix operator are the expressions that the
/// input denotes behind the token under the operator's binding power.
pub open spec fn derives<O, Tok>(
    g: Grammar<O, Tok>,
    src: Seq<char>,
    tree: Tree,
    start: int,
    end: int,
    min_power: nat,
) -> bool
    decreases tree,
{
    match tree {
        Tree::Atom { at } => {
            &&& at == start
            &&& no_prefix(g, src, start, 0)
            &&& atom_end((g.atom_reply)(src, at), src, at) == Some(end)
        },
        Tree::Prefix { op, at, operand } => {
            &&& at == start
            &&& first_prefix(g, src, start, 0, op)
            &&& prefix_attempt(g, src, at, op).parsed == Some(Parsed { tree, end })
        },
        Tree::Postfix { op, operand, at } => {
            &&& derives(g, src, *operand, start, at, min_power)
            &&& first_postfix(g, src, at, min_power, 0, op)
            &&& token_end((g.reply)(op, src, at), src, at) == Some(end)
        },
        Tree::Infix { op, lhs, at, rhs } => {
            &&& derives(g, src, *lhs, start, at, min_power)
            &&& no_postfix(g, src, at, min_power, 0)
            &&& first_infix(g, src, start, at, min_power, 0, op)
            &&& infix_attempt(g, src, start, at, op).parsed == Some(Parsed { tree: *rhs, end })
        },
    }
}

/// The operand with which the reading of `tree` begins: `tree` without the
/// postfix and infix operators that were folded in behind it.
pub open spec fn first_operand(tree: Tree) -> Tree
    decreases tree,
{
    match tree {
        Tree::Atom { at } => tree,
        Tree::Prefix { op, at, operand } => tree,
        Tree::Postfix { op, operand, at } => first_operand(*operand),
        Tree::Infix { op, lhs, at, rhs } => first_operand(*lhs),
    }
}

/// Where the first operand of `tree` ends, if `tree` ends at `end`.
pub open spec fn first_operand_end(tree: Tree, end: int) -> int
    decreases tree,
{
    match tree {
        Tree::Atom { at } => end,
        Tree::Prefix { op, at, operand } => end,
        Tree::Postfix { op, operand, at } => first_operand_end(*operand, at),
        Tree::Infix { op, lhs, at, rhs } => first_operand_end(*lhs, at),
    }
}

/// What a search among the postfix operators from the `i`-th on comes to:
/// the first that applies, behind `lhs`, or nothing where none applies.
pub proof fn lemma_postfix_scan<O, Tok>(
    g: Grammar<O, Tok>,
    src: Seq<char>,
    lhs: Tree,
    pos: int,
    min_power: nat,
    i: int,
    acc: Option<Failure>,
)
    requires
        0 <= i,
    ensures
        match postfix_scan(g, src, lhs, pos, min_power, i, acc).parsed {
            Some(p) => match p.tree {
                Tree::Postfix { op, operand, at } => {
                    &&& *operand == lhs
                    &&& at == pos
                    &&& first_postfix(g, src, pos, min_power, i, op)
                    &&& token_end((g.reply)(op, src, pos), src, pos) == Some(p.end)
                },
                _ => false,
            },
            None => no_postfix(g, src, pos, min_power, i),
        },
    decreases g.count - i,
{
    if i < g.count {
        if (g.role)(i) is Postfix && right_power(g, i) >= min_power {
            let acc1 = furthest(acc, (g.reply)(i, src, pos).alt);
            if token_end((g.reply)(i, src, pos), src, pos) is None {
                lemma_postfix_scan(g, src, lhs, pos, min_power, i + 1, acc1);
            }
        } else {
            lemma_postfix_scan(g, src, lhs, pos, min_power, i + 1, acc);
        }
    }
}

/// What a search among the infix operators from the `i`-th on comes to: the
/// first that applies, between `lhs` and its right operand, or nothing where
/// none applies.
pub proof fn lemma_infix_scan<O, Tok>(
    g: Grammar<O, Tok>,
    src: Seq<char>,
    start: int,
    lhs: Tree,
    pos: int,
    min_power: nat,
    i: int,
    acc: Option<Failure>,
)
    requires
        0 <= i,
    ensures
        match infix_scan(g, src, start, lhs, pos, min_power, i, acc).parsed {
            Some(p) => match p.tree {
                Tree::Infix { op, lhs: left, at, rhs } => {
                    &&& *left == lhs
                    &&& at == pos
                    &&& first_infix(g, src, start, pos, min_power, i, op)
                    &&& infix_attempt(g, src, start, pos, op).parsed == Some(
                        Parsed { tree: *rhs, end: p.end },
                    )
                },
                _ => false,
            },
            None => no_infix(g, src, start, pos, min_power, i),
        },
    decreases g.count - i,
{
    if i < g.count {
        if (g.role)(i) is Infix && left_power(g, i) >= min_power {
            let attempt = infix_attempt(g, src, start, pos, i);
            let acc1 = furthest(acc, attempt.alt);
            if attempt.parsed is None {
                lemma_infix_scan(g, src, start, lhs, pos, min_power, i + 1, acc1);
            }
        } else {
            lemma_infix_scan(g, src, start, lhs, pos, min_power, i + 1, acc);
        }
    }
}

/// What a search for an operand among the prefix operators from the `i`-th
/// on comes to: the first that applies, or the atom where none applies, or
/// nothing where there is no atom either.
pub proof fn lemma_operand<O, Tok>(
    g: Grammar<O, Tok>,
    src: Seq<char>,
    pos: int,
    i: int,
    acc: Option<Failure>,
)
    requires
        0 <= i,
    ensures
        match operand(g, src, pos, i, acc).parsed {
            Some(p) => match p.tree {
                Tree::Atom { at } => {
                    &&& at == pos
                    &&& atom_end((g.atom_reply)(src, pos), src, pos) == Some(p.end)
                    &&& no_prefix(g, src, pos, i)
                },
                Tree::Prefix { op, at, operand } => {
                    &&& at == pos
                    &&& first_prefix(g, src, pos, i, op)
                    &&& prefix_attempt(g, src, pos, op).parsed == Some(p)
                },
                _ => false,
            },
            None => {
                &&& atom_end((g.atom_reply)(src, pos), src, pos) is None
                &&& no_prefix(g, src, pos, i)
            },
        },
    decreases g.count - i,
{
    if i < g.count {
        if (g.role)(i) is Prefix {
            let attempt = prefix_attempt(g, src, pos, i);
            let acc1 = furthest(acc, attempt.alt);
            if attempt.parsed is None {
                lemma_operand(g, src, pos, i + 1, acc1);
            }
        } else {
            lemma_operand(g, src, pos, i + 1, acc);
        }
    }
}

/// What makes a tree the expression at `start` under `min_power`: it lies
/// within the input, it is the reading that the algorithm makes from `start`
/// to its end, and it cannot go on.
pub open spec fn sound<O, Tok>(
    g: Grammar<O, Tok>,
    src: Seq<char>,
    start: int,
    min_power: nat,
    p: Parsed,
) -> bool {
    &&& start <= p.end <= src.len()
    &&& derives(g, src, p.tree, start, p.end, min_power)
    &&& stops(g, src, start, p.end, min_power)
}

/// Every expression of the model is sound.
pub proof fn lemma_expr_sound<O, Tok>(
    g: Grammar<O, Tok>,
    src: Seq<char>,
    pos: int,
    min_power: nat,
)
    ensures
        expr(g, src, pos, min_power).parsed matches Some(p) ==> sound(g, src, pos, min_power, p),
    decreases src.len() - pos, 5nat, 0nat,
{
    lemma_operand(g, src, pos, 0, None);
    let head = operand(g, src, pos, 0, None);
    if let Some(p) = head.parsed {
        if let Tree::Prefix { op, at, operand } = p.tree {
            let end = token_end((g.reply)(op, src, pos), src, pos)->0;
            lemma_expr_sound(g, src, end, left_power(g, op));
        }
        lemma_continuation_sound(g, src, p.tree, p.end, min_power, head.alt, pos);
    }
}

/// From a reading of the input up to `pos` the continuation makes a sound
/// expression.
pub proof fn lemma_continuation_sound<O, Tok>(
    g: Grammar<O, Tok>,
    src: Seq<char>,
    lhs: Tree,
    pos: int,
    min_power: nat,
    acc: Option<Failure>,
    start: int,
)
    requires
        start <= pos <= src.len(),
        derives(g, src, lhs, start, pos, min_power),
    ensures
        continuation(g, src, start, lhs, pos, min_power, acc).parsed matches Some(p) && sound(
            g,
            src,
            start,
            min_power,
            p,
        ),
    decreases src.len() - start, 3nat, src.len() - pos,
{
    lemma_postfix_scan(g, src, lhs, pos, min_power, 0, acc);
    let post = postfix_scan(g, src, lhs, pos, min_power, 0, acc);
    match post.parsed {
        Some(p) => {
            lemma_continuation_sound(g, src, p.tree, p.end, min_power, post.alt, start);
        },
        None => {
            lemma_infix_scan(g, src, start, lhs, pos, min_power, 0, post.alt);
            let inf = infix_scan(g, src, start, lhs, pos, min_power, 0, post.alt);
            match inf.parsed {
                Some(p) => {
                    let op = p.tree->Infix_op;
                    let end = infix_token_end((g.reply)(op, src, pos), src, start, pos)->0;
                    lemma_expr_sound(g, src, end, right_power(g, op));
                    lemma_continuation_sound(g, src, p.tree, p.end, min_power, inf.alt, start);
                },
                None => {},
            }
        },
    }
}

/// The reading of a tree begins with its first operand: that is what the
/// search for an operand finds at `start`.
proof fn lemma_first_operand<O, Tok>(
    g: Grammar<O, Tok>,
    src: Seq<char>,
    tree: Tree,
    start: int,
    end: int,
    min_power: nat,
)
    requires
        derives(g, src, tree, start, end, min_power),
    ensures
        operand(g, src, start, 0, None).parsed == Some(
            Parsed { tree: first_operand(tree), end: first_operand_end(tree, end) },
        ),
        start <= first_operand_end(tree, end) <= src.len(),
    decreases tree,
{
    match tree {
        Tree::Atom { at } => {
            lemma_operand(g, src, start, 0, None);
        },
        Tree::Prefix { op, at, operand } => {
            lemma_operand(g, src, start, 0, None);
            let behind = token_end((g.reply)(op, src, start), src, start)->0;
            lemma_expr_sound(g, src, behind, left_power(g, op));
        },
        Tree::Postfix { op, operand, at } => {
            lemma_first_operand(g, src, *operand, start, at, min_power);
        },
        Tree::Infix { op, lhs, at, rhs } => {
            lemma_first_operand(g, src, *lhs, start, at, min_power);
        },
    }
}

/// What the continuation makes of a tree it makes of the first operand of
/// the tree: the operators of the tree are found again, one after the other.
proof fn lemma_replay<O, Tok>(
    g: Grammar<O, Tok>,
    src: Seq<char>,
    tree: Tree,
    start: int,
    end: int,
    min_power: nat,
    acc: Option<Failure>,
    x: Option<Parsed>,
)
    requires
        derives(g, src, tree, start, end, min_power),
        forall|a: Option<Failure>| #[trigger]
            continuation(g, src, start, tree, end, min_power, a).parsed == x,
    ensures
        continuation(
            g,
            src,
            start,
            first_operand(tree),
            first_operand_end(tree, end),
            min_power,
            acc,
        ).parsed == x,
    decreases tree,
{
    match tree {
        Tree::Atom { at } => {},
        Tree::Prefix { op, at, operand } => {},
        Tree::Postfix { op, operand, at } => {
            assert forall|a: Option<Failure>| #[trigger]
                continuation(g, src, start, *operand, at, min_power, a).parsed == x by {
                lemma_postfix_scan(g, src, *operand, at, min_power, 0, a);
                let post = postfix_scan(g, src, *operand, at, min_power, 0, a);
                assert(post.parsed == Some(Parsed { tree, end }));
                assert(continuation(g, src, start, *operand, at, min_power, a) == continuation(
                    g,
                    src,
                    start,
                    tree,
                    end,
                    min_power,
                    post.alt,
                ));
            }
            lemma_replay(g, src, *operand, start, at, min_power, acc, x);
        },
        Tree::Infix { op, lhs, at, rhs } => {
            let behind = infix_token_end((g.reply)(op, src, at), src, start, at)->0;
            lemma_expr_sound(g, src, behind, right_power(g, op));
            assert forall|a: Option<Failure>| #[trigger]
                continuation(g, src, start, *lhs, at, min_power, a).parsed == x by {
                lemma_postfix_scan(g, src, *lhs, at, min_power, 0, a);
                let post = postfix_scan(g, src, *lhs, at, min_power, 0, a);
                assert(post.parsed is None);
                lemma_infix_scan(g, src, start, *lhs, at, min_power, 0, post.alt);
                let inf = infix_scan(g, src, start, *lhs, at, min_power, 0, post.alt);
                assert(inf.parsed == Some(Parsed { tree, end }));
                assert(continuation(g, src, start, *lhs, at, min_power, a) == continuation(
                    g,
                    src,
                    start,
                    tree,
                    end,
                    min_power,
                    inf.alt,
                ));
            }
            lemma_replay(g, src, *lhs, start, at, min_power, acc, x);
        },
    }
}

/// A sound tree is the expression of the model: the algorithm finds no other
/// reading of the input.
pub proof fn lemma_expr_complete<O, Tok>(
    g: Grammar<O, Tok>,
    src: Seq<char>,
    start: int,
    min_power: nat,
    p: Parsed,
)
    requires
        sound(g, src, start, min_power, p),
    ensures
        expr(g, src, start, min_power).parsed == Some(p),
{
    lemma_first_operand(g, src, p.tree, start, p.end, min_power);
    assert forall|a: Option<Failure>| #[trigger]
        continuation(g, src, start, p.tree, p.end, min_power, a).parsed == Some(p) by {
        lemma_postfix_scan(g, src, p.tree, p.end, min_power, 0, a);
        let post = postfix_scan(g, src, p.tree, p.end, min_power, 0, a);
        assert(post.parsed is None);
        lemma_infix_scan(g, src, start, p.tree, p.end, min_power, 0, post.alt);
    }
    let head = operand(g, src, start, 0, None);
    lemma_replay(g, src, p.tree, start, p.end, min_power, head.alt, Some(p));
}

/// The expression at a position is the one sound tree there, and where there
/// is no sound tree there is no expression.
pub proof fn lemma_expr_is_the_sound_tree<O, Tok>(
    g: Grammar<O, Tok>,
    src: Seq<char>,
    start: int,
    min_power: nat,
    p: Parsed,
)
    ensures
        expr(g, src, start, min_power).parsed == Some(p) <==> sound(g, src, start, min_power, p),
{
    lemma_expr_sound(g, src, start, min_power);
    if sound(g, src, start, min_power, p) {
        lemma_expr_complete(g, src, start, min_power, p);
    }
}

/// The order of declaration decides among prefix operators: where the
/// `i`-th operator applies as a prefix operator at `pos`, the operand found
/// there is that of a prefix operator declared no later than the `i`-th.
pub proof fn lemma_earlier_prefix_wins<O, Tok>(
    g: Grammar<O, Tok>,
    src: Seq<char>,
    pos: int,
    i: int,
)
    requires
        prefix_applies(g, src, pos, i),
    ensures
        operand(g, src, pos, 0, None).parsed matches Some(p) && p.tree is Prefix
            && p.tree->Prefix_op <= i,
{
    lemma_operand(g, src, pos, 0, None);
}

/// The order of declaration decides among postfix operators: where the
/// `i`-th operator applies as a postfix operator at `pos` under `min_power`,
/// the operator folded in there is a postfix operator declared no later than
/// the `i`-th.
pub proof fn lemma_earlier_postfix_wins<O, Tok>(
    g: Grammar<O, Tok>,
    src: Seq<char>,
    lhs: Tree,
    pos: int,
    min_power: nat,
    i: int,
)
    requires
        postfix_applies(g, src, pos, min_power, i),
    ensures
        postfix_scan(g, src, lhs, pos, min_power, 0, None).parsed matches Some(p)
            && p.tree is Postfix && p.tree->Postfix_op <= i,
{
    lemma_postfix_scan(g, src, lhs, pos, min_power, 0, None);
}

/// The order of declaration decides among infix operators: where no postfix
/// operator is found and the `i`-th operator applies as an infix operator at
/// `pos` under `min_power`, the operator folded in there is an infix operator
/// declared no later than the `i`-th.
pub proof fn lemma_earlier_infix_wins<O, Tok>(
    g: Grammar<O, Tok>,
    src: Seq<char>,
    start: int,
    lhs: Tree,
    pos: int,
    min_power: nat,
    i: int,
)
    requires
        infix_applies(g, src, start, pos, min_power, i),
    ensures
        infix_scan(g, src, start, lhs, pos, min_power, 0, None).parsed matches Some(p)
            && p.tree is Infix && p.tree->Infix_op <= i,
{
    lemma_infix_scan(g, src, start, lhs, pos, min_power, 0, None);
}

/// An expression fails exactly where no operand is found: where no prefix
/// operator applies and no atom stands. What follows an operand never makes
/// an expression fail.
pub proof fn lemma_fails_only_for_want_of_an_operand<O, Tok>(
    g: Grammar<O, Tok>,
    src: Seq<char>,
    pos: int,
    min_power: nat,
)
    ensures
        expr(g, src, pos, min_power).parsed is None <==> {
            &&& atom_end((g.atom_reply)(src, pos), src, pos) is None
            &&& no_prefix(g, src, pos, 0)
        },
        expr(g, src, pos, min_power).parsed is None ==> expr(g, src, pos, min_power) == operand(
            g,
            src,
            pos,
            0,
            None,
        ),
{
    lemma_operand(g, src, pos, 0, None);
    let head = operand(g, src, pos, 0, None);
    if let Some(p) = head.parsed {
        if let Tree::Prefix { op, at, operand } = p.tree {
            let end = token_end((g.reply)(op, src, pos), src, pos)->0;
            lemma_expr_sound(g, src, end, left_power(g, op));
        }
        lemma_continuation_sound(g, src, p.tree, p.end, min_power, head.alt, pos);
        assert(prefix_applies(g, src, pos, p.tree->Prefix_op) || atom_end(
            (g.atom_reply)(src, pos),
            src,
            pos,
        ) is Some);
    }
}

/// The threshold under which the last part of `tree` was read as an
/// expression of its own: the left binding power of a prefix operator at the
/// root, the right binding power of an infix operator at the root. An atom
/// and a postfix operator end with no such part.
pub open spec fn closing_power<O, Tok>(g: Grammar<O, Tok>, tree: Tree) -> Option<nat> {
    match tree {
        Tree::Atom { at } => None,
        Tree::Prefix { op, at, operand } => Some(left_power(g, op)),
        Tree::Postfix { op, operand, at } => None,
        Tree::Infix { op, lhs, at, rhs } => Some(right_power(g, op)),
    }
}

/// Where the last part of `tree` begins, if `tree`, which began at `start`,
/// has one: behind the token of the operator at the root.
pub open spec fn closing_start<O, Tok>(
    g: Grammar<O, Tok>,
    src: Seq<char>,
    start: int,
    tree: Tree,
) -> Option<int> {
    match tree {
        Tree::Atom { at } => None,
        Tree::Prefix { op, at, operand } => token_end((g.reply)(op, src, at), src, at),
        Tree::Postfix { op, operand, at } => None,
        Tree::Infix { op, lhs, at, rhs } => infix_token_end(
            (g.reply)(op, src, at),
            src,
            start,
            at,
        ),
    }
}

/// The infix operator at the root of `tree` has an empty token, and the last
/// part of its left operand is empty too. (Only an atom parser that matches
/// without reading anything makes this possible.)
pub open spec fn empty_behind_empty<O, Tok>(
    g: Grammar<O, Tok>,
    src: Seq<char>,
    start: int,
    tree: Tree,
) -> bool {
    &&& tree matches Tree::Infix { op, lhs, at, rhs }
    &&& (g.reply)(op, src, at).end == Some(at)
    &&& closing_start(g, src, start, *lhs) == Some(at)
}

/// The operand of a prefix operator and the right operand of an infix
/// operator are sound expressions under the binding power with which the
/// operator holds them: they take in every operator that binds at least as
/// strongly, and no other.
pub proof fn lemma_operand_behind_token<O, Tok>(
    g: Grammar<O, Tok>,
    src: Seq<char>,
    tree: Tree,
    start: int,
    end: int,
    min_power: nat,
)
    requires
        derives(g, src, tree, start, end, min_power),
    ensures
        tree matches Tree::Prefix { op, at, operand } ==> {
            &&& closing_start(g, src, start, tree) matches Some(behind)
            &&& sound(g, src, behind, left_power(g, op), Parsed { tree: *operand, end })
        },
        tree matches Tree::Infix { op, lhs, at, rhs } ==> {
            &&& closing_start(g, src, start, tree) matches Some(behind)
            &&& sound(g, src, behind, right_power(g, op), Parsed { tree: *rhs, end })
        },
{
    match tree {
        Tree::Prefix { op, at, operand } => {
            let behind = token_end((g.reply)(op, src, at), src, at)->0;
            lemma_expr_sound(g, src, behind, left_power(g, op));
        },
        Tree::Infix { op, lhs, at, rhs } => {
            let behind = infix_token_end((g.reply)(op, src, at), src, start, at)->0;
            lemma_expr_sound(g, src, behind, right_power(g, op));
        },
        _ => {},
    }
}

/// An operator that is folded in behind an expression binds less strongly
/// than the threshold under which the last part of that expression was read:
/// otherwise that part would have taken it in. (An empty infix token behind
/// an empty last part is the exception: the last part could not take it in.)
pub proof fn lemma_operator_behind_expression<O, Tok>(
    g: Grammar<O, Tok>,
    src: Seq<char>,
    tree: Tree,
    start: int,
    end: int,
    min_power: nat,
)
    requires
        derives(g, src, tree, start, end, min_power),
    ensures
        tree matches Tree::Postfix { op, operand, at } ==> (closing_power(g, *operand) matches Some(
            closing,
        ) ==> right_power(g, op) < closing),
        tree matches Tree::Infix { op, lhs, at, rhs } ==> (closing_power(g, *lhs) matches Some(
            closing,
        ) ==> empty_behind_empty(g, src, start, tree) || left_power(g, op) < closing),
{
    match tree {
        Tree::Postfix { op, operand, at } => {
            lemma_operand_behind_token(g, src, *operand, start, at, min_power);
            if let Some(closing) = closing_power(g, *operand) {
                assert(!postfix_applies(g, src, at, closing, op));
            }
        },
        Tree::Infix { op, lhs, at, rhs } => {
            lemma_operand_behind_token(g, src, *lhs, start, at, min_power);
            if let Some(closing) = closing_power(g, *lhs) {
                let behind = closing_start(g, src, start, *lhs)->0;
                assert(!infix_applies(g, src, behind, at, closing, op));
                assert(infix_applies(g, src, start, at, min_power, op));
                if !empty_behind_empty(g, src, start, tree) {
                    assert(infix_attempt(g, src, behind, at, op) == infix_attempt(
                        g,
                        src,
                        start,
                        at,
                        op,
                    ));
                }
            }
        },
        _ => {},
    }
}

/// Precedence and associativity among infix operators. An infix operator
/// takes an infix expression as an operand only if that one binds at least as
/// strongly. Where the two bind equally strongly, it is the left operand if
/// both are left-associative, and the right operand in every other case: a
/// chain of left-associative operators of one binding power groups to the
/// left, `(a + b) + c`, and a chain of right-associative ones to the right,
/// `a ^ (b ^ c)`. (What is said of the left operand leaves out an empty token
/// behind an empty right operand of the left operand.)
pub proof fn lemma_infix_chains<O, Tok>(
    g: Grammar<O, Tok>,
    src: Seq<char>,
    tree: Tree,
    start: int,
    end: int,
    min_power: nat,
)
    requires
        derives(g, src, tree, start, end, min_power),
    ensures
        tree matches Tree::Infix { op, lhs, at, rhs } ==> {
            let outer = (g.associativity)(op);
            &&& *rhs matches Tree::Infix { op: inner, .. } ==> {
                let inner = (g.associativity)(inner);
                &&& inner.power() >= outer.power()
                &&& inner.power() == outer.power() ==> !(outer is Left && inner is Left)
            }
            &&& *lhs matches Tree::Infix { op: inner, .. } ==> empty_behind_empty(
                g,
                src,
                start,
                tree,
            ) || {
                let inner = (g.associativity)(inner);
                &&& inner.power() >= outer.power()
                &&& inner.power() == outer.power() ==> outer is Left && inner is Left
            }
        },
{
    lemma_operand_behind_token(g, src, tree, start, end, min_power);
    lemma_operator_behind_expression(g, src, tree, start, end, min_power);
}

/// Prefix against postfix. With binding powers declared as by
/// [`crate::prefix`] and [`crate::postfix`], a postfix operator stands
/// within the operand of a prefix operator, `-(2!)`, only if its binding
/// power is at least that of the prefix operator, and is applied to the
/// prefix expression, `(-2)!`, only if its binding power is smaller.
pub proof fn lemma_prefix_against_postfix<O, Tok>(
    g: Grammar<O, Tok>,
    src: Seq<char>,
    tree: Tree,
    start: int,
    end: int,
    min_power: nat,
)
    requires
        derives(g, src, tree, start, end, min_power),
    ensures
        tree matches Tree::Prefix { op: pre, at, operand } ==> (*operand matches Tree::Postfix {
            op: post,
            ..
        } ==> {
            let pre = (g.associativity)(pre);
            let post = (g.associativity)(post);
            pre is Left && post is Left ==> post.power() >= pre.power()
        }),
        tree matches Tree::Postfix { op: post, operand, at } ==> (*operand matches Tree::Prefix {
            op: pre,
            ..
        } ==> {
            let pre = (g.associativity)(pre);
            let post = (g.associativity)(post);
            pre is Left && post is Left ==> post.power() < pre.power()
        }),
{
    lemma_operand_behind_token(g, src, tree, start, end, min_power);
    lemma_operator_behind_expression(g, src, tree, start, end, min_power);
}

/// The token of the `i`-th operator, taken in the role `role` of a prefix or
/// postfix operator, stands at `pos`.
pub open spec fn token_stands<O, Tok>(
    g: Grammar<O, Tok>,
    src: Seq<char>,
    pos: int,
    role: Role,
    i: int,
) -> bool {
    &&& 0 <= i < g.count
    &&& (g.role)(i) == role
    &&& token_end((g.reply)(i, src, pos), src, pos) is Some
}

/// The token of the `i`-th operator, taken as an infix operator, stands at
/// `pos` behind an operand that began at `start`.
pub open spec fn infix_token_stands<O, Tok>(
    g: Grammar<O, Tok>,
    src: Seq<char>,
    start: int,
    pos: int,
    i: int,
) -> bool {
    &&& 0 <= i < g.count
    &&& (g.role)(i) is Infix
    &&& infix_token_end((g.reply)(i, src, pos), src, start, pos) is Some
}

/// The token parser of the `i`-th operator, an infix operator, matches at
/// `pos`, be it without reading anything.
pub open spec fn infix_token_matches<O, Tok>(
    g: Grammar<O, Tok>,
    src: Seq<char>,
    pos: int,
    i: int,
) -> bool {
    &&& 0 <= i < g.count
    &&& (g.role)(i) is Infix
    &&& (g.reply)(i, src, pos).end is Some
}

/// An atom stands alone from `start` to `end`: no prefix operator's token
/// stands before it.
pub open spec fn lone_atom<O, Tok>(
    g: Grammar<O, Tok>,
    src: Seq<char>,
    start: int,
    end: int,
) -> bool {
    &&& atom_end((g.atom_reply)(src, start), src, start) == Some(end)
    &&& forall|j: int| !#[trigger] token_stands(g, src, start, Role::Prefix, j)
}

/// No postfix operator's token stands at `pos`, and no infix operator's
/// token parser matches there.
pub open spec fn nothing_follows<O, Tok>(g: Grammar<O, Tok>, src: Seq<char>, pos: int) -> bool {
    &&& forall|j: int| !#[trigger] token_stands(g, src, pos, Role::Postfix, j)
    &&& forall|j: int| !#[trigger] infix_token_matches(g, src, pos, j)
}

/// Where nothing follows, an expression cannot go on, wherever it began and
/// whatever the threshold.
pub proof fn lemma_nothing_follows<O, Tok>(
    g: Grammar<O, Tok>,
    src: Seq<char>,
    start: int,
    pos: int,
    min_power: nat,
)
    requires
        nothing_follows(g, src, pos),
    ensures
        stops(g, src, start, pos, min_power),
{
    assert forall|j: int| !#[trigger] postfix_applies(g, src, pos, min_power, j) by {
        assert(!token_stands(g, src, pos, Role::Postfix, j));
    }
    assert forall|j: int| !#[trigger] infix_applies(g, src, start, pos, min_power, j) by {
        assert(!infix_token_matches(g, src, pos, j));
    }
}

/// An atom with nothing behind it is the whole expression, under every
/// threshold.
pub proof fn lemma_lone_atom<O, Tok>(
    g: Grammar<O, Tok>,
    src: Seq<char>,
    start: int,
    end: int,
    min_power: nat,
)
    requires
        lone_atom(g, src, start, end),
        nothing_follows(g, src, end),
    ensures
        expr(g, src, start, min_power).parsed == Some(
            Parsed { tree: Tree::Atom { at: start }, end },
        ),
{
    let p = Parsed { tree: Tree::Atom { at: start }, end };
    assert forall|j: int| !#[trigger] prefix_applies(g, src, start, j) by {
        assert(!token_stands(g, src, start, Role::Prefix, j));
    }
    lemma_nothing_follows(g, src, start, end, min_power);
    lemma_expr_complete(g, src, start, min_power, p);
}

/// Where one infix operator stands alone between two atoms, as between
/// brackets that hold nothing else, the expression is that operator applied
/// to the two atoms, whatever the binding powers: the `k`-th operator is the
/// first infix operator whose token stands behind the left atom, and nothing
/// follows the right atom.
pub proof fn lemma_lone_infix<O, Tok>(
    g: Grammar<O, Tok>,
    src: Seq<char>,
    start: int,
    at: int,
    k: int,
    behind: int,
    end: int,
)
    requires
        lone_atom(g, src, start, at),
        forall|j: int| !#[trigger] token_stands(g, src, at, Role::Postfix, j),
        infix_token_stands(g, src, start, at, k),
        forall|j: int| j < k ==> !#[trigger] infix_token_stands(g, src, start, at, j),
        infix_token_end((g.reply)(k, src, at), src, start, at) == Some(behind),
        lone_atom(g, src, behind, end),
        at < end,
        nothing_follows(g, src, end),
    ensures
        expr(g, src, start, 0).parsed == Some(
            Parsed {
                tree: Tree::Infix {
                    op: k,
                    lhs: Box::new(Tree::Atom { at: start }),
                    at,
                    rhs: Box::new(Tree::Atom { at: behind }),
                },
                end,
            },
        ),
{
    lemma_lone_atom(g, src, behind, end, right_power(g, k));
    let lhs = Tree::Atom { at: start };
    let tree = Tree::Infix {
        op: k,
        lhs: Box::new(lhs),
        at,
        rhs: Box::new(Tree::Atom { at: behind }),
    };
    assert forall|j: int| !#[trigger] prefix_applies(g, src, start, j) by {
        assert(!token_stands(g, src, start, Role::Prefix, j));
    }
    assert forall|j: int| !#[trigger] postfix_applies(g, src, at, 0, j) by {
        assert(!token_stands(g, src, at, Role::Postfix, j));
    }
    assert forall|j: int| j < k implies !#[trigger] infix_applies(g, src, start, at, 0, j) by {
        assert(!infix_token_stands(g, src, start, at, j));
    }
    lemma_nothing_follows(g, src, start, end, 0);
    assert(derives(g, src, lhs, start, at, 0));
    assert(infix_applies(g, src, start, at, 0, k));
    assert(derives(g, src, tree, start, end, 0));
    lemma_expr_complete(g, src, start, 0, Parsed { tree, end });
}

/// Where one prefix operator stands alone before an atom, the expression is
/// that operator applied to the atom, whatever the binding powers: the
/// `k`-th operator is the first prefix operator whose token stands at
/// `start`, and nothing follows the atom.
pub proof fn lemma_lone_prefix<O, Tok>(
    g: Grammar<O, Tok>,
    src: Seq<char>,
    start: int,
    k: int,
    behind: int,
    end: int,
)
    requires
        token_stands(g, src, start, Role::Prefix, k),
        forall|j: int| j < k ==> !#[trigger] token_stands(g, src, start, Role::Prefix, j),
        token_end((g.reply)(k, src, start), src, start) == Some(behind),
        lone_atom(g, src, behind, end),
        nothing_follows(g, src, end),
    ensures
        expr(g, src, start, 0).parsed == Some(
            Parsed {
                tree: Tree::Prefix {
                    op: k,
                    at: start,
                    operand: Box::new(Tree::Atom { at: behind }),
                },
                end,
            },
        ),
{
    lemma_lone_atom(g, src, behind, end, left_power(g, k));
    let tree = Tree::Prefix { op: k, at: start, operand: Box::new(Tree::Atom { at: behind }) };
    assert forall|j: int| j < k implies !#[trigger] prefix_applies(g, src, start, j) by {
        assert(!token_stands(g, src, start, Role::Prefix, j));
    }
    lemma_nothing_follows(g, src, start, end, 0);
    assert(prefix_attempt(g, src, start, k).parsed == Some(Parsed { tree, end }));
    assert(prefix_applies(g, src, start, k));
    assert(derives(g, src, tree, start, end, 0));
    lemma_expr_complete(g, src, start, 0, Parsed { tree, end });
}

/// Where one postfix operator stands alone behind an atom, the expression is
/// that operator applied to the atom, whatever the binding powers: the
/// `k`-th operator is the first postfix operator whose token stands behind
/// the atom, and nothing follows the token.
pub proof fn lemma_lone_postfix<O, Tok>(
    g: Grammar<O, Tok>,
    src: Seq<char>,
    start: int,
    at: int,
    k: int,
    end: int,
)
    requires
        lone_atom(g, src, start, at),
        token_stands(g, src, at, Role::Postfix, k),
        forall|j: int| j < k ==> !#[trigger] token_stands(g, src, at, Role::Postfix, j),
        token_end((g.reply)(k, src, at), src, at) == Some(end),
        nothing_follows(g, src, end),
    ensures
        expr(g, src, start, 0).parsed == Some(
            Parsed {
                tree: Tree::Postfix {
                    op: k,
                    operand: Box::new(Tree::Atom { at: start }),
                    at,
                },
                end,
            },
        ),
{
    let operand = Tree::Atom { at: start };
    let tree = Tree::Postfix { op: k, operand: Box::new(operand), at };
    assert forall|j: int| !#[trigger] prefix_applies(g, src, start, j) by {
        assert(!token_stands(g, src, start, Role::Prefix, j));
    }
    assert forall|j: int| j < k implies !#[trigger] postfix_applies(g, src, at, 0, j) by {
        assert(!token_stands(g, src, at, Role::Postfix, j));
    }
    lemma_nothing_follows(g, src, start, end, 0);
    assert(derives(g, src, operand, start, at, 0));
    assert(postfix_applies(g, src, at, 0, k));
    assert(derives(g, src, tree, start, end, 0));
    lemma_expr_complete(g, src, start, 0, Parsed { tree, end });
}

/// Two grammars read alike: their atom parsers make the same of every
/// position, they have as many operators, and operators in the same place
/// have the same role, the same binding power and token parsers that make
/// the same of every position. (Values and fold functions play no part, nor
/// do the types of the tokens: a list and a chain of the same operators read
/// alike.)
pub open spec fn read_alike<O1, Tok1, O2, Tok2>(
    a: Grammar<O1, Tok1>,
    b: Grammar<O2, Tok2>,
) -> bool {
    &&& a.count == b.count
    &&& forall|src: Seq<char>, pos: int| #[trigger]
        (a.atom_reply)(src, pos) == (b.atom_reply)(src, pos)
    &&& forall|i: int| 0 <= i < a.count ==> #[trigger] (a.role)(i) == (b.role)(i)
    &&& forall|i: int|
        0 <= i < a.count ==> #[trigger] (a.associativity)(i) == (b.associativity)(i)
    &&& forall|i: int, src: Seq<char>, pos: int|
        0 <= i < a.count ==> #[trigger] (a.reply)(i, src, pos) == (b.reply)(i, src, pos)
}

/// Grammars that read alike denote the same expression everywhere: the same
/// tree, the same end and the same furthest failure.
pub proof fn lemma_read_alike<O1, Tok1, O2, Tok2>(
    a: Grammar<O1, Tok1>,
    b: Grammar<O2, Tok2>,
    src: Seq<char>,
    pos: int,
    min_power: nat,
)
    requires
        read_alike(a, b),
    ensures
        expr(a, src, pos, min_power) == expr(b, src, pos, min_power),
    decreases src.len() - pos, 5nat, 0nat,
{
    lemma_operand_alike(a, b, src, pos, 0, None);
    let head = operand(a, src, pos, 0, None);
    if let Some(p) = head.parsed {
        if pos <= p.end <= src.len() {
            lemma_continuation_alike(a, b, src, pos, p.tree, p.end, min_power, head.alt);
        }
    }
}

proof fn lemma_operand_alike<O1, Tok1, O2, Tok2>(
    a: Grammar<O1, Tok1>,
    b: Grammar<O2, Tok2>,
    src: Seq<char>,
    pos: int,
    i: int,
    acc: Option<Failure>,
)
    requires
        read_alike(a, b),
    ensures
        operand(a, src, pos, i, acc) == operand(b, src, pos, i, acc),
    decreases src.len() - pos, 4nat, a.count - i,
{
    if 0 <= i < a.count {
        if (a.role)(i) is Prefix {
            lemma_prefix_attempt_alike(a, b, src, pos, i);
            let attempt = prefix_attempt(a, src, pos, i);
            if attempt.parsed is None {
                lemma_operand_alike(a, b, src, pos, i + 1, furthest(acc, attempt.alt));
            }
        } else {
            lemma_operand_alike(a, b, src, pos, i + 1, acc);
        }
    }
}

proof fn lemma_prefix_attempt_alike<O1, Tok1, O2, Tok2>(
    a: Grammar<O1, Tok1>,
    b: Grammar<O2, Tok2>,
    src: Seq<char>,
    pos: int,
    i: int,
)
    requires
        read_alike(a, b),
        0 <= i < a.count,
    ensures
        prefix_attempt(a, src, pos, i) == prefix_attempt(b, src, pos, i),
    decreases src.len() - pos, 1nat, 0nat,
{
    if let Some(end) = token_end((a.reply)(i, src, pos), src, pos) {
        lemma_read_alike(a, b, src, end, left_power(a, i));
    }
}

proof fn lemma_continuation_alike<O1, Tok1, O2, Tok2>(
    a: Grammar<O1, Tok1>,
    b: Grammar<O2, Tok2>,
    src: Seq<char>,
    start: int,
    lhs: Tree,
    pos: int,
    min_power: nat,
    acc: Option<Failure>,
)
    requires
        read_alike(a, b),
    ensures
        continuation(a, src, start, lhs, pos, min_power, acc) == continuation(
            b,
            src,
            start,
            lhs,
            pos,
            min_power,
            acc,
        ),
    decreases src.len() - start, 3nat, src.len() - pos,
{
    lemma_postfix_scan_alike(a, b, src, lhs, pos, min_power, 0, acc);
    let post = postfix_scan(a, src, lhs, pos, min_power, 0, acc);
    match post.parsed {
        Some(p) => {
            if pos < p.end <= src.len() {
                lemma_continuation_alike(a, b, src, start, p.tree, p.end, min_power, post.alt);
            }
        },
        None => {
            lemma_infix_scan_alike(a, b, src, start, lhs, pos, min_power, 0, post.alt);
            let inf = infix_scan(a, src, start, lhs, pos, min_power, 0, post.alt);
            if let Some(p) = inf.parsed {
                if pos < p.end <= src.len() {
                    lemma_continuation_alike(a, b, src, start, p.tree, p.end, min_power, inf.alt);
                }
            }
        },
    }
}

proof fn lemma_postfix_scan_alike<O1, Tok1, O2, Tok2>(
    a: Grammar<O1, Tok1>,
    b: Grammar<O2, Tok2>,
    src: Seq<char>,
    lhs: Tree,
    pos: int,
    min_power: nat,
    i: int,
    acc: Option<Failure>,
)
    requires
        read_alike(a, b),
    ensures
        postfix_scan(a, src, lhs, pos, min_power, i, acc) == postfix_scan(
            b,
            src,
            lhs,
            pos,
            min_power,
            i,
            acc,
        ),
    decreases a.count - i,
{
    if 0 <= i < a.count {
        if (a.role)(i) is Postfix && right_power(a, i) >= min_power {
            let acc1 = furthest(acc, (a.reply)(i, src, pos).alt);
            if token_end((a.reply)(i, src, pos), src, pos) is None {
                lemma_postfix_scan_alike(a, b, src, lhs, pos, min_power, i + 1, acc1);
            }
        } else {
            lemma_postfix_scan_alike(a, b, src, lhs, pos, min_power, i + 1, acc);
        }
    }
}

proof fn lemma_infix_scan_alike<O1, Tok1, O2, Tok2>(
    a: Grammar<O1, Tok1>,
    b: Grammar<O2, Tok2>,
    src: Seq<char>,
    start: int,
    lhs: Tree,
    pos: int,
    min_power: nat,
    i: int,
    acc: Option<Failure>,
)
    requires
        read_alike(a, b),
    ensures
        infix_scan(a, src, start, lhs, pos, min_power, i, acc) == infix_scan(
            b,
            src,
            start,
            lhs,
            pos,
            min_power,
            i,
            acc,
        ),
    decreases src.len() - start, 2nat, a.count - i,
{
    if 0 <= i < a.count {
        if (a.role)(i) is Infix && left_power(a, i) >= min_power {
            lemma_infix_attempt_alike(a, b, src, start, pos, i);
            let attempt = infix_attempt(a, src, start, pos, i);
            if attempt.parsed is None {
                lemma_infix_scan_alike(
                    a,
                    b,
                    src,
                    start,
                    lhs,
                    pos,
                    min_power,
                    i + 1,
                    furthest(acc, attempt.alt),
                );
            }
        } else {
            lemma_infix_scan_alike(a, b, src, start, lhs, pos, min_power, i + 1, acc);
        }
    }
}

proof fn lemma_infix_attempt_alike<O1, Tok1, O2, Tok2>(
    a: Grammar<O1, Tok1>,
    b: Grammar<O2, Tok2>,
    src: Seq<char>,
    start: int,
    pos: int,
    i: int,
)
    requires
        read_alike(a, b),
        0 <= i < a.count,
    ensures
        infix_attempt(a, src, start, pos, i) == infix_attempt(b, src, start, pos, i),
    decreases src.len() - start, 1nat, 0nat,
{
    if let Some(end) = infix_token_end((a.reply)(i, src, pos), src, start, pos) {
        lemma_read_alike(a, b, src, end, right_power(a, i));
    }
}

/// Whether `out` can be what the `i`-th operator, with its token at `at`,
/// makes of these operands, whatever the token is.
pub open spec fn folds_with_some_token<O, Tok>(
    g: Grammar<O, Tok>,
    i: int,
    src: Seq<char>,
    at: int,
    lhs: Option<O>,
    rhs: Option<O>,
    out: O,
) -> bool {
    exists|tok: Tok| (g.yields)(i, src, at, tok) && #[trigger] (g.folds)(i, lhs, tok, rhs, out)
}

/// Two grammars fold alike: their atom parsers yield the same values, they
/// have as many operators, and operators in the same place make the same of
/// the same operands. (The types of the tokens play no part.)
pub open spec fn fold_alike<O, Tok1, Tok2>(a: Grammar<O, Tok1>, b: Grammar<O, Tok2>) -> bool {
    &&& a.count == b.count
    &&& forall|src: Seq<char>, pos: int, out: O|
        #![trigger (a.atom_yields)(src, pos, out)]
        #![trigger (b.atom_yields)(src, pos, out)]
        (a.atom_yields)(src, pos, out) == (b.atom_yields)(src, pos, out)
    &&& forall|i: int, src: Seq<char>, at: int, lhs: Option<O>, rhs: Option<O>, out: O|
        #![trigger folds_with_some_token(a, i, src, at, lhs, rhs, out)]
        #![trigger folds_with_some_token(b, i, src, at, lhs, rhs, out)]
        0 <= i < a.count ==> folds_with_some_token(a, i, src, at, lhs, rhs, out)
            == folds_with_some_token(b, i, src, at, lhs, rhs, out)
}

proof fn lemma_fold_alike_one_way<O, Tok1, Tok2>(
    a: Grammar<O, Tok1>,
    b: Grammar<O, Tok2>,
    src: Seq<char>,
    tree: Tree,
    out: O,
)
    requires
        fold_alike(a, b),
        evaluates(a, src, tree, out),
    ensures
        evaluates(b, src, tree, out),
    decreases tree,
{
    match tree {
        Tree::Atom { at } => {},
        Tree::Prefix { op, at, operand } => {
            let (tok, x) = choose|tok: Tok1, x: O|
                {
                    &&& (a.yields)(op, src, at, tok)
                    &&& evaluates(a, src, *operand, x)
                    &&& #[trigger] (a.folds)(op, None, tok, Some(x), out)
                };
            lemma_fold_alike_one_way(a, b, src, *operand, x);
            assert(folds_with_some_token(a, op, src, at, None, Some(x), out));
            assert(folds_with_some_token(b, op, src, at, None, Some(x), out));
        },
        Tree::Postfix { op, operand, at } => {
            let (tok, x) = choose|tok: Tok1, x: O|
                {
                    &&& (a.yields)(op, src, at, tok)
                    &&& evaluates(a, src, *operand, x)
                    &&& #[trigger] (a.folds)(op, Some(x), tok, None, out)
                };
            lemma_fold_alike_one_way(a, b, src, *operand, x);
            assert(folds_with_some_token(a, op, src, at, Some(x), None, out));
            assert(folds_with_some_token(b, op, src, at, Some(x), None, out));
        },
        Tree::Infix { op, lhs, at, rhs } => {
            let (tok, x, y) = choose|tok: Tok1, x: O, y: O|
                {
                    &&& (a.yields)(op, src, at, tok)
                    &&& evaluates(a, src, *lhs, x)
                    &&& evaluates(a, src, *rhs, y)
                    &&& #[trigger] (a.folds)(op, Some(x), tok, Some(y), out)
                };
            lemma_fold_alike_one_way(a, b, src, *lhs, x);
            lemma_fold_alike_one_way(a, b, src, *rhs, y);
            assert(folds_with_some_token(a, op, src, at, Some(x), Some(y), out));
            assert(folds_with_some_token(b, op, src, at, Some(x), Some(y), out));
        },
    }
}

/// Grammars that fold alike give every tree the same values.
pub proof fn lemma_fold_alike<O, Tok1, Tok2>(
    a: Grammar<O, Tok1>,
    b: Grammar<O, Tok2>,
    src: Seq<char>,
    tree: Tree,
    out: O,
)
    requires
        fold_alike(a, b),
    ensures
        evaluates(a, src, tree, out) == evaluates(b, src, tree, out),
{
    if evaluates(a, src, tree, out) {
        lemma_fold_alike_one_way(a, b, src, tree, out);
    }
    if evaluates(b, src, tree, out) {
        lemma_fold_alike_one_way(b, a, src, tree, out);
    }
}

/// A chain of one operator and a list of that operator read alike and fold
/// alike.
pub proof fn lemma_chain_end_is_list<A: Parser<Output = O>, Op: Operator<O, Tok = Tok>, O, Tok>(
    atom: A,
    chain: (Op,),
    list: Vec<Op>,
)
    requires
        list@ == seq![chain.0],
    ensures
        read_alike(grammar(atom, chain), grammar(atom, list)),
        fold_alike(grammar(atom, chain), grammar(atom, list)),
{
    let a = grammar(atom, chain);
    let b = grammar(atom, list);
    assert forall|i: int, src: Seq<char>, at: int, lhs: Option<O>, rhs: Option<O>, out: O|
        0 <= i < a.count implies folds_with_some_token(a, i, src, at, lhs, rhs, out)
        == folds_with_some_token(b, i, src, at, lhs, rhs, out) by {
        if folds_with_some_token(a, i, src, at, lhs, rhs, out) {
            let tok = choose|tok: Tok|
                (a.yields)(i, src, at, tok) && #[trigger] (a.folds)(i, lhs, tok, rhs, out);
            assert((b.folds)(i, lhs, tok, rhs, out));
        }
        if folds_with_some_token(b, i, src, at, lhs, rhs, out) {
            let tok = choose|tok: Tok|
                (b.yields)(i, src, at, tok) && #[trigger] (b.folds)(i, lhs, tok, rhs, out);
            assert((a.folds)(i, lhs, tok, rhs, out));
        }
    }
}

/// A chain reads and folds as a list does that begins with the first
/// operator of the chain and goes on with a list as which the rest of the
/// chain reads and folds.
pub proof fn lemma_chain_link_is_list<
    A: Parser<Output = O>,
    Op: Operator<O, Tok = Tok>,
    T: Operators<O, Tok = TokT>,
    O,
    Tok,
    TokT,
>(atom: A, chain: (Op, T), list: Vec<Op>, rest: Vec<Op>)
    requires
        list@ == seq![chain.0] + rest@,
        chain.1.count() < usize::MAX,
        read_alike(grammar(atom, chain.1), grammar(atom, rest)),
        fold_alike(grammar(atom, chain.1), grammar(atom, rest)),
    ensures
        read_alike(grammar(atom, chain), grammar(atom, list)),
        fold_alike(grammar(atom, chain), grammar(atom, list)),
{
    let a = grammar(atom, chain);
    let b = grammar(atom, list);
    let ta = grammar(atom, chain.1);
    let tb = grammar(atom, rest);
    assert(a.count == b.count);
    assert forall|i: int| 0 <= i < a.count implies #[trigger] (a.role)(i) == (b.role)(i) by {
        if i != 0 {
            assert((ta.role)(i - 1) == (tb.role)(i - 1));
            assert(list@[i] == rest@[i - 1]);
        }
    }
    assert forall|i: int|
        0 <= i < a.count implies #[trigger] (a.associativity)(i) == (b.associativity)(i) by {
        if i != 0 {
            assert((ta.associativity)(i - 1) == (tb.associativity)(i - 1));
            assert(list@[i] == rest@[i - 1]);
        }
    }
    assert forall|i: int, src: Seq<char>, pos: int| 0 <= i < a.count implies #[trigger] (a.reply)(
        i,
        src,
        pos,
    ) == (b.reply)(i, src, pos) by {
        if i != 0 {
            assert((ta.reply)(i - 1, src, pos) == (tb.reply)(i - 1, src, pos));
            assert(list@[i] == rest@[i - 1]);
        }
    }
    assert forall|i: int, src: Seq<char>, at: int, lhs: Option<O>, rhs: Option<O>, out: O|
        0 <= i < a.count implies folds_with_some_token(a, i, src, at, lhs, rhs, out)
        == folds_with_some_token(b, i, src, at, lhs, rhs, out) by {
        if i == 0 {
            if folds_with_some_token(a, i, src, at, lhs, rhs, out) {
                let tok = choose|tok: Either<Tok, TokT>|
                    (a.yields)(i, src, at, tok) && #[trigger] (a.folds)(i, lhs, tok, rhs, out);
                assert((b.folds)(i, lhs, tok->Left_0, rhs, out));
            }
            if folds_with_some_token(b, i, src, at, lhs, rhs, out) {
                let tok = choose|tok: Tok|
                    (b.yields)(i, src, at, tok) && #[trigger] (b.folds)(i, lhs, tok, rhs, out);
                assert((a.folds)(i, lhs, Either::Left(tok), rhs, out));
            }
        } else {
            assert(list@[i] == rest@[i - 1]);
            assert(folds_with_some_token(ta, i - 1, src, at, lhs, rhs, out)
                == folds_with_some_token(tb, i - 1, src, at, lhs, rhs, out));
            if folds_with_some_token(a, i, src, at, lhs, rhs, out) {
                let tok = choose|tok: Either<Tok, TokT>|
                    (a.yields)(i, src, at, tok) && #[trigger] (a.folds)(i, lhs, tok, rhs, out);
                assert((ta.folds)(i - 1, lhs, tok->Right_0, rhs, out));
                let t = choose|t: Tok|
                    (tb.yields)(i - 1, src, at, t) && #[trigger] (tb.folds)(
                        i - 1,
                        lhs,
                        t,
                        rhs,
                        out,
                    );
                assert((b.folds)(i, lhs, t, rhs, out));
            }
            if folds_with_some_token(b, i, src, at, lhs, rhs, out) {
                let tok = choose|tok: Tok|
                    (b.yields)(i, src, at, tok) && #[trigger] (b.folds)(i, lhs, tok, rhs, out);
                assert((tb.folds)(i - 1, lhs, tok, rhs, out));
                let t = choose|t: TokT|
                    (ta.yields)(i - 1, src, at, t) && #[trigger] (ta.folds)(
                        i - 1,
                        lhs,
                        t,
                        rhs,
                        out,
                    );
                assert((a.folds)(i, lhs, Either::Right(t), rhs, out));
            }
        }
    }
}

} // verus!
