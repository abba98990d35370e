//! Brackets, and what is written with them.
//!
//! A parser for expressions can be the atom of another, between brackets
//! (see [`crate::Parser::delimited_by`]); nested so level upon level, parsers
//! read expressions whose brackets are nested as deep. This module says what
//! such levels are ([`nests`]), what it is to write an expression out with a
//! pair of brackets for every operator ([`well_spelt`]) and which values such
//! a spelling stands for ([`denotes`]). It proves that what is so written is
//! read back as it was written: the parser reads the whole of it, and the
//! values that it yields are the values of the spelling
//! ([`lemma_read_back`], [`lemma_expr_reads_back`]). Binding powers and
//! associativity have nothing left to decide.
//!
//! That the parsers of this library nest so is [`lemma_bracket_atom`].

use crate::collection::Operators;
use crate::laws::{
    infix_token_stands,
    lemma_lone_atom,
    lemma_lone_infix,
    lemma_lone_postfix,
    lemma_lone_prefix,
    lone_atom,
    nothing_follows,
    token_stands,
};
use crate::model::{
    atom_end,
    evaluates,
    expr,
    grammar,
    infix_token_end,
    token_end,
    Grammar,
    Parsed,
    Tree,
};
use crate::operator::Role;
use crate::parser::{Delimited, Or, Parser};
use crate::pratt::Pratt;
use vstd::prelude::*;

verus! {

/// Grammars level upon level, and the brackets between them.
#[verifier::reject_recursive_types(O)]
#[verifier::reject_recursive_types(Tok)]
pub ghost struct Nesting<O, Tok> {
    /// The grammar that reads brackets nested so deep.
    pub level: spec_fn(nat) -> Grammar<O, Tok>,
    /// Where the opening bracket that stands at a position ends.
    pub open: spec_fn(Seq<char>, int) -> Option<int>,
    /// Where the closing bracket that stands at a position ends.
    pub close: spec_fn(Seq<char>, int) -> Option<int>,
}

/// At `pos` the atom parser of the level above `depth` reads a pair of
/// brackets with an expression of the level `depth` between them, where
/// these stand there, and yields what the expression yields.
pub open spec fn bracket_read<O, Tok>(
    n: Nesting<O, Tok>,
    depth: nat,
    src: Seq<char>,
    pos: int,
) -> bool {
    let inner = (n.level)(depth);
    let outer = (n.level)(depth + 1);
    (n.open)(src, pos) matches Some(behind) ==> (expr(inner, src, behind, 0).parsed matches Some(
        p,
    ) ==> ((n.close)(src, p.end) matches Some(end) ==> {
        &&& (outer.atom_reply)(src, pos).end == Some(end)
        &&& forall|v: O| #[trigger]
            (outer.atom_yields)(src, pos, v) == evaluates(inner, src, p.tree, v)
    }))
}

/// Every level up to `limit` reads brackets around the expressions of the
/// level below.
pub open spec fn nests<O, Tok>(n: Nesting<O, Tok>, limit: nat) -> bool {
    forall|depth: nat, src: Seq<char>, pos: int|
        depth < limit ==> #[trigger] bracket_read(n, depth, src, pos)
}

/// An expression written out: an atom as it stands, or an operator with
/// what its operands are written as, between a pair of brackets.
pub ghost enum Spelling {
    /// An atom from `start` to `end`.
    Atom { start: int, end: int },
    /// A bracket at `start`, the token of the prefix operator `op` at `at`,
    /// the operand, and a bracket up to `end`.
    Prefix { start: int, op: int, at: int, operand: Box<Spelling>, end: int },
    /// A bracket at `start`, the operand, the token of the postfix operator
    /// `op` up to `behind`, and a bracket up to `end`.
    Postfix { start: int, operand: Box<Spelling>, op: int, behind: int, end: int },
    /// A bracket at `start`, the left operand, the token of the infix
    /// operator `op`, the right operand, and a bracket up to `end`.
    Infix { start: int, lhs: Box<Spelling>, op: int, rhs: Box<Spelling>, end: int },
}

impl Spelling {
    /// Where the spelling begins.
    pub open spec fn start(self) -> int {
        match self {
            Spelling::Atom { start, .. } => start,
            Spelling::Prefix { start, .. } => start,
            Spelling::Postfix { start, .. } => start,
            Spelling::Infix { start, .. } => start,
        }
    }

    /// Where the spelling ends.
    pub open spec fn end(self) -> int {
        match self {
            Spelling::Atom { end, .. } => end,
            Spelling::Prefix { end, .. } => end,
            Spelling::Postfix { end, .. } => end,
            Spelling::Infix { end, .. } => end,
        }
    }
}

/// `s` is written in `src` so that the level `depth` can read it. An atom is
/// one that the atom parser of the level reads. An operator stands between
/// brackets, one level down, with nothing but its operands: it is the first
/// of its role whose token stands there, no prefix operator's token stands
/// where an operand begins, and no token stands behind the last operand but
/// the closing bracket.
pub open spec fn well_spelt<O, Tok>(
    n: Nesting<O, Tok>,
    depth: nat,
    src: Seq<char>,
    s: Spelling,
) -> bool
    decreases s,
{
    match s {
        Spelling::Atom { start, end } => {
            let g = (n.level)(depth);
            atom_end((g.atom_reply)(src, start), src, start) == Some(end)
        },
        Spelling::Prefix { start, op, at, operand, end } => {
            let g = (n.level)((depth - 1) as nat);
            &&& depth > 0
            &&& (n.open)(src, start) == Some(at)
            &&& token_stands(g, src, at, Role::Prefix, op)
            &&& forall|j: int| j < op ==> !#[trigger] token_stands(g, src, at, Role::Prefix, j)
            &&& token_end((g.reply)(op, src, at), src, at) == Some(operand.start())
            &&& well_spelt(n, (depth - 1) as nat, src, *operand)
            &&& forall|j: int| !#[trigger] token_stands(g, src, operand.start(), Role::Prefix, j)
            &&& nothing_follows(g, src, operand.end())
            &&& (n.close)(src, operand.end()) == Some(end)
            &&& start <= end <= src.len()
        },
        Spelling::Postfix { start, operand, op, behind, end } => {
            let g = (n.level)((depth - 1) as nat);
            &&& depth > 0
            &&& (n.open)(src, start) == Some(operand.start())
            &&& well_spelt(n, (depth - 1) as nat, src, *operand)
            &&& forall|j: int| !#[trigger] token_stands(g, src, operand.start(), Role::Prefix, j)
            &&& token_stands(g, src, operand.end(), Role::Postfix, op)
            &&& forall|j: int|
                j < op ==> !#[trigger] token_stands(g, src, operand.end(), Role::Postfix, j)
            &&& token_end((g.reply)(op, src, operand.end()), src, operand.end()) == Some(behind)
            &&& nothing_follows(g, src, behind)
            &&& (n.close)(src, behind) == Some(end)
            &&& start <= end <= src.len()
        },
        Spelling::Infix { start, lhs, op, rhs, end } => {
            let g = (n.level)((depth - 1) as nat);
            &&& depth > 0
            &&& (n.open)(src, start) == Some(lhs.start())
            &&& well_spelt(n, (depth - 1) as nat, src, *lhs)
            &&& forall|j: int| !#[trigger] token_stands(g, src, lhs.start(), Role::Prefix, j)
            &&& forall|j: int| !#[trigger] token_stands(g, src, lhs.end(), Role::Postfix, j)
            &&& infix_token_stands(g, src, lhs.start(), lhs.end(), op)
            &&& forall|j: int|
                j < op ==> !#[trigger] infix_token_stands(g, src, lhs.start(), lhs.end(), j)
            &&& infix_token_end((g.reply)(op, src, lhs.end()), src, lhs.start(), lhs.end())
                == Some(rhs.start())
            &&& well_spelt(n, (depth - 1) as nat, src, *rhs)
            &&& forall|j: int| !#[trigger] token_stands(g, src, rhs.start(), Role::Prefix, j)
            &&& lhs.end() < rhs.end()
            &&& nothing_follows(g, src, rhs.end())
            &&& (n.close)(src, rhs.end()) == Some(end)
            &&& start <= end <= src.len()
        },
    }
}

/// Whether `v` can be the value of what `s` spells: the value of an atom is
/// one that the atom parser of the level yields for it, the value of an
/// operator between brackets one that its fold function gives for a token
/// that stands there and for values of what the operands spell.
pub open spec fn denotes<O, Tok>(
    n: Nesting<O, Tok>,
    depth: nat,
    src: Seq<char>,
    s: Spelling,
    v: O,
) -> bool
    decreases s,
{
    match s {
        Spelling::Atom { start, end } => (((n.level)(depth)).atom_yields)(src, start, v),
        Spelling::Prefix { start, op, at, operand, end } => {
            let g = (n.level)((depth - 1) as nat);
            exists|tok: Tok, x: O|
                {
                    &&& (g.yields)(op, src, at, tok)
                    &&& denotes(n, (depth - 1) as nat, src, *operand, x)
                    &&& #[trigger] (g.folds)(op, None, tok, Some(x), v)
                }
        },
        Spelling::Postfix { start, operand, op, behind, end } => {
            let g = (n.level)((depth - 1) as nat);
            exists|tok: Tok, x: O|
                {
                    &&& (g.yields)(op, src, operand.end(), tok)
                    &&& denotes(n, (depth - 1) as nat, src, *operand, x)
                    &&& #[trigger] (g.folds)(op, Some(x), tok, None, v)
                }
        },
        Spelling::Infix { start, lhs, op, rhs, end } => {
            let g = (n.level)((depth - 1) as nat);
            exists|tok: Tok, x: O, y: O|
                {
                    &&& (g.yields)(op, src, lhs.end(), tok)
                    &&& denotes(n, (depth - 1) as nat, src, *lhs, x)
                    &&& denotes(n, (depth - 1) as nat, src, *rhs, y)
                    &&& #[trigger] (g.folds)(op, Some(x), tok, Some(y), v)
                }
        },
    }
}

/// What is written with a pair of brackets for every operator is read back:
/// the atom parser of the level reads the whole of it, and the values that
/// it yields are the values of what is spelt, whatever the binding powers.
pub proof fn lemma_read_back<O, Tok>(
    n: Nesting<O, Tok>,
    limit: nat,
    depth: nat,
    src: Seq<char>,
    s: Spelling,
)
    requires
        nests(n, limit),
        depth <= limit,
        well_spelt(n, depth, src, s),
    ensures
        atom_end((((n.level)(depth)).atom_reply)(src, s.start()), src, s.start()) == Some(s.end()),
        forall|v: O|
            #![trigger (((n.level)(depth)).atom_yields)(src, s.start(), v)]
            #![trigger denotes(n, depth, src, s, v)]
            (((n.level)(depth)).atom_yields)(src, s.start(), v) == denotes(n, depth, src, s, v),
    decreases s,
{
    match s {
        Spelling::Atom { start, end } => {},
        Spelling::Prefix { start, op, at, operand, end } => {
            let d = (depth - 1) as nat;
            let g = (n.level)(d);
            let outer = (n.level)(depth);
            lemma_read_back(n, limit, d, src, *operand);
            assert(lone_atom(g, src, operand.start(), operand.end()));
            lemma_lone_prefix(g, src, at, op, operand.start(), operand.end());
            let leaf = Tree::Atom { at: operand.start() };
            let tree = Tree::Prefix { op, at, operand: Box::new(leaf) };
            assert(bracket_read(n, d, src, start));
            assert forall|v: O|
                (outer.atom_yields)(src, start, v) == denotes(n, depth, src, s, v) by {
                assert((outer.atom_yields)(src, start, v) == evaluates(g, src, tree, v));
                if evaluates(g, src, tree, v) {
                    let (tok, x) = choose|tok: Tok, x: O|
                        {
                            &&& (g.yields)(op, src, at, tok)
                            &&& evaluates(g, src, leaf, x)
                            &&& #[trigger] (g.folds)(op, None, tok, Some(x), v)
                        };
                    assert((g.atom_yields)(src, operand.start(), x));
                    assert(denotes(n, d, src, *operand, x));
                    assert((g.folds)(op, None, tok, Some(x), v));
                }
                if denotes(n, depth, src, s, v) {
                    let (tok, x) = choose|tok: Tok, x: O|
                        {
                            &&& (g.yields)(op, src, at, tok)
                            &&& denotes(n, d, src, *operand, x)
                            &&& #[trigger] (g.folds)(op, None, tok, Some(x), v)
                        };
                    assert((g.atom_yields)(src, operand.start(), x));
                    assert(evaluates(g, src, leaf, x));
                    assert((g.folds)(op, None, tok, Some(x), v));
                }
            }
        },
        Spelling::Postfix { start, operand, op, behind, end } => {
            let d = (depth - 1) as nat;
            let g = (n.level)(d);
            let outer = (n.level)(depth);
            lemma_read_back(n, limit, d, src, *operand);
            assert(lone_atom(g, src, operand.start(), operand.end()));
            lemma_lone_postfix(g, src, operand.start(), operand.end(), op, behind);
            let leaf = Tree::Atom { at: operand.start() };
            let tree = Tree::Postfix { op, operand: Box::new(leaf), at: operand.end() };
            assert(bracket_read(n, d, src, start));
            assert forall|v: O|
                (outer.atom_yields)(src, start, v) == denotes(n, depth, src, s, v) by {
                assert((outer.atom_yields)(src, start, v) == evaluates(g, src, tree, v));
                if evaluates(g, src, tree, v) {
                    let (tok, x) = choose|tok: Tok, x: O|
                        {
                            &&& (g.yields)(op, src, operand.end(), tok)
                            &&& evaluates(g, src, leaf, x)
                            &&& #[trigger] (g.folds)(op, Some(x), tok, None, v)
                        };
                    assert((g.atom_yields)(src, operand.start(), x));
                    assert(denotes(n, d, src, *operand, x));
                    assert((g.folds)(op, Some(x), tok, None, v));
                }
                if denotes(n, depth, src, s, v) {
                    let (tok, x) = choose|tok: Tok, x: O|
                        {
                            &&& (g.yields)(op, src, operand.end(), tok)
                            &&& denotes(n, d, src, *operand, x)
                            &&& #[trigger] (g.folds)(op, Some(x), tok, None, v)
                        };
                    assert((g.atom_yields)(src, operand.start(), x));
                    assert(evaluates(g, src, leaf, x));
                    assert((g.folds)(op, Some(x), tok, None, v));
                }
            }
        },
        Spelling::Infix { start, lhs, op, rhs, end } => {
            let d = (depth - 1) as nat;
            let g = (n.level)(d);
            let outer = (n.level)(depth);
            lemma_read_back(n, limit, d, src, *lhs);
            lemma_read_back(n, limit, d, src, *rhs);
            assert(lone_atom(g, src, lhs.start(), lhs.end()));
            assert(lone_atom(g, src, rhs.start(), rhs.end()));
            lemma_lone_infix(g, src, lhs.start(), lhs.end(), op, rhs.start(), rhs.end());
            let left = Tree::Atom { at: lhs.start() };
            let right = Tree::Atom { at: rhs.start() };
            let tree = Tree::Infix {
                op,
                lhs: Box::new(left),
                at: lhs.end(),
                rhs: Box::new(right),
            };
            assert(bracket_read(n, d, src, start));
            assert forall|v: O|
                (outer.atom_yields)(src, start, v) == denotes(n, depth, src, s, v) by {
                assert((outer.atom_yields)(src, start, v) == evaluates(g, src, tree, v));
                if evaluates(g, src, tree, v) {
                    let (tok, x, y) = choose|tok: Tok, x: O, y: O|
                        {
                            &&& (g.yields)(op, src, lhs.end(), tok)
                            &&& evaluates(g, src, left, x)
                            &&& evaluates(g, src, right, y)
                            &&& #[trigger] (g.folds)(op, Some(x), tok, Some(y), v)
                        };
                    assert((g.atom_yields)(src, lhs.start(), x));
                    assert((g.atom_yields)(src, rhs.start(), y));
                    assert(denotes(n, d, src, *lhs, x));
                    assert(denotes(n, d, src, *rhs, y));
                    assert((g.folds)(op, Some(x), tok, Some(y), v));
                }
                if denotes(n, depth, src, s, v) {
                    let (tok, x, y) = choose|tok: Tok, x: O, y: O|
                        {
                            &&& (g.yields)(op, src, lhs.end(), tok)
                            &&& denotes(n, d, src, *lhs, x)
                            &&& denotes(n, d, src, *rhs, y)
                            &&& #[trigger] (g.folds)(op, Some(x), tok, Some(y), v)
                        };
                    assert((g.atom_yields)(src, lhs.start(), x));
                    assert((g.atom_yields)(src, rhs.start(), y));
                    assert(evaluates(g, src, left, x));
                    assert(evaluates(g, src, right, y));
                    assert((g.folds)(op, Some(x), tok, Some(y), v));
                }
            }
        },
    }
}

/// Parsing what was written gives back what was written: where nothing
/// follows the spelling, the expression of the level is the one atom that
/// the spelling is, and its values are the values of what is spelt.
pub proof fn lemma_expr_reads_back<O, Tok>(
    n: Nesting<O, Tok>,
    limit: nat,
    depth: nat,
    src: Seq<char>,
    s: Spelling,
)
    requires
        nests(n, limit),
        depth <= limit,
        well_spelt(n, depth, src, s),
        forall|j: int| !#[trigger] token_stands((n.level)(depth), src, s.start(), Role::Prefix, j),
        nothing_follows((n.level)(depth), src, s.end()),
    ensures
        expr((n.level)(depth), src, s.start(), 0).parsed == Some(
            Parsed { tree: Tree::Atom { at: s.start() }, end: s.end() },
        ),
        forall|v: O|
            #![trigger evaluates((n.level)(depth), src, Tree::Atom { at: s.start() }, v)]
            #![trigger denotes(n, depth, src, s, v)]
            evaluates((n.level)(depth), src, Tree::Atom { at: s.start() }, v) == denotes(
                n,
                depth,
                src,
                s,
                v,
            ),
{
    lemma_read_back(n, limit, depth, src, s);
    lemma_lone_atom((n.level)(depth), src, s.start(), s.end(), 0);
}

/// The atom parser `inner.delimited_by(open, close).or(other)`, with a parser
/// for expressions as `inner`, reads brackets around the expressions of
/// `inner` as [`bracket_read`] asks of a level: where the brackets and the
/// expression stand at `pos`, it ends behind the closing bracket and yields
/// what the expression yields.
pub proof fn lemma_bracket_atom<
    L: Parser,
    A: Parser<Output = O>,
    Ops: Operators<O, Tok = Tok>,
    R: Parser,
    B: Parser<Output = O>,
    O,
    Tok,
>(atom: Or<Delimited<L, Pratt<A, Ops>, R>, B>, src: Seq<char>, pos: int)
    ensures
        ({
            let brackets = atom.first();
            let inner = grammar(brackets.inner().atom(), brackets.inner().ops());
            brackets.open().reply(src, pos).end matches Some(behind) ==> (expr(
                inner,
                src,
                behind,
                0,
            ).parsed matches Some(p) ==> (brackets.close().reply(src, p.end).end matches Some(
                end,
            ) ==> {
                &&& atom.reply(src, pos).end == Some(end)
                &&& forall|v: O| #[trigger]
                    atom.yields(src, pos, v) == evaluates(inner, src, p.tree, v)
            }))
        }),
{
}

} // verus!
