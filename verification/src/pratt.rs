//! The precedence-climbing parser.
//!
//! [`pratt_go`] reads one expression: an operand, then as many operators as
//! bind strongly enough. It and the functions beside it are proved against
//! the model of [`crate::model`], each against the function of the model that
//! it stands for.

use crate::collection::Operators;
use crate::input::{furthest, Checkpoint, Failure, Input, InputView};
use crate::model::{
    continuation,
    evaluates,
    expr,
    grammar,
    infix_attempt,
    infix_scan,
    infix_token_end,
    left_power,
    operand,
    postfix_scan,
    prefix_attempt,
    token_end,
    Grammar,
    Outcome,
    Parsed,
    Tree,
};
use crate::parser::{Mode, PResult, Parser, Reply};
use vstd::prelude::*;

verus! {

/// What is at hand of an expression in a mode: in [`Mode::Emit`] a value of
/// `tree`, in [`Mode::Check`] nothing.
pub open spec fn carries<O, Tok>(
    g: Grammar<O, Tok>,
    src: Seq<char>,
    mode: Mode,
    tree: Tree,
    value: Option<O>,
) -> bool {
    match mode {
        Mode::Emit => value matches Some(v) && evaluates(g, src, tree, v),
        Mode::Check => value is None,
    }
}

/// What holds after a part of the algorithm has run from `before` to
/// `after` and handed back `r`, where the model says that it comes to `o`:
/// the input is the same, the failures met are added to the record, and `r`
/// is a success exactly where the model has a tree. The cursor then stands
/// behind the tree, and in [`Mode::Emit`] the value is one of the tree.
pub open spec fn outcome_obeys<O, Tok>(
    g: Grammar<O, Tok>,
    before: InputView,
    after: InputView,
    mode: Mode,
    o: Outcome,
    r: PResult<O>,
) -> bool {
    &&& after.src == before.src
    &&& after.alt == furthest(before.alt, o.alt)
    &&& 0 <= after.pos <= after.src.len()
    &&& match r {
        Ok(out) => {
            &&& o.parsed matches Some(p)
            &&& after.pos == p.end
            &&& before.pos <= after.pos
            &&& carries(g, before.src, mode, p.tree, out)
        },
        Err(()) => o.parsed is None,
    }
}

/// What holds after an attempt to go on behind the operand `lhs`, where the
/// model says that the attempt records `alt` and ends at `end`: the input is
/// the same, the failures met are added to the record, and `r` is a success
/// exactly where there is an end. The cursor then stands there, further on
/// than it was. A failed attempt hands `lhs` back.
pub open spec fn attempt_obeys<O>(
    before: InputView,
    after: InputView,
    mode: Mode,
    alt: Option<Failure>,
    end: Option<int>,
    lhs: Option<O>,
    r: Result<Option<O>, Option<O>>,
) -> bool {
    &&& after.src == before.src
    &&& after.alt == furthest(before.alt, alt)
    &&& 0 <= after.pos <= after.src.len()
    &&& match r {
        Ok(out) => {
            &&& end == Some(after.pos)
            &&& before.pos < after.pos
            &&& (out is Some <==> mode is Emit)
        },
        Err(back) => end is None && back == lhs,
    }
}

/// What holds after a search among the operators behind the operand `lhs`,
/// where the model says that the search comes to `scan`: the input is the
/// same, the record is that of `alt0` and the search, and `r` is a success
/// exactly where the model has a tree. The cursor then stands behind the
/// tree. After a failed search the cursor is where it was, and `lhs` comes
/// back.
pub open spec fn scan_obeys<O, Tok>(
    g: Grammar<O, Tok>,
    before: InputView,
    after: InputView,
    alt0: Option<Failure>,
    mode: Mode,
    scan: Outcome,
    lhs: Option<O>,
    r: Result<Option<O>, Option<O>>,
) -> bool {
    &&& after.src == before.src
    &&& after.alt == furthest(alt0, scan.alt)
    &&& 0 <= after.pos <= after.src.len()
    &&& match r {
        Ok(out) => {
            &&& scan.parsed matches Some(p)
            &&& after.pos == p.end
            &&& before.pos < after.pos
            &&& carries(g, before.src, mode, p.tree, out)
        },
        Err(back) => {
            &&& scan.parsed is None
            &&& after.pos == before.pos
            &&& back == lhs
        },
    }
}

/// Whether `out` can be what the `i`-th operator, as a postfix operator with
/// its token at `pos`, makes of the operand `lhs`.
pub open spec fn folds_postfix<O, Tok, Ops: Operators<O, Tok = Tok>>(
    ops: Ops,
    src: Seq<char>,
    pos: int,
    i: int,
    lhs: Option<O>,
    out: O,
) -> bool {
    exists|tok: Tok|
        ops.yields_at(i, src, pos, tok) && #[trigger] ops.folds_at(i, lhs, tok, None, out)
}

/// Whether `out` can be what the `i`-th operator, as an infix operator with
/// its token at `pos`, makes of the operand `lhs` and a value of the tree
/// `rhs`.
pub open spec fn folds_infix<O, Tok>(
    g: Grammar<O, Tok>,
    src: Seq<char>,
    pos: int,
    i: int,
    lhs: Option<O>,
    rhs: Tree,
    out: O,
) -> bool {
    exists|tok: Tok, y: O|
        {
            &&& (g.yields)(i, src, pos, tok)
            &&& evaluates(g, src, rhs, y)
            &&& #[trigger] (g.folds)(i, lhs, tok, Some(y), out)
        }
}

/// Tries the `i`-th operator as a prefix operator at the cursor: its token,
/// then the operand under the operator's left binding power, then the fold.
/// After a failed attempt the cursor may be anywhere.
pub fn do_parse_prefix<A: Parser<Output = O>, Ops: Operators<O, Tok = Tok>, O, Tok>(
    atom: &A,
    ops: &Ops,
    i: usize,
    inp: &mut Input,
    mode: Mode,
) -> (r: PResult<O>)
    requires
        old(inp).wf(),
        i < ops.count(),
        ops.role_at(i as int) is Prefix,
    ensures
        outcome_obeys(
            grammar(*atom, *ops),
            old(inp)@,
            final(inp)@,
            mode,
            prefix_attempt(grammar(*atom, *ops), old(inp)@.src, old(inp)@.pos, i as int),
            r,
        ),
    decreases old(inp)@.src.len() - old(inp)@.pos, 1nat,
{
    let start = inp.offset();
    let ghost g = grammar(*atom, *ops);
    let ghost src = inp@.src;
    let ghost pos = inp@.pos;
    match ops.parse_op_at(i, inp, mode) {
        Ok(tok) => {
            if inp.offset() == start {
                assert(token_end((g.reply)(i as int, src, pos), src, pos) is None);
                return Err(());
            }
            assert(token_end((g.reply)(i as int, src, pos), src, pos) == Some(inp@.pos));
            let ghost sub = expr(g, src, inp@.pos, left_power(g, i as int));
            let power = ops.associativity_at(i).left_power();
            match pratt_go(atom, ops, inp, power, mode) {
                Ok(rhs) => {
                    let ghost tree = Tree::Prefix {
                        op: i as int,
                        at: pos,
                        operand: Box::new(sub.parsed->0.tree),
                    };
                    assert(prefix_attempt(g, src, pos, i as int).parsed == Some(
                        Parsed { tree, end: sub.parsed->0.end },
                    ));
                    match (tok, rhs) {
                        (Some(tok), Some(operand)) => {
                            let out = ops.fold_at(i, None, tok, Some(operand));
                            assert((g.folds)(i as int, None, tok, Some(operand), out));
                            assert(evaluates(g, src, tree, out));
                            Ok(Some(out))
                        },
                        _ => Ok(None),
                    }
                },
                Err(()) => Err(()),
            }
        },
        Err(()) => Err(()),
    }
}

/// Tries the `i`-th operator as a postfix operator behind `lhs`: its token,
/// then the fold. A failed attempt hands `lhs` back, and may leave the cursor
/// anywhere.
pub fn do_parse_postfix<O, Tok, Ops: Operators<O, Tok = Tok>>(
    ops: &Ops,
    i: usize,
    inp: &mut Input,
    lhs: Option<O>,
    mode: Mode,
) -> (r: Result<Option<O>, Option<O>>)
    requires
        old(inp).wf(),
        i < ops.count(),
        ops.role_at(i as int) is Postfix,
        lhs is Some <==> mode is Emit,
    ensures
        attempt_obeys(
            old(inp)@,
            final(inp)@,
            mode,
            ops.reply_at(i as int, old(inp)@.src, old(inp)@.pos).alt,
            token_end(
                ops.reply_at(i as int, old(inp)@.src, old(inp)@.pos),
                old(inp)@.src,
                old(inp)@.pos,
            ),
            lhs,
            r,
        ),
        r matches Ok(Some(v)) ==> folds_postfix(
            *ops,
            old(inp)@.src,
            old(inp)@.pos,
            i as int,
            lhs,
            v,
        ),
{
    let start = inp.offset();
    let ghost src = inp@.src;
    let ghost pos = inp@.pos;
    match ops.parse_op_at(i, inp, mode) {
        Ok(tok) => {
            if inp.offset() == start {
                return Err(lhs);
            }
            match tok {
                Some(tok) => {
                    let out = ops.fold_at(i, lhs, tok, None);
                    assert(ops.yields_at(i as int, src, pos, tok));
                    assert(ops.folds_at(i as int, lhs, tok, None, out));
                    Ok(Some(out))
                },
                None => Ok(None),
            }
        },
        Err(()) => Err(lhs),
    }
}

/// Tries the `i`-th operator as an infix operator behind `lhs`, in an
/// expression that began at `pre_expr`: its token, then the right operand
/// under the operator's right binding power, then the fold. The token may be
/// empty behind an operand that is not, so that operands side by side can
/// make an expression; token and right operand together must read
/// something. A failed attempt hands `lhs` back, and may leave the cursor
/// anywhere.
pub fn do_parse_infix<A: Parser<Output = O>, Ops: Operators<O, Tok = Tok>, O, Tok>(
    atom: &A,
    ops: &Ops,
    i: usize,
    inp: &mut Input,
    pre_expr: Checkpoint,
    lhs: Option<O>,
    mode: Mode,
) -> (r: Result<Option<O>, Option<O>>)
    requires
        old(inp).wf(),
        i < ops.count(),
        ops.role_at(i as int) is Infix,
        lhs is Some <==> mode is Emit,
    ensures
        ({
            let attempt = infix_attempt(
                grammar(*atom, *ops),
                old(inp)@.src,
                pre_expr@,
                old(inp)@.pos,
                i as int,
            );
            &&& attempt_obeys(
                old(inp)@,
                final(inp)@,
                mode,
                attempt.alt,
                match attempt.parsed {
                    Some(p) => Some(p.end),
                    None => None,
                },
                lhs,
                r,
            )
            &&& r matches Ok(Some(v)) ==> folds_infix(
                grammar(*atom, *ops),
                old(inp)@.src,
                old(inp)@.pos,
                i as int,
                lhs,
                attempt.parsed->0.tree,
                v,
            )
        }),
    decreases old(inp)@.src.len() - pre_expr@, 1nat,
{
    let began = pre_expr.offset();
    let before = inp.offset();
    let ghost g = grammar(*atom, *ops);
    let ghost src = inp@.src;
    let ghost pos = inp@.pos;
    match ops.parse_op_at(i, inp, mode) {
        Ok(tok) => {
            let behind = inp.offset();
            if began > before || (behind == before && began == before) {
                assert(infix_token_end((g.reply)(i as int, src, pos), src, pre_expr@, pos) is None);
                return Err(lhs);
            }
            assert(infix_token_end((g.reply)(i as int, src, pos), src, pre_expr@, pos) == Some(
                inp@.pos,
            ));
            let power = ops.associativity_at(i).right_power();
            match pratt_go(atom, ops, inp, power, mode) {
                Ok(rhs) => {
                    if inp.offset() == before {
                        return Err(lhs);
                    }
                    match (tok, rhs) {
                        (Some(tok), Some(operand)) => {
                            let out = ops.fold_at(i, lhs, tok, Some(operand));
                            assert((g.folds)(i as int, lhs, tok, Some(operand), out));
                            Ok(Some(out))
                        },
                        _ => Ok(None),
                    }
                },
                Err(()) => Err(lhs),
            }
        },
        Err(()) => Err(lhs),
    }
}

/// Parses the expression at the cursor under the threshold `min_power`: an
/// operand, then every postfix and infix operator that binds at least as
/// strongly as the threshold. Of the operators that could go on at one
/// position the first in the order of declaration does, postfix operators
/// before infix ones. Before each attempt the position is saved, and after
/// each failed one it is restored. The only failure is that of the operand.
///
/// The operand of a prefix operator and the right operand of an infix
/// operator are read by this function calling itself. It does so no deeper
/// than the input is long, which is what Verus proves, and nothing else
/// guards the depth: an input nested deeply enough uses up the stack of the
/// thread, and the process ends. A caller that reads input it does not trust
/// bounds the length of the input, or runs the parser on a thread with a
/// stack to match.
pub fn pratt_go<A: Parser<Output = O>, Ops: Operators<O, Tok = Tok>, O, Tok>(
    atom: &A,
    ops: &Ops,
    inp: &mut Input,
    min_power: u32,
    mode: Mode,
) -> (r: PResult<O>)
    requires
        old(inp).wf(),
    ensures
        outcome_obeys(
            grammar(*atom, *ops),
            old(inp)@,
            final(inp)@,
            mode,
            expr(grammar(*atom, *ops), old(inp)@.src, old(inp)@.pos, min_power as nat),
            r,
        ),
        r is Err ==> final(inp)@.alt is Some,
    decreases old(inp)@.src.len() - old(inp)@.pos, 3nat,
{
    let pre_expr = inp.save();
    let ghost g = grammar(*atom, *ops);
    let ghost src = inp@.src;
    let ghost pos0 = inp@.pos;
    let ghost alt0 = inp@.alt;
    let ghost head = operand(g, src, pos0, 0, None);
    let mut lhs = match parse_operand(atom, ops, inp, mode) {
        Ok(out) => out,
        Err(()) => {
            return Err(());
        },
    };
    let ghost mut tree = head.parsed->0.tree;
    let ghost mut acc = head.alt;
    loop
        invariant_except_break
            inp@.alt == furthest(alt0, acc),
            expr(g, src, pos0, min_power as nat) == continuation(
                g,
                src,
                pos0,
                tree,
                inp@.pos,
                min_power as nat,
                acc,
            ),
        invariant
            inp.wf(),
            g == grammar(*atom, *ops),
            inp@.src == src,
            src == old(inp)@.src,
            pos0 == old(inp)@.pos,
            pre_expr@ == pos0,
            alt0 == old(inp)@.alt,
            pos0 <= inp@.pos,
            carries(g, src, mode, tree, lhs),
        ensures
            outcome_obeys(g, old(inp)@, inp@, mode, expr(g, src, pos0, min_power as nat), Ok(lhs)),
        decreases src.len() - inp@.pos,
    {
        let pre_op = inp.save();
        let ghost pos = inp@.pos;
        let ghost post = postfix_scan(g, src, tree, pos, min_power as nat, 0, acc);
        match try_postfixes(
            atom,
            ops,
            inp,
            lhs,
            min_power,
            mode,
            Ghost(tree),
            Ghost(alt0),
            Ghost(acc),
        ) {
            Ok(out) => {
                lhs = out;
                proof {
                    tree = post.parsed->0.tree;
                    acc = post.alt;
                }
                continue ;
            },
            Err(back) => {
                lhs = back;
            },
        }
        let ghost inf = infix_scan(g, src, pos0, tree, pos, min_power as nat, 0, post.alt);
        match try_infixes(
            atom,
            ops,
            inp,
            pre_expr,
            lhs,
            min_power,
            mode,
            Ghost(tree),
            Ghost(alt0),
            Ghost(post.alt),
        ) {
            Ok(out) => {
                lhs = out;
                proof {
                    tree = inf.parsed->0.tree;
                    acc = inf.alt;
                }
                continue ;
            },
            Err(back) => {
                lhs = back;
            },
        }
        inp.rewind(pre_op);
        break ;
    }
    Ok(lhs)
}

/// Parses the operand at the cursor: the first prefix operator, in the order
/// of declaration, that is found with its operand, or else the atom.
fn parse_operand<A: Parser<Output = O>, Ops: Operators<O, Tok = Tok>, O, Tok>(
    atom: &A,
    ops: &Ops,
    inp: &mut Input,
    mode: Mode,
) -> (r: PResult<O>)
    requires
        old(inp).wf(),
    ensures
        outcome_obeys(
            grammar(*atom, *ops),
            old(inp)@,
            final(inp)@,
            mode,
            operand(grammar(*atom, *ops), old(inp)@.src, old(inp)@.pos, 0, None),
            r,
        ),
        r is Err ==> final(inp)@.alt is Some,
    decreases old(inp)@.src.len() - old(inp)@.pos, 2nat,
{
    let pre_expr = inp.save();
    let ghost g = grammar(*atom, *ops);
    let ghost src = inp@.src;
    let ghost pos = inp@.pos;
    let ghost alt0 = inp@.alt;
    let ghost mut acc: Option<Failure> = None;
    let n = ops.len();
    let mut i: usize = 0;
    while i < n
        invariant
            inp.wf(),
            g == grammar(*atom, *ops),
            inp@.src == src,
            inp@.pos == pos,
            pre_expr@ == pos,
            inp@.alt == furthest(alt0, acc),
            src == old(inp)@.src,
            pos == old(inp)@.pos,
            alt0 == old(inp)@.alt,
            n == ops.count(),
            i <= n,
            operand(g, src, pos, 0, None) == operand(g, src, pos, i as int, acc),
        decreases n - i,
    {
        if ops.is_prefix_at(i) {
            let ghost attempt = prefix_attempt(g, src, pos, i as int);
            match do_parse_prefix(atom, ops, i, inp, mode) {
                Ok(out) => {
                    return Ok(out);
                },
                Err(()) => {
                    inp.rewind(pre_expr);
                },
            }
            proof {
                acc = furthest(acc, attempt.alt);
            }
        }
        i = i + 1;
    }
    atom.go(inp, mode)
}

/// Tries the postfix operators that bind at least as strongly as
/// `min_power`, in the order of declaration, behind `lhs`. The first whose
/// token is found is folded in. Where none is found `lhs` comes back and the
/// cursor is where it was.
fn try_postfixes<A: Parser<Output = O>, Ops: Operators<O, Tok = Tok>, O, Tok>(
    atom: &A,
    ops: &Ops,
    inp: &mut Input,
    lhs: Option<O>,
    min_power: u32,
    mode: Mode,
    Ghost(tree): Ghost<Tree>,
    Ghost(alt0): Ghost<Option<Failure>>,
    Ghost(acc): Ghost<Option<Failure>>,
) -> (r: Result<Option<O>, Option<O>>)
    requires
        old(inp).wf(),
        old(inp)@.alt == furthest(alt0, acc),
        carries(grammar(*atom, *ops), old(inp)@.src, mode, tree, lhs),
    ensures
        scan_obeys(
            grammar(*atom, *ops),
            old(inp)@,
            final(inp)@,
            alt0,
            mode,
            postfix_scan(
                grammar(*atom, *ops),
                old(inp)@.src,
                tree,
                old(inp)@.pos,
                min_power as nat,
                0,
                acc,
            ),
            lhs,
            r,
        ),
{
    let pre_op = inp.save();
    let ghost g = grammar(*atom, *ops);
    let ghost src = inp@.src;
    let ghost pos = inp@.pos;
    let ghost min = min_power as nat;
    let ghost mut acc_i = acc;
    let ghost given = lhs;
    let mut lhs = lhs;
    let n = ops.len();
    let mut i: usize = 0;
    while i < n
        invariant
            inp.wf(),
            g == grammar(*atom, *ops),
            inp@.src == src,
            inp@.pos == pos,
            pre_op@ == pos,
            src == old(inp)@.src,
            pos == old(inp)@.pos,
            min == min_power,
            inp@.alt == furthest(alt0, acc_i),
            n == ops.count(),
            i <= n,
            lhs == given,
            carries(g, src, mode, tree, lhs),
            postfix_scan(g, src, tree, pos, min, 0, acc) == postfix_scan(
                g,
                src,
                tree,
                pos,
                min,
                i as int,
                acc_i,
            ),
        decreases n - i,
    {
        let assoc = ops.associativity_at(i);
        if ops.is_postfix_at(i) && assoc.right_power() >= min_power {
            let ghost reply = ops.reply_at(i as int, src, pos);
            match do_parse_postfix(ops, i, inp, lhs, mode) {
                Ok(out) => {
                    proof {
                        if mode is Emit {
                            let v = out->0;
                            let tok = choose|tok: Tok|
                                ops.yields_at(i as int, src, pos, tok)
                                    && #[trigger] ops.folds_at(i as int, given, tok, None, v);
                            assert((g.folds)(i as int, given, tok, None, v));
                        }
                    }
                    return Ok(out);
                },
                Err(back) => {
                    lhs = back;
                    inp.rewind(pre_op);
                },
            }
            proof {
                acc_i = furthest(acc_i, reply.alt);
            }
        }
        i = i + 1;
    }
    Err(lhs)
}

/// Tries the infix operators that bind at least as strongly as `min_power`,
/// in the order of declaration, behind `lhs`, in an expression that began at
/// `pre_expr`. The first whose token and right operand are both found is
/// folded in. Where none is found `lhs` comes back and the cursor is where it
/// was.
fn try_infixes<A: Parser<Output = O>, Ops: Operators<O, Tok = Tok>, O, Tok>(
    atom: &A,
    ops: &Ops,
    inp: &mut Input,
    pre_expr: Checkpoint,
    lhs: Option<O>,
    min_power: u32,
    mode: Mode,
    Ghost(tree): Ghost<Tree>,
    Ghost(alt0): Ghost<Option<Failure>>,
    Ghost(acc): Ghost<Option<Failure>>,
) -> (r: Result<Option<O>, Option<O>>)
    requires
        old(inp).wf(),
        old(inp)@.alt == furthest(alt0, acc),
        carries(grammar(*atom, *ops), old(inp)@.src, mode, tree, lhs),
    ensures
        scan_obeys(
            grammar(*atom, *ops),
            old(inp)@,
            final(inp)@,
            alt0,
            mode,
            infix_scan(
                grammar(*atom, *ops),
                old(inp)@.src,
                pre_expr@,
                tree,
                old(inp)@.pos,
                min_power as nat,
                0,
                acc,
            ),
            lhs,
            r,
        ),
    decreases old(inp)@.src.len() - pre_expr@, 2nat,
{
    let pre_op = inp.save();
    let ghost g = grammar(*atom, *ops);
    let ghost src = inp@.src;
    let ghost pos = inp@.pos;
    let ghost min = min_power as nat;
    let ghost mut acc_i = acc;
    let ghost given = lhs;
    let mut lhs = lhs;
    let n = ops.len();
    let mut i: usize = 0;
    while i < n
        invariant
            inp.wf(),
            g == grammar(*atom, *ops),
            inp@.src == src,
            inp@.pos == pos,
            pre_op@ == pos,
            src == old(inp)@.src,
            pos == old(inp)@.pos,
            min == min_power,
            inp@.alt == furthest(alt0, acc_i),
            n == ops.count(),
            i <= n,
            lhs == given,
            carries(g, src, mode, tree, lhs),
            infix_scan(g, src, pre_expr@, tree, pos, min, 0, acc) == infix_scan(
                g,
                src,
                pre_expr@,
                tree,
                pos,
                min,
                i as int,
                acc_i,
            ),
        decreases n - i,
    {
        let assoc = ops.associativity_at(i);
        if ops.is_infix_at(i) && assoc.left_power() >= min_power {
            let ghost attempt = infix_attempt(g, src, pre_expr@, pos, i as int);
            match do_parse_infix(atom, ops, i, inp, pre_expr, lhs, mode) {
                Ok(out) => {
                    proof {
                        if mode is Emit {
                            let v = out->0;
                            let (tok, y) = choose|tok: Tok, y: O|
                                {
                                    &&& (g.yields)(i as int, src, pos, tok)
                                    &&& evaluates(g, src, attempt.parsed->0.tree, y)
                                    &&& #[trigger] (g.folds)(i as int, given, tok, Some(y), v)
                                };
                            assert((g.folds)(i as int, given, tok, Some(y), v));
                        }
                    }
                    return Ok(out);
                },
                Err(back) => {
                    lhs = back;
                    inp.rewind(pre_op);
                },
            }
            proof {
                acc_i = furthest(acc_i, attempt.alt);
            }
        }
        i = i + 1;
    }
    Err(lhs)
}

/// A parser for expressions: an atom parser with a list of operators (see
/// [`Parser::with_operators`]). The operators are tried in the order of the
/// list.
#[derive(Copy, Clone, Debug)]
pub struct Pratt<Atom, Ops> {
    atom: Atom,
    ops: Ops,
}

impl<Atom, Ops> Pratt<Atom, Ops> {
    /// The parser for `atom`s combined by `ops`.
    pub fn new(atom: Atom, ops: Ops) -> (pratt: Self)
        ensures
            pratt.atom() == atom,
            pratt.ops() == ops,
    {
        Pratt { atom, ops }
    }

    /// The atom parser.
    pub closed spec fn atom(&self) -> Atom {
        self.atom
    }

    /// The operators, in the order of declaration.
    pub closed spec fn ops(&self) -> Ops {
        self.ops
    }
}

impl<A: Parser<Output = O>, Ops: Operators<O, Tok = Tok>, O, Tok> Pratt<A, Ops> {
    /// Parses the expression at the cursor under the threshold `min_power`
    /// (see [`pratt_go`]). With the threshold 0 this is [`Parser::go`], and
    /// it says of the value what that says through [`Parser::yields`].
    pub fn parse_expr(&self, inp: &mut Input, min_power: u32, mode: Mode) -> (r: PResult<O>)
        requires
            old(inp).wf(),
        ensures
            outcome_obeys(
                grammar(self.atom(), self.ops()),
                old(inp)@,
                final(inp)@,
                mode,
                expr(
                    grammar(self.atom(), self.ops()),
                    old(inp)@.src,
                    old(inp)@.pos,
                    min_power as nat,
                ),
                r,
            ),
            r is Err ==> final(inp)@.alt is Some,
    {
        pratt_go(&self.atom, &self.ops, inp, min_power, mode)
    }
}

impl<A: Parser, Ops: Operators<A::Output>> Parser for Pratt<A, Ops> {
    type Output = A::Output;

    open spec fn reply(&self, src: Seq<char>, pos: int) -> Reply {
        let o = expr(grammar(self.atom(), self.ops()), src, pos, 0);
        Reply {
            end: match o.parsed {
                Some(p) => Some(p.end),
                None => None,
            },
            alt: o.alt,
        }
    }

    open spec fn yields(&self, src: Seq<char>, pos: int, out: A::Output) -> bool {
        expr(grammar(self.atom(), self.ops()), src, pos, 0).parsed matches Some(p) && evaluates(
            grammar(self.atom(), self.ops()),
            src,
            p.tree,
            out,
        )
    }

    fn go(&self, inp: &mut Input, mode: Mode) -> (r: PResult<A::Output>) {
        self.parse_expr(inp, 0, mode)
    }
}

/// What the parser for expressions is as a parser: it matches where the
/// model has an expression under the threshold 0, and its values are those
/// of the tree. (Where the fold functions are closures, Verus does not see
/// through the definitions of [`Parser::reply`] and [`Parser::yields`] by
/// itself: this states them.)
pub proof fn lemma_pratt_parser<A: Parser<Output = O>, Ops: Operators<O, Tok = Tok>, O, Tok>(
    pratt: Pratt<A, Ops>,
)
    ensures
        forall|src: Seq<char>, pos: int| #[trigger]
            pratt.reply(src, pos).alt == expr(grammar(pratt.atom(), pratt.ops()), src, pos, 0).alt,
        forall|src: Seq<char>, pos: int| #[trigger]
            pratt.reply(src, pos).end == (match expr(
                grammar(pratt.atom(), pratt.ops()),
                src,
                pos,
                0,
            ).parsed {
                Some(p) => Some(p.end),
                None => None,
            }),
        forall|src: Seq<char>, pos: int, out: O| #[trigger]
            pratt.yields(src, pos, out) == (expr(
                grammar(pratt.atom(), pratt.ops()),
                src,
                pos,
                0,
            ).parsed matches Some(p) && evaluates(
                grammar(pratt.atom(), pratt.ops()),
                src,
                p.tree,
                out,
            )),
{
}

} // verus!
