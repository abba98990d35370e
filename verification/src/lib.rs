//! Operator-precedence (Pratt) parsing over a stream of characters.
//!
//! An expression grammar is given as a parser for atoms and an ordered
//! collection of prefix, postfix and infix operators, each with a binding
//! power, a parser for its token and a fold function. [`Pratt`] makes of the
//! two a parser that folds the expression in the order that precedence and
//! associativity ask for. Where several operators could go on, the one
//! declared first does; where an operator starts to match and then does not,
//! the input is put back as it was. The token of an infix operator may be
//! empty ([`empty`]): its operands then stand side by side.
//!
//! ```
//! use pratt::{infix, integer, just, left, parse, postfix, prefix, right, Mapped, Parser};
//!
//! fn number(digits: Vec<char>) -> i64 {
//!     digits.into_iter().collect::<String>().parse().unwrap()
//! }
//!
//! let op = |c| just(c).padded();
//! let expr = Mapped::new(integer().padded(), number).with_operators((
//!     postfix(4, op('!'), |x: i64, _| (1..=x).product()),
//!     (
//!         infix(right(3), op('^'), |l: i64, _, r: i64| l.pow(r as u32)),
//!         (
//!             prefix(2, op('-'), |_, x: i64| -x),
//!             (
//!                 infix(left(1), op('+'), |l: i64, _, r: i64| l + r),
//!                 (infix(left(1), op('-'), |l: i64, _, r: i64| l - r),),
//!             ),
//!         ),
//!     ),
//! ));
//!
//! assert_eq!(parse(&expr, "1 + -2! - -3^2"), Ok(8));
//! ```
//!
//! A parser for expressions is a parser like any other and can be the atom
//! of another. So brackets are had by nesting: with
//! `inner.delimited_by(just('('), just(')')).or(number)` for its atoms, a
//! parser reads expressions whose brackets hold what `inner` reads.
//!
//! # What is proved
//!
//! What the engine does is fixed by a mathematical model ([`model`]): the
//! syntax tree that a position of the input denotes, where the tree ends,
//! and which failure is reported. The parser ([`pratt`]) is proved to
//! succeed exactly where the model has a tree, to stop where the tree ends,
//! to record the failure that the model names, and to return a value that
//! the fold functions can give for the tree. In [`Mode::Check`] it does the
//! same without building a value or calling a fold function.
//!
//! The model follows the algorithm. What it comes to is said in [`laws`]:
//! the tree of an expression is the one tree that reads the input operator
//! by operator, each the first in the order of declaration that applies,
//! and that cannot go on; from this follow the laws of precedence and
//! associativity. That an expression written with a pair of brackets for
//! every operator is read back as it was written is proved in [`brackets`].
//!
//! # Reasoning about a grammar of one's own
//!
//! A verified caller learns what its parser makes of an input from the
//! contracts of [`parse`], [`parse_lazy`], [`check`], [`Pratt::parse_expr`]
//! and [`pratt::pratt_go`], which speak of the model. Where a fold function is a closure or a named
//! function, Verus does not unfold by itself what an operator, a collection
//! or the parser for expressions is defined to be; it is stated
//!
//! - of an operator, by [`infix`], [`prefix`] and [`postfix`], and of a mapped
//!   parser by [`Mapped::new`];
//! - of a collection, by [`collection::lemma_list`],
//!   [`collection::lemma_chain_end`] and [`collection::lemma_chain_link`]
//!   (that a list and a chain of the same operators make the same parser is
//!   [`laws::lemma_chain_end_is_list`] and [`laws::lemma_chain_link_is_list`]);
//! - of the parser for expressions, by [`pratt::lemma_pratt_parser`].
//!
//! With these the functions of [`model`] can be unfolded on a given input,
//! or a tree can be shown to be sound and so, by
//! [`laws::lemma_expr_complete`], to be the expression.
//!
//! # The modules
//!
//! - [`assoc`]: binding powers.
//! - [`input`]: the cursor, with its save and rewind.
//! - [`parser`]: what a parser is, and the primitive parsers.
//! - [`operator`]: what an operator is, and the three kinds.
//! - [`collection`]: lists and chains of operators.
//! - [`model`]: the expression that an input denotes.
//! - [`pratt`]: the parser.
//! - [`laws`]: what holds of every expression.
//! - [`brackets`]: expressions written with brackets, read back.

pub mod assoc;
pub mod brackets;
pub mod collection;
pub mod input;
pub mod laws;
pub mod model;
pub mod operator;
pub mod parser;
pub mod pratt;

pub use assoc::{left, right, Associativity};
pub use collection::{Either, Operators};
pub use input::{Checkpoint, Failure, Input};
pub use operator::{infix, postfix, prefix, Boxed, Infix, Operator, Postfix, Prefix, Role};
pub use parser::{
    check, empty, integer, just, parse, parse_lazy, Delimited, Empty, Integer, Just, Mapped, Mode,
    Or, PResult, Padded, Parser,
};
pub use pratt::Pratt;
