//! The parser: a recovering recursive-descent parser with precedence levels.
//!
//! The grammar is written down once as a family of specification functions
//! over token views (`spec_parse_program` and friends); the executable
//! parser is proved to produce exactly the statements those functions
//! describe.  Parsing never fails outright: a statement that cannot be
//! formed makes the top-level loop discard one token and retry, and an
//! expression position that cannot be parsed yields the reserved
//! placeholder identifier `error`, which the evaluator rejects.
//!
//! The specification functions carry a fuel parameter that bounds recursion
//! depth; the executable parser threads the same fuel, so the two agree
//! exactly, and the fuel supplied per statement grows with the remaining
//! token count so that it never runs out on real input.
use vstd::prelude::*;

use crate::ast::{BinOp, Expr, ExprV, Stmt, StmtV, UnOp, view_exprs, view_params, view_stmts};
use crate::token::{Token, TokenV, view_tokens};

verus! {

broadcast use vstd::std_specs::vec::group_vec_axioms;

/// The token at `pos`, or end-of-input beyond the end.
pub open spec fn tok(t: Seq<TokenV>, pos: int) -> TokenV {
    if 0 <= pos < t.len() {
        t[pos]
    } else {
        TokenV::EOF
    }
}

/// Whether two tokens are of the same kind, payloads disregarded.
pub open spec fn kind_eq(a: TokenV, b: TokenV) -> bool {
    match (a, b) {
        (TokenV::Let, TokenV::Let) => true,
        (TokenV::Mut, TokenV::Mut) => true,
        (TokenV::If, TokenV::If) => true,
        (TokenV::Then, TokenV::Then) => true,
        (TokenV::Else, TokenV::Else) => true,
        (TokenV::For, TokenV::For) => true,
        (TokenV::In, TokenV::In) => true,
        (TokenV::Range, TokenV::Range) => true,
        (TokenV::Fn, TokenV::Fn) => true,
        (TokenV::Return, TokenV::Return) => true,
        (TokenV::Branch, TokenV::Branch) => true,
        (TokenV::Fallback, TokenV::Fallback) => true,
        (TokenV::Parallel, TokenV::Parallel) => true,
        (TokenV::GPU, TokenV::GPU) => true,
        (TokenV::Equals, TokenV::Equals) => true,
        (TokenV::Plus, TokenV::Plus) => true,
        (TokenV::Minus, TokenV::Minus) => true,
        (TokenV::Star, TokenV::Star) => true,
        (TokenV::Slash, TokenV::Slash) => true,
        (TokenV::Lparen, TokenV::Lparen) => true,
        (TokenV::Rparen, TokenV::Rparen) => true,
        (TokenV::LBrace, TokenV::LBrace) => true,
        (TokenV::RBrace, TokenV::RBrace) => true,
        (TokenV::Lsquare, TokenV::Lsquare) => true,
        (TokenV::Rsquare, TokenV::Rsquare) => true,
        (TokenV::Dot, TokenV::Dot) => true,
        (TokenV::Comma, TokenV::Comma) => true,
        (TokenV::Colon, TokenV::Colon) => true,
        (TokenV::Arrow, TokenV::Arrow) => true,
        (TokenV::FatArrow, TokenV::FatArrow) => true,
        (TokenV::GT, TokenV::GT) => true,
        (TokenV::LT, TokenV::LT) => true,
        (TokenV::GE, TokenV::GE) => true,
        (TokenV::LE, TokenV::LE) => true,
        (TokenV::EQ, TokenV::EQ) => true,
        (TokenV::NE, TokenV::NE) => true,
        (TokenV::Number(_), TokenV::Number(_)) => true,
        (TokenV::Floating(_), TokenV::Floating(_)) => true,
        (TokenV::Str(_), TokenV::Str(_)) => true,
        (TokenV::Boolean(_), TokenV::Boolean(_)) => true,
        (TokenV::Identifier(_), TokenV::Identifier(_)) => true,
        (TokenV::EOF, TokenV::EOF) => true,
        _ => false,
    }
}

/// Position after consuming one token; the end-of-input token is never
/// consumed.
pub open spec fn spec_bump(t: Seq<TokenV>, pos: int) -> int {
    if tok(t, pos) is EOF {
        pos
    } else {
        pos + 1
    }
}

/// Consuming an identifier: its text and the position after, or `None` with
/// the offending token consumed.
pub open spec fn spec_take_ident(t: Seq<TokenV>, pos: int) -> (Option<Seq<char>>, int) {
    match tok(t, pos) {
        TokenV::Identifier(s) => (Some(s), spec_bump(t, pos)),
        _ => (None, spec_bump(t, pos)),
    }
}

/// Whether a token may start an expression.
pub open spec fn is_expression_start(tv: TokenV) -> bool {
    match tv {
        TokenV::Number(_) => true,
        TokenV::Floating(_) => true,
        TokenV::Boolean(_) => true,
        TokenV::Str(_) => true,
        TokenV::Identifier(_) => true,
        TokenV::Lparen => true,
        TokenV::Minus => true,
        TokenV::Range => true,
        _ => false,
    }
}

/// The statement-list contexts, each with its own follow set: the body of
/// an `if`, the body of a `then` clause, the body of an `else` clause (the
/// one context an `if` statement may stand in), and a loop or function
/// body.
#[derive(Clone, Copy, PartialEq, Eq, Structural)]
pub enum FollowCtx {
    IfBody,
    ThenBody,
    ElseBody,
    BlockBody,
}

/// Whether `tv` ends a statement list in context `ctx`.
pub open spec fn in_follow(ctx: FollowCtx, tv: TokenV) -> bool {
    match tv {
        TokenV::EOF => true,
        TokenV::Branch => true,
        TokenV::Fallback => true,
        TokenV::For => true,
        TokenV::Parallel => true,
        TokenV::Fn => true,
        TokenV::GPU => true,
        TokenV::Let => true,
        TokenV::Then => ctx == FollowCtx::IfBody,
        TokenV::Else => ctx == FollowCtx::IfBody || ctx == FollowCtx::ThenBody,
        TokenV::If => ctx == FollowCtx::BlockBody,
        _ => false,
    }
}

/// The binary operator that continues precedence level `level`, if any.
/// Levels, loosest first: equality, relational, additive, multiplicative.
pub open spec fn level_op(level: int, tv: TokenV) -> Option<BinOp> {
    match tv {
        TokenV::EQ => if level == 0 {
            Some(BinOp::EQ)
        } else {
            None
        },
        TokenV::NE => if level == 0 {
            Some(BinOp::NE)
        } else {
            None
        },
        TokenV::GT => if level == 1 {
            Some(BinOp::GT)
        } else {
            None
        },
        TokenV::LT => if level == 1 {
            Some(BinOp::LT)
        } else {
            None
        },
        TokenV::GE => if level == 1 {
            Some(BinOp::GE)
        } else {
            None
        },
        TokenV::LE => if level == 1 {
            Some(BinOp::LE)
        } else {
            None
        },
        TokenV::Plus => if level == 2 {
            Some(BinOp::Add)
        } else {
            None
        },
        TokenV::Minus => if level == 2 {
            Some(BinOp::Sub)
        } else {
            None
        },
        TokenV::Star => if level == 3 {
            Some(BinOp::Mul)
        } else {
            None
        },
        TokenV::Slash => if level == 3 {
            Some(BinOp::Div)
        } else {
            None
        },
        _ => None,
    }
}

/// The reserved placeholder for an expression position that could not be
/// parsed; the evaluator rejects it.
pub open spec fn error_ident() -> ExprV {
    ExprV::Ident("error"@)
}

/// An expression, parsed by precedence climbing from the loosest level.
pub open spec fn spec_parse_expression(t: Seq<TokenV>, pos: int, fuel: nat) -> (ExprV, int)
    decreases fuel,
{
    if fuel == 0 {
        (error_ident(), pos)
    } else {
        spec_parse_level(t, pos, 0, (fuel - 1) as nat)
    }
}

/// One binary-operator precedence level: a tighter operand, then a fold of
/// operators of this level.
pub open spec fn spec_parse_level(t: Seq<TokenV>, pos: int, level: int, fuel: nat) -> (ExprV, int)
    decreases fuel,
{
    if fuel == 0 {
        (error_ident(), pos)
    } else {
        let (l, p) = if level == 3 {
            spec_parse_unary(t, pos, (fuel - 1) as nat)
        } else {
            spec_parse_level(t, pos, level + 1, (fuel - 1) as nat)
        };
        spec_level_tail(t, p, level, l, (fuel - 1) as nat)
    }
}

/// The fold of operators at one level onto an already-parsed left operand.
pub open spec fn spec_level_tail(t: Seq<TokenV>, pos: int, level: int, left: ExprV, fuel: nat) -> (
    ExprV,
    int,
)
    decreases fuel,
{
    if fuel == 0 {
        (left, pos)
    } else {
        match level_op(level, tok(t, pos)) {
            Some(op) => {
                let (r, q) = if level == 3 {
                    spec_parse_unary(t, pos + 1, (fuel - 1) as nat)
                } else {
                    spec_parse_level(t, pos + 1, level + 1, (fuel - 1) as nat)
                };
                let nl = ExprV::Binary { left: Box::new(left), op, right: Box::new(r) };
                spec_level_tail(t, q, level, nl, (fuel - 1) as nat)
            },
            None => (left, pos),
        }
    }
}

/// Unary minus binds tighter than any binary operator.
pub open spec fn spec_parse_unary(t: Seq<TokenV>, pos: int, fuel: nat) -> (ExprV, int)
    decreases fuel,
{
    if fuel == 0 {
        (error_ident(), pos)
    } else if tok(t, pos) is Minus {
        let (e, p) = spec_parse_unary(t, pos + 1, (fuel - 1) as nat);
        (ExprV::Unary { op: UnOp::Neg, expr: Box::new(e) }, p)
    } else {
        spec_parse_call(t, pos, (fuel - 1) as nat)
    }
}

/// A primary expression followed by any number of argument lists.
pub open spec fn spec_parse_call(t: Seq<TokenV>, pos: int, fuel: nat) -> (ExprV, int)
    decreases fuel,
{
    if fuel == 0 {
        (error_ident(), pos)
    } else {
        let (e, p) = spec_parse_primary(t, pos, (fuel - 1) as nat);
        spec_call_tail(t, p, e, (fuel - 1) as nat)
    }
}

/// The fold of argument lists onto an already-parsed callee.  A call whose
/// closing parenthesis is missing is abandoned: the callee so far stands.
pub open spec fn spec_call_tail(t: Seq<TokenV>, pos: int, callee: ExprV, fuel: nat) -> (ExprV, int)
    decreases fuel,
{
    if fuel == 0 {
        (callee, pos)
    } else if tok(t, pos) is Lparen {
        let (args, p) = if tok(t, pos + 1) is Rparen {
            (Seq::<ExprV>::empty(), pos + 1)
        } else {
            spec_parse_args(t, pos + 1, (fuel - 1) as nat)
        };
        if tok(t, p) is Rparen {
            let call = ExprV::FunctionCall { callee: Box::new(callee), arguments: args };
            spec_call_tail(t, spec_bump(t, p), call, (fuel - 1) as nat)
        } else {
            (callee, p)
        }
    } else {
        (callee, pos)
    }
}

/// A comma-separated argument list of at least one expression.
pub open spec fn spec_parse_args(t: Seq<TokenV>, pos: int, fuel: nat) -> (Seq<ExprV>, int)
    decreases fuel,
{
    if fuel == 0 {
        (Seq::empty(), pos)
    } else {
        let (e, p) = spec_parse_expression(t, pos, (fuel - 1) as nat);
        if tok(t, p) is Comma {
            let (rest, q) = spec_parse_args(t, p + 1, (fuel - 1) as nat);
            (seq![e] + rest, q)
        } else {
            (seq![e], p)
        }
    }
}

/// A literal, identifier, `range(a, b)` call, parenthesized group, or the
/// start of an infix range.
pub open spec fn spec_parse_primary(t: Seq<TokenV>, pos: int, fuel: nat) -> (ExprV, int)
    decreases fuel,
{
    if fuel == 0 {
        (error_ident(), pos)
    } else {
        let next = spec_bump(t, pos);
        match tok(t, pos) {
            TokenV::Number(n) => {
                if tok(t, next) is Range || tok(t, next) is Dot {
                    spec_parse_range_from_start(t, next, ExprV::Number(n), (fuel - 1) as nat)
                } else {
                    (ExprV::Number(n), next)
                }
            },
            TokenV::Floating(b) => {
                if tok(t, next) is Range || tok(t, next) is Dot {
                    spec_parse_range_from_start(t, next, ExprV::Floating(b), (fuel - 1) as nat)
                } else {
                    (ExprV::Floating(b), next)
                }
            },
            TokenV::Boolean(b) => (ExprV::Boolean(b), next),
            TokenV::Str(s) => (ExprV::Str(s), next),
            TokenV::Identifier(s) => {
                if tok(t, next) is Range || tok(t, next) is Dot {
                    spec_parse_range_from_start(t, next, ExprV::Ident(s), (fuel - 1) as nat)
                } else {
                    (ExprV::Ident(s), next)
                }
            },
            TokenV::Range => {
                if tok(t, next) is Lparen {
                    let (start, p) = spec_parse_expression(t, next + 1, (fuel - 1) as nat);
                    if tok(t, p) is Comma {
                        let (end, q) = spec_parse_expression(t, p + 1, (fuel - 1) as nat);
                        if tok(t, q) is Rparen {
                            (
                                ExprV::Range { start: Box::new(start), end: Box::new(end) },
                                spec_bump(t, q),
                            )
                        } else {
                            (error_ident(), q)
                        }
                    } else {
                        (error_ident(), p)
                    }
                } else {
                    (ExprV::Ident("range"@), next)
                }
            },
            TokenV::Lparen => {
                let (e, p) = spec_parse_expression(t, next, (fuel - 1) as nat);
                if tok(t, p) is Rparen {
                    (ExprV::Grouping(Box::new(e)), spec_bump(t, p))
                } else {
                    (e, p)
                }
            },
            _ => (error_ident(), next),
        }
    }
}

/// The end of a range whose start is already parsed: `..` or a doubled dot
/// continues as a range; a single dot is no range, and the start stands.
pub open spec fn spec_parse_range_from_start(
    t: Seq<TokenV>,
    pos: int,
    start: ExprV,
    fuel: nat,
) -> (ExprV, int)
    decreases fuel,
{
    if fuel == 0 {
        (start, pos)
    } else if tok(t, pos) is Range {
        let (end, p) = spec_parse_expression(t, pos + 1, (fuel - 1) as nat);
        (ExprV::Range { start: Box::new(start), end: Box::new(end) }, p)
    } else if tok(t, pos) is Dot {
        if tok(t, pos + 1) is Dot {
            let (end, p) = spec_parse_expression(t, pos + 2, (fuel - 1) as nat);
            (ExprV::Range { start: Box::new(start), end: Box::new(end) }, p)
        } else {
            (start, pos + 1)
        }
    } else {
        (start, pos)
    }
}

/// One statement, or `None` where none could be formed; in either case the
/// position scanning stopped at.
pub open spec fn spec_parse_statement(t: Seq<TokenV>, pos: int, fuel: nat) -> (
    Option<StmtV>,
    int,
)
    decreases fuel, 3int,
{
    if fuel == 0 {
        (None, pos)
    } else {
        let f = (fuel - 1) as nat;
        match tok(t, pos) {
            TokenV::Let => spec_parse_let(t, pos, f),
            TokenV::If => spec_parse_if(t, pos, f),
            TokenV::Branch => spec_parse_branch(t, pos, f),
            TokenV::Fallback => spec_parse_fallback(t, pos, f),
            TokenV::For => spec_parse_loop(t, pos, false, f),
            TokenV::Parallel => spec_parse_loop(t, pos, true, f),
            TokenV::Fn => spec_parse_function(t, pos, false, f),
            TokenV::GPU => {
                let p = spec_bump(t, pos);
                if tok(t, p) is Fn {
                    spec_parse_function(t, p, true, f)
                } else {
                    (None, p)
                }
            },
            TokenV::Return => {
                let p = spec_bump(t, pos);
                let (e, q) = spec_parse_expression(t, p, f);
                (Some(StmtV::Return(e)), q)
            },
            TokenV::Identifier(_) => {
                if tok(t, pos + 1) is Lparen {
                    let (e, p) = spec_parse_expression(t, pos, f);
                    (Some(StmtV::ExprStmt(e)), p)
                } else if is_expression_start(tok(t, pos)) {
                    let (e, p) = spec_parse_expression(t, pos, f);
                    (Some(StmtV::ExprStmt(e)), p)
                } else {
                    (None, pos)
                }
            },
            _ => {
                if is_expression_start(tok(t, pos)) {
                    let (e, p) = spec_parse_expression(t, pos, f);
                    (Some(StmtV::ExprStmt(e)), p)
                } else {
                    (None, pos)
                }
            },
        }
    }
}

/// A `let` binding: optional `mut`, a name, an optional `: type`, `=`, and
/// an initializer expression.
pub open spec fn spec_parse_let(t: Seq<TokenV>, pos: int, fuel: nat) -> (Option<StmtV>, int)
    decreases fuel, 2int,
{
    let p0 = spec_bump(t, pos);
    let (mutable, p1) = if tok(t, p0) is Mut {
        (true, spec_bump(t, p0))
    } else {
        (false, p0)
    };
    let (name, p2) = spec_take_ident(t, p1);
    match name {
        None => (None, p2),
        Some(nm) => {
            let (ty, p3) = if tok(t, p2) is Colon {
                spec_take_ident(t, spec_bump(t, p2))
            } else {
                (None, p2)
            };
            if tok(t, p3) is Equals {
                let p4 = spec_bump(t, p3);
                let (e, p5) = spec_parse_expression(t, p4, fuel);
                (Some(StmtV::Let { name: nm, declared_type: ty, value: e, mutable }), p5)
            } else {
                (None, p3)
            }
        },
    }
}

/// A statement list collected until a token of the context's follow set.
pub open spec fn spec_parse_stmt_list(t: Seq<TokenV>, pos: int, ctx: FollowCtx, fuel: nat) -> (
    Seq<StmtV>,
    int,
)
    decreases fuel, 0int,
{
    if fuel == 0 {
        (Seq::empty(), pos)
    } else if in_follow(ctx, tok(t, pos)) {
        (Seq::empty(), pos)
    } else {
        let (o, p) = spec_parse_statement(t, pos, (fuel - 1) as nat);
        match o {
            Some(sv) => {
                if pos < p {
                    let (rest, q) = spec_parse_stmt_list(t, p, ctx, (fuel - 1) as nat);
                    (seq![sv] + rest, q)
                } else {
                    (seq![sv], p)
                }
            },
            None => (Seq::empty(), p),
        }
    }
}

/// The `then` (else-if) clauses following an `if` body: zero or more, each
/// a condition, a colon and a body.  `None` where a clause's colon is
/// missing, with the position scanning stopped at.
pub open spec fn spec_parse_then_chain(t: Seq<TokenV>, pos: int, fuel: nat) -> (
    Option<Seq<(ExprV, Seq<StmtV>)>>,
    int,
)
    decreases fuel, 1int,
{
    if !(tok(t, pos) is Then) {
        (Some(Seq::empty()), pos)
    } else if fuel == 0 {
        (None, pos)
    } else {
        let p1 = spec_bump(t, pos);
        let (cond, p2) = spec_parse_expression(t, p1, fuel);
        if !(tok(t, p2) is Colon) {
            (None, p2)
        } else {
            let (body, p3) = spec_parse_stmt_list(t, spec_bump(t, p2), FollowCtx::ThenBody, fuel);
            match spec_parse_then_chain(t, p3, (fuel - 1) as nat) {
                (Some(rest), q) => (Some(seq![(cond, body)] + rest), q),
                (None, q) => (None, q),
            }
        }
    }
}

/// Folds a chain of else-if clauses into nested conditionals, the final
/// `else` branch (if any) attached to the innermost one.
pub open spec fn build_elif_chain(
    chain: Seq<(ExprV, Seq<StmtV>)>,
    tail: Option<Box<StmtV>>,
) -> Option<Box<StmtV>>
    decreases chain,
{
    if chain.len() == 0 {
        tail
    } else {
        Some(
            Box::new(
                StmtV::IfStmt {
                    condition: chain[0].0,
                    then_branch: Box::new(StmtV::Block(chain[0].1)),
                    else_branch: build_elif_chain(chain.drop_first(), tail),
                },
            ),
        )
    }
}

/// An `if` statement: condition, colon, then-body, zero or more `then`
/// (else-if) clauses, and an optional final `else` clause attached to the
/// innermost still-open branch.
pub open spec fn spec_parse_if(t: Seq<TokenV>, pos: int, fuel: nat) -> (Option<StmtV>, int)
    decreases fuel, 2int,
{
    let p0 = spec_bump(t, pos);
    let (cond, p1) = spec_parse_expression(t, p0, fuel);
    if !(tok(t, p1) is Colon) {
        (None, p1)
    } else {
        let p2 = spec_bump(t, p1);
        let (then_stmts, p3) = spec_parse_stmt_list(t, p2, FollowCtx::IfBody, fuel);
        match spec_parse_then_chain(t, p3, fuel) {
            (None, q) => (None, q),
            (Some(chain), p6) => {
                if tok(t, p6) is Else {
                    let p7 = spec_bump(t, p6);
                    if tok(t, p7) is Colon {
                        let (else_stmts, p8) = spec_parse_stmt_list(
                            t,
                            spec_bump(t, p7),
                            FollowCtx::ElseBody,
                            fuel,
                        );
                        (
                            Some(
                                StmtV::IfStmt {
                                    condition: cond,
                                    then_branch: Box::new(StmtV::Block(then_stmts)),
                                    else_branch: build_elif_chain(
                                        chain,
                                        Some(Box::new(StmtV::Block(else_stmts))),
                                    ),
                                },
                            ),
                            p8,
                        )
                    } else {
                        (None, p7)
                    }
                } else {
                    (
                        Some(
                            StmtV::IfStmt {
                                condition: cond,
                                then_branch: Box::new(StmtV::Block(then_stmts)),
                                else_branch: build_elif_chain(chain, None),
                            },
                        ),
                        p6,
                    )
                }
            },
        }
    }
}

/// A `branch` statement: condition, `=>`, and a single-statement body.
pub open spec fn spec_parse_branch(t: Seq<TokenV>, pos: int, fuel: nat) -> (Option<StmtV>, int)
    decreases fuel, 2int,
{
    let p0 = spec_bump(t, pos);
    let (cond, p1) = spec_parse_expression(t, p0, fuel);
    if !(tok(t, p1) is FatArrow) {
        (None, p1)
    } else {
        let p2 = spec_bump(t, p1);
        if is_expression_start(tok(t, p2)) {
            let (e, p3) = spec_parse_expression(t, p2, fuel);
            (
                Some(
                    StmtV::Branch { condition: cond, body: Box::new(StmtV::ExprStmt(e)) },
                ),
                p3,
            )
        } else {
            (
                Some(
                    StmtV::Branch {
                        condition: cond,
                        body: Box::new(StmtV::Block(Seq::empty())),
                    },
                ),
                p2,
            )
        }
    }
}

/// A `fallback` statement: `=>` and a single-statement body.
pub open spec fn spec_parse_fallback(t: Seq<TokenV>, pos: int, fuel: nat) -> (Option<StmtV>, int)
    decreases fuel, 2int,
{
    let p0 = spec_bump(t, pos);
    if !(tok(t, p0) is FatArrow) {
        (None, p0)
    } else {
        let p1 = spec_bump(t, p0);
        if is_expression_start(tok(t, p1)) {
            let (e, p2) = spec_parse_expression(t, p1, fuel);
        (Some(StmtV::Fallback(Box::new(StmtV::ExprStmt(e)))), p2)
        } else {
            (Some(StmtV::Fallback(Box::new(StmtV::Block(Seq::empty())))), p1)
        }
    }
}

/// A `for` or `parallel` loop: variable, `in`, range expression, colon, and
/// a body block.
pub open spec fn spec_parse_loop(t: Seq<TokenV>, pos: int, parallel: bool, fuel: nat) -> (
    Option<StmtV>,
    int,
)
    decreases fuel, 2int,
{
    let p0 = spec_bump(t, pos);
    let (var, p1) = spec_take_ident(t, p0);
    match var {
        None => (None, p1),
        Some(v) => {
            if !(tok(t, p1) is In) {
                (None, p1)
            } else {
                let p2 = spec_bump(t, p1);
                let (range, p3) = spec_parse_expression(t, p2, fuel);
                if !(tok(t, p3) is Colon) {
                    (None, p3)
                } else {
                    let p4 = spec_bump(t, p3);
                    let (body, p5) = spec_parse_stmt_list(t, p4, FollowCtx::BlockBody, fuel);
                    let node = if parallel {
                        StmtV::Parallel { var: v, range, body: Box::new(StmtV::Block(body)) }
                    } else {
                        StmtV::For { var: v, range, body: Box::new(StmtV::Block(body)) }
                    };
                    (Some(node), p5)
                }
            }
        },
    }
}

/// A parameter list: names with optional `: type` annotations, separated by
/// commas.
pub open spec fn spec_parse_params(t: Seq<TokenV>, pos: int, fuel: nat) -> (
    Seq<(Seq<char>, Option<Seq<char>>)>,
    int,
)
    decreases fuel,
{
    if fuel == 0 {
        (Seq::empty(), pos)
    } else {
        let (name, p1) = spec_take_ident(t, pos);
        match name {
            None => (Seq::empty(), pos),
            Some(nm) => {
                let (ty, p2) = if tok(t, p1) is Colon {
                    spec_take_ident(t, spec_bump(t, p1))
                } else {
                    (None, p1)
                };
                if tok(t, p2) is Comma {
                    let (rest, p3) = spec_parse_params(t, p2 + 1, (fuel - 1) as nat);
                    (seq![(nm, ty)] + rest, p3)
                } else {
                    (seq![(nm, ty)], p2)
                }
            },
        }
    }
}

/// A function definition: name, parenthesized parameters, an optional
/// `-> type`, a colon, and a body block.  `gpu` marks a definition that was
/// prefixed by the accelerated-function marker.
pub open spec fn spec_parse_function(t: Seq<TokenV>, pos: int, gpu: bool, fuel: nat) -> (
    Option<StmtV>,
    int,
)
    decreases fuel, 2int,
{
    let p0 = spec_bump(t, pos);
    let (name, p1) = spec_take_ident(t, p0);
    match name {
        None => (None, p1),
        Some(nm) => {
            if !(tok(t, p1) is Lparen) {
                (None, p1)
            } else {
                let p2 = spec_bump(t, p1);
                let (params, p3) = if tok(t, p2) is Rparen {
                    (Seq::<(Seq<char>, Option<Seq<char>>)>::empty(), p2)
                } else {
                    spec_parse_params(t, p2, fuel)
                };
                if !(tok(t, p3) is Rparen) {
                    (None, p3)
                } else {
                    let p4 = spec_bump(t, p3);
                    let (ret_ty, p5) = if tok(t, p4) is Arrow {
                        spec_take_ident(t, spec_bump(t, p4))
                    } else {
                        (None, p4)
                    };
                    if !(tok(t, p5) is Colon) {
                        (None, p5)
                    } else {
                        let p6 = spec_bump(t, p5);
                        let (body, p7) = spec_parse_stmt_list(t, p6, FollowCtx::BlockBody, fuel);
                        (
                            Some(
                                StmtV::FunctionDef {
                                    name: nm,
                                    params,
                                    return_type: ret_ty,
                                    body: Box::new(StmtV::Block(body)),
                                    gpu,
                                },
                            ),
                            p7,
                        )
                    }
                }
            }
        },
    }
}

/// The fuel supplied for one statement: ample for the tokens that remain.
pub open spec fn stmt_fuel(len: int, pos: int) -> nat {
    let v = 16 * (len - pos) + 16;
    if v <= u64::MAX {
        v as nat
    } else {
        u64::MAX as nat
    }
}

/// The whole program: statements parsed one after another; where none can
/// be formed, one token is discarded and parsing retries.
pub open spec fn spec_parse_program(t: Seq<TokenV>, pos: int) -> Seq<StmtV>
    decreases t.len() - pos,
{
    if tok(t, pos) is EOF {
        Seq::empty()
    } else {
        let (o, p) = spec_parse_statement(t, pos, stmt_fuel(t.len() as int, pos));
        match o {
            Some(sv) => {
                if pos < p < t.len() {
                    seq![sv] + spec_parse_program(t, p)
                } else {
                    seq![sv]
                }
            },
            None => {
                let q = spec_bump(t, p);
                if pos < q < t.len() {
                    spec_parse_program(t, q)
                } else {
                    Seq::empty()
                }
            },
        }
    }
}


/// Whether two tokens are of the same kind, payloads disregarded.
pub fn token_kind_eq(a: &Token, b: &Token) -> (r: bool)
    ensures
        r == kind_eq(a@, b@),
{
    match (a, b) {
        (Token::Let, Token::Let) => true,
        (Token::Mut, Token::Mut) => true,
        (Token::If, Token::If) => true,
        (Token::Then, Token::Then) => true,
        (Token::Else, Token::Else) => true,
        (Token::For, Token::For) => true,
        (Token::In, Token::In) => true,
        (Token::Range, Token::Range) => true,
        (Token::Fn, Token::Fn) => true,
        (Token::Return, Token::Return) => true,
        (Token::Branch, Token::Branch) => true,
        (Token::Fallback, Token::Fallback) => true,
        (Token::Parallel, Token::Parallel) => true,
        (Token::GPU, Token::GPU) => true,
        (Token::Equals, Token::Equals) => true,
        (Token::Plus, Token::Plus) => true,
        (Token::Minus, Token::Minus) => true,
        (Token::Star, Token::Star) => true,
        (Token::Slash, Token::Slash) => true,
        (Token::Lparen, Token::Lparen) => true,
        (Token::Rparen, Token::Rparen) => true,
        (Token::LBrace, Token::LBrace) => true,
        (Token::RBrace, Token::RBrace) => true,
        (Token::Lsquare, Token::Lsquare) => true,
        (Token::Rsquare, Token::Rsquare) => true,
        (Token::Dot, Token::Dot) => true,
        (Token::Comma, Token::Comma) => true,
        (Token::Colon, Token::Colon) => true,
        (Token::Arrow, Token::Arrow) => true,
        (Token::FatArrow, Token::FatArrow) => true,
        (Token::GT, Token::GT) => true,
        (Token::LT, Token::LT) => true,
        (Token::GE, Token::GE) => true,
        (Token::LE, Token::LE) => true,
        (Token::EQ, Token::EQ) => true,
        (Token::NE, Token::NE) => true,
        (Token::Number(_), Token::Number(_)) => true,
        (Token::Floating(_), Token::Floating(_)) => true,
        (Token::Str(_), Token::Str(_)) => true,
        (Token::Boolean(_), Token::Boolean(_)) => true,
        (Token::Identifier(_), Token::Identifier(_)) => true,
        (Token::EOF, Token::EOF) => true,
        _ => false,
    }
}

/// The view of an optional boxed statement.
pub open spec fn view_opt_stmt(o: Option<Box<Stmt>>) -> Option<Box<StmtV>> {
    match o {
        Some(b) => Some(Box::new((*b).view())),
        None => None,
    }
}

/// The view of a list of else-if clauses.
pub open spec fn view_clauses(s: Seq<(Expr, Vec<Stmt>)>) -> Seq<(ExprV, Seq<StmtV>)>
    decreases s,
{
    if s.len() == 0 {
        Seq::empty()
    } else {
        seq![(s[0].0.view(), view_stmts(s[0].1@))] + view_clauses(s.drop_first())
    }
}

pub proof fn lemma_view_clauses(s: Seq<(Expr, Vec<Stmt>)>)
    ensures
        view_clauses(s).len() == s.len(),
        forall|i: int|
            0 <= i < s.len() ==> view_clauses(s)[i] == (s[i].0.view(), view_stmts(s[i].1@)),
    decreases s,
{
    if s.len() > 0 {
        lemma_view_clauses(s.drop_first());
    }
}

/// Builds the nested else-if conditionals from parsed clauses, attaching
/// `tail` (the final `else` body, if any) to the innermost one.
fn build_elif_exec(chain: Vec<(Expr, Vec<Stmt>)>, tail: Option<Box<Stmt>>) -> (r: Option<
    Box<Stmt>,
>)
    ensures
        view_opt_stmt(r) == build_elif_chain(view_clauses(chain@), view_opt_stmt(tail)),
    decreases chain@.len(),
{
    proof {
        lemma_view_clauses(chain@);
    }
    if chain.is_empty() {
        tail
    } else {
        let ghost whole = chain@;
        let mut chain = chain;
        let (c, body) = chain.remove(0);
        proof {
            assert(chain@ =~= whole.drop_first());
            lemma_view_clauses(chain@);
            assert(view_clauses(whole).drop_first() =~= view_clauses(chain@));
        }
        let rest = build_elif_exec(chain, tail);
        proof {
            reveal_with_fuel(Stmt::view, 3);
        }
        Some(
            Box::new(
                Stmt::IfStmt {
                    condition: c,
                    then_branch: Box::new(Stmt::Block(body)),
                    else_branch: rest,
                },
            ),
        )
    }
}

/// The first token of a primary expression, with its payload taken out.
enum Head {
    Num(i64),
    Flo(u64),
    Boo(bool),
    Txt(String),
    Idn(String),
    RangeKw,
    Paren,
    Other,
    IsEof,
}

/// The parser over a token list, with a cursor for the next token.
pub struct Parser {
    pub tokens: Vec<Token>,
    pub current: usize,
}

impl Parser {
    /// The token views the specification functions run on.
    pub open spec fn tv(self) -> Seq<TokenV> {
        view_tokens(self.tokens@)
    }

    /// The cursor stays within the token list.
    pub open spec fn wf(self) -> bool {
        self.current <= self.tokens@.len()
    }

    /// A parser positioned at the first token.
    pub fn new(tokens: Vec<Token>) -> (p: Parser)
        ensures
            p.tokens == tokens,
            p.current == 0,
    {
        Parser { tokens, current: 0 }
    }

    /// The token under the cursor, viewed; end-of-input beyond the end.
    pub open spec fn cur_tok(self) -> TokenV {
        tok(self.tv(), self.current as int)
    }

    proof fn tv_facts(self)
        ensures
            self.tv().len() == self.tokens@.len(),
            forall|i: int| 0 <= i < self.tokens@.len() ==> self.tv()[i] == self.tokens@[i].view(),
    {
        crate::token::lemma_view_tokens(self.tokens@);
    }

    /// Whether the cursor has reached the end-of-input token.
    fn at_end(&self) -> (r: bool)
        requires
            self.wf(),
        ensures
            r == (self.cur_tok() is EOF),
    {
        proof {
            self.tv_facts();
        }
        if self.current >= self.tokens.len() {
            true
        } else {
            match &self.tokens[self.current] {
                Token::EOF => true,
                _ => false,
            }
        }
    }

    /// Moves past the token under the cursor; the end-of-input token is
    /// never consumed.
    fn bump(&mut self)
        requires
            old(self).wf(),
        ensures
            final(self).tokens == old(self).tokens,
            final(self).wf(),
            final(self).current as int == spec_bump(old(self).tv(), old(self).current as int),
    {
        proof {
            self.tv_facts();
        }
        if self.current < self.tokens.len() {
            match &self.tokens[self.current] {
                Token::EOF => {},
                _ => {
                    self.current = self.current + 1;
                },
            }
        }
    }

    /// Whether the token under the cursor matches `k` in kind; the
    /// end-of-input position matches nothing.
    fn check(&self, k: &Token) -> (r: bool)
        requires
            self.wf(),
        ensures
            r == (!(self.cur_tok() is EOF) && kind_eq(self.cur_tok(), k@)),
    {
        proof {
            self.tv_facts();
        }
        if self.current >= self.tokens.len() {
            false
        } else {
            match &self.tokens[self.current] {
                Token::EOF => false,
                t => token_kind_eq(t, k),
            }
        }
    }

    /// Consumes the token under the cursor where it matches `k` in kind.
    fn match_token(&mut self, k: &Token) -> (r: bool)
        requires
            old(self).wf(),
        ensures
            final(self).tokens == old(self).tokens,
            final(self).wf(),
            r == (!(old(self).cur_tok() is EOF) && kind_eq(old(self).cur_tok(), k@)),
            final(self).current as int == (if r {
                old(self).current + 1
            } else {
                old(self).current as int
            }),
    {
        if self.check(k) {
            self.bump();
            true
        } else {
            false
        }
    }

    /// Consumes an identifier and hands its text back, or consumes the
    /// offending token and hands back `None`.
    fn take_ident(&mut self) -> (r: Option<String>)
        requires
            old(self).wf(),
        ensures
            final(self).tokens == old(self).tokens,
            final(self).wf(),
            old(self).current <= final(self).current,
            ({
                let (nm, p) = spec_take_ident(old(self).tv(), old(self).current as int);
                final(self).current as int == p && match r {
                    Some(s) => nm == Some(s@),
                    None => nm is None,
                }
            }),
    {
        proof {
            self.tv_facts();
        }
        if self.current >= self.tokens.len() {
            return None;
        }
        let r = match &self.tokens[self.current] {
            Token::Identifier(s) => Some(s.clone()),
            _ => None,
        };
        self.bump();
        r
    }

    /// The operator of precedence level `level` under the cursor, if any.
    fn level_op_here(&self, level: u8) -> (r: Option<BinOp>)
        requires
            self.wf(),
        ensures
            r == level_op(level as int, self.cur_tok()),
    {
        proof {
            self.tv_facts();
        }
        if self.current >= self.tokens.len() {
            return None;
        }
        match &self.tokens[self.current] {
            Token::EQ => if level == 0 {
                Some(BinOp::EQ)
            } else {
                None
            },
            Token::NE => if level == 0 {
                Some(BinOp::NE)
            } else {
                None
            },
            Token::GT => if level == 1 {
                Some(BinOp::GT)
            } else {
                None
            },
            Token::LT => if level == 1 {
                Some(BinOp::LT)
            } else {
                None
            },
            Token::GE => if level == 1 {
                Some(BinOp::GE)
            } else {
                None
            },
            Token::LE => if level == 1 {
                Some(BinOp::LE)
            } else {
                None
            },
            Token::Plus => if level == 2 {
                Some(BinOp::Add)
            } else {
                None
            },
            Token::Minus => if level == 2 {
                Some(BinOp::Sub)
            } else {
                None
            },
            Token::Star => if level == 3 {
                Some(BinOp::Mul)
            } else {
                None
            },
            Token::Slash => if level == 3 {
                Some(BinOp::Div)
            } else {
                None
            },
            _ => None,
        }
    }

    /// Parses one expression.
    fn parse_expression(&mut self, fuel: u64) -> (r: Expr)
        requires
            old(self).wf(),
        ensures
            final(self).tokens == old(self).tokens,
            final(self).wf(),
            old(self).current <= final(self).current,
            r.view() == spec_parse_expression(old(self).tv(), old(self).current as int, fuel as nat).0,
            final(self).current as int == spec_parse_expression(
                old(self).tv(),
                old(self).current as int,
                fuel as nat,
            ).1,
        decreases fuel,
    {
        if fuel == 0 {
            Expr::Ident(String::from_str("error"))
        } else {
            self.parse_level(0, fuel - 1)
        }
    }

    /// Parses the operand chain of one precedence level.
    fn parse_level(&mut self, level: u8, fuel: u64) -> (r: Expr)
        requires
            old(self).wf(),
            level <= 3,
        ensures
            final(self).tokens == old(self).tokens,
            final(self).wf(),
            old(self).current <= final(self).current,
            r.view() == spec_parse_level(
                old(self).tv(),
                old(self).current as int,
                level as int,
                fuel as nat,
            ).0,
            final(self).current as int == spec_parse_level(
                old(self).tv(),
                old(self).current as int,
                level as int,
                fuel as nat,
            ).1,
        decreases fuel,
    {
        if fuel == 0 {
            Expr::Ident(String::from_str("error"))
        } else {
            let l = if level == 3 {
                self.parse_unary(fuel - 1)
            } else {
                self.parse_level(level + 1, fuel - 1)
            };
            self.parse_level_tail(level, l, fuel - 1)
        }
    }

    /// Folds operators of one level onto an already-parsed left operand.
    fn parse_level_tail(&mut self, level: u8, left: Expr, fuel: u64) -> (r: Expr)
        requires
            old(self).wf(),
            level <= 3,
        ensures
            final(self).tokens == old(self).tokens,
            final(self).wf(),
            old(self).current <= final(self).current,
            r.view() == spec_level_tail(
                old(self).tv(),
                old(self).current as int,
                level as int,
                left.view(),
                fuel as nat,
            ).0,
            final(self).current as int == spec_level_tail(
                old(self).tv(),
                old(self).current as int,
                level as int,
                left.view(),
                fuel as nat,
            ).1,
        decreases fuel,
    {
        if fuel == 0 {
            return left;
        }
        match self.level_op_here(level) {
            Some(op) => {
                let n = self.tokens.len();
                proof {
                    self.tv_facts();
                    assert(self.current < n);
                }
                self.current = self.current + 1;
                let right = if level == 3 {
                    self.parse_unary(fuel - 1)
                } else {
                    self.parse_level(level + 1, fuel - 1)
                };
                let nl = Expr::Binary { left: Box::new(left), op, right: Box::new(right) };
                self.parse_level_tail(level, nl, fuel - 1)
            },
            None => left,
        }
    }

    /// Parses a unary expression: any run of leading minus signs.
    fn parse_unary(&mut self, fuel: u64) -> (r: Expr)
        requires
            old(self).wf(),
        ensures
            final(self).tokens == old(self).tokens,
            final(self).wf(),
            old(self).current <= final(self).current,
            r.view() == spec_parse_unary(old(self).tv(), old(self).current as int, fuel as nat).0,
            final(self).current as int == spec_parse_unary(
                old(self).tv(),
                old(self).current as int,
                fuel as nat,
            ).1,
        decreases fuel,
    {
        if fuel == 0 {
            Expr::Ident(String::from_str("error"))
        } else if self.check(&Token::Minus) {
            self.bump();
            let e = self.parse_unary(fuel - 1);
            Expr::Unary { op: UnOp::Neg, expr: Box::new(e) }
        } else {
            proof {
                self.tv_facts();
            }
            self.parse_call(fuel - 1)
        }
    }

    /// Parses a primary expression followed by any number of argument
    /// lists.
    fn parse_call(&mut self, fuel: u64) -> (r: Expr)
        requires
            old(self).wf(),
        ensures
            final(self).tokens == old(self).tokens,
            final(self).wf(),
            old(self).current <= final(self).current,
            r.view() == spec_parse_call(old(self).tv(), old(self).current as int, fuel as nat).0,
            final(self).current as int == spec_parse_call(
                old(self).tv(),
                old(self).current as int,
                fuel as nat,
            ).1,
        decreases fuel,
    {
        if fuel == 0 {
            Expr::Ident(String::from_str("error"))
        } else {
            let e = self.parse_primary(fuel - 1);
            self.parse_call_tail(e, fuel - 1)
        }
    }

    /// Folds argument lists onto an already-parsed callee.
    fn parse_call_tail(&mut self, callee: Expr, fuel: u64) -> (r: Expr)
        requires
            old(self).wf(),
        ensures
            final(self).tokens == old(self).tokens,
            final(self).wf(),
            old(self).current <= final(self).current,
            r.view() == spec_call_tail(
                old(self).tv(),
                old(self).current as int,
                callee.view(),
                fuel as nat,
            ).0,
            final(self).current as int == spec_call_tail(
                old(self).tv(),
                old(self).current as int,
                callee.view(),
                fuel as nat,
            ).1,
        decreases fuel,
    {
        if fuel == 0 {
            return callee;
        }
        if self.check(&Token::Lparen) {
            self.bump();
            let args: Vec<Expr> = if self.check(&Token::Rparen) {
                Vec::new()
            } else {
                self.parse_args(fuel - 1)
            };
            proof {
                crate::ast::lemma_view_exprs(args@);
            }
            if self.check(&Token::Rparen) {
                self.bump();
                let call = Expr::FunctionCall { callee: Box::new(callee), arguments: args };
                self.parse_call_tail(call, fuel - 1)
            } else {
                callee
            }
        } else {
            callee
        }
    }

    /// Parses a comma-separated argument list of at least one expression.
    fn parse_args(&mut self, fuel: u64) -> (r: Vec<Expr>)
        requires
            old(self).wf(),
        ensures
            final(self).tokens == old(self).tokens,
            final(self).wf(),
            old(self).current <= final(self).current,
            view_exprs(r@) == spec_parse_args(old(self).tv(), old(self).current as int, fuel as nat).0,
            final(self).current as int == spec_parse_args(
                old(self).tv(),
                old(self).current as int,
                fuel as nat,
            ).1,
        decreases fuel,
    {
        if fuel == 0 {
            let r: Vec<Expr> = Vec::new();
            proof {
                crate::ast::lemma_view_exprs(r@);
            }
            return r;
        }
        let e = self.parse_expression(fuel - 1);
        if self.check(&Token::Comma) {
            self.bump();
            let mut rest = self.parse_args(fuel - 1);
            let ghost rest_snap = rest@;
            rest.insert(0, e);
            proof {
                crate::ast::lemma_view_exprs(rest@);
                crate::ast::lemma_view_exprs(rest_snap);
                assert(view_exprs(rest@) =~= spec_parse_args(
                    old(self).tv(),
                    old(self).current as int,
                    fuel as nat,
                ).0);
            }
            rest
        } else {
            let mut r: Vec<Expr> = Vec::new();
            r.push(e);
            proof {
                crate::ast::lemma_view_exprs(r@);
                assert(view_exprs(r@) =~= spec_parse_args(
                    old(self).tv(),
                    old(self).current as int,
                    fuel as nat,
                ).0);
            }
            r
        }
    }

    /// Parses a primary expression.
    fn parse_primary(&mut self, fuel: u64) -> (r: Expr)
        requires
            old(self).wf(),
        ensures
            final(self).tokens == old(self).tokens,
            final(self).wf(),
            old(self).current <= final(self).current,
            r.view() == spec_parse_primary(old(self).tv(), old(self).current as int, fuel as nat).0,
            final(self).current as int == spec_parse_primary(
                old(self).tv(),
                old(self).current as int,
                fuel as nat,
            ).1,
        decreases fuel,
    {
        proof {
            self.tv_facts();
        }
        if fuel == 0 {
            return Expr::Ident(String::from_str("error"));
        }
        if self.current >= self.tokens.len() {
            return Expr::Ident(String::from_str("error"));
        }
        let head = match &self.tokens[self.current] {
            Token::Number(n) => Head::Num(*n),
            Token::Floating(b) => Head::Flo(*b),
            Token::Boolean(b) => Head::Boo(*b),
            Token::Str(s) => Head::Txt(s.clone()),
            Token::Identifier(s) => Head::Idn(s.clone()),
            Token::Range => Head::RangeKw,
            Token::Lparen => Head::Paren,
            Token::EOF => Head::IsEof,
            _ => Head::Other,
        };
        match head {
            Head::Num(n) => {
                self.bump();
                if self.check(&Token::Range) || self.check(&Token::Dot) {
                    self.parse_range_from_start(Expr::Number(n), fuel - 1)
                } else {
                    Expr::Number(n)
                }
            },
            Head::Flo(b) => {
                self.bump();
                if self.check(&Token::Range) || self.check(&Token::Dot) {
                    self.parse_range_from_start(Expr::Floating(b), fuel - 1)
                } else {
                    Expr::Floating(b)
                }
            },
            Head::Boo(b) => {
                self.bump();
                Expr::Boolean(b)
            },
            Head::Txt(s) => {
                self.bump();
                Expr::Str(s)
            },
            Head::Idn(s) => {
                self.bump();
                if self.check(&Token::Range) || self.check(&Token::Dot) {
                    self.parse_range_from_start(Expr::Ident(s), fuel - 1)
                } else {
                    Expr::Ident(s)
                }
            },
            Head::RangeKw => {
                self.bump();
                if self.match_token(&Token::Lparen) {
                    let start = self.parse_expression(fuel - 1);
                    if self.match_token(&Token::Comma) {
                        let end = self.parse_expression(fuel - 1);
                        if self.match_token(&Token::Rparen) {
                            Expr::Range { start: Box::new(start), end: Box::new(end) }
                        } else {
                            Expr::Ident(String::from_str("error"))
                        }
                    } else {
                        Expr::Ident(String::from_str("error"))
                    }
                } else {
                    Expr::Ident(String::from_str("range"))
                }
            },
            Head::Paren => {
                self.bump();
                let e = self.parse_expression(fuel - 1);
                if self.match_token(&Token::Rparen) {
                    Expr::Grouping(Box::new(e))
                } else {
                    e
                }
            },
            Head::IsEof => Expr::Ident(String::from_str("error")),
            Head::Other => {
                self.bump();
                Expr::Ident(String::from_str("error"))
            },
        }
    }

    /// Parses the end of a range whose start is already parsed.
    fn parse_range_from_start(&mut self, start: Expr, fuel: u64) -> (r: Expr)
        requires
            old(self).wf(),
        ensures
            final(self).tokens == old(self).tokens,
            final(self).wf(),
            old(self).current <= final(self).current,
            r.view() == spec_parse_range_from_start(
                old(self).tv(),
                old(self).current as int,
                start.view(),
                fuel as nat,
            ).0,
            final(self).current as int == spec_parse_range_from_start(
                old(self).tv(),
                old(self).current as int,
                start.view(),
                fuel as nat,
            ).1,
        decreases fuel,
    {
        if fuel == 0 {
            return start;
        }
        if self.check(&Token::Range) {
            self.bump();
            proof {
                self.tv_facts();
            }
            let end = self.parse_expression(fuel - 1);
            Expr::Range { start: Box::new(start), end: Box::new(end) }
        } else if self.check(&Token::Dot) {
            self.bump();
            if self.check(&Token::Dot) {
                self.bump();
                let end = self.parse_expression(fuel - 1);
                Expr::Range { start: Box::new(start), end: Box::new(end) }
            } else {
                start
            }
        } else {
            start
        }
    }

    /// Whether the token under the cursor ends a statement list in `ctx`.
    fn at_follow(&self, ctx: FollowCtx) -> (r: bool)
        requires
            self.wf(),
        ensures
            r == in_follow(ctx, self.cur_tok()),
    {
        proof {
            self.tv_facts();
        }
        if self.current >= self.tokens.len() {
            return true;
        }
        match &self.tokens[self.current] {
            Token::EOF => true,
            Token::Branch => true,
            Token::Fallback => true,
            Token::For => true,
            Token::Parallel => true,
            Token::Fn => true,
            Token::GPU => true,
            Token::Let => true,
            Token::Then => ctx == FollowCtx::IfBody,
            Token::Else => ctx == FollowCtx::IfBody || ctx == FollowCtx::ThenBody,
            Token::If => ctx == FollowCtx::BlockBody,
            _ => false,
        }
    }

    /// Whether the token under the cursor may start an expression.
    fn at_expression_start(&self) -> (r: bool)
        requires
            self.wf(),
        ensures
            r == is_expression_start(self.cur_tok()),
    {
        proof {
            self.tv_facts();
        }
        if self.current >= self.tokens.len() {
            return false;
        }
        match &self.tokens[self.current] {
            Token::Number(_) => true,
            Token::Floating(_) => true,
            Token::Boolean(_) => true,
            Token::Str(_) => true,
            Token::Identifier(_) => true,
            Token::Lparen => true,
            Token::Minus => true,
            Token::Range => true,
            _ => false,
        }
    }

    /// Parses one statement, or hands back `None` where none could be
    /// formed.
    #[verifier::rlimit(100)]
    #[verifier::spinoff_prover]
    fn parse_statement(&mut self, fuel: u64) -> (r: Option<Stmt>)
        requires
            old(self).wf(),
        ensures
            final(self).tokens == old(self).tokens,
            final(self).wf(),
            old(self).current <= final(self).current,
            ({
                let (o, p) = spec_parse_statement(old(self).tv(), old(self).current as int, fuel as nat);
                final(self).current as int == p && match r {
                    Some(st) => o == Some(st.view()),
                    None => o is None,
                }
            }),
        decreases fuel, 3int,
    {
        proof {
            self.tv_facts();
        }
        if fuel == 0 {
            return None;
        }
        if self.current >= self.tokens.len() {
            return None;
        }
        match &self.tokens[self.current] {
            Token::Let => self.parse_let(fuel - 1),
            Token::If => self.parse_if(fuel - 1),
            Token::Branch => self.parse_branch(fuel - 1),
            Token::Fallback => self.parse_fallback(fuel - 1),
            Token::For => self.parse_loop(false, fuel - 1),
            Token::Parallel => self.parse_loop(true, fuel - 1),
            Token::Fn => self.parse_function(false, fuel - 1),
            Token::GPU => {
                self.bump();
                if self.check(&Token::Fn) {
                    self.parse_function(true, fuel - 1)
                } else {
                    None
                }
            },
            Token::Return => {
                self.bump();
                let e = self.parse_expression(fuel - 1);
                Some(Stmt::Return(e))
            },
            _ => {
                if self.at_expression_start() {
                    let e = self.parse_expression(fuel - 1);
                    Some(Stmt::ExprStmt(e))
                } else {
                    None
                }
            },
        }
    }

    /// Parses a `let` binding.
    fn parse_let(&mut self, fuel: u64) -> (r: Option<Stmt>)
        requires
            old(self).wf(),
        ensures
            final(self).tokens == old(self).tokens,
            final(self).wf(),
            old(self).current <= final(self).current,
            ({
                let (o, p) = spec_parse_let(old(self).tv(), old(self).current as int, fuel as nat);
                final(self).current as int == p && match r {
                    Some(st) => o == Some(st.view()),
                    None => o is None,
                }
            }),
        decreases fuel, 2int,
    {
        self.bump();
        let mutable = self.match_token(&Token::Mut);
        let name = match self.take_ident() {
            Some(n) => n,
            None => {
                return None;
            },
        };
        let declared_type = if self.match_token(&Token::Colon) {
            self.take_ident()
        } else {
            None
        };
        if !self.match_token(&Token::Equals) {
            return None;
        }
        let value = self.parse_expression(fuel);
        Some(Stmt::Let { name, declared_type, value, mutable })
    }

    /// Parses a statement list in context `ctx`.
    fn parse_stmt_list(&mut self, ctx: FollowCtx, fuel: u64) -> (r: Vec<Stmt>)
        requires
            old(self).wf(),
        ensures
            final(self).tokens == old(self).tokens,
            final(self).wf(),
            old(self).current <= final(self).current,
            view_stmts(r@) == spec_parse_stmt_list(
                old(self).tv(),
                old(self).current as int,
                ctx,
                fuel as nat,
            ).0,
            final(self).current as int == spec_parse_stmt_list(
                old(self).tv(),
                old(self).current as int,
                ctx,
                fuel as nat,
            ).1,
        decreases fuel, 0int,
    {
        if fuel == 0 {
            let r: Vec<Stmt> = Vec::new();
            proof {
                crate::ast::lemma_view_stmts(r@);
            }
            return r;
        }
        if self.at_follow(ctx) {
            let r: Vec<Stmt> = Vec::new();
            proof {
                crate::ast::lemma_view_stmts(r@);
            }
            return r;
        }
        let before = self.current;
        match self.parse_statement(fuel - 1) {
            Some(st) => {
                if before < self.current {
                    let mut rest = self.parse_stmt_list(ctx, fuel - 1);
                    let ghost rest_snap = rest@;
                    rest.insert(0, st);
                    proof {
                        crate::ast::lemma_view_stmts(rest@);
                        crate::ast::lemma_view_stmts(rest_snap);
                        assert(view_stmts(rest@) =~= spec_parse_stmt_list(
                            old(self).tv(),
                            old(self).current as int,
                            ctx,
                            fuel as nat,
                        ).0);
                    }
                    rest
                } else {
                    let mut r: Vec<Stmt> = Vec::new();
                    r.push(st);
                    proof {
                        crate::ast::lemma_view_stmts(r@);
                        assert(view_stmts(r@) =~= spec_parse_stmt_list(
                            old(self).tv(),
                            old(self).current as int,
                            ctx,
                            fuel as nat,
                        ).0);
                    }
                    r
                }
            },
            None => {
                let r: Vec<Stmt> = Vec::new();
                proof {
                    crate::ast::lemma_view_stmts(r@);
                }
                r
            },
        }
    }

    /// Parses the `then` (else-if) clauses following an `if` body.
    fn parse_then_chain(&mut self, fuel: u64) -> (r: Option<Vec<(Expr, Vec<Stmt>)>>)
        requires
            old(self).wf(),
        ensures
            final(self).tokens == old(self).tokens,
            final(self).wf(),
            old(self).current <= final(self).current,
            ({
                let (o, p) = spec_parse_then_chain(
                    old(self).tv(),
                    old(self).current as int,
                    fuel as nat,
                );
                final(self).current as int == p && match r {
                    Some(ch) => o == Some(view_clauses(ch@)),
                    None => o is None,
                }
            }),
        decreases fuel, 1int,
    {
        if !self.check(&Token::Then) {
            let r: Vec<(Expr, Vec<Stmt>)> = Vec::new();
            proof {
                lemma_view_clauses(r@);
                assert(view_clauses(r@) =~= Seq::<(ExprV, Seq<StmtV>)>::empty());
            }
            return Some(r);
        }
        if fuel == 0 {
            return None;
        }
        self.bump();
        let cond = self.parse_expression(fuel);
        if !self.match_token(&Token::Colon) {
            return None;
        }
        let body = self.parse_stmt_list(FollowCtx::ThenBody, fuel);
        match self.parse_then_chain(fuel - 1) {
            Some(rest) => {
                let ghost snap = rest@;
                let mut rest = rest;
                rest.insert(0, (cond, body));
                proof {
                    lemma_view_clauses(rest@);
                    lemma_view_clauses(snap);
                    assert(view_clauses(rest@) =~= spec_parse_then_chain(
                        old(self).tv(),
                        old(self).current as int,
                        fuel as nat,
                    ).0->Some_0);
                }
                Some(rest)
            },
            None => None,
        }
    }

    /// Parses an `if` statement: condition, colon, then-body, zero or more
    /// `then` clauses, and an optional final `else` clause.
    #[verifier::rlimit(100)]
    #[verifier::spinoff_prover]
    fn parse_if(&mut self, fuel: u64) -> (r: Option<Stmt>)
        requires
            old(self).wf(),
        ensures
            final(self).tokens == old(self).tokens,
            final(self).wf(),
            old(self).current <= final(self).current,
            ({
                let (o, p) = spec_parse_if(old(self).tv(), old(self).current as int, fuel as nat);
                final(self).current as int == p && match r {
                    Some(st) => o == Some(st.view()),
                    None => o is None,
                }
            }),
        decreases fuel, 2int,
    {
        self.bump();
        let cond = self.parse_expression(fuel);
        if !self.match_token(&Token::Colon) {
            return None;
        }
        let then_stmts = self.parse_stmt_list(FollowCtx::IfBody, fuel);
        let chain = match self.parse_then_chain(fuel) {
            Some(c) => c,
            None => {
                return None;
            },
        };
        proof {
            reveal_with_fuel(Stmt::view, 5);
        }
        if self.check(&Token::Else) {
            self.bump();
            if !self.match_token(&Token::Colon) {
                return None;
            }
            let l3 = self.parse_stmt_list(FollowCtx::ElseBody, fuel);
            let else_branch = build_elif_exec(chain, Some(Box::new(Stmt::Block(l3))));
            Some(
                Stmt::IfStmt {
                    condition: cond,
                    then_branch: Box::new(Stmt::Block(then_stmts)),
                    else_branch,
                },
            )
        } else {
            let else_branch = build_elif_exec(chain, None);
            Some(
                Stmt::IfStmt {
                    condition: cond,
                    then_branch: Box::new(Stmt::Block(then_stmts)),
                    else_branch,
                },
            )
        }
    }

    /// Parses a `branch` statement.
    fn parse_branch(&mut self, fuel: u64) -> (r: Option<Stmt>)
        requires
            old(self).wf(),
        ensures
            final(self).tokens == old(self).tokens,
            final(self).wf(),
            old(self).current <= final(self).current,
            ({
                let (o, p) = spec_parse_branch(old(self).tv(), old(self).current as int, fuel as nat);
                final(self).current as int == p && match r {
                    Some(st) => o == Some(st.view()),
                    None => o is None,
                }
            }),
        decreases fuel, 2int,
    {
        let ghost t = old(self).tv();
        let ghost pos0 = old(self).current as int;
        self.bump();
        proof {
            assert(self.current as int == spec_bump(t, pos0));
        }
        let cond = self.parse_expression(fuel);
        proof {
            assert(cond.view() == spec_parse_expression(t, spec_bump(t, pos0), fuel as nat).0);
            assert(self.current as int == spec_parse_expression(
                t,
                spec_bump(t, pos0),
                fuel as nat,
            ).1);
        }
        let ghost p1 = self.current as int;
        if !self.match_token(&Token::FatArrow) {
            proof {
                assert(!(tok(t, p1) is FatArrow));
                assert(spec_parse_branch(t, pos0, fuel as nat).1 == p1);
                assert(spec_parse_branch(t, pos0, fuel as nat).0 is None);
            }
            return None;
        }
        proof {
            assert(tok(t, p1) is FatArrow);
            assert(self.current as int == spec_bump(t, p1));
        }
        let ghost p2 = self.current as int;
        let body = if self.at_expression_start() {
            let e = self.parse_expression(fuel);
            proof {
                assert(e.view() == spec_parse_expression(t, p2, fuel as nat).0);
                assert(self.current as int == spec_parse_expression(t, p2, fuel as nat).1);
            }
            Box::new(Stmt::ExprStmt(e))
        } else {
            let empty_block: Vec<Stmt> = Vec::new();
            proof {
                crate::ast::lemma_view_stmts(empty_block@);
                assert(!is_expression_start(tok(t, p2)));
                assert(self.current as int == p2);
            }
            Box::new(Stmt::Block(empty_block))
        };
        let st = Stmt::Branch { condition: cond, body };
        proof {
            reveal_with_fuel(Stmt::view, 3);
        }
        Some(st)
    }

    /// Parses a `fallback` statement.
    fn parse_fallback(&mut self, fuel: u64) -> (r: Option<Stmt>)
        requires
            old(self).wf(),
        ensures
            final(self).tokens == old(self).tokens,
            final(self).wf(),
            old(self).current <= final(self).current,
            ({
                let (o, p) = spec_parse_fallback(
                    old(self).tv(),
                    old(self).current as int,
                    fuel as nat,
                );
                final(self).current as int == p && match r {
                    Some(st) => o == Some(st.view()),
                    None => o is None,
                }
            }),
        decreases fuel, 2int,
    {
        self.bump();
        if !self.match_token(&Token::FatArrow) {
            return None;
        }
        let body = if self.at_expression_start() {
            let e = self.parse_expression(fuel);
            Box::new(Stmt::ExprStmt(e))
        } else {
            let empty_block: Vec<Stmt> = Vec::new();
            proof {
                crate::ast::lemma_view_stmts(empty_block@);
            }
            Box::new(Stmt::Block(empty_block))
        };
        proof {
            reveal_with_fuel(Stmt::view, 3);
        }
        Some(Stmt::Fallback(body))
    }

    /// Parses a `for` or `parallel` loop.
    fn parse_loop(&mut self, parallel: bool, fuel: u64) -> (r: Option<Stmt>)
        requires
            old(self).wf(),
        ensures
            final(self).tokens == old(self).tokens,
            final(self).wf(),
            old(self).current <= final(self).current,
            ({
                let (o, p) = spec_parse_loop(
                    old(self).tv(),
                    old(self).current as int,
                    parallel,
                    fuel as nat,
                );
                final(self).current as int == p && match r {
                    Some(st) => o == Some(st.view()),
                    None => o is None,
                }
            }),
        decreases fuel, 2int,
    {
        self.bump();
        let var = match self.take_ident() {
            Some(v) => v,
            None => {
                return None;
            },
        };
        if !self.match_token(&Token::In) {
            return None;
        }
        let range = self.parse_expression(fuel);
        if !self.match_token(&Token::Colon) {
            return None;
        }
        let body = self.parse_stmt_list(FollowCtx::BlockBody, fuel);
        proof {
            reveal_with_fuel(Stmt::view, 3);
        }
        if parallel {
            Some(Stmt::Parallel { var, range, body: Box::new(Stmt::Block(body)) })
        } else {
            Some(Stmt::For { var, range, body: Box::new(Stmt::Block(body)) })
        }
    }

    /// Parses a parameter list.
    fn parse_params(&mut self, fuel: u64) -> (r: Vec<(String, Option<String>)>)
        requires
            old(self).wf(),
        ensures
            final(self).tokens == old(self).tokens,
            final(self).wf(),
            old(self).current <= final(self).current,
            view_params(r@) == spec_parse_params(
                old(self).tv(),
                old(self).current as int,
                fuel as nat,
            ).0,
            final(self).current as int == spec_parse_params(
                old(self).tv(),
                old(self).current as int,
                fuel as nat,
            ).1,
        decreases fuel,
    {
        if fuel == 0 {
            let r: Vec<(String, Option<String>)> = Vec::new();
            proof {
                crate::ast::lemma_view_params(r@);
            }
            return r;
        }
        let before = self.current;
        let name = match self.take_ident() {
            Some(n) => n,
            None => {
                self.current = before;
                let r: Vec<(String, Option<String>)> = Vec::new();
                proof {
                    crate::ast::lemma_view_params(r@);
                }
                return r;
            },
        };
        let ty = if self.match_token(&Token::Colon) {
            self.take_ident()
        } else {
            None
        };
        if self.check(&Token::Comma) {
            self.bump();
            let mut rest = self.parse_params(fuel - 1);
            let ghost rest_snap = rest@;
            rest.insert(0, (name, ty));
            proof {
                crate::ast::lemma_view_params(rest@);
                crate::ast::lemma_view_params(rest_snap);
                assert(view_params(rest@) =~= spec_parse_params(
                    old(self).tv(),
                    old(self).current as int,
                    fuel as nat,
                ).0);
            }
            rest
        } else {
            let mut r: Vec<(String, Option<String>)> = Vec::new();
            r.push((name, ty));
            proof {
                crate::ast::lemma_view_params(r@);
                assert(view_params(r@) =~= spec_parse_params(
                    old(self).tv(),
                    old(self).current as int,
                    fuel as nat,
                ).0);
            }
            r
        }
    }

    /// Parses a function definition; `gpu` marks one that carried the
    /// accelerated-function marker.
    fn parse_function(&mut self, gpu: bool, fuel: u64) -> (r: Option<Stmt>)
        requires
            old(self).wf(),
        ensures
            final(self).tokens == old(self).tokens,
            final(self).wf(),
            old(self).current <= final(self).current,
            ({
                let (o, p) = spec_parse_function(
                    old(self).tv(),
                    old(self).current as int,
                    gpu,
                    fuel as nat,
                );
                final(self).current as int == p && match r {
                    Some(st) => o == Some(st.view()),
                    None => o is None,
                }
            }),
        decreases fuel, 2int,
    {
        self.bump();
        let name = match self.take_ident() {
            Some(n) => n,
            None => {
                return None;
            },
        };
        if !self.check(&Token::Lparen) {
            return None;
        }
        self.bump();
        let params = if self.check(&Token::Rparen) {
            let r: Vec<(String, Option<String>)> = Vec::new();
            proof {
                crate::ast::lemma_view_params(r@);
            }
            r
        } else {
            self.parse_params(fuel)
        };
        if !self.match_token(&Token::Rparen) {
            return None;
        }
        let return_type = if self.match_token(&Token::Arrow) {
            self.take_ident()
        } else {
            None
        };
        if !self.match_token(&Token::Colon) {
            return None;
        }
        let body = self.parse_stmt_list(FollowCtx::BlockBody, fuel);
        proof {
            reveal_with_fuel(Stmt::view, 3);
        }
        Some(
            Stmt::FunctionDef {
                name,
                params,
                return_type,
                body: Box::new(Stmt::Block(body)),
                gpu,
            },
        )
    }

    /// The fuel supplied for the next statement: ample for the tokens that
    /// remain.
    fn stmt_fuel_here(&self) -> (f: u64)
        requires
            self.wf(),
        ensures
            f as nat == stmt_fuel(self.tv().len() as int, self.current as int),
    {
        proof {
            self.tv_facts();
        }
        let rem = self.tokens.len() - self.current;
        let v: u128 = 16u128 * (rem as u128) + 16;
        if v > u64::MAX as u128 {
            u64::MAX
        } else {
            v as u64
        }
    }

    /// Parses the whole program: statements one after another, discarding a
    /// token and retrying where none can be formed.
    pub fn parse(&mut self) -> (r: Vec<Stmt>)
        requires
            old(self).wf(),
        ensures
            final(self).tokens == old(self).tokens,
            final(self).wf(),
            view_stmts(r@) == spec_parse_program(old(self).tv(), old(self).current as int),
    {
        let mut stmts: Vec<Stmt> = Vec::new();
        proof {
            crate::ast::lemma_view_stmts(stmts@);
        }
        loop
            invariant_except_break
                view_stmts(stmts@) + spec_parse_program(self.tv(), self.current as int)
                    == spec_parse_program(old(self).tv(), old(self).current as int),
            invariant
                self.wf(),
                self.tokens == old(self).tokens,
                old(self).current <= self.current,
            ensures
                self.wf(),
                self.tokens == old(self).tokens,
                view_stmts(stmts@) == spec_parse_program(
                    old(self).tv(),
                    old(self).current as int,
                ),
            decreases self.tokens@.len() - self.current,
        {
            let ghost t = self.tv();
            let ghost pos_i = self.current as int;
            if self.at_end() {
                proof {
                    assert(spec_parse_program(t, pos_i) =~= Seq::<StmtV>::empty());
                    assert(view_stmts(stmts@) + spec_parse_program(t, pos_i) =~= view_stmts(
                        stmts@,
                    ));
                }
                break ;
            }
            let fuel = self.stmt_fuel_here();
            let before = self.current;
            let ghost pre_views = view_stmts(stmts@);
            match self.parse_statement(fuel) {
                Some(st) => {
                    let ghost stv = st.view();
                    let ghost snap = stmts@;
                    stmts.push(st);
                    proof {
                        crate::ast::lemma_view_stmts(stmts@);
                        crate::ast::lemma_view_stmts(snap);
                        assert(view_stmts(stmts@) =~= pre_views + seq![stv]);
                    }
                    if self.current == before {
                        proof {
                            assert(spec_parse_program(t, pos_i) =~= seq![stv]);
                            assert(view_stmts(stmts@) =~= pre_views + spec_parse_program(
                                t,
                                pos_i,
                            ));
                        }
                        break ;
                    }
                    proof {
                        if self.current as int >= t.len() {
                            assert(spec_parse_program(t, self.current as int)
                                =~= Seq::<StmtV>::empty());
                            assert(spec_parse_program(t, pos_i) =~= seq![stv]);
                        } else {
                            assert(spec_parse_program(t, pos_i) =~= seq![stv]
                                + spec_parse_program(t, self.current as int));
                        }
                        assert(view_stmts(stmts@) + spec_parse_program(t, self.current as int)
                            =~= pre_views + spec_parse_program(t, pos_i));
                    }
                },
                None => {
                    self.bump();
                    proof {
                        if self.current as int >= t.len() {
                            assert(spec_parse_program(t, self.current as int)
                                =~= Seq::<StmtV>::empty());
                            assert(spec_parse_program(t, pos_i) =~= Seq::<StmtV>::empty());
                        } else {
                            assert(spec_parse_program(t, pos_i) =~= spec_parse_program(
                                t,
                                self.current as int,
                            ));
                        }
                    }
                },
            }
        }
        proof {
            assert(view_stmts(stmts@) =~= spec_parse_program(
                old(self).tv(),
                old(self).current as int,
            ));
        }
        stmts
    }
}

} // verus!
