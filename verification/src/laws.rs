//! The language's stated laws, proved once and for all against the
//! specification interpreter.
use vstd::prelude::*;

use crate::ast::{BinOp, ExprV, StmtV};
use crate::float::is_zero_bits;
use crate::gpu::spec_gpu_parallel_ok;
use crate::interp::{
    StateV, spec_apply, spec_binop, spec_define, spec_eval_expr, spec_exec_stmt, spec_exec_stmts,
    spec_run_loop, spec_truthy, state_wf, find_entry,
};
use crate::lexer::{
    lemma_scan_digits_all, number_token, scan_digits, skip_trivia, skip_ws, spec_next_token,
    token_at,
};
use crate::run::spec_tokenize;
use crate::text::{dec_seq, lemma_dec_round_trip, lemma_dec_seq_digits};
use crate::token::TokenV;
use crate::value::{RuntimeResultV, ValueV, render_value};

verus! {

/// Addition, subtraction and multiplication of two integer values yield
/// exactly the mathematical integer result whenever that result fits in 64
/// bits, and the overflow error otherwise: no wraparound ever happens.
pub proof fn lemma_integer_arithmetic_exact(op: BinOp, a: int, b: int)
    requires
        op is Add || op is Sub || op is Mul,
        i64::MIN <= a <= i64::MAX,
        i64::MIN <= b <= i64::MAX,
    ensures
        ({
            let r = match op {
                BinOp::Add => a + b,
                BinOp::Sub => a - b,
                _ => a * b,
            };
            spec_binop(op, ValueV::Number(a), ValueV::Number(b)) == (if i64::MIN <= r
                <= i64::MAX {
                Ok::<ValueV, Seq<char>>(ValueV::Number(r))
            } else {
                Err::<ValueV, Seq<char>>("integer overflow"@)
            })
        }),
{
}

/// Division by the integer zero and by either floating zero yields an
/// error, never a value, whatever the dividend is.
pub proof fn lemma_division_by_zero(a: ValueV, f: u64)
    ensures
        spec_binop(BinOp::Div, a, ValueV::Number(0int)) == Err::<ValueV, Seq<char>>(
            "Division by zero (integer)"@,
        ),
        is_zero_bits(f) ==> spec_binop(BinOp::Div, a, ValueV::Floating(f)) == Err::<
            ValueV,
            Seq<char>,
        >("Division by zero (float)"@),
{
}

/// A `let` binding writes only into the current scope: the new binding is
/// what lookup now finds there, and every other scope is exactly as it was.
/// Together with the next lemma this is why block-scoped shadowing does not
/// leak: the block's binding lives in the block's own scope.
pub proof fn lemma_define_shadows(st: StateV, name: Seq<char>, v: ValueV)
    requires
        state_wf(st),
    ensures
        find_entry(spec_define(st, name, v).scopes[st.current].entries, name) == Some(v),
        forall|j: int|
            0 <= j < st.scopes.len() && j != st.current ==> spec_define(st, name, v).scopes[j]
                == st.scopes[j],
        spec_define(st, name, v).current == st.current,
        spec_define(st, name, v).scopes.len() == st.scopes.len(),
{
    let es = st.scopes[st.current].entries.push((name, v));
    assert(es.last() == (name, v));
}

/// Executing a block always restores the enclosing scope as current, on
/// every exit path: the block's own scope stops being current whether the
/// block ran to completion, produced a value, returned early or failed.
pub proof fn lemma_block_restores_scope(st: StateV, stmts: Seq<StmtV>, fuel: nat)
    requires
        fuel > 0,
    ensures
        spec_exec_stmt(st, StmtV::Block(stmts), fuel).0.current == st.current,
{
}

/// A return in progress stops a block at once: whatever statements follow
/// the returning one are never executed, and the return travels up as the
/// block's outcome.
pub proof fn lemma_return_stops_block(
    st: StateV,
    l: Seq<StmtV>,
    acc: RuntimeResultV,
    fuel: nat,
    v: ValueV,
)
    requires
        l.len() > 0,
        fuel > 0,
        spec_exec_stmt(st, l[0], (fuel - 1) as nat).1 == Ok::<RuntimeResultV, Seq<char>>(
            RuntimeResultV::Return(v),
        ),
    ensures
        spec_exec_stmts(st, l, acc, fuel) == (
            spec_exec_stmt(st, l[0], (fuel - 1) as nat).0,
            Ok::<RuntimeResultV, Seq<char>>(RuntimeResultV::Return(v)),
        ),
{
}

/// A function-call boundary catches a return in progress: applying a callee
/// never hands a return outward, so an early return inside a function stops
/// that function only, and its caller receives a plain value.
pub proof fn lemma_call_catches_return(st: StateV, cv: ValueV, args: Seq<ValueV>, fuel: nat)
    ensures
        !(spec_apply(st, cv, args, fuel).1 matches Ok(RuntimeResultV::Return(_))),
{
}

/// A failed accelerated attempt falls back to exactly the sequential path:
/// with the accelerated runtime unavailable to the loop's range, a
/// `parallel` loop executes precisely as the same `for` loop would — the
/// same final state, bindings included, and the same outcome.
pub proof fn lemma_accelerated_fallback_sequential(
    st: StateV,
    var: Seq<char>,
    range: ExprV,
    body: StmtV,
    fuel: nat,
)
    requires
        fuel > 0,
        ({
            let (st1, r) = spec_eval_expr(st, range, (fuel - 1) as nat);
            r matches Ok(RuntimeResultV::Value(ValueV::Range { start, end })) && *start is Number
                && *end is Number && !spec_gpu_parallel_ok(
                st1.gpu,
                (*start)->Number_0,
                (*end)->Number_0,
            )
        }),
    ensures
        spec_exec_stmt(
            st,
            StmtV::Parallel { var, range, body: Box::new(body) },
            fuel,
        ) == spec_exec_stmt(st, StmtV::For { var, range, body: Box::new(body) }, fuel),
{
    let (st1, r) = spec_eval_expr(st, range, (fuel - 1) as nat);
    match r {
        Ok(RuntimeResultV::Value(ValueV::Range { start, end })) => {
            let a = (*start)->Number_0;
            let b = (*end)->Number_0;
            if a >= b {
                assert(spec_run_loop(st1, var, a, b, body, (fuel - 1) as nat) == (
                    st1,
                    Ok::<RuntimeResultV, Seq<char>>(RuntimeResultV::Nothing),
                ));
            }
        },
        _ => {},
    }
}



/// Truthiness pins exactly which values are falsy: `false` and nil, and
/// nothing else — zero, the zero double and the empty string are all truthy,
/// as are functions and ranges.
pub proof fn lemma_truthiness(v: ValueV)
    ensures
        spec_truthy(v) == !(v == ValueV::Boolean(false) || v == ValueV::Nil),
{
}

/// A `branch` whose condition comes out falsy is skipped without error: the
/// body never runs, the state is exactly the state after the condition's
/// evaluation, and no value is produced.  Sibling `branch` statements are
/// independent statements of the enclosing sequence: nothing short-circuits
/// between them.
pub proof fn lemma_branch_skips(st: StateV, cond: ExprV, body: StmtV, fuel: nat)
    requires
        fuel > 0,
        ({
            let (st1, r) = spec_eval_expr(st, cond, (fuel - 1) as nat);
            r matches Ok(RuntimeResultV::Value(v)) && !spec_truthy(v)
        }),
    ensures
        spec_exec_stmt(st, StmtV::Branch { condition: cond, body: Box::new(body) }, fuel) == (
            spec_eval_expr(st, cond, (fuel - 1) as nat).0,
            Ok::<RuntimeResultV, Seq<char>>(RuntimeResultV::Nothing),
        ),
{
}

/// A `fallback` executes its body unconditionally: its outcome and final
/// state are exactly the body's.
pub proof fn lemma_fallback_unconditional(st: StateV, body: StmtV, fuel: nat)
    requires
        fuel > 0,
    ensures
        spec_exec_stmt(st, StmtV::Fallback(Box::new(body)), fuel) == spec_exec_stmt(
            st,
            body,
            (fuel - 1) as nat,
        ),
{
}

/// Re-tokenizing the rendered textual form of a non-negative integer value
/// yields exactly that integer literal again, and a re-parsed and
/// re-evaluated literal token yields the value back (negative values render
/// with a leading minus and re-enter through unary negation instead, and a
/// rendered string or whole-valued double re-tokenizes as another kind, so
/// those inputs stay outside this law).
pub proof fn lemma_integer_literal_round_trip(n: int)
    requires
        0 <= n <= i64::MAX,
    ensures
        spec_tokenize(render_value(ValueV::Number(n)), 0) =~= seq![TokenV::Number(n)],
{
    let text = dec_seq(n);
    lemma_dec_seq_digits(n);
    lemma_dec_round_trip(n);
    assert(render_value(ValueV::Number(n)) == text);
    assert(crate::text::is_digit(text[0]));
    assert(!crate::lexer::is_ws(text[0]));
    assert(skip_ws(text, 0) == 0);
    assert(skip_trivia(text, 0) == 0);
    lemma_scan_digits_all(text, 0);
    assert(text.subrange(0, text.len() as int) =~= text);
    assert(number_token(text, 0) == (TokenV::Number(n), text.len() as int));
    assert(token_at(text, 0) == (TokenV::Number(n), text.len() as int));
    assert(spec_next_token(text, 0) == (TokenV::Number(n), text.len() as int));
    let e = text.len() as int;
    assert(skip_ws(text, e) == e);
    assert(skip_trivia(text, e) == e);
    assert(token_at(text, e).0 is EOF);
    assert(spec_tokenize(text, e) =~= Seq::<TokenV>::empty());
    assert(spec_tokenize(text, 0) =~= seq![TokenV::Number(n)]);
}

/// Re-tokenizing the rendered form of a boolean value yields exactly that
/// boolean literal again.
pub proof fn lemma_boolean_literal_round_trip(b: bool)
    ensures
        spec_tokenize(render_value(ValueV::Boolean(b)), 0) =~= seq![TokenV::Boolean(b)],
{
    reveal_strlit("let");
    reveal_strlit("mut");
    reveal_strlit("if");
    reveal_strlit("then");
    reveal_strlit("else");
    reveal_strlit("for");
    reveal_strlit("in");
    reveal_strlit("range");
    reveal_strlit("fn");
    reveal_strlit("return");
    reveal_strlit("true");
    reveal_strlit("false");
    let text = render_value(ValueV::Boolean(b));
    assert(text.len() == if b { 4int } else { 5int });
    assert forall|k: int| 0 <= k < text.len() implies crate::lexer::is_ident_char(
        #[trigger] text[k],
    ) by {
    }
    assert(skip_ws(text, 0) == 0);
    assert(skip_trivia(text, 0) == 0);
    lemma_scan_ident_to_end(text, 0);
    assert(text.subrange(0, text.len() as int) =~= text);
    assert(crate::lexer::kw_token(text) == TokenV::Boolean(b));
    assert(token_at(text, 0) == (TokenV::Boolean(b), text.len() as int));
    let e = text.len() as int;
    assert(skip_ws(text, e) == e);
    assert(skip_trivia(text, e) == e);
    assert(spec_tokenize(text, e) =~= Seq::<TokenV>::empty());
    assert(spec_tokenize(text, 0) =~= seq![TokenV::Boolean(b)]);
}

/// An all-identifier-character text scans to its end.
proof fn lemma_scan_ident_to_end(s: Seq<char>, pos: int)
    requires
        0 <= pos <= s.len(),
        forall|k: int| pos <= k < s.len() ==> crate::lexer::is_ident_char(#[trigger] s[k]),
    ensures
        crate::lexer::scan_ident(s, pos) == s.len(),
    decreases s.len() - pos,
{
    if pos < s.len() {
        lemma_scan_ident_to_end(s, pos + 1);
    }
}

} // verus!
