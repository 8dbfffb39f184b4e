//! The evaluator: a tree-walking interpreter over a chain of lexical
//! scopes.
//!
//! Scopes live in an arena (`Interpreter::scopes`); each scope holds its
//! bindings and the index of its parent, and function values capture the
//! index of their defining scope, so closures keep their environment alive.
//! `spec_eval_expr` / `spec_exec_stmt` form the specification interpreter
//! over view-level values; the executable evaluator is proved to follow it
//! exactly.  Both carry a fuel that bounds nesting depth (not loop
//! iterations), so a program that recurses too deeply fails with an error
//! instead of never answering.
use vstd::prelude::*;

use crate::ast::{BinOp, Expr, ExprV, Stmt, StmtV, UnOp, view_exprs, view_stmts};
use crate::float::{
    float_add_bits, float_cmp_bits, float_div_bits, float_eq, float_ge, float_gt, float_le,
    float_lt, float_mul_bits, float_of_int, float_sub_bits, is_zero_bits,
};
use crate::gpu::{GPURuntime, GpuV, spec_gpu_execute, spec_gpu_parallel_ok};
use crate::text::dec_seq;
use crate::value::{
    RuntimeResult, RuntimeResultV, Value, ValueV, render_value, val_eq, val_wf, view_values,
};

verus! {

broadcast use vstd::std_specs::vec::group_vec_axioms;

/// One lexical scope: its bindings, in the order they were made, and the
/// arena index of the enclosing scope.  A later binding under the same name
/// shadows an earlier one.
pub struct Environment {
    pub entries: Vec<(String, Value)>,
    pub parent: Option<usize>,
}

/// The mathematical mirror of `Environment`.
pub struct EnvironmentV {
    pub entries: Seq<(Seq<char>, ValueV)>,
    pub parent: Option<int>,
}

/// The view of a binding list.
pub open spec fn view_entries(s: Seq<(String, Value)>) -> Seq<(Seq<char>, ValueV)>
    decreases s,
{
    if s.len() == 0 {
        Seq::empty()
    } else {
        seq![(s[0].0@, s[0].1.view())] + view_entries(s.drop_first())
    }
}

pub proof fn lemma_view_entries(s: Seq<(String, Value)>)
    ensures
        view_entries(s).len() == s.len(),
        forall|i: int| 0 <= i < s.len() ==> view_entries(s)[i] == (s[i].0@, s[i].1.view()),
    decreases s,
{
    if s.len() > 0 {
        lemma_view_entries(s.drop_first());
    }
}

impl Environment {
    pub open spec fn view(self) -> EnvironmentV {
        EnvironmentV {
            entries: view_entries(self.entries@),
            parent: match self.parent {
                Some(p) => Some(p as int),
                None => None,
            },
        }
    }
}

/// The built-in `print` function value, predefined in the root scope.
pub open spec fn print_builtin_v() -> ValueV {
    ValueV::Function {
        name: "print"@,
        params: seq!["value"@],
        body: Box::new(StmtV::Block(Seq::empty())),
        gpu: false,
        env: 0,
    }
}

/// The root scope's view: only the `print` built-in, no parent.
pub open spec fn root_env_v() -> EnvironmentV {
    EnvironmentV { entries: seq![("print"@, print_builtin_v())], parent: None }
}

/// The evaluator's whole state: the scope arena, the current scope, and the
/// accelerated runtime.
pub struct StateV {
    pub scopes: Seq<EnvironmentV>,
    pub current: int,
    pub gpu: GpuV,
}

/// The binding a name has in one scope: the latest entry wins.
pub open spec fn find_entry(entries: Seq<(Seq<char>, ValueV)>, name: Seq<char>) -> Option<ValueV>
    decreases entries,
{
    if entries.len() == 0 {
        None
    } else if entries.last().0 == name {
        Some(entries.last().1)
    } else {
        find_entry(entries.drop_last(), name)
    }
}

/// Name lookup walks the scope chain from `idx` outward and stops at the
/// first scope that binds the name.
pub open spec fn spec_lookup(scopes: Seq<EnvironmentV>, idx: int, name: Seq<char>) -> Option<
    ValueV,
>
    decreases idx,
{
    if !(0 <= idx < scopes.len()) {
        None
    } else {
        match find_entry(scopes[idx].entries, name) {
            Some(v) => Some(v),
            None => match scopes[idx].parent {
                Some(p) => if 0 <= p < idx {
                    spec_lookup(scopes, p, name)
                } else {
                    None
                },
                None => None,
            },
        }
    }
}

/// Rebinds the latest entry under `name` in one scope's binding list.
pub open spec fn env_set(
    entries: Seq<(Seq<char>, ValueV)>,
    name: Seq<char>,
    v: ValueV,
) -> Seq<(Seq<char>, ValueV)>
    decreases entries,
{
    if entries.len() == 0 {
        entries
    } else if entries.last().0 == name {
        entries.drop_last().push((name, v))
    } else {
        env_set(entries.drop_last(), name, v).push(entries.last())
    }
}

/// Assignment walks the scope chain from `idx` outward and rebinds the name
/// in the first scope that binds it; the flag says whether one was found.
pub open spec fn spec_assign(
    scopes: Seq<EnvironmentV>,
    idx: int,
    name: Seq<char>,
    v: ValueV,
) -> (Seq<EnvironmentV>, bool)
    decreases idx,
{
    if !(0 <= idx < scopes.len()) {
        (scopes, false)
    } else if find_entry(scopes[idx].entries, name) is Some {
        (
            scopes.update(
                idx,
                EnvironmentV {
                    entries: env_set(scopes[idx].entries, name, v),
                    parent: scopes[idx].parent,
                },
            ),
            true,
        )
    } else {
        match scopes[idx].parent {
            Some(p) => if 0 <= p < idx {
                spec_assign(scopes, p, name, v)
            } else {
                (scopes, false)
            },
            None => (scopes, false),
        }
    }
}

/// A failed assignment leaves the arena exactly as it was.
pub proof fn lemma_spec_assign_false(
    scopes: Seq<EnvironmentV>,
    idx: int,
    name: Seq<char>,
    v: ValueV,
)
    ensures
        !spec_assign(scopes, idx, name, v).1 ==> spec_assign(scopes, idx, name, v).0 == scopes,
    decreases idx,
{
    if 0 <= idx < scopes.len() && !(find_entry(scopes[idx].entries, name) is Some) {
        match scopes[idx].parent {
            Some(p) => {
                if 0 <= p < idx {
                    lemma_spec_assign_false(scopes, p, name, v);
                }
            },
            None => {},
        }
    }
}

/// Defines `name` in the current scope, shadowing any enclosing binding.
pub open spec fn spec_define(st: StateV, name: Seq<char>, v: ValueV) -> StateV {
    if 0 <= st.current < st.scopes.len() {
        StateV {
            scopes: st.scopes.update(
                st.current,
                EnvironmentV {
                    entries: st.scopes[st.current].entries.push((name, v)),
                    parent: st.scopes[st.current].parent,
                },
            ),
            ..st
        }
    } else {
        st
    }
}

/// Appends a fresh scope whose parent is `parent` and makes it current.
pub open spec fn spec_push_scope(st: StateV, parent: int) -> StateV {
    StateV {
        scopes: st.scopes.push(EnvironmentV { entries: Seq::empty(), parent: Some(parent) }),
        current: st.scopes.len() as int,
        ..st
    }
}

/// All bindings of one scope keep their closure indices inside `n`.
pub open spec fn env_entries_wf(e: EnvironmentV, n: int) -> bool {
    forall|k: int| 0 <= k < e.entries.len() ==> val_wf(#[trigger] e.entries[k].1, n)
}

/// The evaluator state is well formed: the current scope exists, every
/// parent link points strictly downward in the arena, and every bound value
/// is well formed.
pub open spec fn state_wf(st: StateV) -> bool {
    &&& 0 <= st.current < st.scopes.len()
    &&& forall|j: int|
        0 <= j < st.scopes.len() ==> (match #[trigger] st.scopes[j].parent {
            Some(p) => 0 <= p < j,
            None => true,
        })
    &&& forall|j: int|
        0 <= j < st.scopes.len() ==> env_entries_wf(#[trigger] st.scopes[j], st.scopes.len() as int)
}

/// A produced outcome is well formed when any value it carries is.
pub open spec fn rrv_wf(r: RuntimeResultV, n: int) -> bool {
    match r {
        RuntimeResultV::Value(v) => val_wf(v, n),
        RuntimeResultV::Return(v) => val_wf(v, n),
        RuntimeResultV::Nothing => true,
    }
}

/// Truthiness: a boolean speaks for itself, nil is false, and every other
/// value is true — zero, the zero double and the empty string included.
pub open spec fn spec_truthy(v: ValueV) -> bool {
    match v {
        ValueV::Boolean(b) => b,
        ValueV::Nil => false,
        _ => true,
    }
}

/// Truncating integer division, the machine's `/` on signed integers.
pub open spec fn div_trunc(x: int, d: int) -> int {
    if x == 0 {
        0
    } else if x > 0 && d > 0 {
        x / d
    } else if x < 0 && d < 0 {
        (x * -1) / (d * -1)
    } else if x < 0 {
        ((x * -1) / d) * -1
    } else {
        (x / (d * -1)) * -1
    }
}

/// The result of a numeric operation once both operands are numbers, with
/// integer results checked against the 64-bit range.
pub open spec fn spec_arith(op: BinOp, a: ValueV, b: ValueV) -> Result<ValueV, Seq<char>>
    decreases (if a is Number { 1int } else { 0int }) + (if b is Number { 1int } else { 0int }),
{
    match (a, b) {
        (ValueV::Number(x), ValueV::Number(y)) => {
            let r = match op {
                BinOp::Add => x + y,
                BinOp::Sub => x - y,
                BinOp::Mul => x * y,
                _ => if y != 0 {
                    div_trunc(x, y)
                } else {
                    0
                },
            };
            if i64::MIN <= r <= i64::MAX {
                Ok(ValueV::Number(r))
            } else {
                Err("integer overflow"@)
            }
        },
        (ValueV::Floating(x), ValueV::Floating(y)) => Ok(
            ValueV::Floating(
                match op {
                    BinOp::Add => float_add_bits(x, y),
                    BinOp::Sub => float_sub_bits(x, y),
                    BinOp::Mul => float_mul_bits(x, y),
                    _ => float_div_bits(x, y),
                },
            ),
        ),
        (ValueV::Number(x), ValueV::Floating(y)) => spec_arith(
            op,
            ValueV::Floating(float_of_int(x as i64)),
            ValueV::Floating(y),
        ),
        (ValueV::Floating(x), ValueV::Number(y)) => spec_arith(
            op,
            ValueV::Floating(x),
            ValueV::Floating(float_of_int(y as i64)),
        ),
        _ => Err(
            "Numeric operation requires numbers, got "@ + render_value(a) + " and "@
                + render_value(b),
        ),
    }
}

/// The result of a comparison once both operands are numbers, mixed
/// operands promoting to floating point.
pub open spec fn spec_compare(op: BinOp, a: ValueV, b: ValueV) -> Result<ValueV, Seq<char>>
    decreases (if a is Number { 1int } else { 0int }) + (if b is Number { 1int } else { 0int }),
{
    match (a, b) {
        (ValueV::Number(x), ValueV::Number(y)) => Ok(
            ValueV::Boolean(
                match op {
                    BinOp::GT => x > y,
                    BinOp::LT => x < y,
                    BinOp::GE => x >= y,
                    _ => x <= y,
                },
            ),
        ),
        (ValueV::Floating(x), ValueV::Floating(y)) => Ok(
            ValueV::Boolean(
                match op {
                    BinOp::GT => float_gt(x, y),
                    BinOp::LT => float_lt(x, y),
                    BinOp::GE => float_ge(x, y),
                    _ => float_le(x, y),
                },
            ),
        ),
        (ValueV::Number(x), ValueV::Floating(y)) => spec_compare(
            op,
            ValueV::Floating(float_of_int(x as i64)),
            ValueV::Floating(y),
        ),
        (ValueV::Floating(x), ValueV::Number(y)) => spec_compare(
            op,
            ValueV::Floating(x),
            ValueV::Floating(float_of_int(y as i64)),
        ),
        _ => Err(
            "Comparison requires numbers or compatible types, got "@ + render_value(a) + " and "@
                + render_value(b),
        ),
    }
}

/// What a binary operator yields on two evaluated operands.  `+` is
/// overloaded for concatenation wherever a string meets a printable value;
/// division by integer zero and by floating zero is an error before any
/// quotient is formed; equality is structural and never fails.
pub open spec fn spec_binop(op: BinOp, a: ValueV, b: ValueV) -> Result<ValueV, Seq<char>> {
    match op {
        BinOp::Add => {
            match (a, b) {
                (ValueV::Number(_), ValueV::Number(_)) => spec_arith(op, a, b),
                (ValueV::Floating(_), ValueV::Floating(_)) => spec_arith(op, a, b),
                (ValueV::Number(_), ValueV::Floating(_)) => spec_arith(op, a, b),
                (ValueV::Floating(_), ValueV::Number(_)) => spec_arith(op, a, b),
                (ValueV::Str(x), ValueV::Str(y)) => Ok(ValueV::Str(x + y)),
                (ValueV::Str(x), ValueV::Number(_)) => Ok(ValueV::Str(x + render_value(b))),
                (ValueV::Str(x), ValueV::Floating(_)) => Ok(ValueV::Str(x + render_value(b))),
                (ValueV::Str(x), ValueV::Boolean(_)) => Ok(ValueV::Str(x + render_value(b))),
                (ValueV::Number(_), ValueV::Str(y)) => Ok(ValueV::Str(render_value(a) + y)),
                (ValueV::Floating(_), ValueV::Str(y)) => Ok(ValueV::Str(render_value(a) + y)),
                (ValueV::Boolean(_), ValueV::Str(y)) => Ok(ValueV::Str(render_value(a) + y)),
                _ => Err(
                    "Cannot apply '+' to "@ + render_value(a) + " and "@ + render_value(b),
                ),
            }
        },
        BinOp::Sub => spec_arith(op, a, b),
        BinOp::Mul => spec_arith(op, a, b),
        BinOp::Div => {
            if b == ValueV::Number(0int) {
                Err("Division by zero (integer)"@)
            } else if b matches ValueV::Floating(f) && is_zero_bits(f) {
                Err("Division by zero (float)"@)
            } else {
                spec_arith(op, a, b)
            }
        },
        BinOp::EQ => Ok(ValueV::Boolean(val_eq(a, b))),
        BinOp::NE => Ok(ValueV::Boolean(!val_eq(a, b))),
        _ => spec_compare(op, a, b),
    }
}

/// What unary negation yields: numbers negate (the one unrepresentable
/// 64-bit case is an error), doubles flip their sign bit, nothing else
/// negates.
pub open spec fn spec_unop(op: UnOp, v: ValueV) -> Result<ValueV, Seq<char>> {
    match v {
        ValueV::Number(n) => if -n <= i64::MAX {
            Ok(ValueV::Number(-n))
        } else {
            Err("integer overflow"@)
        },
        ValueV::Floating(b) => Ok(ValueV::Floating(flip_sign(b))),
        _ => Err("Cannot apply unary '-' to "@ + render_value(v)),
    }
}

/// IEEE 754 negation flips exactly the sign bit.
pub open spec fn flip_sign(b: u64) -> u64 {
    b ^ 0x8000_0000_0000_0000
}

/// The rendered arguments of a `print` call joined with single spaces.
pub open spec fn join_rendered(args: Seq<ValueV>) -> Seq<char>
    decreases args,
{
    if args.len() == 0 {
        Seq::empty()
    } else if args.len() == 1 {
        render_value(args[0])
    } else {
        render_value(args[0]) + " "@ + join_rendered(args.drop_first())
    }
}


/// The names of a parameter list, annotations dropped.
pub open spec fn param_names(params: Seq<(Seq<char>, Option<Seq<char>>)>) -> Seq<Seq<char>> {
    params.map_values(|p: (Seq<char>, Option<Seq<char>>)| p.0)
}

/// The typed parameters registered for an accelerated function: a missing
/// annotation defaults to the `Any` placeholder.
pub open spec fn param_tys(params: Seq<(Seq<char>, Option<Seq<char>>)>) -> Seq<
    (Seq<char>, Seq<char>),
> {
    params.map_values(
        |p: (Seq<char>, Option<Seq<char>>)|
            (
                p.0,
                match p.1 {
                    Some(t) => t,
                    None => "Any"@,
                },
            ),
    )
}

/// Binds parameters to already-evaluated arguments, in order, in the
/// current scope.
pub open spec fn spec_bind_params(st: StateV, params: Seq<Seq<char>>, args: Seq<ValueV>) -> StateV
    decreases params,
{
    if params.len() == 0 || args.len() == 0 {
        st
    } else {
        spec_bind_params(
            spec_define(st, params[0], args[0]),
            params.drop_first(),
            args.drop_first(),
        )
    }
}

/// The error reported when evaluation nests deeper than the fuel allows.
pub open spec fn msg_depth() -> Seq<char> {
    "evaluation depth limit exceeded"@
}

/// What evaluating one expression yields: the state after it and either an
/// outcome or an error.
pub open spec fn spec_eval_expr(st: StateV, e: ExprV, fuel: nat) -> (
    StateV,
    Result<RuntimeResultV, Seq<char>>,
)
    decreases fuel, 0int, 0int,
{
    if fuel == 0 {
        (st, Err(msg_depth()))
    } else {
        let f = (fuel - 1) as nat;
        match e {
            ExprV::Number(n) => (st, Ok(RuntimeResultV::Value(ValueV::Number(n)))),
            ExprV::Floating(b) => (st, Ok(RuntimeResultV::Value(ValueV::Floating(b)))),
            ExprV::Boolean(b) => (st, Ok(RuntimeResultV::Value(ValueV::Boolean(b)))),
            ExprV::Str(t) => (st, Ok(RuntimeResultV::Value(ValueV::Str(t)))),
            ExprV::Ident(name) => {
                if name == "error"@ {
                    (st, Err("Encountered parser error placeholder in expression"@))
                } else if name == "print"@ {
                    (st, Ok(RuntimeResultV::Value(print_builtin_v())))
                } else {
                    match spec_lookup(st.scopes, st.current, name) {
                        Some(v) => (st, Ok(RuntimeResultV::Value(v))),
                        None => (st, Err("Undefined identifier '"@ + name + "'"@)),
                    }
                }
            },
            ExprV::Assignment { name, value } => {
                let (st1, r) = spec_eval_expr(st, *value, f);
                match r {
                    Err(m) => (st1, Err(m)),
                    Ok(RuntimeResultV::Value(v)) => {
                        let (sc, ok) = spec_assign(st1.scopes, st1.current, name, v);
                        if ok {
                            (
                                StateV { scopes: sc, ..st1 },
                                Ok(RuntimeResultV::Value(v)),
                            )
                        } else {
                            (st1, Err("Undefined variable '"@ + name + "'. Cannot assign."@))
                        }
                    },
                    Ok(_) => (
                        st1,
                        Err("Cannot assign a non-value (e.g. result of a return) to a variable"@),
                    ),
                }
            },
            ExprV::Binary { left, op, right } => {
                let (st1, rl) = spec_eval_expr(st, *left, f);
                match rl {
                    Err(m) => (st1, Err(m)),
                    Ok(lo) => {
                        let (st2, rr) = spec_eval_expr(st1, *right, f);
                        match rr {
                            Err(m) => (st2, Err(m)),
                            Ok(ro) => match (lo, ro) {
                                (RuntimeResultV::Value(a), RuntimeResultV::Value(b)) => {
                                    match spec_binop(op, a, b) {
                                        Ok(v) => (st2, Ok(RuntimeResultV::Value(v))),
                                        Err(m) => (st2, Err(m)),
                                    }
                                },
                                _ => (st2, Err("Operands of binary expression must be values"@)),
                            },
                        }
                    },
                }
            },
            ExprV::Unary { op, expr } => {
                let (st1, r) = spec_eval_expr(st, *expr, f);
                match r {
                    Err(m) => (st1, Err(m)),
                    Ok(RuntimeResultV::Value(v)) => match spec_unop(op, v) {
                        Ok(v2) => (st1, Ok(RuntimeResultV::Value(v2))),
                        Err(m) => (st1, Err(m)),
                    },
                    Ok(_) => (st1, Err("Operand of unary expression must be a value"@)),
                }
            },
            ExprV::Grouping(inner) => spec_eval_expr(st, *inner, f),
            ExprV::Return(inner) => {
                let (st1, r) = spec_eval_expr(st, *inner, f);
                match r {
                    Err(m) => (st1, Err(m)),
                    Ok(RuntimeResultV::Value(v)) => (st1, Ok(RuntimeResultV::Return(v))),
                    Ok(RuntimeResultV::Return(_)) => (
                        st1,
                        Err("Nested Expr::Return not supported"@),
                    ),
                    Ok(RuntimeResultV::Nothing) => (
                        st1,
                        Ok(RuntimeResultV::Return(ValueV::Nil)),
                    ),
                }
            },
            ExprV::Range { start, end } => {
                let (st1, rs) = spec_eval_expr(st, *start, f);
                match rs {
                    Err(m) => (st1, Err(m)),
                    Ok(so) => {
                        let (st2, re) = spec_eval_expr(st1, *end, f);
                        match re {
                            Err(m) => (st2, Err(m)),
                            Ok(eo) => match (so, eo) {
                                (RuntimeResultV::Value(sv), RuntimeResultV::Value(ev)) => (
                                    st2,
                                    Ok(
                                        RuntimeResultV::Value(
                                            ValueV::Range {
                                                start: Box::new(sv),
                                                end: Box::new(ev),
                                            },
                                        ),
                                    ),
                                ),
                                _ => (st2, Err("Range start and end must evaluate to values."@)),
                            },
                        }
                    },
                }
            },
            ExprV::FunctionCall { callee, arguments } => {
                let (st1, rc) = spec_eval_expr(st, *callee, f);
                match rc {
                    Err(m) => (st1, Err(m)),
                    Ok(RuntimeResultV::Value(cv)) => {
                        let (st2, ra) = spec_eval_args(st1, arguments, Seq::empty(), f);
                        match ra {
                            Err(m) => (st2, Err(m)),
                            Ok(args) => spec_apply(st2, cv, args, f),
                        }
                    },
                    Ok(_) => (st1, Err("Callee must be a function."@)),
                }
            },
        }
    }
}

/// Applies an already-evaluated callee to already-evaluated arguments.
pub open spec fn spec_apply(st: StateV, cv: ValueV, args: Seq<ValueV>, fuel: nat) -> (
    StateV,
    Result<RuntimeResultV, Seq<char>>,
)
    decreases fuel, 0int, 0int,
{
    if fuel == 0 {
        (st, Err(msg_depth()))
    } else {
        let f = (fuel - 1) as nat;
        match cv {
            ValueV::Function { name, params, body, gpu, env } => {
                if name == "print"@ {
                    (st, Ok(RuntimeResultV::Value(ValueV::Str(join_rendered(args)))))
                } else if args.len() != params.len() {
                    (
                        st,
                        Err(
                            "Function '"@ + name + "' expects "@ + dec_seq(params.len() as int)
                                + " arguments, but got "@ + dec_seq(args.len() as int),
                        ),
                    )
                } else if gpu {
                    match spec_gpu_execute(st.gpu, name, args) {
                        Ok(v) => (st, Ok(RuntimeResultV::Value(v))),
                        Err(m) => (
                            st,
                            Err("GPU function '"@ + name + "' execution error: "@ + m),
                        ),
                    }
                } else {
                    let st3 = spec_push_scope(st, env);
                    let st4 = spec_bind_params(st3, params, args);
                    let (st5, r) = spec_exec_stmt(st4, *body, f);
                    let st6 = StateV { current: st.current, ..st5 };
                    match r {
                        Err(m) => (st6, Err(m)),
                        Ok(RuntimeResultV::Return(v)) => (st6, Ok(RuntimeResultV::Value(v))),
                        Ok(RuntimeResultV::Value(v)) => (st6, Ok(RuntimeResultV::Value(v))),
                        Ok(RuntimeResultV::Nothing) => (
                            st6,
                            Ok(RuntimeResultV::Value(ValueV::Nil)),
                        ),
                    }
                }
            },
            _ => (st, Err("'"@ + render_value(cv) + "' is not callable."@)),
        }
    }
}

/// Evaluates an argument list left to right, collecting plain values.
pub open spec fn spec_eval_args(st: StateV, args: Seq<ExprV>, acc: Seq<ValueV>, fuel: nat) -> (
    StateV,
    Result<Seq<ValueV>, Seq<char>>,
)
    decreases fuel, 1int, args.len(),
{
    if args.len() == 0 {
        (st, Ok(acc))
    } else if fuel == 0 {
        (st, Err(msg_depth()))
    } else {
        let (st1, r) = spec_eval_expr(st, args[0], (fuel - 1) as nat);
        match r {
            Err(m) => (st1, Err(m)),
            Ok(RuntimeResultV::Value(v)) => spec_eval_args(
                st1,
                args.drop_first(),
                acc.push(v),
                fuel,
            ),
            Ok(_) => (st1, Err("Function arguments must evaluate to values"@)),
        }
    }
}

/// What executing one statement yields.
pub open spec fn spec_exec_stmt(st: StateV, s: StmtV, fuel: nat) -> (
    StateV,
    Result<RuntimeResultV, Seq<char>>,
)
    decreases fuel, 0int, 0int,
{
    if fuel == 0 {
        (st, Err(msg_depth()))
    } else {
        let f = (fuel - 1) as nat;
        match s {
            StmtV::ExprStmt(e) => spec_eval_expr(st, e, f),
            StmtV::Let { name, value, .. } => {
                let (st1, r) = spec_eval_expr(st, value, f);
                match r {
                    Err(_) => (
                        spec_define(st1, name, ValueV::Nil),
                        Ok(RuntimeResultV::Nothing),
                    ),
                    Ok(RuntimeResultV::Value(v)) => (
                        spec_define(st1, name, v),
                        Ok(RuntimeResultV::Nothing),
                    ),
                    Ok(RuntimeResultV::Return(_)) => (
                        st1,
                        Err("Invalid return in variable declaration"@),
                    ),
                    Ok(RuntimeResultV::Nothing) => (
                        spec_define(st1, name, ValueV::Nil),
                        Ok(RuntimeResultV::Nothing),
                    ),
                }
            },
            StmtV::Block(stmts) => {
                let st1 = spec_push_scope(st, st.current);
                let (st2, r) = spec_exec_stmts(st1, stmts, RuntimeResultV::Nothing, f);
                (StateV { current: st.current, ..st2 }, r)
            },
            StmtV::IfStmt { condition, then_branch, else_branch } => {
                let (st1, r) = spec_eval_expr(st, condition, f);
                match r {
                    Err(m) => (st1, Err(m)),
                    Ok(RuntimeResultV::Value(v)) => {
                        if spec_truthy(v) {
                            spec_exec_stmt(st1, *then_branch, f)
                        } else {
                            match else_branch {
                                Some(b) => spec_exec_stmt(st1, *b, f),
                                None => (st1, Ok(RuntimeResultV::Nothing)),
                            }
                        }
                    },
                    Ok(_) => (st1, Err("If condition must evaluate to a value"@)),
                }
            },
            StmtV::Branch { condition, body } => {
                let (st1, r) = spec_eval_expr(st, condition, f);
                match r {
                    Err(m) => (st1, Err(m)),
                    Ok(RuntimeResultV::Value(v)) => {
                        if spec_truthy(v) {
                            spec_exec_stmt(st1, *body, f)
                        } else {
                            (st1, Ok(RuntimeResultV::Nothing))
                        }
                    },
                    Ok(_) => (st1, Err("Branch condition must evaluate to a value"@)),
                }
            },
            StmtV::Fallback(body) => spec_exec_stmt(st, *body, f),
            StmtV::Return(e) => {
                let (st1, r) = spec_eval_expr(st, e, f);
                match r {
                    Err(m) => (st1, Err(m)),
                    Ok(RuntimeResultV::Value(v)) => (st1, Ok(RuntimeResultV::Return(v))),
                    Ok(RuntimeResultV::Return(_)) => (
                        st1,
                        Err("Nested return statement not allowed"@),
                    ),
                    Ok(RuntimeResultV::Nothing) => (
                        st1,
                        Ok(RuntimeResultV::Return(ValueV::Nil)),
                    ),
                }
            },
            StmtV::FunctionDef { name, params, body, gpu, .. } => {
                let fnv = ValueV::Function {
                    name: name,
                    params: param_names(params),
                    body: body,
                    gpu,
                    env: st.current,
                };
                let st1 = spec_define(st, name, fnv);
                if gpu {
                    let st2 = StateV {
                        gpu: GpuV {
                            functions: st1.gpu.functions.push(
                                crate::gpu::GpuFnV {
                                    name: name,
                                    params: param_tys(params),
                                    body: *body,
                                },
                            ),
                            ..st1.gpu
                        },
                        ..st1
                    };
                    (st2, Ok(RuntimeResultV::Nothing))
                } else {
                    (st1, Ok(RuntimeResultV::Nothing))
                }
            },
            StmtV::For { var, range, body } => {
                let (st1, r) = spec_eval_expr(st, range, f);
                match r {
                    Err(m) => (st1, Err(m)),
                    Ok(RuntimeResultV::Value(ValueV::Range { start, end })) => {
                        match (*start, *end) {
                            (ValueV::Number(a), ValueV::Number(b)) => {
                                if a >= b {
                                    (st1, Ok(RuntimeResultV::Nothing))
                                } else {
                                    spec_run_loop(st1, var, a, b, *body, f)
                                }
                            },
                            _ => (st1, Err("Range bounds must be numbers."@)),
                        }
                    },
                    Ok(RuntimeResultV::Value(ValueV::Number(n))) => {
                        if n >= 0 {
                            spec_run_loop(st1, var, 0, n, *body, f)
                        } else {
                            (
                                st1,
                                Err(
                                    "For loop range must be a valid range (e.g., 0..10) or a positive number."@,
                                ),
                            )
                        }
                    },
                    Ok(_) => (
                        st1,
                        Err(
                            "For loop range must be a valid range (e.g., 0..10) or a positive number."@,
                        ),
                    ),
                }
            },
            StmtV::Parallel { var, range, body } => {
                let (st1, r) = spec_eval_expr(st, range, f);
                match r {
                    Err(m) => (st1, Err(m)),
                    Ok(RuntimeResultV::Value(ValueV::Range { start, end })) => {
                        match (*start, *end) {
                            (ValueV::Number(a), ValueV::Number(b)) => {
                                if spec_gpu_parallel_ok(st1.gpu, a, b) {
                                    (st1, Ok(RuntimeResultV::Nothing))
                                } else {
                                    spec_run_loop(st1, var, a, b, *body, f)
                                }
                            },
                            (ValueV::Number(_), _) => (
                                st1,
                                Err("Parallel range end must be a number"@),
                            ),
                            _ => (st1, Err("Parallel range start must be a number"@)),
                        }
                    },
                    Ok(RuntimeResultV::Value(ValueV::Number(n))) => {
                        if n >= 0 {
                            if spec_gpu_parallel_ok(st1.gpu, 0, n) {
                                (st1, Ok(RuntimeResultV::Nothing))
                            } else {
                                spec_run_loop(st1, var, 0, n, *body, f)
                            }
                        } else {
                            (st1, Err("Invalid range expression for 'parallel' loop"@))
                        }
                    },
                    Ok(_) => (st1, Err("Invalid range expression for 'parallel' loop"@)),
                }
            },
        }
    }
}

/// Executes the statements of a block in order: a return in progress stops
/// the block at once, a produced value becomes the block's value, and `acc`
/// carries the value produced so far.
pub open spec fn spec_exec_stmts(st: StateV, l: Seq<StmtV>, acc: RuntimeResultV, fuel: nat) -> (
    StateV,
    Result<RuntimeResultV, Seq<char>>,
)
    decreases fuel, 1int, l.len(),
{
    if l.len() == 0 {
        (st, Ok(acc))
    } else if fuel == 0 {
        (st, Err(msg_depth()))
    } else {
        let (st1, r) = spec_exec_stmt(st, l[0], (fuel - 1) as nat);
        match r {
            Err(m) => (st1, Err(m)),
            Ok(RuntimeResultV::Return(v)) => (st1, Ok(RuntimeResultV::Return(v))),
            Ok(RuntimeResultV::Value(v)) => spec_exec_stmts(
                st1,
                l.drop_first(),
                RuntimeResultV::Value(v),
                fuel,
            ),
            Ok(RuntimeResultV::Nothing) => spec_exec_stmts(st1, l.drop_first(), acc, fuel),
        }
    }
}

/// Runs a loop body once per index of `i..e`, each iteration in a fresh
/// scope binding the loop variable; a return in progress stops the loop.
pub open spec fn spec_run_loop(
    st: StateV,
    var: Seq<char>,
    i: int,
    e: int,
    body: StmtV,
    fuel: nat,
) -> (StateV, Result<RuntimeResultV, Seq<char>>)
    decreases fuel, 1int, (e - i),
{
    if i >= e {
        (st, Ok(RuntimeResultV::Nothing))
    } else if fuel == 0 {
        (st, Err(msg_depth()))
    } else {
        let st1 = spec_push_scope(st, st.current);
        let st2 = spec_define(st1, var, ValueV::Number(i));
        let (st3, r) = spec_exec_stmt(st2, body, (fuel - 1) as nat);
        let st4 = StateV { current: st.current, ..st3 };
        match r {
            Err(m) => (st4, Err(m)),
            Ok(RuntimeResultV::Return(v)) => (st4, Ok(RuntimeResultV::Return(v))),
            Ok(_) => spec_run_loop(st4, var, i + 1, e, body, fuel),
        }
    }
}

/// Interprets a statement sequence at the top level, tracking the last
/// value produced: a return in progress ends interpretation with its value,
/// a produced nil leaves the last value standing, and a statement that
/// produces nothing clears it.
pub open spec fn spec_interpret(
    st: StateV,
    l: Seq<StmtV>,
    last: Option<ValueV>,
    fuel: nat,
) -> (StateV, Result<Option<ValueV>, Seq<char>>)
    decreases l.len(),
{
    if l.len() == 0 {
        (st, Ok(last))
    } else {
        let (st1, r) = spec_exec_stmt(st, l[0], fuel);
        match r {
            Err(m) => (st1, Err(m)),
            Ok(RuntimeResultV::Return(v)) => (st1, Ok(Some(v))),
            Ok(RuntimeResultV::Value(v)) => spec_interpret(
                st1,
                l.drop_first(),
                if v is Nil {
                    last
                } else {
                    Some(v)
                },
                fuel,
            ),
            Ok(RuntimeResultV::Nothing) => spec_interpret(st1, l.drop_first(), None, fuel),
        }
    }
}


/// A value found in a well-formed binding list is well formed.
pub proof fn lemma_find_entry_wf(entries: Seq<(Seq<char>, ValueV)>, name: Seq<char>, n: int)
    requires
        forall|k: int| 0 <= k < entries.len() ==> val_wf(#[trigger] entries[k].1, n),
    ensures
        match find_entry(entries, name) {
            Some(v) => val_wf(v, n),
            None => true,
        },
    decreases entries,
{
    if entries.len() > 0 && !(entries.last().0 == name) {
        lemma_find_entry_wf(entries.drop_last(), name, n);
    }
}

/// Rebinding a name with a well-formed value keeps a binding list well
/// formed.
pub proof fn lemma_env_set_wf(entries: Seq<(Seq<char>, ValueV)>, name: Seq<char>, v: ValueV, n: int)
    requires
        forall|k: int| 0 <= k < entries.len() ==> val_wf(#[trigger] entries[k].1, n),
        val_wf(v, n),
    ensures
        forall|k: int|
            0 <= k < env_set(entries, name, v).len() ==> val_wf(
                #[trigger] env_set(entries, name, v)[k].1,
                n,
            ),
        env_set(entries, name, v).len() == entries.len(),
    decreases entries,
{
    if entries.len() > 0 && !(entries.last().0 == name) {
        lemma_env_set_wf(entries.drop_last(), name, v, n);
    }
}

/// Rebinding the latest entry under `name` updates exactly its index.
pub proof fn lemma_env_set_update(
    entries: Seq<(Seq<char>, ValueV)>,
    name: Seq<char>,
    v: ValueV,
    j: int,
)
    requires
        0 <= j < entries.len(),
        entries[j].0 == name,
        forall|k: int| j < k < entries.len() ==> (#[trigger] entries[k]).0 != name,
    ensures
        env_set(entries, name, v) == entries.update(j, (name, v)),
    decreases entries,
{
    if j == entries.len() - 1 {
        assert(entries.last().0 == name);
        assert(entries.drop_last().push((name, v)) =~= entries.update(j, (name, v)));
    } else {
        assert(entries.last().0 != name);
        lemma_env_set_update(entries.drop_last(), name, v, j);
        assert(entries.drop_last().update(j, (name, v)).push(entries.last()) =~= entries.update(
            j,
            (name, v),
        ));
    }
}

/// A scan that found no later entry under `name` pins `find_entry` down.
pub proof fn lemma_find_entry_at(
    entries: Seq<(Seq<char>, ValueV)>,
    name: Seq<char>,
    j: int,
)
    requires
        0 <= j < entries.len(),
        entries[j].0 == name,
        forall|k: int| j < k < entries.len() ==> (#[trigger] entries[k]).0 != name,
    ensures
        find_entry(entries, name) == Some(entries[j].1),
    decreases entries,
{
    if j < entries.len() - 1 {
        lemma_find_entry_at(entries.drop_last(), name, j);
    }
}

/// A scan that found no entry under `name` at all pins `find_entry` down.
pub proof fn lemma_find_entry_none(entries: Seq<(Seq<char>, ValueV)>, name: Seq<char>)
    requires
        forall|k: int| 0 <= k < entries.len() ==> (#[trigger] entries[k]).0 != name,
    ensures
        find_entry(entries, name) is None,
    decreases entries,
{
    if entries.len() > 0 {
        lemma_find_entry_none(entries.drop_last(), name);
    }
}

impl Environment {
    /// The root scope: no parent, with the `print` built-in predefined.
    pub fn new() -> (e: Environment)
        ensures
            e.view() == root_env_v(),
    {
        let mut params: Vec<String> = Vec::new();
        params.push(String::from_str("value"));
        let inner: Vec<Stmt> = Vec::new();
        proof {
            crate::ast::lemma_view_stmts(inner@);
            crate::value::lemma_view_names(params@);
        }
        let f = Value::Function {
            name: String::from_str("print"),
            params,
            body: Box::new(Stmt::Block(inner)),
            gpu: false,
            env: 0,
        };
        proof {
            reveal_with_fuel(Stmt::view, 2);
            assert(crate::value::view_names(f->Function_params@) =~= seq!["value"@]);
            assert(f.view() == print_builtin_v());
        }
        let mut entries: Vec<(String, Value)> = Vec::new();
        entries.push((String::from_str("print"), f));
        proof {
            lemma_view_entries(entries@);
            assert(view_entries(entries@) =~= seq![("print"@, print_builtin_v())]);
        }
        Environment { entries, parent: None }
    }

    /// A fresh empty scope under the given parent.
    pub fn with_parent(parent: usize) -> (e: Environment)
        ensures
            e.view() == (EnvironmentV {
                entries: Seq::<(Seq<char>, ValueV)>::empty(),
                parent: Some(parent as int),
            }),
    {
        let entries: Vec<(String, Value)> = Vec::new();
        proof {
            lemma_view_entries(entries@);
            assert(view_entries(entries@) =~= Seq::<(Seq<char>, ValueV)>::empty());
        }
        Environment { entries, parent: Some(parent) }
    }

    /// Binds `name` in this scope, shadowing any earlier binding of it.
    pub fn define(&mut self, name: String, value: Value)
        ensures
            final(self).view().entries == old(self).view().entries.push((name@, value.view())),
            final(self).view().parent == old(self).view().parent,
    {
        let ghost snap = self.entries@;
        let ghost pair = (name@, value.view());
        self.entries.push((name, value));
        proof {
            lemma_view_entries(self.entries@);
            lemma_view_entries(snap);
            assert(view_entries(self.entries@) =~= view_entries(snap).push(pair));
        }
    }

    /// The binding `name` has in this scope alone, if any; the latest wins.
    pub fn get(&self, name: &str) -> (r: Option<Value>)
        ensures
            match r {
                Some(v) => find_entry(self.view().entries, name@) == Some(v.view()),
                None => find_entry(self.view().entries, name@) is None,
            },
    {
        let ghost es = view_entries(self.entries@);
        proof {
            lemma_view_entries(self.entries@);
            assert(es.subrange(0, self.entries@.len() as int) =~= es);
        }
        let mut i: usize = self.entries.len();
        while i > 0
            invariant
                i <= self.entries@.len(),
                es == view_entries(self.entries@),
                es.len() == self.entries@.len(),
                forall|j: int|
                    0 <= j < self.entries@.len() ==> es[j] == (
                        self.entries@[j].0@,
                        self.entries@[j].1.view(),
                    ),
                find_entry(es, name@) == find_entry(es.subrange(0, i as int), name@),
            decreases i,
        {
            i = i - 1;
            let ghost pre = es.subrange(0, i + 1);
            proof {
                assert(pre.drop_last() =~= es.subrange(0, i as int));
                assert(pre.last() == es[i as int]);
            }
            if crate::text::chars_eq_str_str(self.entries[i].0.as_str(), name) {
                return Some(crate::value::clone_value(&self.entries[i].1));
            }
        }
        proof {
            assert(es.subrange(0, 0) =~= Seq::<(Seq<char>, ValueV)>::empty());
        }
        None
    }

    /// Rebinds `name` in this scope alone where it is bound; the flag says
    /// whether it was.
    pub fn assign(&mut self, name: &str, value: &Value) -> (r: bool)
        ensures
            final(self).view().parent == old(self).view().parent,
            r == (find_entry(old(self).view().entries, name@) is Some),
            final(self).view().entries == (if r {
                env_set(old(self).view().entries, name@, value.view())
            } else {
                old(self).view().entries
            }),
            final(self).view().entries.len() == old(self).view().entries.len(),
    {
        let ghost es = view_entries(self.entries@);
        proof {
            lemma_view_entries(self.entries@);
        }
        let mut i: usize = self.entries.len();
        while i > 0
            invariant
                i <= self.entries@.len(),
                self.entries@ == old(self).entries@,
                self.parent == old(self).parent,
                es == view_entries(self.entries@),
                es.len() == self.entries@.len(),
                forall|j: int|
                    0 <= j < self.entries@.len() ==> es[j] == (
                        self.entries@[j].0@,
                        self.entries@[j].1.view(),
                    ),
                forall|k: int| i <= k < es.len() ==> (#[trigger] es[k]).0 != name@,
            decreases i,
        {
            i = i - 1;
            if crate::text::chars_eq_str_str(self.entries[i].0.as_str(), name) {
                let ghost snap = self.entries@;
                let nv = crate::value::clone_value(value);
                self.entries.set(i, (String::from_str(name), nv));
                proof {
                    lemma_view_entries(self.entries@);
                    lemma_view_entries(snap);
                    assert(view_entries(self.entries@) =~= es.update(
                        i as int,
                        (name@, value.view()),
                    ));
                    lemma_env_set_update(es, name@, value.view(), i as int);
                    lemma_find_entry_at(es, name@, i as int);
                }
                return true;
            }
        }
        proof {
            lemma_find_entry_none(es, name@);
        }
        false
    }
}

/// The view of the scope arena.
pub open spec fn view_envs(s: Seq<Environment>) -> Seq<EnvironmentV>
    decreases s,
{
    if s.len() == 0 {
        Seq::empty()
    } else {
        seq![s[0].view()] + view_envs(s.drop_first())
    }
}

pub proof fn lemma_view_envs(s: Seq<Environment>)
    ensures
        view_envs(s).len() == s.len(),
        forall|i: int| 0 <= i < s.len() ==> view_envs(s)[i] == s[i].view(),
    decreases s,
{
    if s.len() > 0 {
        lemma_view_envs(s.drop_first());
    }
}


/// Growing the arena keeps every scope's bindings well formed.
pub proof fn lemma_env_wf_grow(e: EnvironmentV, n: int, m: int)
    requires
        env_entries_wf(e, n),
        n <= m,
    ensures
        env_entries_wf(e, m),
{
    assert forall|k: int| 0 <= k < e.entries.len() implies val_wf(#[trigger] e.entries[k].1, m) by {
        crate::value::lemma_val_wf_mono(e.entries[k].1, n, m);
    }
}

/// The tree-walking evaluator: the scope arena, the current scope, and the
/// accelerated runtime.  The root scope persists across `interpret` calls,
/// so bindings accumulate for interactive use.
pub struct Interpreter {
    pub scopes: Vec<Environment>,
    pub current: usize,
    pub gpu_runtime: GPURuntime,
}

impl Interpreter {
    /// The state the specification interpreter runs on.
    pub open spec fn view(self) -> StateV {
        StateV {
            scopes: view_envs(self.scopes@),
            current: self.current as int,
            gpu: self.gpu_runtime.view(),
        }
    }

    /// The state is well formed.
    pub open spec fn wfs(self) -> bool {
        state_wf(self.view())
    }

    /// A fresh evaluator: one root scope holding the `print` built-in, and
    /// a fresh accelerated runtime.
    pub fn new() -> (it: Interpreter)
        ensures
            it.wfs(),
            it.view().scopes =~= seq![root_env_v()],
            it.view().current == 0,
            it.view().gpu == (crate::gpu::GpuV {
                functions: Seq::<crate::gpu::GpuFnV>::empty(),
                available: true,
                parallel_threads: 4int,
            }),
    {
        let mut scopes: Vec<Environment> = Vec::new();
        scopes.push(Environment::new());
        let it = Interpreter { scopes, current: 0, gpu_runtime: GPURuntime::new() };
        proof {
            lemma_view_envs(it.scopes@);
            assert(it.view().scopes =~= seq![root_env_v()]);
            assert(root_env_v().entries[0].1 == print_builtin_v());
            assert(val_wf(print_builtin_v(), 1));
            assert(env_entries_wf(root_env_v(), 1));
        }
        it
    }

    /// Looks `name` up from scope `idx` outward along the parent chain.
    fn lookup_from(&self, idx: usize, name: &str) -> (r: Option<Value>)
        requires
            self.wfs(),
            idx < self.view().scopes.len(),
        ensures
            match r {
                Some(v) => spec_lookup(self.view().scopes, idx as int, name@) == Some(v.view())
                    && val_wf(v.view(), self.view().scopes.len() as int),
                None => spec_lookup(self.view().scopes, idx as int, name@) is None,
            },
        decreases idx,
    {
        proof {
            lemma_view_envs(self.scopes@);
        }
        match self.scopes[idx].get(name) {
            Some(v) => {
                proof {
                    lemma_find_entry_wf(
                        self.view().scopes[idx as int].entries,
                        name@,
                        self.view().scopes.len() as int,
                    );
                }
                Some(v)
            },
            None => {
                match self.scopes[idx].parent {
                    Some(p) => {
                        proof {
                            assert(self.view().scopes[idx as int].parent == Some(p as int));
                        }
                        self.lookup_from(p, name)
                    },
                    None => None,
                }
            },
        }
    }

    /// Binds `name` in the current scope.
    fn define_here(&mut self, name: String, value: Value)
        requires
            old(self).wfs(),
            val_wf(value.view(), old(self).view().scopes.len() as int),
        ensures
            final(self).wfs(),
            final(self).view() == spec_define(old(self).view(), name@, value.view()),
            final(self).view().scopes.len() == old(self).view().scopes.len(),
            final(self).view().current == old(self).view().current,
            final(self).view().gpu == old(self).view().gpu,
    {
        let ghost st0 = self.view();
        let ghost snap = self.scopes@;
        proof {
            lemma_view_envs(snap);
        }
        let idx = self.current;
        let mut sc = self.scopes.remove(idx);
        let ghost scv0 = sc.view();
        sc.define(name, value);
        let ghost scv1 = sc.view();
        self.scopes.insert(idx, sc);
        proof {
            lemma_view_envs(self.scopes@);
            assert forall|j: int| 0 <= j < self.scopes@.len() implies view_envs(self.scopes@)[j]
                == (if j == idx as int {
                scv1
            } else {
                view_envs(snap)[j]
            }) by {
                if j < idx as int {
                    assert(self.scopes@[j] == snap[j]);
                } else if j > idx as int {
                    assert(self.scopes@[j] == snap[j]);
                }
            }
            assert(self.view().scopes =~= st0.scopes.update(idx as int, scv1));
            assert(scv0 == st0.scopes[idx as int]);
            assert(self.view() == spec_define(st0, name@, value.view()));
            assert forall|j: int| 0 <= j < self.view().scopes.len() implies env_entries_wf(
                #[trigger] self.view().scopes[j],
                self.view().scopes.len() as int,
            ) by {
                if j == idx as int {
                    let es0 = scv0.entries;
                    let es1 = scv1.entries;
                    assert(es1 == es0.push((name@, value.view())));
                    assert forall|k: int| 0 <= k < es1.len() implies val_wf(
                        #[trigger] es1[k].1,
                        self.view().scopes.len() as int,
                    ) by {
                        assert(env_entries_wf(st0.scopes[j], st0.scopes.len() as int));
                        if k < es0.len() {
                            assert(es1[k] == es0[k]);
                        }
                    }
                } else {
                    assert(self.view().scopes[j] == st0.scopes[j]);
                    assert(env_entries_wf(st0.scopes[j], st0.scopes.len() as int));
                }
            }
        }
    }

    /// Appends a fresh scope under `parent` and makes it current.
    fn push_scope(&mut self, parent: usize)
        requires
            old(self).wfs(),
            parent < old(self).view().scopes.len(),
        ensures
            final(self).wfs(),
            final(self).view() == spec_push_scope(old(self).view(), parent as int),
            final(self).view().scopes.len() == old(self).view().scopes.len() + 1,
            final(self).view().gpu == old(self).view().gpu,
    {
        let ghost st0 = self.view();
        let ghost snap = self.scopes@;
        proof {
            lemma_view_envs(snap);
        }
        let sc = Environment::with_parent(parent);
        let ghost scv = sc.view();
        let idx = self.scopes.len();
        self.scopes.push(sc);
        self.current = idx;
        proof {
            lemma_view_envs(self.scopes@);
            assert(self.view().scopes =~= st0.scopes.push(scv));
            assert(self.view() == spec_push_scope(st0, parent as int));
            let n = self.view().scopes.len() as int;
            assert forall|j: int| 0 <= j < n implies env_entries_wf(
                #[trigger] self.view().scopes[j],
                n,
            ) by {
                if j < n - 1 {
                    assert(self.view().scopes[j] == st0.scopes[j]);
                    assert(env_entries_wf(st0.scopes[j], st0.scopes.len() as int));
                    lemma_env_wf_grow(st0.scopes[j], st0.scopes.len() as int, n);
                } else {
                    assert(self.view().scopes[j] == scv);
                }
            }
        }
    }

    /// Restores `idx` as the current scope.
    fn restore_scope(&mut self, idx: usize)
        requires
            old(self).wfs(),
            idx < old(self).view().scopes.len(),
        ensures
            final(self).wfs(),
            final(self).view() == (StateV { current: idx as int, ..old(self).view() }),
    {
        self.current = idx;
    }

    /// Rebinds `name` along the chain from scope `idx` outward.
    fn assign_from(&mut self, idx: usize, name: &str, value: &Value) -> (r: bool)
        requires
            old(self).wfs(),
            idx < old(self).view().scopes.len(),
            val_wf(value.view(), old(self).view().scopes.len() as int),
        ensures
            final(self).wfs(),
            final(self).view().current == old(self).view().current,
            final(self).view().gpu == old(self).view().gpu,
            final(self).view().scopes.len() == old(self).view().scopes.len(),
            (final(self).view().scopes, r) == spec_assign(
                old(self).view().scopes,
                idx as int,
                name@,
                value.view(),
            ),
        decreases idx,
    {
        let ghost st0 = self.view();
        let ghost snap = self.scopes@;
        proof {
            lemma_view_envs(snap);
        }
        let parent = self.scopes[idx].parent;
        let mut sc = self.scopes.remove(idx);
        let ghost scv0 = sc.view();
        let ok = sc.assign(name, value);
        let ghost scv1 = sc.view();
        self.scopes.insert(idx, sc);
        proof {
            lemma_view_envs(self.scopes@);
            assert forall|j: int| 0 <= j < self.scopes@.len() implies view_envs(self.scopes@)[j]
                == (if j == idx as int {
                scv1
            } else {
                view_envs(snap)[j]
            }) by {
                if j < idx as int {
                    assert(self.scopes@[j] == snap[j]);
                } else if j > idx as int {
                    assert(self.scopes@[j] == snap[j]);
                }
            }
            assert(scv0 == st0.scopes[idx as int]);
            if ok {
                assert(self.view().scopes =~= st0.scopes.update(idx as int, scv1));
                assert(scv1.entries == env_set(scv0.entries, name@, value.view()));
                lemma_env_set_wf(
                    scv0.entries,
                    name@,
                    value.view(),
                    st0.scopes.len() as int,
                );
                assert forall|j: int| 0 <= j < self.view().scopes.len() implies env_entries_wf(
                    #[trigger] self.view().scopes[j],
                    self.view().scopes.len() as int,
                ) by {
                    if j != idx as int {
                        assert(self.view().scopes[j] == st0.scopes[j]);
                    }
                    assert(env_entries_wf(st0.scopes[j], st0.scopes.len() as int));
                }
            } else {
                assert(self.view().scopes =~= st0.scopes);
            }
        }
        if ok {
            return true;
        }
        match parent {
            Some(p) => {
                proof {
                    assert(st0.scopes[idx as int].parent == Some(p as int));
                }
                self.assign_from(p, name, value)
            },
            None => false,
        }
    }
}


/// Concatenates two strings.
fn concat_strings(a: &str, b: &str) -> (r: String)
    ensures
        r@ == a@ + b@,
{
    let mut s = String::from_str(a);
    s.append(b);
    s
}

/// Builds `a`, then `b`, then `c`, as one string.
fn m_three(a: &str, b: &str, c: &str) -> (r: String)
    ensures
        r@ == a@ + b@ + c@,
{
    let mut s = String::from_str(a);
    s.append(b);
    s.append(c);
    s
}

/// What a binary operator yields on two evaluated operands.
pub fn eval_binop(op: BinOp, a: &Value, b: &Value) -> (r: Result<Value, String>)
    ensures
        match r {
            Ok(v) => spec_binop(op, a.view(), b.view()) == Ok::<ValueV, Seq<char>>(v.view())
                && (forall|n: int| val_wf(v.view(), n)),
            Err(m) => spec_binop(op, a.view(), b.view()) == Err::<ValueV, Seq<char>>(m@),
        },
{
    match op {
        BinOp::Add => {
            match (a, b) {
                (Value::Str(x), Value::Str(y)) => Ok(
                    Value::Str(concat_strings(x.as_str(), y.as_str())),
                ),
                (Value::Str(x), Value::Number(_)) => {
                    let rb = b.to_display_string();
                    Ok(Value::Str(concat_strings(x.as_str(), rb.as_str())))
                },
                (Value::Str(x), Value::Floating(_)) => {
                    let rb = b.to_display_string();
                    Ok(Value::Str(concat_strings(x.as_str(), rb.as_str())))
                },
                (Value::Str(x), Value::Boolean(_)) => {
                    let rb = b.to_display_string();
                    Ok(Value::Str(concat_strings(x.as_str(), rb.as_str())))
                },
                (Value::Number(_), Value::Str(y)) => {
                    let ra = a.to_display_string();
                    Ok(Value::Str(concat_strings(ra.as_str(), y.as_str())))
                },
                (Value::Floating(_), Value::Str(y)) => {
                    let ra = a.to_display_string();
                    Ok(Value::Str(concat_strings(ra.as_str(), y.as_str())))
                },
                (Value::Boolean(_), Value::Str(y)) => {
                    let ra = a.to_display_string();
                    Ok(Value::Str(concat_strings(ra.as_str(), y.as_str())))
                },
                (Value::Number(_), Value::Number(_)) => eval_arith(op, a, b),
                (Value::Number(_), Value::Floating(_)) => eval_arith(op, a, b),
                (Value::Floating(_), Value::Number(_)) => eval_arith(op, a, b),
                (Value::Floating(_), Value::Floating(_)) => eval_arith(op, a, b),
                _ => {
                    let ra = a.to_display_string();
                    let rb = b.to_display_string();
                    let mut m = String::from_str("Cannot apply '+' to ");
                    m.append(ra.as_str());
                    m.append(" and ");
                    m.append(rb.as_str());
                    Err(m)
                },
            }
        },
        BinOp::Sub => eval_arith(op, a, b),
        BinOp::Mul => eval_arith(op, a, b),
        BinOp::Div => {
            let zero_int = match b {
                Value::Number(y) => *y == 0,
                _ => false,
            };
            if zero_int {
                return Err(String::from_str("Division by zero (integer)"));
            }
            let zero_float = match b {
                Value::Floating(f) => crate::float::float_is_zero(*f),
                _ => false,
            };
            if zero_float {
                return Err(String::from_str("Division by zero (float)"));
            }
            eval_arith(op, a, b)
        },
        BinOp::EQ => Ok(Value::Boolean(crate::value::value_eq(a, b))),
        BinOp::NE => Ok(Value::Boolean(!crate::value::value_eq(a, b))),
        _ => eval_compare(op, a, b),
    }
}

/// A numeric operation on two numbers, mixed operands promoting to
/// floating point.
fn eval_arith(op: BinOp, a: &Value, b: &Value) -> (r: Result<Value, String>)
    requires
        !(op is EQ) && !(op is NE) && !(op is GT) && !(op is LT) && !(op is GE) && !(op is LE),
        (op is Div) ==> !(b.view() == ValueV::Number(0int)),
    ensures
        match r {
            Ok(v) => spec_arith(op, a.view(), b.view()) == Ok::<ValueV, Seq<char>>(v.view())
                && (forall|n: int| val_wf(v.view(), n)),
            Err(m) => spec_arith(op, a.view(), b.view()) == Err::<ValueV, Seq<char>>(m@),
        },
    decreases (if a is Number { 1int } else { 0int }) + (if b is Number { 1int } else { 0int }),
{
    match (a, b) {
        (Value::Number(x), Value::Number(y)) => {
            let res = match op {
                BinOp::Add => x.checked_add(*y),
                BinOp::Sub => x.checked_sub(*y),
                BinOp::Mul => x.checked_mul(*y),
                _ => x.checked_div(*y),
            };
            match res {
                Some(v) => Ok(Value::Number(v)),
                None => Err(String::from_str("integer overflow")),
            }
        },
        (Value::Floating(x), Value::Floating(y)) => {
            let bits = match op {
                BinOp::Add => crate::float::float_add(*x, *y),
                BinOp::Sub => crate::float::float_sub(*x, *y),
                BinOp::Mul => crate::float::float_mul(*x, *y),
                _ => crate::float::float_div(*x, *y),
            };
            Ok(Value::Floating(bits))
        },
        (Value::Number(x), Value::Floating(y)) => {
            let xf = crate::float::int_to_float(*x);
            eval_arith(op, &Value::Floating(xf), b)
        },
        (Value::Floating(x), Value::Number(y)) => {
            let yf = crate::float::int_to_float(*y);
            eval_arith(op, a, &Value::Floating(yf))
        },
        _ => {
            let ra = a.to_display_string();
            let rb = b.to_display_string();
            let mut m = String::from_str("Numeric operation requires numbers, got ");
            m.append(ra.as_str());
            m.append(" and ");
            m.append(rb.as_str());
            Err(m)
        },
    }
}

/// A comparison of two numbers, mixed operands promoting to floating
/// point.
fn eval_compare(op: BinOp, a: &Value, b: &Value) -> (r: Result<Value, String>)
    requires
        op is GT || op is LT || op is GE || op is LE,
    ensures
        match r {
            Ok(v) => spec_compare(op, a.view(), b.view()) == Ok::<ValueV, Seq<char>>(v.view())
                && (forall|n: int| val_wf(v.view(), n)),
            Err(m) => spec_compare(op, a.view(), b.view()) == Err::<ValueV, Seq<char>>(m@),
        },
    decreases (if a is Number { 1int } else { 0int }) + (if b is Number { 1int } else { 0int }),
{
    match (a, b) {
        (Value::Number(x), Value::Number(y)) => Ok(
            Value::Boolean(
                match op {
                    BinOp::GT => *x > *y,
                    BinOp::LT => *x < *y,
                    BinOp::GE => *x >= *y,
                    _ => *x <= *y,
                },
            ),
        ),
        (Value::Floating(x), Value::Floating(y)) => {
            let c = crate::float::float_cmp(*x, *y);
            let res = match op {
                BinOp::GT => matches!(c, Some(core::cmp::Ordering::Greater)),
                BinOp::LT => matches!(c, Some(core::cmp::Ordering::Less)),
                BinOp::GE => matches!(
                    c,
                    Some(core::cmp::Ordering::Greater) | Some(core::cmp::Ordering::Equal),
                ),
                _ => matches!(
                    c,
                    Some(core::cmp::Ordering::Less) | Some(core::cmp::Ordering::Equal),
                ),
            };
            Ok(Value::Boolean(res))
        },
        (Value::Number(x), Value::Floating(_)) => {
            let xf = crate::float::int_to_float(*x);
            eval_compare(op, &Value::Floating(xf), b)
        },
        (Value::Floating(_), Value::Number(y)) => {
            let yf = crate::float::int_to_float(*y);
            eval_compare(op, a, &Value::Floating(yf))
        },
        _ => {
            let ra = a.to_display_string();
            let rb = b.to_display_string();
            let mut m = String::from_str("Comparison requires numbers or compatible types, got ");
            m.append(ra.as_str());
            m.append(" and ");
            m.append(rb.as_str());
            Err(m)
        },
    }
}

/// What unary negation yields.
pub fn eval_unop(op: UnOp, v: &Value) -> (r: Result<Value, String>)
    ensures
        match r {
            Ok(w) => spec_unop(op, v.view()) == Ok::<ValueV, Seq<char>>(w.view()) && (forall|
                n: int,
            | val_wf(w.view(), n)),
            Err(m) => spec_unop(op, v.view()) == Err::<ValueV, Seq<char>>(m@),
        },
{
    match v {
        Value::Number(n) => {
            match (0i64).checked_sub(*n) {
                Some(neg) => Ok(Value::Number(neg)),
                None => Err(String::from_str("integer overflow")),
            }
        },
        Value::Floating(b) => Ok(Value::Floating(*b ^ 0x8000_0000_0000_0000)),
        _ => {
            let rv = v.to_display_string();
            let mut m = String::from_str("Cannot apply unary '-' to ");
            m.append(rv.as_str());
            Err(m)
        },
    }
}


/// The view of an optional value.
pub open spec fn view_opt_value(o: Option<Value>) -> Option<ValueV> {
    match o {
        Some(v) => Some(v.view()),
        None => None,
    }
}

/// The `print` built-in as a runtime value.
fn print_builtin() -> (v: Value)
    ensures
        v.view() == print_builtin_v(),
        forall|n: int| n >= 1 ==> val_wf(v.view(), n),
{
    let mut params: Vec<String> = Vec::new();
    params.push(String::from_str("value"));
    let inner: Vec<Stmt> = Vec::new();
    proof {
        crate::ast::lemma_view_stmts(inner@);
        crate::value::lemma_view_names(params@);
    }
    let f = Value::Function {
        name: String::from_str("print"),
        params,
        body: Box::new(Stmt::Block(inner)),
        gpu: false,
        env: 0,
    };
    proof {
        reveal_with_fuel(Stmt::view, 2);
        assert(crate::value::view_names(f->Function_params@) =~= seq!["value"@]);
        assert(f.view() == print_builtin_v());
    }
    f
}

/// Renders the arguments of a `print` call from index `i` on, separated by
/// single spaces.
fn join_args_from(args: &Vec<Value>, i: usize) -> (r: String)
    requires
        i <= args@.len(),
    ensures
        r@ == join_rendered(view_values(args@).skip(i as int)),
    decreases args@.len() - i,
{
    proof {
        crate::value::lemma_view_values(args@);
    }
    let ghost piece = view_values(args@).skip(i as int);
    if i >= args.len() {
        proof {
            assert(piece.len() == 0);
        }
        String::new()
    } else if i + 1 == args.len() {
        proof {
            assert(piece.len() == 1);
            assert(piece[0] == args@[i as int].view());
        }
        args[i].to_display_string()
    } else {
        let mut out = args[i].to_display_string();
        out.append(" ");
        let rest = join_args_from(args, i + 1);
        out.append(rest.as_str());
        proof {
            assert(piece.drop_first() =~= view_values(args@).skip(i + 1));
            assert(piece[0] == args@[i as int].view());
        }
        out
    }
}

/// The names of a parameter list, annotations dropped.
fn extract_param_names(params: &Vec<(String, Option<String>)>) -> (r: Vec<String>)
    ensures
        crate::value::view_names(r@) == param_names(crate::ast::view_params(params@)),
{
    let mut out: Vec<String> = Vec::new();
    let mut i: usize = 0;
    while i < params.len()
        invariant
            i <= params@.len(),
            out@.len() == i as int,
            forall|j: int| 0 <= j < i ==> out@[j]@ == params@[j].0@,
        decreases params@.len() - i,
    {
        out.push(params[i].0.clone());
        i = i + 1;
    }
    proof {
        crate::value::lemma_view_names(out@);
        crate::ast::lemma_view_params(params@);
        assert(crate::value::view_names(out@) =~= param_names(crate::ast::view_params(params@)));
    }
    out
}

/// The typed parameters registered for an accelerated function, a missing
/// annotation defaulting to `Any`.
fn extract_param_tys(params: &Vec<(String, Option<String>)>) -> (r: Vec<(String, String)>)
    ensures
        crate::gpu::view_typed_params(r@) == param_tys(crate::ast::view_params(params@)),
{
    let mut out: Vec<(String, String)> = Vec::new();
    let mut i: usize = 0;
    while i < params.len()
        invariant
            i <= params@.len(),
            out@.len() == i as int,
            forall|j: int|
                0 <= j < i ==> (out@[j].0@ == params@[j].0@ && out@[j].1@ == (
                match crate::ast::view_opt_name(params@[j].1) {
                    Some(t) => t,
                    None => "Any"@,
                })),
        decreases params@.len() - i,
    {
        let ty = match &params[i].1 {
            Some(t) => t.clone(),
            None => String::from_str("Any"),
        };
        out.push((params[i].0.clone(), ty));
        i = i + 1;
    }
    proof {
        crate::gpu::lemma_view_typed_params(out@);
        crate::ast::lemma_view_params(params@);
        assert(crate::gpu::view_typed_params(out@) =~= param_tys(
            crate::ast::view_params(params@),
        ));
    }
    out
}

impl Interpreter {
    /// Evaluates one expression.
    fn eval_expr(&mut self, e: &Expr, fuel: u64) -> (res: Result<RuntimeResult, String>)
        requires
            old(self).wfs(),
        ensures
            final(self).wfs(),
            old(self).view().scopes.len() <= final(self).view().scopes.len(),
            ({
                let (stv, r) = spec_eval_expr(old(self).view(), e.view(), fuel as nat);
                final(self).view() == stv && match res {
                    Ok(rr) => r == Ok::<RuntimeResultV, Seq<char>>(rr.view()) && rrv_wf(
                        rr.view(),
                        final(self).view().scopes.len() as int,
                    ),
                    Err(m) => r == Err::<RuntimeResultV, Seq<char>>(m@),
                }
            }),
        decreases fuel, 0int, 1int,
    {
        if fuel == 0 {
            return Err(String::from_str("evaluation depth limit exceeded"));
        }
        match e {
            Expr::Number(n) => Ok(RuntimeResult::Value(Value::Number(*n))),
            Expr::Floating(b) => Ok(RuntimeResult::Value(Value::Floating(*b))),
            Expr::Boolean(b) => Ok(RuntimeResult::Value(Value::Boolean(*b))),
            Expr::Str(t) => Ok(RuntimeResult::Value(Value::Str(t.clone()))),
            Expr::Ident(_) => self.eval_ident_expr(e, fuel),
            Expr::Assignment { .. } => self.eval_assign_expr(e, fuel),
            Expr::Binary { .. } => self.eval_binary_expr(e, fuel),
            Expr::Unary { .. } => self.eval_unary_expr(e, fuel),
            Expr::Grouping(inner) => self.eval_expr(&**inner, fuel - 1),
            Expr::Return(_) => self.eval_return_expr(e, fuel),
            Expr::Range { .. } => self.eval_range_expr(e, fuel),
            Expr::FunctionCall { .. } => self.eval_call_expr(e, fuel),
        }
    }

    #[verifier::rlimit(100)]
    #[verifier::spinoff_prover]
    fn eval_ident_expr(&mut self, e: &Expr, fuel: u64) -> (res: Result<RuntimeResult, String>)
        requires
            e is Ident,
            fuel >= 1,
            old(self).wfs(),
        ensures
            final(self).wfs(),
            old(self).view().scopes.len() <= final(self).view().scopes.len(),
            ({
                let (stv, r) = spec_eval_expr(old(self).view(), e.view(), fuel as nat);
                final(self).view() == stv && match res {
                    Ok(rr) => r == Ok::<RuntimeResultV, Seq<char>>(rr.view()) && rrv_wf(
                        rr.view(),
                        final(self).view().scopes.len() as int,
                    ),
                    Err(m) => r == Err::<RuntimeResultV, Seq<char>>(m@),
                }
            }),
        decreases fuel, 0int, 0int,
    {
        let name = match e {
            Expr::Ident(name) => name,
            _ => {
                return Err(String::new());
            },
        };
        if crate::text::chars_eq_str_str(name.as_str(), "error") {
            Err(String::from_str("Encountered parser error placeholder in expression"))
        } else if crate::text::chars_eq_str_str(name.as_str(), "print") {
            Ok(RuntimeResult::Value(print_builtin()))
        } else {
            match self.lookup_from(self.current, name.as_str()) {
                Some(v) => Ok(RuntimeResult::Value(v)),
                None => Err(m_three("Undefined identifier '", name.as_str(), "'")),
            }
        }
    }

    #[verifier::rlimit(100)]
    #[verifier::spinoff_prover]
    fn eval_assign_expr(&mut self, e: &Expr, fuel: u64) -> (res: Result<RuntimeResult, String>)
        requires
            e is Assignment,
            fuel >= 1,
            old(self).wfs(),
        ensures
            final(self).wfs(),
            old(self).view().scopes.len() <= final(self).view().scopes.len(),
            ({
                let (stv, r) = spec_eval_expr(old(self).view(), e.view(), fuel as nat);
                final(self).view() == stv && match res {
                    Ok(rr) => r == Ok::<RuntimeResultV, Seq<char>>(rr.view()) && rrv_wf(
                        rr.view(),
                        final(self).view().scopes.len() as int,
                    ),
                    Err(m) => r == Err::<RuntimeResultV, Seq<char>>(m@),
                }
            }),
        decreases fuel, 0int, 0int,
    {
        let (name, value) = match e {
            Expr::Assignment { name, value } => (name, value),
            _ => {
                return Err(String::new());
            },
        };
        proof {
            reveal_with_fuel(Value::view, 3);
        }
        let ghost st1 = spec_eval_expr(
            old(self).view(),
            (*e.view()->Assignment_value),
            (fuel - 1) as nat,
        ).0;
        let r = self.eval_expr(&**value, fuel - 1)?;
        proof {
            assert(self.view() == st1);
        }
        match r {
            RuntimeResult::Value(v) => {
                let ok = self.assign_from(self.current, name.as_str(), &v);
                proof {
                    let sa = spec_assign(st1.scopes, st1.current, name@, v.view());
                    assert((self.view().scopes, ok) == sa);
                    assert(self.view().scopes == sa.0);
                    if ok {
                        assert(self.view() == (StateV { scopes: sa.0, ..st1 }));
                        assert(spec_eval_expr(old(self).view(), e.view(), fuel as nat).0
                            == self.view());
                    } else {
                        lemma_spec_assign_false(st1.scopes, st1.current, name@, v.view());
                        assert(sa.0 == st1.scopes);
                        assert(self.view() == st1);
                        assert(spec_eval_expr(old(self).view(), e.view(), fuel as nat).0 == st1);
                    }
                }
                if ok {
                    Ok(RuntimeResult::Value(v))
                } else {
                    Err(m_three("Undefined variable '", name.as_str(), "'. Cannot assign."))
                }
            },
            _ => Err(
                String::from_str(
                    "Cannot assign a non-value (e.g. result of a return) to a variable",
                ),
            ),
        }
    }

    #[verifier::rlimit(100)]
    #[verifier::spinoff_prover]
    fn eval_binary_expr(&mut self, e: &Expr, fuel: u64) -> (res: Result<RuntimeResult, String>)
        requires
            e is Binary,
            fuel >= 1,
            old(self).wfs(),
        ensures
            final(self).wfs(),
            old(self).view().scopes.len() <= final(self).view().scopes.len(),
            ({
                let (stv, r) = spec_eval_expr(old(self).view(), e.view(), fuel as nat);
                final(self).view() == stv && match res {
                    Ok(rr) => r == Ok::<RuntimeResultV, Seq<char>>(rr.view()) && rrv_wf(
                        rr.view(),
                        final(self).view().scopes.len() as int,
                    ),
                    Err(m) => r == Err::<RuntimeResultV, Seq<char>>(m@),
                }
            }),
        decreases fuel, 0int, 0int,
    {
        let (left, op, right) = match e {
            Expr::Binary { left, op, right } => (left, op, right),
            _ => {
                return Err(String::new());
            },
        };
        let lo = self.eval_expr(&**left, fuel - 1)?;
        let ro = self.eval_expr(&**right, fuel - 1)?;
        match (lo, ro) {
            (RuntimeResult::Value(a), RuntimeResult::Value(b)) => {
                match eval_binop(*op, &a, &b) {
                    Ok(v) => Ok(RuntimeResult::Value(v)),
                    Err(m) => Err(m),
                }
            },
            _ => Err(String::from_str("Operands of binary expression must be values")),
        }
    }

    #[verifier::rlimit(100)]
    #[verifier::spinoff_prover]
    fn eval_unary_expr(&mut self, e: &Expr, fuel: u64) -> (res: Result<RuntimeResult, String>)
        requires
            e is Unary,
            fuel >= 1,
            old(self).wfs(),
        ensures
            final(self).wfs(),
            old(self).view().scopes.len() <= final(self).view().scopes.len(),
            ({
                let (stv, r) = spec_eval_expr(old(self).view(), e.view(), fuel as nat);
                final(self).view() == stv && match res {
                    Ok(rr) => r == Ok::<RuntimeResultV, Seq<char>>(rr.view()) && rrv_wf(
                        rr.view(),
                        final(self).view().scopes.len() as int,
                    ),
                    Err(m) => r == Err::<RuntimeResultV, Seq<char>>(m@),
                }
            }),
        decreases fuel, 0int, 0int,
    {
        let (op, expr) = match e {
            Expr::Unary { op, expr } => (op, expr),
            _ => {
                return Err(String::new());
            },
        };
        let r = self.eval_expr(&**expr, fuel - 1)?;
        match r {
            RuntimeResult::Value(v) => {
                match eval_unop(*op, &v) {
                    Ok(w) => Ok(RuntimeResult::Value(w)),
                    Err(m) => Err(m),
                }
            },
            _ => Err(String::from_str("Operand of unary expression must be a value")),
        }
    }

    #[verifier::rlimit(100)]
    #[verifier::spinoff_prover]
    fn eval_return_expr(&mut self, e: &Expr, fuel: u64) -> (res: Result<RuntimeResult, String>)
        requires
            e is Return,
            fuel >= 1,
            old(self).wfs(),
        ensures
            final(self).wfs(),
            old(self).view().scopes.len() <= final(self).view().scopes.len(),
            ({
                let (stv, r) = spec_eval_expr(old(self).view(), e.view(), fuel as nat);
                final(self).view() == stv && match res {
                    Ok(rr) => r == Ok::<RuntimeResultV, Seq<char>>(rr.view()) && rrv_wf(
                        rr.view(),
                        final(self).view().scopes.len() as int,
                    ),
                    Err(m) => r == Err::<RuntimeResultV, Seq<char>>(m@),
                }
            }),
        decreases fuel, 0int, 0int,
    {
        let inner = match e {
            Expr::Return(inner) => inner,
            _ => {
                return Err(String::new());
            },
        };
        let r = self.eval_expr(&**inner, fuel - 1)?;
        match r {
            RuntimeResult::Value(v) => Ok(RuntimeResult::Return(v)),
            RuntimeResult::Return(_) => Err(
                String::from_str("Nested Expr::Return not supported"),
            ),
            RuntimeResult::Nothing => Ok(RuntimeResult::Return(Value::Nil)),
        }
    }

    #[verifier::rlimit(100)]
    #[verifier::spinoff_prover]
    fn eval_range_expr(&mut self, e: &Expr, fuel: u64) -> (res: Result<RuntimeResult, String>)
        requires
            e is Range,
            fuel >= 1,
            old(self).wfs(),
        ensures
            final(self).wfs(),
            old(self).view().scopes.len() <= final(self).view().scopes.len(),
            ({
                let (stv, r) = spec_eval_expr(old(self).view(), e.view(), fuel as nat);
                final(self).view() == stv && match res {
                    Ok(rr) => r == Ok::<RuntimeResultV, Seq<char>>(rr.view()) && rrv_wf(
                        rr.view(),
                        final(self).view().scopes.len() as int,
                    ),
                    Err(m) => r == Err::<RuntimeResultV, Seq<char>>(m@),
                }
            }),
        decreases fuel, 0int, 0int,
    {
        let (start, end) = match e {
            Expr::Range { start, end } => (start, end),
            _ => {
                return Err(String::new());
            },
        };
        let so = self.eval_expr(&**start, fuel - 1)?;
        let ghost mid_len = self.view().scopes.len() as int;
        let eo = self.eval_expr(&**end, fuel - 1)?;
        proof {
            match so.view() {
                RuntimeResultV::Value(v0) => {
                    crate::value::lemma_val_wf_mono(
                        v0,
                        mid_len,
                        self.view().scopes.len() as int,
                    );
                },
                RuntimeResultV::Return(v0) => {
                    crate::value::lemma_val_wf_mono(
                        v0,
                        mid_len,
                        self.view().scopes.len() as int,
                    );
                },
                RuntimeResultV::Nothing => {},
            }
        }
        match (so, eo) {
            (RuntimeResult::Value(sv), RuntimeResult::Value(ev)) => Ok(
                RuntimeResult::Value(Value::Range { start: Box::new(sv), end: Box::new(ev) }),
            ),
            _ => Err(String::from_str("Range start and end must evaluate to values.")),
        }
    }

    #[verifier::rlimit(100)]
    #[verifier::spinoff_prover]
    fn eval_call_expr(&mut self, e: &Expr, fuel: u64) -> (res: Result<RuntimeResult, String>)
        requires
            e is FunctionCall,
            fuel >= 1,
            old(self).wfs(),
        ensures
            final(self).wfs(),
            old(self).view().scopes.len() <= final(self).view().scopes.len(),
            ({
                let (stv, r) = spec_eval_expr(old(self).view(), e.view(), fuel as nat);
                final(self).view() == stv && match res {
                    Ok(rr) => r == Ok::<RuntimeResultV, Seq<char>>(rr.view()) && rrv_wf(
                        rr.view(),
                        final(self).view().scopes.len() as int,
                    ),
                    Err(m) => r == Err::<RuntimeResultV, Seq<char>>(m@),
                }
            }),
        decreases fuel, 0int, 0int,
    {
        let (callee, arguments) = match e {
            Expr::FunctionCall { callee, arguments } => (callee, arguments),
            _ => {
                return Err(String::new());
            },
        };
        let rc = self.eval_expr(&**callee, fuel - 1)?;
        match rc {
            RuntimeResult::Value(cv) => {
                let empty_args: Vec<Value> = Vec::new();
                proof {
                    crate::value::lemma_view_values(empty_args@);
                    assert(view_values(empty_args@) =~= Seq::<ValueV>::empty());
                    crate::ast::lemma_view_exprs(arguments@);
                    assert(view_exprs(arguments@).skip(0) =~= view_exprs(arguments@));
                }
                let ghost mid_len = self.view().scopes.len() as int;
                let args = self.eval_args(arguments, 0, empty_args, fuel - 1)?;
                proof {
                    crate::value::lemma_val_wf_mono(
                        cv.view(),
                        mid_len,
                        self.view().scopes.len() as int,
                    );
                }
                self.apply(cv, args, fuel - 1)
            },
            _ => Err(String::from_str("Callee must be a function.")),
        }
    }

    /// Applies an already-evaluated callee to already-evaluated arguments.
    #[verifier::rlimit(100)]
    #[verifier::spinoff_prover]
    fn apply(&mut self, cv: Value, args: Vec<Value>, fuel: u64) -> (res: Result<
        RuntimeResult,
        String,
    >)
        requires
            old(self).wfs(),
            val_wf(cv.view(), old(self).view().scopes.len() as int),
            forall|k: int|
                0 <= k < args@.len() ==> val_wf(
                    #[trigger] view_values(args@)[k],
                    old(self).view().scopes.len() as int,
                ),
        ensures
            final(self).wfs(),
            old(self).view().scopes.len() <= final(self).view().scopes.len(),
            ({
                let (stv, r) = spec_apply(
                    old(self).view(),
                    cv.view(),
                    view_values(args@),
                    fuel as nat,
                );
                final(self).view() == stv && match res {
                    Ok(rr) => r == Ok::<RuntimeResultV, Seq<char>>(rr.view()) && rrv_wf(
                        rr.view(),
                        final(self).view().scopes.len() as int,
                    ),
                    Err(m) => r == Err::<RuntimeResultV, Seq<char>>(m@),
                }
            }),
        decreases fuel, 0int, 0int,
    {
        proof {
            crate::value::lemma_view_values(args@);
        }
        if fuel == 0 {
            return Err(String::from_str("evaluation depth limit exceeded"));
        }
        match cv {
            Value::Function { name, params, body, gpu, env } => {
                if crate::text::chars_eq_str_str(name.as_str(), "print") {
                    proof {
                        assert(view_values(args@).skip(0) =~= view_values(args@));
                    }
                    return Ok(RuntimeResult::Value(Value::Str(join_args_from(&args, 0))));
                }
                proof {
                    crate::value::lemma_view_names(params@);
                }
                if args.len() != params.len() {
                    let mut m = String::from_str("Function '");
                    m.append(name.as_str());
                    m.append("' expects ");
                    let c1 = crate::text::u64_to_string(params.len() as u64);
                    m.append(c1.as_str());
                    m.append(" arguments, but got ");
                    let c2 = crate::text::u64_to_string(args.len() as u64);
                    m.append(c2.as_str());
                    return Err(m);
                }
                if gpu {
                    return match self.gpu_runtime.execute_function(name.as_str(), &args) {
                        Ok(v) => Ok(RuntimeResult::Value(v)),
                        Err(m) => {
                            let mut w = String::from_str("GPU function '");
                            w.append(name.as_str());
                            w.append("' execution error: ");
                            w.append(m.as_str());
                            Err(w)
                        },
                    };
                }
                let ret_to = self.current;
                proof {
                    assert(val_wf(cv.view(), old(self).view().scopes.len() as int));
                    assert((env as int) < old(self).view().scopes.len() as int);
                }
                self.push_scope(env);
                let ghost pushed = self.view();
                proof {
                    crate::value::lemma_view_values(args@);
                    assert forall|k: int| 0 <= k < args@.len() implies val_wf(
                        #[trigger] view_values(args@)[k],
                        pushed.scopes.len() as int,
                    ) by {
                        crate::value::lemma_val_wf_mono(
                            view_values(args@)[k],
                            old(self).view().scopes.len() as int,
                            pushed.scopes.len() as int,
                        );
                    }
                    assert(crate::value::view_names(params@).skip(0) =~= crate::value::view_names(
                        params@,
                    ));
                    assert(view_values(args@).skip(0) =~= view_values(args@));
                }
                let ghost names_v = crate::value::view_names(params@);
                let ghost args_v = view_values(args@);
                let mut i: usize = 0;
                while i < params.len()
                    invariant
                        i <= params@.len(),
                        params@.len() == args@.len(),
                        names_v == crate::value::view_names(params@),
                        args_v == view_values(args@),
                        names_v.len() == params@.len(),
                        args_v.len() == args@.len(),
                        forall|j: int| 0 <= j < params@.len() ==> names_v[j] == params@[j]@,
                        forall|j: int| 0 <= j < args@.len() ==> args_v[j] == args@[j].view(),
                        forall|k: int|
                            0 <= k < args@.len() ==> val_wf(
                                #[trigger] args_v[k],
                                pushed.scopes.len() as int,
                            ),
                        self.wfs(),
                        self.view().scopes.len() == pushed.scopes.len(),
                        self.view().current == pushed.current,
                        self.view().gpu == pushed.gpu,
                        spec_bind_params(pushed, names_v, args_v) == spec_bind_params(
                            self.view(),
                            names_v.skip(i as int),
                            args_v.skip(i as int),
                        ),
                    decreases params@.len() - i,
                {
                    proof {
                        assert(names_v.skip(i as int)[0] == names_v[i as int]);
                        assert(args_v.skip(i as int)[0] == args_v[i as int]);
                        assert(names_v.skip(i as int).drop_first() =~= names_v.skip(i + 1));
                        assert(args_v.skip(i as int).drop_first() =~= args_v.skip(i + 1));
                    }
                    let nm = params[i].clone();
                    let av = crate::value::clone_value(&args[i]);
                    self.define_here(nm, av);
                    i = i + 1;
                }
                proof {
                    assert(names_v.skip(params@.len() as int).len() == 0);
                    assert(spec_bind_params(pushed, names_v, args_v) == self.view());
                }
                let r = self.exec_stmt(&*body, fuel - 1);
                proof {
                    assert(ret_to < self.view().scopes.len());
                }
                self.restore_scope(ret_to);
                match r {
                    Err(m) => Err(m),
                    Ok(RuntimeResult::Return(v)) => Ok(RuntimeResult::Value(v)),
                    Ok(RuntimeResult::Value(v)) => Ok(RuntimeResult::Value(v)),
                    Ok(RuntimeResult::Nothing) => Ok(RuntimeResult::Value(Value::Nil)),
                }
            },
            _ => {
                let rv = cv.to_display_string();
                let mut m = String::from_str("'");
                m.append(rv.as_str());
                m.append("' is not callable.");
                Err(m)
            },
        }
    }

    /// Evaluates an argument list from index `i` on, left to right.
    fn eval_args(&mut self, args: &Vec<Expr>, i: usize, acc: Vec<Value>, fuel: u64) -> (res:
        Result<Vec<Value>, String>)
        requires
            old(self).wfs(),
            i <= args@.len(),
            forall|k: int|
                0 <= k < acc@.len() ==> val_wf(
                    #[trigger] view_values(acc@)[k],
                    old(self).view().scopes.len() as int,
                ),
        ensures
            final(self).wfs(),
            old(self).view().scopes.len() <= final(self).view().scopes.len(),
            ({
                let (stv, r) = spec_eval_args(
                    old(self).view(),
                    view_exprs(args@).skip(i as int),
                    view_values(acc@),
                    fuel as nat,
                );
                final(self).view() == stv && match res {
                    Ok(vs) => r == Ok::<Seq<ValueV>, Seq<char>>(view_values(vs@)) && (forall|
                        k: int,
                    |
                        0 <= k < vs@.len() ==> val_wf(
                            #[trigger] view_values(vs@)[k],
                            final(self).view().scopes.len() as int,
                        )),
                    Err(m) => r == Err::<Seq<ValueV>, Seq<char>>(m@),
                }
            }),
        decreases fuel, 1int, args@.len() - i,
    {
        proof {
            crate::ast::lemma_view_exprs(args@);
            crate::value::lemma_view_values(acc@);
        }
        if i >= args.len() {
            proof {
                assert(view_exprs(args@).skip(i as int).len() == 0);
            }
            return Ok(acc);
        }
        if fuel == 0 {
            return Err(String::from_str("evaluation depth limit exceeded"));
        }
        proof {
            assert(view_exprs(args@).skip(i as int)[0] == args@[i as int].view());
            assert(view_exprs(args@).skip(i as int).drop_first() =~= view_exprs(args@).skip(
                i + 1,
            ));
        }
        let r = self.eval_expr(&args[i], fuel - 1)?;
        match r {
            RuntimeResult::Value(v) => {
                let ghost snap = acc@;
                let mut acc2 = acc;
                acc2.push(v);
                proof {
                    crate::value::lemma_view_values(acc2@);
                    crate::value::lemma_view_values(snap);
                    assert(view_values(acc2@) =~= view_values(snap).push(
                        acc2@.last().view(),
                    ));
                    assert forall|k: int| 0 <= k < acc2@.len() implies val_wf(
                        #[trigger] view_values(acc2@)[k],
                        self.view().scopes.len() as int,
                    ) by {
                        if k < snap.len() {
                            crate::value::lemma_val_wf_mono(
                                view_values(snap)[k],
                                old(self).view().scopes.len() as int,
                                self.view().scopes.len() as int,
                            );
                        }
                    }
                }
                self.eval_args(args, i + 1, acc2, fuel)
            },
            _ => Err(String::from_str("Function arguments must evaluate to values")),
        }
    }
}


impl Interpreter {
    /// Executes one statement.
    #[verifier::rlimit(100)]
    #[verifier::rlimit(100)]
    #[verifier::spinoff_prover]
    fn exec_stmt(&mut self, s: &Stmt, fuel: u64) -> (res: Result<RuntimeResult, String>)
        requires
            old(self).wfs(),
        ensures
            final(self).wfs(),
            old(self).view().scopes.len() <= final(self).view().scopes.len(),
            ({
                let (stv, r) = spec_exec_stmt(old(self).view(), s.view(), fuel as nat);
                final(self).view() == stv && match res {
                    Ok(rr) => r == Ok::<RuntimeResultV, Seq<char>>(rr.view()) && rrv_wf(
                        rr.view(),
                        final(self).view().scopes.len() as int,
                    ),
                    Err(m) => r == Err::<RuntimeResultV, Seq<char>>(m@),
                }
            }),
        decreases fuel, 2int, 1int,
    {
        if fuel == 0 {
            return Err(String::from_str("evaluation depth limit exceeded"));
        }
        match s {
            Stmt::ExprStmt(e) => self.eval_expr(e, fuel - 1),
            Stmt::Let { .. } => self.exec_let(s, fuel),
            Stmt::Block(stmts) => {
                let ret_to = self.current;
                self.push_scope(ret_to);
                proof {
                    crate::ast::lemma_view_stmts(stmts@);
                    assert(view_stmts(stmts@).skip(0) =~= view_stmts(stmts@));
                }
                let r = self.exec_stmts(stmts, 0, RuntimeResult::Nothing, fuel - 1);
                self.restore_scope(ret_to);
                r
            },
            Stmt::IfStmt { condition, then_branch, else_branch } => {
                let r = self.eval_expr(condition, fuel - 1)?;
                match r {
                    RuntimeResult::Value(v) => {
                        if truthy(&v) {
                            self.exec_stmt(&**then_branch, fuel - 1)
                        } else {
                            match else_branch {
                                Some(b) => self.exec_stmt(&**b, fuel - 1),
                                None => Ok(RuntimeResult::Nothing),
                            }
                        }
                    },
                    _ => Err(String::from_str("If condition must evaluate to a value")),
                }
            },
            Stmt::Branch { condition, body } => {
                let r = self.eval_expr(condition, fuel - 1)?;
                match r {
                    RuntimeResult::Value(v) => {
                        if truthy(&v) {
                            self.exec_stmt(&**body, fuel - 1)
                        } else {
                            Ok(RuntimeResult::Nothing)
                        }
                    },
                    _ => Err(String::from_str("Branch condition must evaluate to a value")),
                }
            },
            Stmt::Fallback(body) => self.exec_stmt(&**body, fuel - 1),
            Stmt::Return(e) => {
                let r = self.eval_expr(e, fuel - 1)?;
                match r {
                    RuntimeResult::Value(v) => Ok(RuntimeResult::Return(v)),
                    RuntimeResult::Return(_) => Err(
                        String::from_str("Nested return statement not allowed"),
                    ),
                    RuntimeResult::Nothing => Ok(RuntimeResult::Return(Value::Nil)),
                }
            },
            Stmt::FunctionDef { .. } => self.exec_fn_def(s, fuel),
            Stmt::For { .. } => self.exec_for(s, fuel),
            Stmt::Parallel { .. } => self.exec_parallel(s, fuel),
        }
    }


    #[verifier::rlimit(100)]
    #[verifier::spinoff_prover]
    fn exec_let(&mut self, s: &Stmt, fuel: u64) -> (res: Result<RuntimeResult, String>)
        requires
            s is Let,
            fuel >= 1,
            old(self).wfs(),
        ensures
            final(self).wfs(),
            old(self).view().scopes.len() <= final(self).view().scopes.len(),
            ({
                let (stv, r) = spec_exec_stmt(old(self).view(), s.view(), fuel as nat);
                final(self).view() == stv && match res {
                    Ok(rr) => r == Ok::<RuntimeResultV, Seq<char>>(rr.view()) && rrv_wf(
                        rr.view(),
                        final(self).view().scopes.len() as int,
                    ),
                    Err(m) => r == Err::<RuntimeResultV, Seq<char>>(m@),
                }
            }),
        decreases fuel, 2int, 0int,
    {
        let (name, value) = match s {
            Stmt::Let { name, value, .. } => (name, value),
            _ => {
                return Err(String::new());
            },
        };
        let r = self.eval_expr(value, fuel - 1);
        match r {
            Err(_) => {
                self.define_here(name.clone(), Value::Nil);
                Ok(RuntimeResult::Nothing)
            },
            Ok(RuntimeResult::Value(v)) => {
                self.define_here(name.clone(), v);
                Ok(RuntimeResult::Nothing)
            },
            Ok(RuntimeResult::Return(_)) => Err(
                String::from_str("Invalid return in variable declaration"),
            ),
            Ok(RuntimeResult::Nothing) => {
                self.define_here(name.clone(), Value::Nil);
                Ok(RuntimeResult::Nothing)
            },
        }
    }

    #[verifier::rlimit(100)]
    #[verifier::spinoff_prover]
    fn exec_fn_def(&mut self, s: &Stmt, fuel: u64) -> (res: Result<RuntimeResult, String>)
        requires
            s is FunctionDef,
            fuel >= 1,
            old(self).wfs(),
        ensures
            final(self).wfs(),
            old(self).view().scopes.len() <= final(self).view().scopes.len(),
            ({
                let (stv, r) = spec_exec_stmt(old(self).view(), s.view(), fuel as nat);
                final(self).view() == stv && match res {
                    Ok(rr) => r == Ok::<RuntimeResultV, Seq<char>>(rr.view()) && rrv_wf(
                        rr.view(),
                        final(self).view().scopes.len() as int,
                    ),
                    Err(m) => r == Err::<RuntimeResultV, Seq<char>>(m@),
                }
            }),
        decreases fuel, 2int, 0int,
    {
        let (name, params, body, gpu) = match s {
            Stmt::FunctionDef { name, params, body, gpu, .. } => (name, params, body, gpu),
            _ => {
                return Err(String::new());
            },
        };
        let fnv = Value::Function {
            name: name.clone(),
            params: extract_param_names(params),
            body: Box::new(crate::ast::clone_stmt(&**body)),
            gpu: *gpu,
            env: self.current,
        };
        self.define_here(name.clone(), fnv);
        if *gpu {
            let tys = extract_param_tys(params);
            let reg = self.gpu_runtime.register_function(name.clone(), tys, &**body);
            proof {
                assert(reg is Ok);
            }
        }
        Ok(RuntimeResult::Nothing)
    }

    #[verifier::rlimit(100)]
    #[verifier::spinoff_prover]
    fn exec_for(&mut self, s: &Stmt, fuel: u64) -> (res: Result<RuntimeResult, String>)
        requires
            s is For,
            fuel >= 1,
            old(self).wfs(),
        ensures
            final(self).wfs(),
            old(self).view().scopes.len() <= final(self).view().scopes.len(),
            ({
                let (stv, r) = spec_exec_stmt(old(self).view(), s.view(), fuel as nat);
                final(self).view() == stv && match res {
                    Ok(rr) => r == Ok::<RuntimeResultV, Seq<char>>(rr.view()) && rrv_wf(
                        rr.view(),
                        final(self).view().scopes.len() as int,
                    ),
                    Err(m) => r == Err::<RuntimeResultV, Seq<char>>(m@),
                }
            }),
        decreases fuel, 2int, 0int,
    {
        let (var, range, body) = match s {
            Stmt::For { var, range, body } => (var, range, body),
            _ => {
                return Err(String::new());
            },
        };
        let ghost spec_pair = spec_exec_stmt(old(self).view(), s.view(), fuel as nat);
        proof {
            reveal_with_fuel(Value::view, 3);
        }
        let r = self.eval_expr(range, fuel - 1)?;
        proof {
            assert(spec_eval_expr(old(self).view(), range.view(), (fuel - 1) as nat).1
                == Ok::<RuntimeResultV, Seq<char>>(r.view()));
            assert(self.view() == spec_eval_expr(
                old(self).view(),
                range.view(),
                (fuel - 1) as nat,
            ).0);
        }
                match r {
            RuntimeResult::Value(Value::Range { start, end }) => {
                match (&*start, &*end) {
                    (Value::Number(a), Value::Number(b)) => {
                        if *a >= *b {
                            proof {
                                assert(self.view() == spec_pair.0);
                                assert(spec_pair.1 == Ok::<RuntimeResultV, Seq<char>>(
                                    RuntimeResultV::Nothing,
                                ));
                            }
                            Ok(RuntimeResult::Nothing)
                        } else {
                            let out = self.run_loop(var, *a, *b, &**body, fuel - 1);
                            proof {
                                assert(self.view() == spec_pair.0);
                            }
                            out
                        }
                    },
                    _ => {
                        proof {
                            assert(self.view() == spec_pair.0);
                            assert(spec_pair.1 == Err::<RuntimeResultV, Seq<char>>(
                                "Range bounds must be numbers."@,
                            ));
                        }
                        Err(String::from_str("Range bounds must be numbers."))
                    },
                }
            },
            RuntimeResult::Value(Value::Number(n)) => {
                if n >= 0 {
                    let out = self.run_loop(var, 0, n, &**body, fuel - 1);
                    proof {
                        assert(self.view() == spec_pair.0);
                    }
                    out
                } else {
                    proof {
                        assert(self.view() == spec_pair.0);
                    }
                    Err(
                        String::from_str(
                            "For loop range must be a valid range (e.g., 0..10) or a positive number.",
                        ),
                    )
                }
            },
            _ => {
                proof {
                    assert(self.view() == spec_pair.0);
                }
                Err(
                    String::from_str(
                        "For loop range must be a valid range (e.g., 0..10) or a positive number.",
                    ),
                )
            },
        }
    }

    #[verifier::rlimit(100)]
    #[verifier::spinoff_prover]
    fn exec_parallel(&mut self, s: &Stmt, fuel: u64) -> (res: Result<RuntimeResult, String>)
        requires
            s is Parallel,
            fuel >= 1,
            old(self).wfs(),
        ensures
            final(self).wfs(),
            old(self).view().scopes.len() <= final(self).view().scopes.len(),
            ({
                let (stv, r) = spec_exec_stmt(old(self).view(), s.view(), fuel as nat);
                final(self).view() == stv && match res {
                    Ok(rr) => r == Ok::<RuntimeResultV, Seq<char>>(rr.view()) && rrv_wf(
                        rr.view(),
                        final(self).view().scopes.len() as int,
                    ),
                    Err(m) => r == Err::<RuntimeResultV, Seq<char>>(m@),
                }
            }),
        decreases fuel, 2int, 0int,
    {
        let (var, range, body) = match s {
            Stmt::Parallel { var, range, body } => (var, range, body),
            _ => {
                return Err(String::new());
            },
        };
        proof {
            reveal_with_fuel(Value::view, 3);
        }
        let r = self.eval_expr(range, fuel - 1)?;
                match r {
                    RuntimeResult::Value(Value::Range { start, end }) => {
                        match (&*start, &*end) {
                            (Value::Number(a), Value::Number(b)) => {
                                match self.gpu_runtime.execute_parallel(*a, *b) {
                                    Ok(_) => Ok(RuntimeResult::Nothing),
                                    Err(_) => self.run_loop(var, *a, *b, &**body, fuel - 1),
                                }
                            },
                            (Value::Number(_), _) => Err(
                                String::from_str("Parallel range end must be a number"),
                            ),
                            _ => Err(
                                String::from_str("Parallel range start must be a number"),
                            ),
                        }
                    },
                    RuntimeResult::Value(Value::Number(n)) => {
                        if n >= 0 {
                            match self.gpu_runtime.execute_parallel(0, n) {
                                Ok(_) => Ok(RuntimeResult::Nothing),
                                Err(_) => self.run_loop(var, 0, n, &**body, fuel - 1),
                            }
                        } else {
                            Err(
                                String::from_str("Invalid range expression for 'parallel' loop"),
                            )
                        }
                    },
                    _ => Err(String::from_str("Invalid range expression for 'parallel' loop")),
                }
    }

    /// Executes the statements of a block from index `i` on; `acc` carries
    /// the value produced so far.
    fn exec_stmts(&mut self, stmts: &Vec<Stmt>, i: usize, acc: RuntimeResult, fuel: u64) -> (res:
        Result<RuntimeResult, String>)
        requires
            old(self).wfs(),
            i <= stmts@.len(),
            rrv_wf(acc.view(), old(self).view().scopes.len() as int),
        ensures
            final(self).wfs(),
            old(self).view().scopes.len() <= final(self).view().scopes.len(),
            ({
                let (stv, r) = spec_exec_stmts(
                    old(self).view(),
                    view_stmts(stmts@).skip(i as int),
                    acc.view(),
                    fuel as nat,
                );
                final(self).view() == stv && match res {
                    Ok(rr) => r == Ok::<RuntimeResultV, Seq<char>>(rr.view()) && rrv_wf(
                        rr.view(),
                        final(self).view().scopes.len() as int,
                    ),
                    Err(m) => r == Err::<RuntimeResultV, Seq<char>>(m@),
                }
            }),
        decreases fuel, 3int, stmts@.len() - i,
    {
        proof {
            crate::ast::lemma_view_stmts(stmts@);
        }
        if i >= stmts.len() {
            proof {
                assert(view_stmts(stmts@).skip(i as int).len() == 0);
            }
            return Ok(acc);
        }
        if fuel == 0 {
            return Err(String::from_str("evaluation depth limit exceeded"));
        }
        proof {
            assert(view_stmts(stmts@).skip(i as int)[0] == stmts@[i as int].view());
            assert(view_stmts(stmts@).skip(i as int).drop_first() =~= view_stmts(stmts@).skip(
                i + 1,
            ));
        }
        let r = self.exec_stmt(&stmts[i], fuel - 1)?;
        match r {
            RuntimeResult::Return(v) => Ok(RuntimeResult::Return(v)),
            RuntimeResult::Value(v) => {
                proof {
                    crate::value::lemma_val_wf_mono(
                        v.view(),
                        self.view().scopes.len() as int,
                        self.view().scopes.len() as int,
                    );
                }
                self.exec_stmts(stmts, i + 1, RuntimeResult::Value(v), fuel)
            },
            RuntimeResult::Nothing => {
                proof {
                    match acc.view() {
                        RuntimeResultV::Value(av) => {
                            crate::value::lemma_val_wf_mono(
                                av,
                                old(self).view().scopes.len() as int,
                                self.view().scopes.len() as int,
                            );
                        },
                        RuntimeResultV::Return(av) => {
                            crate::value::lemma_val_wf_mono(
                                av,
                                old(self).view().scopes.len() as int,
                                self.view().scopes.len() as int,
                            );
                        },
                        RuntimeResultV::Nothing => {},
                    }
                }
                self.exec_stmts(stmts, i + 1, acc, fuel)
            },
        }
    }

    /// Runs a loop body once per index of `start..stop`, each iteration in
    /// a fresh scope binding the loop variable.
    fn run_loop(&mut self, var: &String, start: i64, stop: i64, body: &Stmt, fuel: u64) -> (res:
        Result<RuntimeResult, String>)
        requires
            old(self).wfs(),
        ensures
            final(self).wfs(),
            old(self).view().scopes.len() <= final(self).view().scopes.len(),
            ({
                let (stv, r) = spec_run_loop(
                    old(self).view(),
                    var@,
                    start as int,
                    stop as int,
                    body.view(),
                    fuel as nat,
                );
                final(self).view() == stv && match res {
                    Ok(rr) => r == Ok::<RuntimeResultV, Seq<char>>(rr.view()) && rrv_wf(
                        rr.view(),
                        final(self).view().scopes.len() as int,
                    ),
                    Err(m) => r == Err::<RuntimeResultV, Seq<char>>(m@),
                }
            }),
        decreases fuel, 1int, 0int,
    {
        let mut i = start;
        while i < stop
            invariant
                self.wfs(),
                old(self).view().scopes.len() <= self.view().scopes.len(),
                start <= i,
                i < stop ==> spec_run_loop(
                    old(self).view(),
                    var@,
                    start as int,
                    stop as int,
                    body.view(),
                    fuel as nat,
                ) == spec_run_loop(
                    self.view(),
                    var@,
                    i as int,
                    stop as int,
                    body.view(),
                    fuel as nat,
                ),
                i >= stop ==> spec_run_loop(
                    old(self).view(),
                    var@,
                    start as int,
                    stop as int,
                    body.view(),
                    fuel as nat,
                ) == (self.view(), Ok::<RuntimeResultV, Seq<char>>(RuntimeResultV::Nothing)),
            decreases stop - i,
        {
            let ghost pre = self.view();
            if fuel == 0 {
                return Err(String::from_str("evaluation depth limit exceeded"));
            }
            let ret_to = self.current;
            self.push_scope(ret_to);
            self.define_here(var.clone(), Value::Number(i));
            let r = self.exec_stmt(body, fuel - 1);
            self.restore_scope(ret_to);
            match r {
                Err(m) => {
                    return Err(m);
                },
                Ok(RuntimeResult::Return(v)) => {
                    return Ok(RuntimeResult::Return(v));
                },
                Ok(_) => {},
            }
            proof {
                assert(spec_run_loop(
                    pre,
                    var@,
                    i as int,
                    stop as int,
                    body.view(),
                    fuel as nat,
                ) == spec_run_loop(
                    self.view(),
                    var@,
                    i + 1,
                    stop as int,
                    body.view(),
                    fuel as nat,
                ));
                if i + 1 >= stop {
                    assert(spec_run_loop(
                        self.view(),
                        var@,
                        i + 1,
                        stop as int,
                        body.view(),
                        fuel as nat,
                    ) == (self.view(), Ok::<RuntimeResultV, Seq<char>>(RuntimeResultV::Nothing)));
                }
            }
            i = i + 1;
        }
        Ok(RuntimeResult::Nothing)
    }

    /// Interprets a statement sequence against the persistent root scope,
    /// handing back the last produced value, the value of a return in
    /// progress, or nothing.
    pub fn interpret(&mut self, statements: &Vec<Stmt>, fuel: u64) -> (res: Result<
        Option<Value>,
        String,
    >)
        requires
            old(self).wfs(),
        ensures
            final(self).wfs(),
            old(self).view().scopes.len() <= final(self).view().scopes.len(),
            ({
                let (stv, r) = spec_interpret(
                    old(self).view(),
                    view_stmts(statements@),
                    None,
                    fuel as nat,
                );
                final(self).view() == stv && match res {
                    Ok(o) => r == Ok::<Option<ValueV>, Seq<char>>(view_opt_value(o)),
                    Err(m) => r == Err::<Option<ValueV>, Seq<char>>(m@),
                }
            }),
    {
        proof {
            crate::ast::lemma_view_stmts(statements@);
            assert(view_stmts(statements@).skip(0) =~= view_stmts(statements@));
        }
        let mut last: Option<Value> = None;
        let mut i: usize = 0;
        while i < statements.len()
            invariant
                self.wfs(),
                old(self).view().scopes.len() <= self.view().scopes.len(),
                i <= statements@.len(),
                view_stmts(statements@).len() == statements@.len(),
                forall|j: int|
                    0 <= j < statements@.len() ==> view_stmts(statements@)[j] == statements@[
                        j
                    ].view(),
                spec_interpret(
                    old(self).view(),
                    view_stmts(statements@),
                    None,
                    fuel as nat,
                ) == spec_interpret(
                    self.view(),
                    view_stmts(statements@).skip(i as int),
                    view_opt_value(last),
                    fuel as nat,
                ),
            decreases statements@.len() - i,
        {
            proof {
                assert(view_stmts(statements@).skip(i as int)[0] == statements@[i as int].view());
                assert(view_stmts(statements@).skip(i as int).drop_first() =~= view_stmts(
                    statements@,
                ).skip(i + 1));
            }
            let r = self.exec_stmt(&statements[i], fuel);
            match r {
                Err(m) => {
                    return Err(m);
                },
                Ok(RuntimeResult::Return(v)) => {
                    return Ok(Some(v));
                },
                Ok(RuntimeResult::Value(v)) => {
                    let is_nil = match &v {
                        Value::Nil => true,
                        _ => false,
                    };
                    if !is_nil {
                        last = Some(v);
                    }
                },
                Ok(RuntimeResult::Nothing) => {
                    last = None;
                },
            }
            i = i + 1;
        }
        proof {
            assert(view_stmts(statements@).skip(statements@.len() as int).len() == 0);
        }
        Ok(last)
    }
}

/// Decides truthiness.
pub fn truthy(v: &Value) -> (r: bool)
    ensures
        r == spec_truthy(v.view()),
{
    match v {
        Value::Boolean(b) => *b,
        Value::Nil => false,
        _ => true,
    }
}

} // verus!
