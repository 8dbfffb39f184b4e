//! Runtime values and execution outcomes.
//!
//! `ValueV` is the mathematical mirror used by the specification
//! interpreter.  A function value carries the index of the scope it was
//! defined in (its closure environment); `val_wf` says such indices stay
//! inside the scope arena.
use vstd::prelude::*;

use crate::ast::{Stmt, StmtV, clone_stmt};
use crate::float::dec_of_float;
use crate::text::{dec_seq_signed, i64_to_string};

verus! {

broadcast use vstd::std_specs::vec::group_vec_axioms;

/// A runtime value.
#[derive(Debug)]
pub enum Value {
    Number(i64),
    Floating(u64),
    Str(String),
    Boolean(bool),
    Nil,
    Function { name: String, params: Vec<String>, body: Box<Stmt>, gpu: bool, env: usize },
    Range { start: Box<Value>, end: Box<Value> },
}

/// The mathematical mirror of `Value`.
pub enum ValueV {
    Number(int),
    Floating(u64),
    Str(Seq<char>),
    Boolean(bool),
    Nil,
    Function { name: Seq<char>, params: Seq<Seq<char>>, body: Box<StmtV>, gpu: bool, env: int },
    Range { start: Box<ValueV>, end: Box<ValueV> },
}

/// One of three execution outcomes: a produced value, a return in progress,
/// or no value.
#[derive(Debug)]
pub enum RuntimeResult {
    Value(Value),
    Return(Value),
    Nothing,
}

/// The mathematical mirror of `RuntimeResult`.
pub enum RuntimeResultV {
    Value(ValueV),
    Return(ValueV),
    Nothing,
}

/// The view of a name list.
pub open spec fn view_names(s: Seq<String>) -> Seq<Seq<char>>
    decreases s,
{
    if s.len() == 0 {
        Seq::empty()
    } else {
        seq![s[0]@] + view_names(s.drop_first())
    }
}

pub proof fn lemma_view_names(s: Seq<String>)
    ensures
        view_names(s).len() == s.len(),
        forall|i: int| 0 <= i < s.len() ==> view_names(s)[i] == s[i]@,
    decreases s,
{
    if s.len() > 0 {
        lemma_view_names(s.drop_first());
    }
}

impl Value {
    pub open spec fn view(self) -> ValueV
        decreases self,
    {
        match self {
            Value::Number(n) => ValueV::Number(n as int),
            Value::Floating(b) => ValueV::Floating(b),
            Value::Str(s) => ValueV::Str(s@),
            Value::Boolean(b) => ValueV::Boolean(b),
            Value::Nil => ValueV::Nil,
            Value::Function { name, params, body, gpu, env } => ValueV::Function {
                name: name@,
                params: view_names(params@),
                body: Box::new((*body).view()),
                gpu,
                env: env as int,
            },
            Value::Range { start, end } => ValueV::Range {
                start: Box::new((*start).view()),
                end: Box::new((*end).view()),
            },
        }
    }
}

impl RuntimeResult {
    pub open spec fn view(self) -> RuntimeResultV {
        match self {
            RuntimeResult::Value(v) => RuntimeResultV::Value(v.view()),
            RuntimeResult::Return(v) => RuntimeResultV::Return(v.view()),
            RuntimeResult::Nothing => RuntimeResultV::Nothing,
        }
    }
}

/// A value's closure indices stay below the arena size `n`.
pub open spec fn val_wf(v: ValueV, n: int) -> bool
    decreases v,
{
    match v {
        ValueV::Function { env, .. } => 0 <= env < n,
        ValueV::Range { start, end } => val_wf(*start, n) && val_wf(*end, n),
        _ => true,
    }
}

pub proof fn lemma_val_wf_mono(v: ValueV, n: int, m: int)
    requires
        val_wf(v, n),
        n <= m,
    ensures
        val_wf(v, m),
    decreases v,
{
    match v {
        ValueV::Range { start, end } => {
            lemma_val_wf_mono(*start, n, m);
            lemma_val_wf_mono(*end, n, m);
        },
        _ => {},
    }
}

/// The view of a value list.
pub open spec fn view_values(s: Seq<Value>) -> Seq<ValueV>
    decreases s,
{
    if s.len() == 0 {
        Seq::empty()
    } else {
        seq![s[0].view()] + view_values(s.drop_first())
    }
}

pub proof fn lemma_view_values(s: Seq<Value>)
    ensures
        view_values(s).len() == s.len(),
        forall|i: int| 0 <= i < s.len() ==> view_values(s)[i] == s[i].view(),
    decreases s,
{
    if s.len() > 0 {
        lemma_view_values(s.drop_first());
    }
}

/// Clones a name list.
pub fn clone_names(v: &Vec<String>) -> (r: Vec<String>)
    ensures
        view_names(r@) == view_names(v@),
        r@.len() == v@.len(),
{
    let mut out: Vec<String> = Vec::new();
    let mut i: usize = 0;
    while i < v.len()
        invariant
            i <= v@.len(),
            out@.len() == i as int,
            forall|j: int| 0 <= j < i ==> out@[j]@ == v@[j]@,
        decreases v@.len() - i,
    {
        out.push(v[i].clone());
        i = i + 1;
    }
    proof {
        lemma_view_names(out@);
        lemma_view_names(v@);
        assert(view_names(out@) =~= view_names(v@));
    }
    out
}

/// Clones a value; the copy has the same view.
pub fn clone_value(v: &Value) -> (r: Value)
    ensures
        r.view() == v.view(),
    decreases *v,
{
    match v {
        Value::Number(n) => Value::Number(*n),
        Value::Floating(b) => Value::Floating(*b),
        Value::Str(s) => Value::Str(s.clone()),
        Value::Boolean(b) => Value::Boolean(*b),
        Value::Nil => Value::Nil,
        Value::Function { name, params, body, gpu, env } => Value::Function {
            name: name.clone(),
            params: clone_names(params),
            body: Box::new(clone_stmt(&**body)),
            gpu: *gpu,
            env: *env,
        },
        Value::Range { start, end } => Value::Range {
            start: Box::new(clone_value(&**start)),
            end: Box::new(clone_value(&**end)),
        },
    }
}

/// The language's structural equality on values.  Values of differing kinds
/// compare unequal; floating values compare by IEEE 754 equality (so the two
/// zeroes are equal and a NaN equals nothing); ranges compare element-wise;
/// function values compare by name, parameter list, body and acceleration
/// flag (their captured environments are not compared).
pub open spec fn val_eq(a: ValueV, b: ValueV) -> bool
    decreases a,
{
    match (a, b) {
        (ValueV::Number(x), ValueV::Number(y)) => x == y,
        (ValueV::Floating(x), ValueV::Floating(y)) => crate::float::float_eq(x, y),
        (ValueV::Str(x), ValueV::Str(y)) => x == y,
        (ValueV::Boolean(x), ValueV::Boolean(y)) => x == y,
        (ValueV::Nil, ValueV::Nil) => true,
        (
            ValueV::Function { name: n1, params: p1, body: b1, gpu: g1, .. },
            ValueV::Function { name: n2, params: p2, body: b2, gpu: g2, .. },
        ) => n1 == n2 && p1 == p2 && *b1 == *b2 && g1 == g2,
        (ValueV::Range { start: s1, end: e1 }, ValueV::Range { start: s2, end: e2 }) => val_eq(
            *s1,
            *s2,
        ) && val_eq(*e1, *e2),
        _ => false,
    }
}

/// Compares two name lists.
fn names_eq(a: &Vec<String>, b: &Vec<String>) -> (r: bool)
    ensures
        r == (view_names(a@) == view_names(b@)),
{
    proof {
        lemma_view_names(a@);
        lemma_view_names(b@);
    }
    if a.len() != b.len() {
        return false;
    }
    let mut i: usize = 0;
    while i < a.len()
        invariant
            i <= a@.len(),
            a@.len() == b@.len(),
            forall|j: int| 0 <= j < i ==> a@[j]@ == b@[j]@,
        decreases a@.len() - i,
    {
        let x = &a[i];
        let y = &b[i];
        if !(*x == *y) {
            proof {
                lemma_view_names(a@);
                lemma_view_names(b@);
                assert(view_names(a@)[i as int] == a@[i as int]@);
                assert(view_names(b@)[i as int] == b@[i as int]@);
            }
            return false;
        }
        i = i + 1;
    }
    proof {
        lemma_view_names(a@);
        lemma_view_names(b@);
        assert(view_names(a@) =~= view_names(b@));
    }
    true
}

/// Decides the language's structural equality on values.
pub fn value_eq(a: &Value, b: &Value) -> (r: bool)
    ensures
        r == val_eq(a.view(), b.view()),
    decreases *a,
{
    match (a, b) {
        (Value::Number(x), Value::Number(y)) => x == y,
        (Value::Floating(x), Value::Floating(y)) => {
            match crate::float::float_cmp(*x, *y) {
                Some(core::cmp::Ordering::Equal) => true,
                _ => false,
            }
        },
        (Value::Str(x), Value::Str(y)) => *x == *y,
        (Value::Boolean(x), Value::Boolean(y)) => x == y,
        (Value::Nil, Value::Nil) => true,
        (
            Value::Function { name: n1, params: p1, body: b1, gpu: g1, .. },
            Value::Function { name: n2, params: p2, body: b2, gpu: g2, .. },
        ) => *n1 == *n2 && names_eq(p1, p2) && crate::ast::stmt_eq(&**b1, &**b2) && g1 == g2,
        (Value::Range { start: s1, end: e1 }, Value::Range { start: s2, end: e2 }) => value_eq(
            &**s1,
            &**s2,
        ) && value_eq(&**e1, &**e2),
        _ => false,
    }
}

/// How many characters `", "` contributes between rendered parameters.
pub open spec fn join_sep() -> Seq<char> {
    ", "@
}

/// Parameter names joined with commas, as in a function value's rendering.
pub open spec fn join_names(s: Seq<Seq<char>>) -> Seq<char>
    decreases s,
{
    if s.len() == 0 {
        Seq::empty()
    } else if s.len() == 1 {
        s[0]
    } else {
        s[0] + join_sep() + join_names(s.drop_first())
    }
}

/// Renders the parameter names from index `i` on, separated by commas.
fn join_params(params: &Vec<String>, i: usize) -> (r: String)
    requires
        i <= params@.len(),
    ensures
        r@ == join_names(view_names(params@).subrange(i as int, params@.len() as int)),
    decreases params@.len() - i,
{
    proof {
        lemma_view_names(params@);
    }
    let ghost whole = view_names(params@);
    let ghost piece = whole.subrange(i as int, params@.len() as int);
    if i >= params.len() {
        proof {
            assert(piece.len() == 0);
        }
        String::new()
    } else if i + 1 == params.len() {
        proof {
            assert(piece.len() == 1);
            assert(piece[0] == params@[i as int]@);
        }
        params[i].clone()
    } else {
        let mut out = params[i].clone();
        out.append(", ");
        let rest = join_params(params, i + 1);
        out.append(rest.as_str());
        proof {
            assert(piece.drop_first() =~= whole.subrange(i + 1, params@.len() as int));
            assert(piece[0] == params@[i as int]@);
        }
        out
    }
}

/// The textual rendering of a value: integers and doubles in decimal,
/// booleans as `true`/`false`, nil as `nil`, strings as their contents,
/// functions as a bracketed description, ranges as `start..end`.
pub open spec fn render_value(v: ValueV) -> Seq<char>
    decreases v,
{
    match v {
        ValueV::Number(n) => dec_seq_signed(n),
        ValueV::Floating(b) => dec_of_float(b),
        ValueV::Str(s) => s,
        ValueV::Boolean(b) => if b {
            "true"@
        } else {
            "false"@
        },
        ValueV::Nil => "nil"@,
        ValueV::Function { name, params, .. } => "<fn "@ + name + "("@ + join_names(params)
            + ")>"@,
        ValueV::Range { start, end } => render_value(*start) + ".."@ + render_value(*end),
    }
}

impl Value {
    /// Renders the value as text.
    pub fn to_display_string(&self) -> (r: String)
        ensures
            r@ == render_value(self.view()),
        decreases *self,
    {
        match self {
            Value::Number(n) => i64_to_string(*n),
            Value::Floating(b) => crate::float::float_to_string(*b),
            Value::Str(s) => s.clone(),
            Value::Boolean(b) => {
                if *b {
                    String::from_str("true")
                } else {
                    String::from_str("false")
                }
            },
            Value::Nil => String::from_str("nil"),
            Value::Function { name, params, .. } => {
                let mut out = String::from_str("<fn ");
                out.append(name.as_str());
                out.append("(");
                let joined = join_params(params, 0);
                out.append(joined.as_str());
                out.append(")>");
                proof {
                    lemma_view_names(params@);
                    assert(view_names(params@).subrange(0, params@.len() as int) =~= view_names(
                        params@,
                    ));
                    assert(out@ =~= render_value(self.view()));
                }
                out
            },
            Value::Range { start, end } => {
                let mut out = (&**start).to_display_string();
                out.append("..");
                let e = (&**end).to_display_string();
                out.append(e.as_str());
                proof {
                    assert(out@ =~= render_value(self.view()));
                }
                out
            },
        }
    }
}

} // verus!
