//! The abstract syntax model: the vocabulary shared by the parser and the
//! evaluator.  `ExprV` and `StmtV` are the mathematical mirrors used in
//! specifications, with text as character sequences and lists as sequences.
use vstd::prelude::*;

verus! {

broadcast use vstd::std_specs::vec::group_vec_axioms;

/// A unary operator.
#[derive(Clone, Copy, PartialEq, Eq, Structural, Debug)]
pub enum UnOp {
    Neg,
}

/// A binary operator.
#[derive(Clone, Copy, PartialEq, Eq, Structural, Debug)]
pub enum BinOp {
    Add,
    Sub,
    Mul,
    Div,
    EQ,
    NE,
    GT,
    LT,
    GE,
    LE,
}

/// An expression node.  Nodes own their children outright: a strict tree.
#[derive(Debug)]
pub enum Expr {
    Number(i64),
    Floating(u64),
    Boolean(bool),
    Str(String),
    Ident(String),
    Unary { op: UnOp, expr: Box<Expr> },
    Binary { left: Box<Expr>, op: BinOp, right: Box<Expr> },
    Assignment { name: String, value: Box<Expr> },
    Grouping(Box<Expr>),
    FunctionCall { callee: Box<Expr>, arguments: Vec<Expr> },
    Return(Box<Expr>),
    Range { start: Box<Expr>, end: Box<Expr> },
}

/// A statement node.
#[derive(Debug)]
pub enum Stmt {
    Let { name: String, declared_type: Option<String>, value: Expr, mutable: bool },
    ExprStmt(Expr),
    Block(Vec<Stmt>),
    IfStmt { condition: Expr, then_branch: Box<Stmt>, else_branch: Option<Box<Stmt>> },
    FunctionDef {
        name: String,
        params: Vec<(String, Option<String>)>,
        return_type: Option<String>,
        body: Box<Stmt>,
        gpu: bool,
    },
    For { var: String, range: Expr, body: Box<Stmt> },
    Parallel { var: String, range: Expr, body: Box<Stmt> },
    Branch { condition: Expr, body: Box<Stmt> },
    Fallback(Box<Stmt>),
    Return(Expr),
}

/// The mathematical mirror of `Expr`.
pub enum ExprV {
    Number(int),
    Floating(u64),
    Boolean(bool),
    Str(Seq<char>),
    Ident(Seq<char>),
    Unary { op: UnOp, expr: Box<ExprV> },
    Binary { left: Box<ExprV>, op: BinOp, right: Box<ExprV> },
    Assignment { name: Seq<char>, value: Box<ExprV> },
    Grouping(Box<ExprV>),
    FunctionCall { callee: Box<ExprV>, arguments: Seq<ExprV> },
    Return(Box<ExprV>),
    Range { start: Box<ExprV>, end: Box<ExprV> },
}

/// The mathematical mirror of `Stmt`.
pub enum StmtV {
    Let { name: Seq<char>, declared_type: Option<Seq<char>>, value: ExprV, mutable: bool },
    ExprStmt(ExprV),
    Block(Seq<StmtV>),
    IfStmt { condition: ExprV, then_branch: Box<StmtV>, else_branch: Option<Box<StmtV>> },
    FunctionDef {
        name: Seq<char>,
        params: Seq<(Seq<char>, Option<Seq<char>>)>,
        return_type: Option<Seq<char>>,
        body: Box<StmtV>,
        gpu: bool,
    },
    For { var: Seq<char>, range: ExprV, body: Box<StmtV> },
    Parallel { var: Seq<char>, range: ExprV, body: Box<StmtV> },
    Branch { condition: ExprV, body: Box<StmtV> },
    Fallback(Box<StmtV>),
    Return(ExprV),
}

/// The view of an optional name.
pub open spec fn view_opt_name(o: Option<String>) -> Option<Seq<char>> {
    match o {
        Some(s) => Some(s@),
        None => None,
    }
}

impl Expr {
    pub open spec fn view(self) -> ExprV
        decreases self,
    {
        match self {
            Expr::Number(n) => ExprV::Number(n as int),
            Expr::Floating(b) => ExprV::Floating(b),
            Expr::Boolean(b) => ExprV::Boolean(b),
            Expr::Str(s) => ExprV::Str(s@),
            Expr::Ident(s) => ExprV::Ident(s@),
            Expr::Unary { op, expr } => ExprV::Unary { op, expr: Box::new((*expr).view()) },
            Expr::Binary { left, op, right } => ExprV::Binary {
                left: Box::new((*left).view()),
                op,
                right: Box::new((*right).view()),
            },
            Expr::Assignment { name, value } => ExprV::Assignment {
                name: name@,
                value: Box::new((*value).view()),
            },
            Expr::Grouping(e) => ExprV::Grouping(Box::new((*e).view())),
            Expr::FunctionCall { callee, arguments } => ExprV::FunctionCall {
                callee: Box::new((*callee).view()),
                arguments: view_exprs(arguments@),
            },
            Expr::Return(e) => ExprV::Return(Box::new((*e).view())),
            Expr::Range { start, end } => ExprV::Range {
                start: Box::new((*start).view()),
                end: Box::new((*end).view()),
            },
        }
    }
}

/// The view of an expression list.
pub open spec fn view_exprs(s: Seq<Expr>) -> Seq<ExprV>
    decreases s,
{
    if s.len() == 0 {
        Seq::empty()
    } else {
        seq![s[0].view()] + view_exprs(s.drop_first())
    }
}

pub proof fn lemma_view_exprs(s: Seq<Expr>)
    ensures
        view_exprs(s).len() == s.len(),
        forall|i: int| 0 <= i < s.len() ==> view_exprs(s)[i] == s[i].view(),
    decreases s,
{
    if s.len() > 0 {
        lemma_view_exprs(s.drop_first());
    }
}

/// The view of a parameter list.
pub open spec fn view_params(s: Seq<(String, Option<String>)>) -> Seq<(Seq<char>, Option<Seq<char>>)>
    decreases s,
{
    if s.len() == 0 {
        Seq::empty()
    } else {
        seq![(s[0].0@, view_opt_name(s[0].1))] + view_params(s.drop_first())
    }
}

pub proof fn lemma_view_params(s: Seq<(String, Option<String>)>)
    ensures
        view_params(s).len() == s.len(),
        forall|i: int|
            0 <= i < s.len() ==> view_params(s)[i] == (s[i].0@, view_opt_name(s[i].1)),
    decreases s,
{
    if s.len() > 0 {
        lemma_view_params(s.drop_first());
    }
}

impl Stmt {
    pub open spec fn view(self) -> StmtV
        decreases self,
    {
        match self {
            Stmt::Let { name, declared_type, value, mutable } => StmtV::Let {
                name: name@,
                declared_type: view_opt_name(declared_type),
                value: value.view(),
                mutable,
            },
            Stmt::ExprStmt(e) => StmtV::ExprStmt(e.view()),
            Stmt::Block(stmts) => StmtV::Block(view_stmts(stmts@)),
            Stmt::IfStmt { condition, then_branch, else_branch } => StmtV::IfStmt {
                condition: condition.view(),
                then_branch: Box::new((*then_branch).view()),
                else_branch: match else_branch {
                    Some(b) => Some(Box::new((*b).view())),
                    None => None,
                },
            },
            Stmt::FunctionDef { name, params, return_type, body, gpu } => StmtV::FunctionDef {
                name: name@,
                params: view_params(params@),
                return_type: view_opt_name(return_type),
                body: Box::new((*body).view()),
                gpu,
            },
            Stmt::For { var, range, body } => StmtV::For {
                var: var@,
                range: range.view(),
                body: Box::new((*body).view()),
            },
            Stmt::Parallel { var, range, body } => StmtV::Parallel {
                var: var@,
                range: range.view(),
                body: Box::new((*body).view()),
            },
            Stmt::Branch { condition, body } => StmtV::Branch {
                condition: condition.view(),
                body: Box::new((*body).view()),
            },
            Stmt::Fallback(b) => StmtV::Fallback(Box::new((*b).view())),
            Stmt::Return(e) => StmtV::Return(e.view()),
        }
    }
}

/// The view of a statement list.
pub open spec fn view_stmts(s: Seq<Stmt>) -> Seq<StmtV>
    decreases s,
{
    if s.len() == 0 {
        Seq::empty()
    } else {
        seq![s[0].view()] + view_stmts(s.drop_first())
    }
}

pub proof fn lemma_view_stmts(s: Seq<Stmt>)
    ensures
        view_stmts(s).len() == s.len(),
        forall|i: int| 0 <= i < s.len() ==> view_stmts(s)[i] == s[i].view(),
    decreases s,
{
    if s.len() > 0 {
        lemma_view_stmts(s.drop_first());
    }
}

/// Clones an optional name.
pub fn clone_opt_name(o: &Option<String>) -> (r: Option<String>)
    ensures
        view_opt_name(r) == view_opt_name(*o),
{
    match o {
        Some(s) => Some(s.clone()),
        None => None,
    }
}

/// Clones an expression tree; the copy has the same view.
#[verifier::loop_isolation(false)]
pub fn clone_expr(e: &Expr) -> (r: Expr)
    ensures
        r.view() == e.view(),
    decreases *e,
{
    match e {
        Expr::Number(n) => Expr::Number(*n),
        Expr::Floating(b) => Expr::Floating(*b),
        Expr::Boolean(b) => Expr::Boolean(*b),
        Expr::Str(s) => Expr::Str(s.clone()),
        Expr::Ident(s) => Expr::Ident(s.clone()),
        Expr::Unary { op, expr } => Expr::Unary { op: *op, expr: Box::new(clone_expr(&**expr)) },
        Expr::Binary { left, op, right } => Expr::Binary {
            left: Box::new(clone_expr(&**left)),
            op: *op,
            right: Box::new(clone_expr(&**right)),
        },
        Expr::Assignment { name, value } => Expr::Assignment {
            name: name.clone(),
            value: Box::new(clone_expr(&**value)),
        },
        Expr::Grouping(inner) => Expr::Grouping(Box::new(clone_expr(&**inner))),
        Expr::FunctionCall { callee, arguments } => {
            let mut out: Vec<Expr> = Vec::new();
            let mut i: usize = 0;
            while i < arguments.len()
                invariant
                    i <= arguments.len(),
                    out@.len() == i as int,
                    forall|j: int| 0 <= j < i ==> out@[j].view() == arguments@[j].view(),
                decreases arguments.len() - i,
            {
                let c = clone_expr(&arguments[i]);
                out.push(c);
                i = i + 1;
            }
            let r = Expr::FunctionCall {
                callee: Box::new(clone_expr(&**callee)),
                arguments: out,
            };
            proof {
                lemma_view_exprs(out@);
                lemma_view_exprs(e->FunctionCall_arguments@);
                assert(view_exprs(out@) =~= view_exprs(e->FunctionCall_arguments@));
            }
            r
        },
        Expr::Return(inner) => Expr::Return(Box::new(clone_expr(&**inner))),
        Expr::Range { start, end } => Expr::Range {
            start: Box::new(clone_expr(&**start)),
            end: Box::new(clone_expr(&**end)),
        },
    }
}

/// Clones a statement tree; the copy has the same view.
#[verifier::loop_isolation(false)]
pub fn clone_stmt(s: &Stmt) -> (r: Stmt)
    ensures
        r.view() == s.view(),
    decreases *s,
{
    match s {
        Stmt::Let { name, declared_type, value, mutable } => Stmt::Let {
            name: name.clone(),
            declared_type: clone_opt_name(declared_type),
            value: clone_expr(value),
            mutable: *mutable,
        },
        Stmt::ExprStmt(e) => Stmt::ExprStmt(clone_expr(e)),
        Stmt::Block(stmts) => {
            let mut out: Vec<Stmt> = Vec::new();
            let mut i: usize = 0;
            while i < stmts.len()
                invariant
                    i <= stmts.len(),
                    out@.len() == i as int,
                    forall|j: int| 0 <= j < i ==> out@[j].view() == stmts@[j].view(),
                decreases stmts.len() - i,
            {
                let c = clone_stmt(&stmts[i]);
                out.push(c);
                i = i + 1;
            }
            let r = Stmt::Block(out);
            proof {
                lemma_view_stmts(r->Block_0@);
                lemma_view_stmts(s->Block_0@);
                assert(view_stmts(r->Block_0@) =~= view_stmts(s->Block_0@));
            }
            r
        },
        Stmt::IfStmt { condition, then_branch, else_branch } => Stmt::IfStmt {
            condition: clone_expr(condition),
            then_branch: Box::new(clone_stmt(&**then_branch)),
            else_branch: match else_branch {
                Some(b) => Some(Box::new(clone_stmt(&**b))),
                None => None,
            },
        },
        Stmt::FunctionDef { name, params, return_type, body, gpu } => {
            let mut out: Vec<(String, Option<String>)> = Vec::new();
            let mut i: usize = 0;
            while i < params.len()
                invariant
                    i <= params.len(),
                    out@.len() == i as int,
                    forall|j: int|
                        0 <= j < i ==> (out@[j].0@, view_opt_name(out@[j].1)) == (
                            params@[j].0@,
                            view_opt_name(params@[j].1),
                        ),
                decreases params.len() - i,
            {
                let name_c = params[i].0.clone();
                let ty_c = clone_opt_name(&params[i].1);
                out.push((name_c, ty_c));
                i = i + 1;
            }
            let r = Stmt::FunctionDef {
                name: name.clone(),
                params: out,
                return_type: clone_opt_name(return_type),
                body: Box::new(clone_stmt(&**body)),
                gpu: *gpu,
            };
            proof {
                lemma_view_params(r->FunctionDef_params@);
                lemma_view_params(s->FunctionDef_params@);
                assert(view_params(r->FunctionDef_params@) =~= view_params(
                    s->FunctionDef_params@,
                ));
            }
            r
        },
        Stmt::For { var, range, body } => Stmt::For {
            var: var.clone(),
            range: clone_expr(range),
            body: Box::new(clone_stmt(&**body)),
        },
        Stmt::Parallel { var, range, body } => Stmt::Parallel {
            var: var.clone(),
            range: clone_expr(range),
            body: Box::new(clone_stmt(&**body)),
        },
        Stmt::Branch { condition, body } => Stmt::Branch {
            condition: clone_expr(condition),
            body: Box::new(clone_stmt(&**body)),
        },
        Stmt::Fallback(b) => Stmt::Fallback(Box::new(clone_stmt(&**b))),
        Stmt::Return(e) => Stmt::Return(clone_expr(e)),
    }
}


/// Compares two optional names.
pub fn opt_name_eq(a: &Option<String>, b: &Option<String>) -> (r: bool)
    ensures
        r == (view_opt_name(*a) == view_opt_name(*b)),
{
    match (a, b) {
        (Some(x), Some(y)) => *x == *y,
        (None, None) => true,
        _ => false,
    }
}

/// Decides structural equality of two expression trees (equality of their
/// views; a floating literal compares by bit pattern).
#[verifier::loop_isolation(false)]
pub fn expr_eq(a: &Expr, b: &Expr) -> (r: bool)
    ensures
        r == (a.view() == b.view()),
    decreases *a,
{
    match (a, b) {
        (Expr::Number(x), Expr::Number(y)) => x == y,
        (Expr::Floating(x), Expr::Floating(y)) => x == y,
        (Expr::Boolean(x), Expr::Boolean(y)) => x == y,
        (Expr::Str(x), Expr::Str(y)) => *x == *y,
        (Expr::Ident(x), Expr::Ident(y)) => *x == *y,
        (Expr::Unary { op: o1, expr: e1 }, Expr::Unary { op: o2, expr: e2 }) => o1 == o2
            && expr_eq(&**e1, &**e2),
        (
            Expr::Binary { left: l1, op: o1, right: r1 },
            Expr::Binary { left: l2, op: o2, right: r2 },
        ) => o1 == o2 && expr_eq(&**l1, &**l2) && expr_eq(&**r1, &**r2),
        (
            Expr::Assignment { name: n1, value: v1 },
            Expr::Assignment { name: n2, value: v2 },
        ) => *n1 == *n2 && expr_eq(&**v1, &**v2),
        (Expr::Grouping(x), Expr::Grouping(y)) => expr_eq(&**x, &**y),
        (
            Expr::FunctionCall { callee: c1, arguments: a1 },
            Expr::FunctionCall { callee: c2, arguments: a2 },
        ) => {
            proof {
                lemma_view_exprs(a1@);
                lemma_view_exprs(a2@);
            }
            if !expr_eq(&**c1, &**c2) {
                return false;
            }
            if a1.len() != a2.len() {
                return false;
            }
            let mut i: usize = 0;
            while i < a1.len()
                invariant
                    i <= a1.len(),
                    a1@.len() == a2@.len(),
                    forall|j: int| 0 <= j < i ==> a1@[j].view() == a2@[j].view(),
                decreases a1.len() - i,
            {
                if !expr_eq(&a1[i], &a2[i]) {
                    proof {
                        lemma_view_exprs(a1@);
                        lemma_view_exprs(a2@);
                        assert(view_exprs(a1@)[i as int] != view_exprs(a2@)[i as int]);
                    }
                    return false;
                }
                i = i + 1;
            }
            proof {
                assert(view_exprs(a1@) =~= view_exprs(a2@));
            }
            true
        },
        (Expr::Return(x), Expr::Return(y)) => expr_eq(&**x, &**y),
        (
            Expr::Range { start: s1, end: e1 },
            Expr::Range { start: s2, end: e2 },
        ) => expr_eq(&**s1, &**s2) && expr_eq(&**e1, &**e2),
        _ => false,
    }
}

/// Compares two parameter lists.
fn params_eq(a: &Vec<(String, Option<String>)>, b: &Vec<(String, Option<String>)>) -> (r: bool)
    ensures
        r == (view_params(a@) == view_params(b@)),
{
    proof {
        lemma_view_params(a@);
        lemma_view_params(b@);
    }
    if a.len() != b.len() {
        return false;
    }
    let mut i: usize = 0;
    while i < a.len()
        invariant
            i <= a@.len(),
            a@.len() == b@.len(),
            forall|j: int|
                0 <= j < i ==> (a@[j].0@, view_opt_name(a@[j].1)) == (
                    b@[j].0@,
                    view_opt_name(b@[j].1),
                ),
        decreases a@.len() - i,
    {
        let x = &a[i];
        let y = &b[i];
        if !(x.0 == y.0) || !opt_name_eq(&x.1, &y.1) {
            proof {
                lemma_view_params(a@);
                lemma_view_params(b@);
                assert(view_params(a@)[i as int] != view_params(b@)[i as int]);
            }
            return false;
        }
        i = i + 1;
    }
    proof {
        lemma_view_params(a@);
        lemma_view_params(b@);
        assert(view_params(a@) =~= view_params(b@));
    }
    true
}

/// Decides structural equality of two statement trees (equality of their
/// views).
#[verifier::loop_isolation(false)]
pub fn stmt_eq(a: &Stmt, b: &Stmt) -> (r: bool)
    ensures
        r == (a.view() == b.view()),
    decreases *a,
{
    match (a, b) {
        (
            Stmt::Let { name: n1, declared_type: t1, value: v1, mutable: m1 },
            Stmt::Let { name: n2, declared_type: t2, value: v2, mutable: m2 },
        ) => *n1 == *n2 && opt_name_eq(t1, t2) && expr_eq(v1, v2) && m1 == m2,
        (Stmt::ExprStmt(x), Stmt::ExprStmt(y)) => expr_eq(x, y),
        (Stmt::Block(s1), Stmt::Block(s2)) => {
            proof {
                lemma_view_stmts(s1@);
                lemma_view_stmts(s2@);
            }
            if s1.len() != s2.len() {
                return false;
            }
            let mut i: usize = 0;
            while i < s1.len()
                invariant
                    i <= s1.len(),
                    s1@.len() == s2@.len(),
                    forall|j: int| 0 <= j < i ==> s1@[j].view() == s2@[j].view(),
                decreases s1.len() - i,
            {
                if !stmt_eq(&s1[i], &s2[i]) {
                    proof {
                        lemma_view_stmts(s1@);
                        lemma_view_stmts(s2@);
                        assert(view_stmts(s1@)[i as int] != view_stmts(s2@)[i as int]);
                    }
                    return false;
                }
                i = i + 1;
            }
            proof {
                assert(view_stmts(s1@) =~= view_stmts(s2@));
            }
            true
        },
        (
            Stmt::IfStmt { condition: c1, then_branch: t1, else_branch: e1 },
            Stmt::IfStmt { condition: c2, then_branch: t2, else_branch: e2 },
        ) => {
            let else_same = match (e1, e2) {
                (Some(x), Some(y)) => stmt_eq(&**x, &**y),
                (None, None) => true,
                _ => false,
            };
            expr_eq(c1, c2) && stmt_eq(&**t1, &**t2) && else_same
        },
        (
            Stmt::FunctionDef { name: n1, params: p1, return_type: r1, body: b1, gpu: g1 },
            Stmt::FunctionDef { name: n2, params: p2, return_type: r2, body: b2, gpu: g2 },
        ) => *n1 == *n2 && params_eq(p1, p2) && opt_name_eq(r1, r2) && stmt_eq(&**b1, &**b2)
            && g1 == g2,
        (
            Stmt::For { var: v1, range: r1, body: b1 },
            Stmt::For { var: v2, range: r2, body: b2 },
        ) => *v1 == *v2 && expr_eq(r1, r2) && stmt_eq(&**b1, &**b2),
        (
            Stmt::Parallel { var: v1, range: r1, body: b1 },
            Stmt::Parallel { var: v2, range: r2, body: b2 },
        ) => *v1 == *v2 && expr_eq(r1, r2) && stmt_eq(&**b1, &**b2),
        (
            Stmt::Branch { condition: c1, body: b1 },
            Stmt::Branch { condition: c2, body: b2 },
        ) => expr_eq(c1, c2) && stmt_eq(&**b1, &**b2),
        (Stmt::Fallback(x), Stmt::Fallback(y)) => stmt_eq(&**x, &**y),
        (Stmt::Return(x), Stmt::Return(y)) => expr_eq(x, y),
        _ => false,
    }
}

} // verus!
