//! The syntax tree of a program, and its mathematical content.
//!
//! The tree carries no scopes and no resolved names; those are the work of
//! lowering. Names are owned strings, and the content of a tree is the
//! same tree over sequences of characters.

use vstd::prelude::*;

verus! {

/// A type is a pointer depth: 0 is `int`, `k` is a `k`-fold pointer to `int`.
pub type Ty = u32;

/// The operators with one operand: `-`, `~` and `!`.
#[derive(Debug, Clone, Copy, PartialEq, Eq, Structural)]
pub enum UnaryOp {
    Neg,
    BNot,
    LNot,
}

/// The operators with two operands. `And` and `Or` are the logical
/// operators `&&` and `||`, which read their operands as zero or not zero.
#[derive(Debug, Clone, Copy, PartialEq, Eq, Structural)]
pub enum BinaryOp {
    Add,
    Sub,
    Mul,
    Div,
    Mod,
    Lt,
    Le,
    Ge,
    Gt,
    Eq,
    Ne,
    And,
    Or,
}

/// An expression.
#[derive(Debug)]
pub enum Expr {
    /// An integer literal.
    Int(i32),
    Unary(UnaryOp, Box<Expr>),
    Binary(BinaryOp, Box<Expr>, Box<Expr>),
    /// A variable by its name.
    Var(String),
    /// The assignment of the second expression to the first.
    Assign(Box<Expr>, Box<Expr>),
    /// `a ? b : c`
    Condition(Box<Expr>, Box<Expr>, Box<Expr>),
    /// The call of a function by its name with its arguments.
    Call(String, Vec<Expr>),
    /// `*e`
    Deref(Box<Expr>),
    /// `&e`
    AddrOf(Box<Expr>),
    /// `(ty) e`
    Cast(Ty, Box<Expr>),
    /// `a[i]`
    Index(Box<Expr>, Box<Expr>),
}

/// The declaration of a variable or a parameter. A declaration with
/// dimensions declares an array and has no initialiser.
#[derive(Debug)]
pub struct Decl {
    pub ty: Ty,
    pub name: String,
    pub dims: Vec<u32>,
    pub init: Option<Expr>,
}

/// A statement.
#[derive(Debug)]
pub enum Stmt {
    Empty,
    Ret(Expr),
    Decl(Decl),
    Expr(Expr),
    /// `if` with its condition, its branch and its `else` branch.
    If(Expr, Box<Stmt>, Option<Box<Stmt>>),
    /// Statements in a scope of their own.
    Block(Vec<Stmt>),
    /// `do` with its body and its condition.
    DoWhile(Box<Stmt>, Expr),
    /// A loop that tests `cond` before each round, where it has one, and
    /// runs `update` after each round. `while` is such a loop without
    /// update; the initialiser of a `for` loop stands in a block around
    /// the loop.
    For { cond: Option<Expr>, update: Option<Expr>, body: Box<Stmt> },
    Continue,
    Break,
}

/// A function: a definition with its statements, or a prototype without.
#[derive(Debug)]
pub struct Func {
    pub ret: Ty,
    pub name: String,
    pub params: Vec<Decl>,
    pub stmts: Option<Vec<Stmt>>,
}

/// A program: its functions and its global variables, each in the order
/// of the text.
#[derive(Debug)]
pub struct Prog {
    pub funcs: Vec<Func>,
    pub globs: Vec<Decl>,
}

/// The mathematical content of an [`Expr`].
pub enum ExprView {
    Int(i32),
    Unary(UnaryOp, Box<ExprView>),
    Binary(BinaryOp, Box<ExprView>, Box<ExprView>),
    Var(Seq<char>),
    Assign(Box<ExprView>, Box<ExprView>),
    Condition(Box<ExprView>, Box<ExprView>, Box<ExprView>),
    Call(Seq<char>, Seq<ExprView>),
    Deref(Box<ExprView>),
    AddrOf(Box<ExprView>),
    Cast(Ty, Box<ExprView>),
    Index(Box<ExprView>, Box<ExprView>),
}

/// The mathematical content of a [`Decl`].
pub struct DeclView {
    pub ty: Ty,
    pub name: Seq<char>,
    pub dims: Seq<u32>,
    pub init: Option<ExprView>,
}

/// The mathematical content of a [`Stmt`].
pub enum StmtView {
    Empty,
    Ret(ExprView),
    Decl(DeclView),
    Expr(ExprView),
    If(ExprView, Box<StmtView>, Option<Box<StmtView>>),
    Block(Seq<StmtView>),
    DoWhile(Box<StmtView>, ExprView),
    For { cond: Option<ExprView>, update: Option<ExprView>, body: Box<StmtView> },
    Continue,
    Break,
}

/// The mathematical content of a [`Func`].
pub struct FuncView {
    pub ret: Ty,
    pub name: Seq<char>,
    pub params: Seq<DeclView>,
    pub stmts: Option<Seq<StmtView>>,
}

/// The mathematical content of a [`Prog`].
pub struct ProgView {
    pub funcs: Seq<FuncView>,
    pub globs: Seq<DeclView>,
}

/// The content of an expression.
pub open spec fn expr_view(e: Expr) -> ExprView
    decreases e,
{
    match e {
        Expr::Int(x) => ExprView::Int(x),
        Expr::Unary(op, x) => ExprView::Unary(op, Box::new(expr_view(*x))),
        Expr::Binary(op, l, r) => ExprView::Binary(
            op,
            Box::new(expr_view(*l)),
            Box::new(expr_view(*r)),
        ),
        Expr::Var(name) => ExprView::Var(name@),
        Expr::Assign(l, r) => ExprView::Assign(Box::new(expr_view(*l)), Box::new(expr_view(*r))),
        Expr::Condition(c, t, f) => ExprView::Condition(
            Box::new(expr_view(*c)),
            Box::new(expr_view(*t)),
            Box::new(expr_view(*f)),
        ),
        Expr::Call(name, args) => ExprView::Call(name@, exprs_view(args@, args@.len() as int)),
        Expr::Deref(x) => ExprView::Deref(Box::new(expr_view(*x))),
        Expr::AddrOf(x) => ExprView::AddrOf(Box::new(expr_view(*x))),
        Expr::Cast(ty, x) => ExprView::Cast(ty, Box::new(expr_view(*x))),
        Expr::Index(a, i) => ExprView::Index(Box::new(expr_view(*a)), Box::new(expr_view(*i))),
    }
}

/// The contents of the first `n` expressions of a list.
pub open spec fn exprs_view(es: Seq<Expr>, n: int) -> Seq<ExprView>
    decreases es, n,
{
    if n <= 0 || n > es.len() {
        Seq::empty()
    } else {
        exprs_view(es, n - 1).push(expr_view(es[n - 1]))
    }
}

/// The content of an optional expression.
pub open spec fn opt_expr_view(e: Option<Expr>) -> Option<ExprView> {
    match e {
        None => None,
        Some(x) => Some(expr_view(x)),
    }
}

/// The content of a declaration.
pub open spec fn decl_view(d: Decl) -> DeclView {
    DeclView { ty: d.ty, name: d.name@, dims: d.dims@, init: opt_expr_view(d.init) }
}

/// The contents of a list of declarations.
pub open spec fn decls_view(ds: Seq<Decl>) -> Seq<DeclView> {
    ds.map_values(|d: Decl| decl_view(d))
}

/// The content of a statement.
pub open spec fn stmt_view(s: Stmt) -> StmtView
    decreases s,
{
    match s {
        Stmt::Empty => StmtView::Empty,
        Stmt::Ret(e) => StmtView::Ret(expr_view(e)),
        Stmt::Decl(d) => StmtView::Decl(decl_view(d)),
        Stmt::Expr(e) => StmtView::Expr(expr_view(e)),
        Stmt::If(c, t, f) => StmtView::If(
            expr_view(c),
            Box::new(stmt_view(*t)),
            match f {
                None => None,
                Some(fb) => Some(Box::new(stmt_view(*fb))),
            },
        ),
        Stmt::Block(ss) => StmtView::Block(stmts_view(ss@, ss@.len() as int)),
        Stmt::DoWhile(body, cond) => StmtView::DoWhile(
            Box::new(stmt_view(*body)),
            expr_view(cond),
        ),
        Stmt::For { cond, update, body } => StmtView::For {
            cond: opt_expr_view(cond),
            update: opt_expr_view(update),
            body: Box::new(stmt_view(*body)),
        },
        Stmt::Continue => StmtView::Continue,
        Stmt::Break => StmtView::Break,
    }
}

/// The contents of the first `n` statements of a list.
pub open spec fn stmts_view(ss: Seq<Stmt>, n: int) -> Seq<StmtView>
    decreases ss, n,
{
    if n <= 0 || n > ss.len() {
        Seq::empty()
    } else {
        stmts_view(ss, n - 1).push(stmt_view(ss[n - 1]))
    }
}

/// The content of a function.
pub open spec fn func_view(f: Func) -> FuncView {
    FuncView {
        ret: f.ret,
        name: f.name@,
        params: decls_view(f.params@),
        stmts: match f.stmts {
            None => None,
            Some(ss) => Some(stmts_view(ss@, ss@.len() as int)),
        },
    }
}

impl View for Expr {
    type V = ExprView;

    open spec fn view(&self) -> ExprView {
        expr_view(*self)
    }
}

impl View for Decl {
    type V = DeclView;

    open spec fn view(&self) -> DeclView {
        decl_view(*self)
    }
}

impl View for Stmt {
    type V = StmtView;

    open spec fn view(&self) -> StmtView {
        stmt_view(*self)
    }
}

impl View for Func {
    type V = FuncView;

    open spec fn view(&self) -> FuncView {
        func_view(*self)
    }
}

impl View for Prog {
    type V = ProgView;

    open spec fn view(&self) -> ProgView {
        ProgView {
            funcs: self.funcs@.map_values(|f: Func| func_view(f)),
            globs: decls_view(self.globs@),
        }
    }
}

/// The contents of a list of expressions do not depend on what follows
/// the list.
pub proof fn lemma_exprs_view_prefix(es: Seq<Expr>, longer: Seq<Expr>, n: int)
    requires
        0 <= n <= es.len() <= longer.len(),
        forall|i: int| 0 <= i < es.len() ==> longer[i] == es[i],
    ensures
        exprs_view(longer, n) == exprs_view(es, n),
    decreases n,
{
    if n > 0 {
        lemma_exprs_view_prefix(es, longer, n - 1);
    }
}

/// The contents of a list of statements do not depend on what follows the
/// list.
pub proof fn lemma_stmts_view_prefix(ss: Seq<Stmt>, longer: Seq<Stmt>, n: int)
    requires
        0 <= n <= ss.len() <= longer.len(),
        forall|i: int| 0 <= i < ss.len() ==> longer[i] == ss[i],
    ensures
        stmts_view(longer, n) == stmts_view(ss, n),
    decreases n,
{
    if n > 0 {
        lemma_stmts_view_prefix(ss, longer, n - 1);
    }
}

} // verus!
