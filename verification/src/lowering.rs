//! What lowering produces, as a mathematical function from syntax trees to
//! IR.
//!
//! Lowering resolves names against a stack of scopes and the two
//! whole-program tables, checks types (a type is a pointer depth), and emits
//! stack-machine code. Every function here returns either the code or the
//! first error in evaluation order.

use vstd::prelude::*;
use crate::ast::{BinaryOp, Decl, Expr, Func, Prog, Stmt, Ty};
use crate::error::LowerError;
use crate::ir::{GlobView, IrFuncView, IrProgView, IrStmt};
use crate::symtab::{FuncSigView, VarInfo};

verus! {

/// The variables that one block declares, by name.
pub type Scope = Map<Seq<char>, VarInfo>;

/// The whole-program tables, fixed while function bodies are lowered.
pub struct Env {
    pub globs: Scope,
    pub funcs: Map<Seq<char>, FuncSigView>,
}

/// Looks a name up in the scopes, innermost (last) first.
pub open spec fn lookup_local(scopes: Seq<Scope>, name: Seq<char>) -> Option<VarInfo>
    decreases scopes.len(),
{
    if scopes.len() == 0 {
        None
    } else if scopes.last().contains_key(name) {
        Some(scopes.last()[name])
    } else {
        lookup_local(scopes.drop_last(), name)
    }
}

/// Resolves a variable: a local or parameter of the innermost scope that
/// declares the name, else a global. The flag tells whether it is a global.
pub open spec fn resolve(env: Env, scopes: Seq<Scope>, name: Seq<char>) -> Option<
    (bool, VarInfo),
> {
    match lookup_local(scopes, name) {
        Some(v) => Some((false, v)),
        None => if env.globs.contains_key(name) {
            Some((true, env.globs[name]))
        } else {
            None
        },
    }
}

/// An lvalue denotes a storage location: a variable or a dereference.
pub open spec fn is_lvalue(e: Expr) -> bool {
    e is Var || e is Deref
}

/// The code of an expression, its type, and the label counter after it.
pub struct ExprCode {
    pub ops: Seq<IrStmt>,
    pub ty: Ty,
    pub labels: u32,
}

/// The code of a list of arguments and the label counter after it.
pub struct ArgsCode {
    pub ops: Seq<IrStmt>,
    pub labels: u32,
}

/// The operators under which two pointers of one type may stand.
pub open spec fn is_equality(op: BinaryOp) -> bool {
    op == BinaryOp::Eq || op == BinaryOp::Ne
}

/// The code that pushes the address of a resolved variable.
pub open spec fn addr_op(is_glob: bool, v: VarInfo) -> IrStmt {
    if is_glob {
        IrStmt::GlobAddr(v.id)
    } else {
        IrStmt::LocalAddr(v.id)
    }
}

/// A `Load` where the value is wanted, nothing where the address is.
pub open spec fn load_op(load: bool) -> Seq<IrStmt> {
    if load {
        seq![IrStmt::Load]
    } else {
        Seq::empty()
    }
}

/// Lowers an expression. With `load`, an lvalue yields its value; without,
/// its address. `labels` is the next unused label id.
pub open spec fn lower_expr(env: Env, scopes: Seq<Scope>, labels: u32, e: Expr, load: bool)
    -> Result<ExprCode, LowerError>
    decreases e,
{
    match e {
        Expr::Int(x) => Ok(ExprCode { ops: seq![IrStmt::Const(x)], ty: 0, labels }),
        Expr::Unary(op, x) => match lower_expr(env, scopes, labels, *x, true) {
            Err(err) => Err(err),
            Ok(a) => if a.ty != 0 {
                Err(LowerError::ExpectInt)
            } else {
                Ok(ExprCode { ops: a.ops.push(IrStmt::Unary(op)), ty: 0, labels: a.labels })
            },
        },
        Expr::Binary(op, l, r) => match lower_expr(env, scopes, labels, *l, true) {
            Err(err) => Err(err),
            Ok(a) => match lower_expr(env, scopes, a.labels, *r, true) {
                Err(err) => Err(err),
                Ok(b) => if !(a.ty == b.ty && (is_equality(op) || a.ty == 0)) {
                    Err(LowerError::IncompatibleBinary)
                } else {
                    Ok(
                        ExprCode {
                            ops: (a.ops + b.ops).push(IrStmt::Binary(op)),
                            ty: 0,
                            labels: b.labels,
                        },
                    )
                },
            },
        },
        Expr::Var(name) => match resolve(env, scopes, name@) {
            None => Err(LowerError::VarUndefined),
            Some((is_glob, v)) => Ok(
                ExprCode { ops: seq![addr_op(is_glob, v)] + load_op(load), ty: v.ty, labels },
            ),
        },
        Expr::Assign(l, r) => if !is_lvalue(*l) {
            Err(LowerError::ExpectLvalue)
        } else {
            match lower_expr(env, scopes, labels, *r, true) {
                Err(err) => Err(err),
                Ok(a) => match lower_expr(env, scopes, a.labels, *l, false) {
                    Err(err) => Err(err),
                    Ok(b) => if a.ty != b.ty {
                        Err(LowerError::IncompatibleAssign)
                    } else {
                        Ok(
                            ExprCode {
                                ops: (a.ops + b.ops).push(IrStmt::Store),
                                ty: a.ty,
                                labels: b.labels,
                            },
                        )
                    },
                },
            }
        },
        Expr::Condition(c, t, f) => match lower_expr(env, scopes, labels, *c, true) {
            Err(err) => Err(err),
            Ok(a) => if a.ty != 0 {
                Err(LowerError::ExpectInt)
            } else if a.labels > u32::MAX - 2 {
                Err(LowerError::LimitExceeded)
            } else {
                let else_label = a.labels;
                let end_label = (a.labels + 1) as u32;
                match lower_expr(env, scopes, (a.labels + 2) as u32, *t, true) {
                    Err(err) => Err(err),
                    Ok(b) => match lower_expr(env, scopes, b.labels, *f, true) {
                        Err(err) => Err(err),
                        Ok(d) => if b.ty != d.ty {
                            Err(LowerError::IncompatibleCondition)
                        } else {
                            Ok(
                                ExprCode {
                                    ops: a.ops.push(IrStmt::Bz(else_label)) + b.ops
                                        + seq![IrStmt::Jump(end_label), IrStmt::Label(else_label)]
                                        + d.ops.push(IrStmt::Label(end_label)),
                                    ty: b.ty,
                                    labels: d.labels,
                                },
                            )
                        },
                    },
                }
            },
        },
        Expr::Call(name, args) => if !env.funcs.contains_key(name@) {
            Err(LowerError::FuncUndefined)
        } else {
            let sig = env.funcs[name@];
            if args@.len() != sig.params.len() {
                Err(LowerError::ArgCountMismatch)
            } else {
                match lower_args(env, scopes, labels, args@, sig.params, args@.len() as int) {
                    Err(err) => Err(err),
                    Ok(a) => Ok(
                        ExprCode {
                            ops: a.ops.push(IrStmt::Call(sig.slot)),
                            ty: sig.ret,
                            labels: a.labels,
                        },
                    ),
                }
            }
        },
        Expr::Deref(x) => match lower_expr(env, scopes, labels, *x, true) {
            Err(err) => Err(err),
            Ok(a) => if a.ty == 0 {
                Err(LowerError::ExpectPointer)
            } else {
                Ok(
                    ExprCode {
                        ops: a.ops + load_op(load),
                        ty: (a.ty - 1) as u32,
                        labels: a.labels,
                    },
                )
            },
        },
        Expr::AddrOf(x) => if !is_lvalue(*x) {
            Err(LowerError::ExpectLvalue)
        } else {
            match lower_expr(env, scopes, labels, *x, false) {
                Err(err) => Err(err),
                Ok(a) => if a.ty == u32::MAX {
                    Err(LowerError::LimitExceeded)
                } else {
                    Ok(ExprCode { ops: a.ops, ty: (a.ty + 1) as u32, labels: a.labels })
                },
            }
        },
        Expr::Cast(ty, x) => match lower_expr(env, scopes, labels, *x, true) {
            Err(err) => Err(err),
            Ok(a) => Ok(ExprCode { ops: a.ops, ty, labels: a.labels }),
        },
        Expr::Index(_, _) => Err(LowerError::ArrayUnsupported),
    }
}

/// Lowers the first `n` arguments of a call, left to right, each as a value
/// of the type of its parameter.
pub open spec fn lower_args(
    env: Env,
    scopes: Seq<Scope>,
    labels: u32,
    args: Seq<Expr>,
    params: Seq<Ty>,
    n: int,
) -> Result<ArgsCode, LowerError>
    decreases args, n,
{
    if n <= 0 || n > args.len() {
        Ok(ArgsCode { ops: Seq::empty(), labels })
    } else {
        match lower_args(env, scopes, labels, args, params, n - 1) {
            Err(err) => Err(err),
            Ok(pre) => match lower_expr(env, scopes, pre.labels, args[n - 1], true) {
                Err(err) => Err(err),
                Ok(a) => if a.ty != params[n - 1] {
                    Err(LowerError::ArgTypeMismatch)
                } else {
                    Ok(ArgsCode { ops: pre.ops + a.ops, labels: a.labels })
                },
            },
        }
    }
}

/// An error among the first `i` arguments is the error of every longer
/// prefix.
pub proof fn lemma_args_error_persists(
    env: Env,
    scopes: Seq<Scope>,
    labels: u32,
    args: Seq<Expr>,
    params: Seq<Ty>,
    i: int,
    n: int,
)
    requires
        0 <= i <= n <= args.len(),
        lower_args(env, scopes, labels, args, params, i) is Err,
    ensures
        lower_args(env, scopes, labels, args, params, n) == lower_args(
            env,
            scopes,
            labels,
            args,
            params,
            i,
        ),
    decreases n - i,
{
    if i < n {
        lemma_args_error_persists(env, scopes, labels, args, params, i, n - 1);
    }
}

/// What changes while the statements of one function are lowered.
pub struct State {
    /// The scopes that are open, outermost first. The outermost holds the
    /// parameters and the top-level locals.
    pub scopes: Seq<Scope>,
    /// For each enclosing loop, outermost first, the label that `break`
    /// jumps to and the label that `continue` jumps to.
    pub loops: Seq<(u32, u32)>,
    /// The next unused variable id. Ids are never given back.
    pub vars: u32,
    /// The next unused label id.
    pub labels: u32,
}

/// The code of a statement and the state after it.
pub struct StmtCode {
    pub ops: Seq<IrStmt>,
    pub st: State,
}

/// The scopes after the innermost one has bound `name`.
pub open spec fn declare(scopes: Seq<Scope>, name: Seq<char>, v: VarInfo) -> Seq<Scope> {
    scopes.drop_last().push(scopes.last().insert(name, v))
}

/// Lowers a declaration: the variable takes the next id in the innermost
/// scope, and an initialiser is assigned to it like an assignment whose
/// value is discarded. The initialiser already sees the new variable.
pub open spec fn lower_decl(env: Env, st: State, d: Decl) -> Result<StmtCode, LowerError> {
    if d.dims@.len() != 0 {
        Err(LowerError::ArrayUnsupported)
    } else if st.scopes.last().contains_key(d.name@) {
        Err(LowerError::VarRedefined)
    } else if st.vars == u32::MAX {
        Err(LowerError::LimitExceeded)
    } else {
        let id = st.vars;
        let scopes = declare(st.scopes, d.name@, VarInfo { id, ty: d.ty });
        let vars = (id + 1) as u32;
        match d.init {
            None => Ok(
                StmtCode {
                    ops: Seq::empty(),
                    st: State { scopes, loops: st.loops, vars, labels: st.labels },
                },
            ),
            Some(x) => match lower_expr(env, scopes, st.labels, x, true) {
                Err(err) => Err(err),
                Ok(a) => if a.ty != d.ty {
                    Err(LowerError::IncompatibleInit)
                } else {
                    Ok(
                        StmtCode {
                            ops: a.ops + seq![IrStmt::LocalAddr(id), IrStmt::Store, IrStmt::Pop],
                            st: State { scopes, loops: st.loops, vars, labels: a.labels },
                        },
                    )
                },
            },
        }
    }
}

/// The state with another label counter.
pub open spec fn with_labels(st: State, labels: u32) -> State {
    State { scopes: st.scopes, loops: st.loops, vars: st.vars, labels }
}

/// The state inside a loop whose `break` and `continue` targets are given.
pub open spec fn enter_loop(st: State, labels: u32, brk: u32, cont: u32) -> State {
    State { scopes: st.scopes, loops: st.loops.push((brk, cont)), vars: st.vars, labels }
}

/// The state after the innermost loop has ended.
pub open spec fn leave_loop(st: State, labels: u32) -> State {
    State { scopes: st.scopes, loops: st.loops.drop_last(), vars: st.vars, labels }
}

/// Lowers a statement of a function that returns `ret`.
pub open spec fn lower_stmt(env: Env, ret: Ty, st: State, s: Stmt) -> Result<StmtCode, LowerError>
    decreases s,
{
    match s {
        Stmt::Empty => Ok(StmtCode { ops: Seq::empty(), st }),
        Stmt::Ret(e) => match lower_expr(env, st.scopes, st.labels, e, true) {
            Err(err) => Err(err),
            Ok(a) => if a.ty != ret {
                Err(LowerError::IncompatibleReturn)
            } else {
                Ok(StmtCode { ops: a.ops.push(IrStmt::Ret), st: with_labels(st, a.labels) })
            },
        },
        Stmt::Decl(d) => lower_decl(env, st, d),
        Stmt::Expr(e) => match lower_expr(env, st.scopes, st.labels, e, true) {
            Err(err) => Err(err),
            Ok(a) => Ok(StmtCode { ops: a.ops.push(IrStmt::Pop), st: with_labels(st, a.labels) }),
        },
        Stmt::If(c, t, f) => match lower_expr(env, st.scopes, st.labels, c, true) {
            Err(err) => Err(err),
            Ok(a) => if a.ty != 0 {
                Err(LowerError::ExpectInt)
            } else if a.labels > u32::MAX - 2 {
                Err(LowerError::LimitExceeded)
            } else {
                let else_label = a.labels;
                let end_label = (a.labels + 1) as u32;
                match lower_stmt(env, ret, with_labels(st, (a.labels + 2) as u32), *t) {
                    Err(err) => Err(err),
                    Ok(b) => {
                        let head = a.ops.push(IrStmt::Bz(else_label)) + b.ops
                            + seq![IrStmt::Jump(end_label), IrStmt::Label(else_label)];
                        match f {
                            None => Ok(
                                StmtCode { ops: head.push(IrStmt::Label(end_label)), st: b.st },
                            ),
                            Some(fb) => match lower_stmt(env, ret, b.st, *fb) {
                                Err(err) => Err(err),
                                Ok(d) => Ok(
                                    StmtCode {
                                        ops: head + d.ops.push(IrStmt::Label(end_label)),
                                        st: d.st,
                                    },
                                ),
                            },
                        }
                    },
                }
            },
        },
        Stmt::Block(ss) => {
            let inner = State {
                scopes: st.scopes.push(Map::empty()),
                loops: st.loops,
                vars: st.vars,
                labels: st.labels,
            };
            match lower_stmts(env, ret, inner, ss@, ss@.len() as int) {
                Err(err) => Err(err),
                Ok(b) => Ok(
                    StmtCode {
                        ops: b.ops,
                        st: State {
                            scopes: b.st.scopes.drop_last(),
                            loops: b.st.loops,
                            vars: b.st.vars,
                            labels: b.st.labels,
                        },
                    },
                ),
            }
        },
        Stmt::DoWhile(body, cond) => if st.labels > u32::MAX - 3 {
            Err(LowerError::LimitExceeded)
        } else {
            let body_label = st.labels;
            let cond_label = (st.labels + 1) as u32;
            let end_label = (st.labels + 2) as u32;
            match lower_stmt(
                env,
                ret,
                enter_loop(st, (st.labels + 3) as u32, end_label, cond_label),
                *body,
            ) {
                Err(err) => Err(err),
                Ok(b) => match lower_expr(env, b.st.scopes, b.st.labels, cond, true) {
                    Err(err) => Err(err),
                    Ok(c) => if c.ty != 0 {
                        Err(LowerError::ExpectInt)
                    } else {
                        Ok(
                            StmtCode {
                                ops: seq![IrStmt::Label(body_label)] + b.ops.push(
                                    IrStmt::Label(cond_label),
                                ) + c.ops + seq![
                                    IrStmt::Bnz(body_label),
                                    IrStmt::Label(end_label),
                                ],
                                st: leave_loop(b.st, c.labels),
                            },
                        )
                    },
                },
            }
        },
        Stmt::For { cond, update, body } => if st.labels > u32::MAX - 3 {
            Err(LowerError::LimitExceeded)
        } else {
            let cond_label = st.labels;
            let update_label = (st.labels + 1) as u32;
            let end_label = (st.labels + 2) as u32;
            let entered = enter_loop(st, (st.labels + 3) as u32, end_label, update_label);
            match lower_guard(env, entered.scopes, entered.labels, cond, end_label) {
                Err(err) => Err(err),
                Ok(c) => match lower_stmt(env, ret, with_labels(entered, c.labels), *body) {
                    Err(err) => Err(err),
                    Ok(b) => match lower_update(env, b.st.scopes, b.st.labels, update) {
                        Err(err) => Err(err),
                        Ok(u) => Ok(
                            StmtCode {
                                ops: seq![IrStmt::Label(cond_label)] + c.ops + b.ops.push(
                                    IrStmt::Label(update_label),
                                ) + u.ops + seq![
                                    IrStmt::Jump(cond_label),
                                    IrStmt::Label(end_label),
                                ],
                                st: leave_loop(b.st, u.labels),
                            },
                        )
                    },
                },
            }
        },
        Stmt::Continue => if st.loops.len() == 0 {
            Err(LowerError::ContinueOutsideLoop)
        } else {
            Ok(StmtCode { ops: seq![IrStmt::Jump(st.loops.last().1)], st })
        },
        Stmt::Break => if st.loops.len() == 0 {
            Err(LowerError::BreakOutsideLoop)
        } else {
            Ok(StmtCode { ops: seq![IrStmt::Jump(st.loops.last().0)], st })
        },
    }
}

/// The test at the head of a `for` loop: the condition as an integer and a
/// branch to `end_label` when it is zero; nothing for an absent condition,
/// which never leaves the loop.
pub open spec fn lower_guard(
    env: Env,
    scopes: Seq<Scope>,
    labels: u32,
    cond: Option<Expr>,
    end_label: u32,
) -> Result<ArgsCode, LowerError> {
    match cond {
        None => Ok(ArgsCode { ops: Seq::empty(), labels }),
        Some(c) => match lower_expr(env, scopes, labels, c, true) {
            Err(err) => Err(err),
            Ok(a) => if a.ty != 0 {
                Err(LowerError::ExpectInt)
            } else {
                Ok(ArgsCode { ops: a.ops.push(IrStmt::Bz(end_label)), labels: a.labels })
            },
        },
    }
}

/// The update of a `for` loop: the expression, its value discarded; nothing
/// for an absent update.
pub open spec fn lower_update(env: Env, scopes: Seq<Scope>, labels: u32, update: Option<Expr>)
    -> Result<ArgsCode, LowerError> {
    match update {
        None => Ok(ArgsCode { ops: Seq::empty(), labels }),
        Some(u) => match lower_expr(env, scopes, labels, u, true) {
            Err(err) => Err(err),
            Ok(a) => Ok(ArgsCode { ops: a.ops.push(IrStmt::Pop), labels: a.labels }),
        },
    }
}

/// Lowers the first `n` statements of a list, in order.
pub open spec fn lower_stmts(env: Env, ret: Ty, st: State, ss: Seq<Stmt>, n: int) -> Result<
    StmtCode,
    LowerError,
>
    decreases ss, n,
{
    if n <= 0 || n > ss.len() {
        Ok(StmtCode { ops: Seq::empty(), st })
    } else {
        match lower_stmts(env, ret, st, ss, n - 1) {
            Err(err) => Err(err),
            Ok(pre) => match lower_stmt(env, ret, pre.st, ss[n - 1]) {
                Err(err) => Err(err),
                Ok(b) => Ok(StmtCode { ops: pre.ops + b.ops, st: b.st }),
            },
        }
    }
}

/// An error among the first `i` statements is the error of every longer
/// prefix.
pub proof fn lemma_stmts_error_persists(
    env: Env,
    ret: Ty,
    st: State,
    ss: Seq<Stmt>,
    i: int,
    n: int,
)
    requires
        0 <= i <= n <= ss.len(),
        lower_stmts(env, ret, st, ss, i) is Err,
    ensures
        lower_stmts(env, ret, st, ss, n) == lower_stmts(env, ret, st, ss, i),
    decreases n - i,
{
    if i < n {
        lemma_stmts_error_persists(env, ret, st, ss, i, n - 1);
    }
}

/// The state in which the lowering of a function starts: one empty scope,
/// no loop, and both counters at zero.
pub open spec fn initial_state() -> State {
    State { scopes: seq![Map::empty()], loops: Seq::empty(), vars: 0, labels: 0 }
}

/// Declares the first `n` parameters, in order. A parameter may not carry
/// an initialiser.
pub open spec fn lower_params(env: Env, params: Seq<Decl>, n: int) -> Result<State, LowerError>
    decreases n,
{
    if n <= 0 || n > params.len() {
        Ok(initial_state())
    } else {
        match lower_params(env, params, n - 1) {
            Err(err) => Err(err),
            Ok(st) => if params[n - 1].init is Some {
                Err(LowerError::ParamHasInit)
            } else {
                match lower_decl(env, st, params[n - 1]) {
                    Err(err) => Err(err),
                    Ok(c) => Ok(c.st),
                }
            },
        }
    }
}

/// An error among the first `i` parameters is the error of every longer
/// prefix.
pub proof fn lemma_params_error_persists(env: Env, params: Seq<Decl>, i: int, n: int)
    requires
        0 <= i <= n <= params.len(),
        lower_params(env, params, i) is Err,
    ensures
        lower_params(env, params, n) == lower_params(env, params, i),
    decreases n - i,
{
    if i < n {
        lemma_params_error_persists(env, params, i, n - 1);
    }
}

/// Lowers the body of a function in the scope of its parameters. A
/// prototype has no statements.
pub open spec fn lower_body(env: Env, ret: Ty, st: State, stmts: Option<Vec<Stmt>>) -> Result<
    StmtCode,
    LowerError,
> {
    match stmts {
        None => Ok(StmtCode { ops: Seq::empty(), st }),
        Some(ss) => lower_stmts(env, ret, st, ss@, ss@.len() as int),
    }
}

/// Code that does not end in `Ret` is closed by a return of zero.
pub open spec fn close_body(ops: Seq<IrStmt>) -> Seq<IrStmt> {
    if ops.len() > 0 && ops.last() == IrStmt::Ret {
        ops
    } else {
        ops + seq![IrStmt::Const(0), IrStmt::Ret]
    }
}

/// Lowers a function. The parameters take the ids from zero in the order
/// of their declaration; the locals follow.
pub open spec fn lower_func(env: Env, f: Func) -> Result<IrFuncView, LowerError> {
    match lower_params(env, f.params@, f.params@.len() as int) {
        Err(err) => Err(err),
        Ok(st) => match lower_body(env, f.ret, st, f.stmts) {
            Err(err) => Err(err),
            Ok(b) => Ok(
                IrFuncView {
                    name: f.name@,
                    param_cnt: f.params@.len() as u32,
                    var_cnt: (b.st.vars - f.params@.len()) as u32,
                    stmts: close_body(b.ops),
                },
            ),
        },
    }
}

/// The table of globals and their initial values, in declaration order.
pub struct GlobTable {
    pub map: Scope,
    pub inits: Seq<GlobView>,
}

/// The initial word of a global: its integer literal, zero if it has none.
pub open spec fn glob_init(init: Option<Expr>) -> Option<i32> {
    match init {
        None => Some(0),
        Some(Expr::Int(x)) => Some(x),
        Some(_) => None,
    }
}

/// Registers the first `n` globals. The id of a global is its position.
pub open spec fn register_globs(globs: Seq<Decl>, n: int) -> Result<GlobTable, LowerError>
    decreases n,
{
    if n <= 0 || n > globs.len() {
        Ok(GlobTable { map: Map::empty(), inits: Seq::empty() })
    } else {
        match register_globs(globs, n - 1) {
            Err(err) => Err(err),
            Ok(t) => {
                let d = globs[n - 1];
                if d.dims@.len() != 0 {
                    Err(LowerError::ArrayUnsupported)
                } else if glob_init(d.init) is None {
                    Err(LowerError::GlobalInitNotConst)
                } else if t.map.contains_key(d.name@) {
                    Err(LowerError::GlobalRedefined)
                } else if t.inits.len() >= u32::MAX {
                    Err(LowerError::LimitExceeded)
                } else {
                    Ok(
                        GlobTable {
                            map: t.map.insert(
                                d.name@,
                                VarInfo { id: t.inits.len() as u32, ty: d.ty },
                            ),
                            inits: t.inits.push(
                                GlobView { name: d.name@, init: Ok(glob_init(d.init).unwrap()) },
                            ),
                        },
                    )
                }
            },
        }
    }
}

/// An error among the first `i` globals is the error of every longer
/// prefix.
pub proof fn lemma_globs_error_persists(globs: Seq<Decl>, i: int, n: int)
    requires
        0 <= i <= n <= globs.len(),
        register_globs(globs, i) is Err,
    ensures
        register_globs(globs, n) == register_globs(globs, i),
    decreases n - i,
{
    if i < n {
        lemma_globs_error_persists(globs, i, n - 1);
    }
}

/// The function table and the number of slots given out.
pub struct FuncTable {
    pub map: Map<Seq<char>, FuncSigView>,
    pub count: u32,
}

/// The types of a list of parameters.
pub open spec fn param_types(params: Seq<Decl>) -> Seq<Ty> {
    params.map_values(|d: Decl| d.ty)
}

/// Registers the first `n` functions. The first occurrence of a name
/// claims the next slot. A later one must repeat the signature, and at
/// most one occurrence of a name may be a definition.
pub open spec fn register_funcs(globs: Scope, funcs: Seq<Func>, n: int) -> Result<
    FuncTable,
    LowerError,
>
    decreases n,
{
    if n <= 0 || n > funcs.len() {
        Ok(FuncTable { map: Map::empty(), count: 0 })
    } else {
        match register_funcs(globs, funcs, n - 1) {
            Err(err) => Err(err),
            Ok(t) => {
                let f = funcs[n - 1];
                if globs.contains_key(f.name@) {
                    Err(LowerError::GlobalFunctionConflict)
                } else if !t.map.contains_key(f.name@) {
                    if t.count == u32::MAX {
                        Err(LowerError::LimitExceeded)
                    } else {
                        Ok(
                            FuncTable {
                                map: t.map.insert(
                                    f.name@,
                                    FuncSigView {
                                        slot: t.count,
                                        ret: f.ret,
                                        params: param_types(f.params@),
                                        defined: f.stmts is Some,
                                    },
                                ),
                                count: (t.count + 1) as u32,
                            },
                        )
                    }
                } else {
                    let old = t.map[f.name@];
                    if (old.defined && f.stmts is Some) || old.ret != f.ret || old.params
                        != param_types(f.params@) {
                        Err(LowerError::FunctionConflict)
                    } else if f.stmts is Some {
                        Ok(
                            FuncTable {
                                map: t.map.insert(
                                    f.name@,
                                    FuncSigView {
                                        slot: old.slot,
                                        ret: old.ret,
                                        params: old.params,
                                        defined: true,
                                    },
                                ),
                                count: t.count,
                            },
                        )
                    } else {
                        Ok(t)
                    }
                }
            },
        }
    }
}

/// An error among the first `i` functions is the error of every longer
/// prefix.
pub proof fn lemma_funcs_error_persists(globs: Scope, funcs: Seq<Func>, i: int, n: int)
    requires
        0 <= i <= n <= funcs.len(),
        register_funcs(globs, funcs, i) is Err,
    ensures
        register_funcs(globs, funcs, n) == register_funcs(globs, funcs, i),
    decreases n - i,
{
    if i < n {
        lemma_funcs_error_persists(globs, funcs, i, n - 1);
    }
}

/// Every function among the first `n` is in the table that registering
/// them gives, with the number of parameters it declares, and its slot has
/// been given out.
pub proof fn lemma_registered(globs: Scope, funcs: Seq<Func>, n: int, j: int)
    requires
        0 <= j < n <= funcs.len(),
        register_funcs(globs, funcs, n) is Ok,
    ensures
        register_funcs(globs, funcs, n).unwrap().map.contains_key(funcs[j].name@),
        register_funcs(globs, funcs, n).unwrap().map[funcs[j].name@].params == param_types(
            funcs[j].params@,
        ),
        register_funcs(globs, funcs, n).unwrap().map[funcs[j].name@].slot
            < register_funcs(globs, funcs, n).unwrap().count,
    decreases n,
{
    let t = register_funcs(globs, funcs, n - 1).unwrap();
    if j < n - 1 {
        lemma_registered(globs, funcs, n - 1, j);
    }
    lemma_slots_given(globs, funcs, n - 1);
}

/// Every slot in the table has been given out.
pub proof fn lemma_slots_given(globs: Scope, funcs: Seq<Func>, n: int)
    requires
        0 <= n <= funcs.len(),
        register_funcs(globs, funcs, n) is Ok,
    ensures
        forall|name: Seq<char>|
            #![trigger register_funcs(globs, funcs, n).unwrap().map[name]]
            register_funcs(globs, funcs, n).unwrap().map.contains_key(name)
                ==> register_funcs(globs, funcs, n).unwrap().map[name].slot < register_funcs(
                globs,
                funcs,
                n,
            ).unwrap().count,
    decreases n,
{
    if n > 0 {
        lemma_slots_given(globs, funcs, n - 1);
    }
}

/// Lowers the first `n` functions into their slots. The first occurrence
/// of a name fills its slot, with an empty body if it is a prototype; a
/// definition that follows replaces it. A prototype that follows is not
/// lowered: only its signature counted, when the table was built.
pub open spec fn lower_bodies(env: Env, funcs: Seq<Func>, n: int) -> Result<
    Seq<IrFuncView>,
    LowerError,
>
    decreases n,
{
    if n <= 0 || n > funcs.len() {
        Ok(Seq::empty())
    } else {
        match lower_bodies(env, funcs, n - 1) {
            Err(err) => Err(err),
            Ok(out) => {
                let slot = env.funcs[funcs[n - 1].name@].slot as int;
                if slot < out.len() && funcs[n - 1].stmts is None {
                    Ok(out)
                } else {
                    match lower_func(env, funcs[n - 1]) {
                        Err(err) => Err(err),
                        Ok(g) => if slot >= out.len() {
                            Ok(out.push(g))
                        } else {
                            Ok(out.update(slot, g))
                        },
                    }
                }
            },
        }
    }
}

/// An error among the first `i` bodies is the error of every longer prefix.
pub proof fn lemma_bodies_error_persists(env: Env, funcs: Seq<Func>, i: int, n: int)
    requires
        0 <= i <= n <= funcs.len(),
        lower_bodies(env, funcs, i) is Err,
    ensures
        lower_bodies(env, funcs, n) == lower_bodies(env, funcs, i),
    decreases n - i,
{
    if i < n {
        lemma_bodies_error_persists(env, funcs, i, n - 1);
    }
}

/// Lowers a program: the globals are registered first, then the
/// functions, and only then are the bodies lowered, so that a body may
/// refer to any global and any function of the program.
pub open spec fn lower_prog(p: Prog) -> Result<IrProgView, LowerError> {
    match register_globs(p.globs@, p.globs@.len() as int) {
        Err(err) => Err(err),
        Ok(g) => match register_funcs(g.map, p.funcs@, p.funcs@.len() as int) {
            Err(err) => Err(err),
            Ok(t) => match lower_bodies(
                Env { globs: g.map, funcs: t.map },
                p.funcs@,
                p.funcs@.len() as int,
            ) {
                Err(err) => Err(err),
                Ok(funcs) => Ok(IrProgView { funcs, globs: g.inits }),
            },
        },
    }
}

} // verus!
