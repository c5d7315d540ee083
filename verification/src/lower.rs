//! Lowering of a syntax tree into the stack-machine IR.
//!
//! One recursive descent over each function resolves names, checks types
//! and emits code. What it produces is fixed by the functions of
//! [`crate::lowering`].

use vstd::prelude::*;
use crate::ast::{BinaryOp, Decl, Expr, Func, Prog, Stmt, Ty};
use crate::error::LowerError;
use crate::ir::{glob_view, IrFunc, IrProg, IrStmt};
use crate::program_proof::{lemma_lowered_program, program_sound};
use crate::symtab::{FuncMap, FuncSig, SymbolMap, VarInfo};
use crate::lowering::{
    declare, enter_loop, is_lvalue, lemma_args_error_persists, lemma_bodies_error_persists,
    lemma_funcs_error_persists, lemma_globs_error_persists, lemma_params_error_persists,
    lemma_registered, lemma_stmts_error_persists, lookup_local, lower_args, lower_bodies,
    lower_body, lower_decl, lower_expr, lower_func, lower_guard, lower_params, lower_stmt,
    lower_stmts, lower_update, param_types, register_funcs, register_globs, resolve,
    with_labels, Env, ExprCode, FuncTable, GlobTable, Scope, State, StmtCode,
};

verus! {

/// What is kept while one function is lowered.
pub struct FuncCtx<'a> {
    /// One mapping per open block, innermost last.
    pub names: Vec<SymbolMap>,
    /// The code emitted so far.
    pub stmts: Vec<IrStmt>,
    /// For each enclosing loop the targets of `break` and `continue`.
    pub loops: Vec<(u32, u32)>,
    pub funcs: &'a FuncMap,
    pub globs: &'a SymbolMap,
    /// The return type of the function.
    pub ret: Ty,
    /// The next unused variable id.
    pub var_cnt: u32,
    /// The next unused label id.
    pub label_cnt: u32,
}

impl<'a> FuncCtx<'a> {
    /// The open scopes as mappings.
    pub open spec fn scopes(&self) -> Seq<Scope> {
        self.names@.map_values(|m: SymbolMap| m@)
    }

    /// The whole-program tables.
    pub open spec fn env(&self) -> Env {
        Env { globs: self.globs@, funcs: self.funcs@ }
    }

    /// The state of the lowering.
    pub open spec fn state(&self) -> State {
        State {
            scopes: self.scopes(),
            loops: self.loops@,
            vars: self.var_cnt,
            labels: self.label_cnt,
        }
    }

    /// Whether `post` differs from `self` at most in the emitted code and
    /// the label counter.
    pub open spec fn same_frame(&self, post: &FuncCtx<'a>) -> bool {
        &&& post.names == self.names
        &&& post.loops == self.loops
        &&& post.funcs == self.funcs
        &&& post.globs == self.globs
        &&& post.ret == self.ret
        &&& post.var_cnt == self.var_cnt
    }

    /// Takes the next label id.
    pub fn new_label(&mut self) -> (r: Result<u32, LowerError>)
        ensures
            old(self).same_frame(final(self)),
            final(self).stmts == old(self).stmts,
            match r {
                Ok(l) => l == old(self).label_cnt && final(self).label_cnt == l + 1,
                Err(e) => e == LowerError::LimitExceeded && old(self).label_cnt == u32::MAX
                    && final(self).label_cnt == u32::MAX,
            },
    {
        let l = self.label_cnt;
        if l == u32::MAX {
            return Err(LowerError::LimitExceeded);
        }
        self.label_cnt = l + 1;
        Ok(l)
    }

    /// Resolves a variable: the innermost scope that declares the name
    /// wins, and the globals come last. The flag tells whether the variable
    /// is a global.
    pub fn lookup(&self, name: &String) -> (r: Result<(bool, VarInfo), LowerError>)
        ensures
            r == match resolve(self.env(), self.scopes(), name@) {
                Some(x) => Ok::<(bool, VarInfo), LowerError>(x),
                None => Err::<(bool, VarInfo), LowerError>(LowerError::VarUndefined),
            },
    {
        let mut i: usize = self.names.len();
        assert(self.scopes().take(i as int) =~= self.scopes());
        while i > 0
            invariant
                i <= self.names.len(),
                lookup_local(self.scopes(), name@) == lookup_local(
                    self.scopes().take(i as int),
                    name@,
                ),
            decreases i,
        {
            i -= 1;
            assert(self.scopes().take(i + 1).drop_last() =~= self.scopes().take(i as int));
            assert(self.scopes().take(i + 1).last() == self.names[i as int]@);
            match self.names[i].get(name) {
                Some(v) => {
                    return Ok((false, v));
                },
                None => {},
            }
        }
        match self.globs.get(name) {
            Some(v) => Ok((true, v)),
            None => Err(LowerError::VarUndefined),
        }
    }
}

/// How a call of [`expr`] relates the context before and after to what the
/// expression lowers to.
pub open spec fn expr_post(
    pre: &FuncCtx,
    post: &FuncCtx,
    r: Result<Ty, LowerError>,
    m: Result<ExprCode, LowerError>,
) -> bool {
    match m {
        Ok(c) => {
            &&& r == Ok::<Ty, LowerError>(c.ty)
            &&& post.stmts@ == pre.stmts@ + c.ops
            &&& post.label_cnt == c.labels
            &&& pre.same_frame(post)
        },
        Err(e) => r == Err::<Ty, LowerError>(e),
    }
}

/// Requires an integer type.
pub fn ck_int(ty: Ty) -> (r: Result<(), LowerError>)
    ensures
        r == if ty == 0 {
            Ok::<(), LowerError>(())
        } else {
            Err::<(), LowerError>(LowerError::ExpectInt)
        },
{
    if ty == 0 {
        Ok(())
    } else {
        Err(LowerError::ExpectInt)
    }
}

/// Requires an lvalue: a variable or a dereference.
pub fn ck_lvalue(e: &Expr) -> (r: Result<(), LowerError>)
    ensures
        r == if is_lvalue(*e) {
            Ok::<(), LowerError>(())
        } else {
            Err::<(), LowerError>(LowerError::ExpectLvalue)
        },
{
    match e {
        Expr::Var(_) => Ok(()),
        Expr::Deref(_) => Ok(()),
        _ => Err(LowerError::ExpectLvalue),
    }
}

/// Lowers an expression: appends its code to the context and returns its
/// type. The code leaves one cell on the operand stack: the value of the
/// expression or, for an lvalue when `load` is false, its address.
#[verifier::rlimit(40)]
pub fn expr(ctx: &mut FuncCtx, e: &Expr, load: bool) -> (r: Result<Ty, LowerError>)
    ensures
        expr_post(
            old(ctx),
            final(ctx),
            r,
            lower_expr(old(ctx).env(), old(ctx).scopes(), old(ctx).label_cnt, *e, load),
        ),
    decreases *e,
{
    let ghost env = ctx.env();
    let ghost scopes = ctx.scopes();
    let ghost before = ctx.stmts@;
    match e {
        Expr::Int(x) => {
            ctx.stmts.push(IrStmt::Const(*x));
            assert(ctx.stmts@ =~= before + seq![IrStmt::Const(*x)]);
            Ok(0)
        },
        Expr::Unary(op, x) => {
            let ty = expr(ctx, x, true)?;
            ck_int(ty)?;
            ctx.stmts.push(IrStmt::Unary(*op));
            Ok(0)
        },
        Expr::Binary(op, l, r) => {
            let ty1 = expr(ctx, l, true)?;
            let ghost a = lower_expr(env, scopes, old(ctx).label_cnt, **l, true).unwrap();
            let ty2 = expr(ctx, r, true)?;
            let ghost b = lower_expr(env, scopes, a.labels, **r, true).unwrap();
            let equality = match op {
                BinaryOp::Eq => true,
                BinaryOp::Ne => true,
                _ => false,
            };
            if !(ty1 == ty2 && (equality || ty1 == 0)) {
                return Err(LowerError::IncompatibleBinary);
            }
            ctx.stmts.push(IrStmt::Binary(*op));
            assert(ctx.stmts@ =~= before + (a.ops + b.ops).push(IrStmt::Binary(*op)));
            Ok(0)
        },
        Expr::Var(name) => {
            let (is_glob, v) = ctx.lookup(name)?;
            ctx.stmts.push(
                if is_glob {
                    IrStmt::GlobAddr(v.id)
                } else {
                    IrStmt::LocalAddr(v.id)
                },
            );
            if load {
                ctx.stmts.push(IrStmt::Load);
            }
            assert(ctx.stmts@ =~= before + (seq![crate::lowering::addr_op(is_glob, v)]
                + crate::lowering::load_op(load)));
            Ok(v.ty)
        },
        Expr::Assign(l, r) => {
            ck_lvalue(l)?;
            let ty1 = expr(ctx, r, true)?;
            let ghost a = lower_expr(env, scopes, old(ctx).label_cnt, **r, true).unwrap();
            let ty2 = expr(ctx, l, false)?;
            let ghost b = lower_expr(env, scopes, a.labels, **l, false).unwrap();
            if ty1 != ty2 {
                return Err(LowerError::IncompatibleAssign);
            }
            ctx.stmts.push(IrStmt::Store);
            assert(ctx.stmts@ =~= before + (a.ops + b.ops).push(IrStmt::Store));
            Ok(ty1)
        },
        Expr::Condition(c, t, f) => {
            let ty0 = expr(ctx, c, true)?;
            let ghost a = lower_expr(env, scopes, old(ctx).label_cnt, **c, true).unwrap();
            ck_int(ty0)?;
            let else_label = ctx.new_label()?;
            let end_label = ctx.new_label()?;
            ctx.stmts.push(IrStmt::Bz(else_label));
            let ty1 = expr(ctx, t, true)?;
            let ghost b = lower_expr(env, scopes, (a.labels + 2) as u32, **t, true).unwrap();
            ctx.stmts.push(IrStmt::Jump(end_label));
            ctx.stmts.push(IrStmt::Label(else_label));
            let ty2 = expr(ctx, f, true)?;
            let ghost d = lower_expr(env, scopes, b.labels, **f, true).unwrap();
            if ty1 != ty2 {
                return Err(LowerError::IncompatibleCondition);
            }
            ctx.stmts.push(IrStmt::Label(end_label));
            assert(ctx.stmts@ =~= before + (a.ops.push(IrStmt::Bz(else_label)) + b.ops
                + seq![IrStmt::Jump(end_label), IrStmt::Label(else_label)] + d.ops.push(
                IrStmt::Label(end_label),
            )));
            Ok(ty1)
        },
        Expr::Call(name, args) => {
            let funcs = ctx.funcs;
            let sig = match funcs.get(name) {
                Some(sig) => sig,
                None => {
                    return Err(LowerError::FuncUndefined);
                },
            };
            if args.len() != sig.params.len() {
                return Err(LowerError::ArgCountMismatch);
            }
            let mut i: usize = 0;
            while i < args.len()
                invariant
                    i <= args.len(),
                    args.len() == sig.params.len(),
                    *e == Expr::Call(*name, *args),
                    env.funcs.contains_key(name@),
                    env.funcs[name@] == sig@,
                    env == old(ctx).env(),
                    scopes == old(ctx).scopes(),
                    before == old(ctx).stmts@,
                    old(ctx).same_frame(ctx),
                    match lower_args(
                        env,
                        scopes,
                        old(ctx).label_cnt,
                        args@,
                        sig.params@,
                        i as int,
                    ) {
                        Ok(pre) => ctx.stmts@ == before + pre.ops && ctx.label_cnt == pre.labels,
                        Err(_) => false,
                    },
                decreases args.len() - i,
            {
                let ghost pre = lower_args(
                    env,
                    scopes,
                    old(ctx).label_cnt,
                    args@,
                    sig.params@,
                    i as int,
                ).unwrap();
                let ghost mid = ctx.stmts@;
                proof {
                    if lower_args(env, scopes, old(ctx).label_cnt, args@, sig.params@, i + 1)
                        is Err {
                        lemma_args_error_persists(
                            env,
                            scopes,
                            old(ctx).label_cnt,
                            args@,
                            sig.params@,
                            i + 1,
                            args@.len() as int,
                        );
                    }
                }
                let ty = expr(ctx, &args[i], true)?;
                let ghost a = lower_expr(env, scopes, pre.labels, args@[i as int], true).unwrap();
                if ty != sig.params[i] {
                    return Err(LowerError::ArgTypeMismatch);
                }
                assert(ctx.stmts@ =~= before + (pre.ops + a.ops));
                i += 1;
            }
            ctx.stmts.push(IrStmt::Call(sig.slot));
            Ok(sig.ret)
        },
        Expr::Deref(x) => {
            let ty = expr(ctx, x, true)?;
            let ghost a = lower_expr(env, scopes, old(ctx).label_cnt, **x, true).unwrap();
            if ty == 0 {
                return Err(LowerError::ExpectPointer);
            }
            if load {
                ctx.stmts.push(IrStmt::Load);
            }
            assert(ctx.stmts@ =~= before + (a.ops + crate::lowering::load_op(load)));
            Ok(ty - 1)
        },
        Expr::AddrOf(x) => {
            ck_lvalue(x)?;
            let ty = expr(ctx, x, false)?;
            if ty == u32::MAX {
                return Err(LowerError::LimitExceeded);
            }
            Ok(ty + 1)
        },
        Expr::Cast(ty, x) => {
            expr(ctx, x, true)?;
            Ok(*ty)
        },
        Expr::Index(_, _) => Err(LowerError::ArrayUnsupported),
    }
}

/// How a call of [`stmt`] or [`decl`] relates the context before and after
/// to what the statement lowers to.
pub open spec fn stmt_post(
    pre: &FuncCtx,
    post: &FuncCtx,
    r: Result<(), LowerError>,
    m: Result<StmtCode, LowerError>,
) -> bool {
    match m {
        Ok(c) => {
            &&& r is Ok
            &&& post.stmts@ == pre.stmts@ + c.ops
            &&& post.state() == c.st
            &&& post.names.len() == pre.names.len()
            &&& post.loops@ == pre.loops@
            &&& post.var_cnt >= pre.var_cnt
            &&& post.funcs == pre.funcs
            &&& post.globs == pre.globs
            &&& post.ret == pre.ret
        },
        Err(e) => r == Err::<(), LowerError>(e),
    }
}

/// Declares a variable in the innermost scope and assigns its initialiser,
/// if it has one.
pub fn decl(ctx: &mut FuncCtx, d: &Decl) -> (r: Result<(), LowerError>)
    requires
        old(ctx).names.len() > 0,
    ensures
        stmt_post(old(ctx), final(ctx), r, lower_decl(old(ctx).env(), old(ctx).state(), *d)),
{
    let ghost before = ctx.stmts@;
    if d.dims.len() != 0 {
        return Err(LowerError::ArrayUnsupported);
    }
    let n = ctx.names.len();
    assert(ctx.scopes().last() == ctx.names[n - 1]@);
    if ctx.names[n - 1].contains_key(&d.name) {
        return Err(LowerError::VarRedefined);
    }
    let id = ctx.var_cnt;
    if id == u32::MAX {
        return Err(LowerError::LimitExceeded);
    }
    let info = VarInfo { id, ty: d.ty };
    let mut top = ctx.names.pop().unwrap();
    top.insert(d.name.clone(), info);
    ctx.names.push(top);
    ctx.var_cnt = id + 1;
    assert(ctx.scopes() =~= declare(old(ctx).scopes(), d.name@, info));
    match &d.init {
        Some(x) => {
            let ty = expr(ctx, x, true)?;
            let ghost a = lower_expr(ctx.env(), ctx.scopes(), old(ctx).label_cnt, *x, true).unwrap();
            if ty != d.ty {
                return Err(LowerError::IncompatibleInit);
            }
            ctx.stmts.push(IrStmt::LocalAddr(id));
            ctx.stmts.push(IrStmt::Store);
            ctx.stmts.push(IrStmt::Pop);
            assert(ctx.stmts@ =~= before + (a.ops + seq![
                IrStmt::LocalAddr(id),
                IrStmt::Store,
                IrStmt::Pop,
            ]));
        },
        None => {
            assert(ctx.stmts@ =~= before + Seq::<IrStmt>::empty());
        },
    }
    Ok(())
}

/// Lowers an `if` statement, `s`, whose parts are `c`, `t` and `f`.
#[verifier::rlimit(40)]
fn if_stmt(ctx: &mut FuncCtx, s: &Stmt, c: &Expr, t: &Stmt, f: &Option<Box<Stmt>>) -> (r: Result<
    (),
    LowerError,
>)
    requires
        old(ctx).names.len() > 0,
        *s matches Stmt::If(c0, t0, f0) && c0 == *c && *t0 == *t && f0 == *f,
    ensures
        stmt_post(
            old(ctx),
            final(ctx),
            r,
            lower_stmt(old(ctx).env(), old(ctx).ret, old(ctx).state(), *s),
        ),
    decreases *s, 0nat,
{
    let ghost env = ctx.env();
    let ghost st = ctx.state();
    let ghost before = ctx.stmts@;
    let ty = expr(ctx, c, true)?;
    let ghost a = lower_expr(env, st.scopes, st.labels, *c, true).unwrap();
    ck_int(ty)?;
    let else_label = ctx.new_label()?;
    let end_label = ctx.new_label()?;
    ctx.stmts.push(IrStmt::Bz(else_label));
    stmt(ctx, t)?;
    let ghost b = lower_stmt(env, ctx.ret, with_labels(st, (a.labels + 2) as u32), *t).unwrap();
    ctx.stmts.push(IrStmt::Jump(end_label));
    ctx.stmts.push(IrStmt::Label(else_label));
    let ghost head = a.ops.push(IrStmt::Bz(else_label)) + b.ops + seq![
        IrStmt::Jump(end_label),
        IrStmt::Label(else_label),
    ];
    assert(ctx.stmts@ =~= before + head);
    match f {
        Some(fb) => {
            stmt(ctx, fb)?;
            let ghost d = lower_stmt(env, ctx.ret, b.st, **fb).unwrap();
            ctx.stmts.push(IrStmt::Label(end_label));
            assert(ctx.stmts@ =~= before + (head + d.ops.push(IrStmt::Label(end_label))));
        },
        None => {
            ctx.stmts.push(IrStmt::Label(end_label));
            assert(ctx.stmts@ =~= before + head.push(IrStmt::Label(end_label)));
        },
    }
    Ok(())
}

/// Lowers the block `s` of the statements `stmts` in a scope of its own.
#[verifier::rlimit(40)]
fn block(ctx: &mut FuncCtx, s: &Stmt, stmts: &Vec<Stmt>) -> (r: Result<(), LowerError>)
    requires
        old(ctx).names.len() > 0,
        *s == Stmt::Block(*stmts),
    ensures
        stmt_post(
            old(ctx),
            final(ctx),
            r,
            lower_stmt(old(ctx).env(), old(ctx).ret, old(ctx).state(), *s),
        ),
    decreases *s, 0nat,
{
    let ghost env = ctx.env();
    let ghost st = ctx.state();
    let ghost before = ctx.stmts@;
    ctx.names.push(SymbolMap::new());
    let ghost inner = State {
        scopes: st.scopes.push(Map::empty()),
        loops: st.loops,
        vars: st.vars,
        labels: st.labels,
    };
    assert(ctx.scopes() =~= inner.scopes);
    let mut i: usize = 0;
    assert(ctx.stmts@ =~= before + Seq::<IrStmt>::empty());
    while i < stmts.len()
        invariant
            i <= stmts.len(),
            *s == Stmt::Block(*stmts),
            env == ctx.env(),
            env == old(ctx).env(),
            st == old(ctx).state(),
            inner == (State {
                scopes: st.scopes.push(Map::empty()),
                loops: st.loops,
                vars: st.vars,
                labels: st.labels,
            }),
            ctx.ret == old(ctx).ret,
            ctx.funcs == old(ctx).funcs,
            ctx.globs == old(ctx).globs,
            ctx.names.len() == old(ctx).names.len() + 1,
            ctx.loops@ == old(ctx).loops@,
            ctx.var_cnt >= old(ctx).var_cnt,
            before == old(ctx).stmts@,
            match lower_stmts(env, ctx.ret, inner, stmts@, i as int) {
                Ok(pre) => ctx.stmts@ == before + pre.ops && ctx.state() == pre.st,
                Err(_) => false,
            },
        decreases stmts.len() - i,
    {
        let ghost pre = lower_stmts(env, ctx.ret, inner, stmts@, i as int).unwrap();
        proof {
            if lower_stmts(env, ctx.ret, inner, stmts@, i + 1) is Err {
                lemma_stmts_error_persists(env, ctx.ret, inner, stmts@, i + 1, stmts@.len() as int);
            }
        }
        stmt(ctx, &stmts[i])?;
        let ghost b = lower_stmt(env, ctx.ret, pre.st, stmts@[i as int]).unwrap();
        assert(ctx.stmts@ =~= before + (pre.ops + b.ops));
        i += 1;
    }
    ctx.names.pop();
    assert(ctx.scopes() =~= lower_stmts(
        env,
        ctx.ret,
        inner,
        stmts@,
        stmts@.len() as int,
    ).unwrap().st.scopes.drop_last());
    Ok(())
}

/// Lowers the `do`-`while` loop `s` with the given body and condition.
#[verifier::rlimit(40)]
fn do_while(ctx: &mut FuncCtx, s: &Stmt, body: &Stmt, cond: &Expr) -> (r: Result<(), LowerError>)
    requires
        old(ctx).names.len() > 0,
        *s matches Stmt::DoWhile(b0, c0) && *b0 == *body && c0 == *cond,
    ensures
        stmt_post(
            old(ctx),
            final(ctx),
            r,
            lower_stmt(old(ctx).env(), old(ctx).ret, old(ctx).state(), *s),
        ),
    decreases *s, 0nat,
{
    let ghost env = ctx.env();
    let ghost st = ctx.state();
    let ghost before = ctx.stmts@;
    let body_label = ctx.new_label()?;
    let cond_label = ctx.new_label()?;
    let end_label = ctx.new_label()?;
    ctx.loops.push((end_label, cond_label));
    ctx.stmts.push(IrStmt::Label(body_label));
    stmt(ctx, body)?;
    let ghost b = lower_stmt(
        env,
        ctx.ret,
        enter_loop(st, (st.labels + 3) as u32, end_label, cond_label),
        *body,
    ).unwrap();
    ctx.stmts.push(IrStmt::Label(cond_label));
    let ty = expr(ctx, cond, true)?;
    let ghost c = lower_expr(env, b.st.scopes, b.st.labels, *cond, true).unwrap();
    ck_int(ty)?;
    ctx.stmts.push(IrStmt::Bnz(body_label));
    ctx.stmts.push(IrStmt::Label(end_label));
    ctx.loops.pop();
    assert(ctx.stmts@ =~= before + (seq![IrStmt::Label(body_label)] + b.ops.push(
        IrStmt::Label(cond_label),
    ) + c.ops + seq![IrStmt::Bnz(body_label), IrStmt::Label(end_label)]));
    assert(ctx.loops@ =~= b.st.loops.drop_last());
    assert(ctx.loops@ =~= old(ctx).loops@);
    Ok(())
}

/// Lowers the `for` loop `s` with the given condition, update and body.
#[verifier::rlimit(40)]
fn for_loop(
    ctx: &mut FuncCtx,
    s: &Stmt,
    cond: &Option<Expr>,
    update: &Option<Expr>,
    body: &Stmt,
) -> (r: Result<(), LowerError>)
    requires
        old(ctx).names.len() > 0,
        *s matches Stmt::For { cond: c0, update: u0, body: b0 } && c0 == *cond && u0 == *update
            && *b0 == *body,
    ensures
        stmt_post(
            old(ctx),
            final(ctx),
            r,
            lower_stmt(old(ctx).env(), old(ctx).ret, old(ctx).state(), *s),
        ),
    decreases *s, 0nat,
{
    let ghost env = ctx.env();
    let ghost st = ctx.state();
    let ghost before = ctx.stmts@;
    let cond_label = ctx.new_label()?;
    let update_label = ctx.new_label()?;
    let end_label = ctx.new_label()?;
    ctx.loops.push((end_label, update_label));
    ctx.stmts.push(IrStmt::Label(cond_label));
    let ghost entered = enter_loop(st, (st.labels + 3) as u32, end_label, update_label);
    match cond {
        Some(c) => {
            let ty = expr(ctx, c, true)?;
            ck_int(ty)?;
            ctx.stmts.push(IrStmt::Bz(end_label));
        },
        None => {},
    }
    let ghost g = lower_guard(env, entered.scopes, entered.labels, *cond, end_label).unwrap();
    assert(ctx.stmts@ =~= before + (seq![IrStmt::Label(cond_label)] + g.ops));
    stmt(ctx, body)?;
    let ghost b = lower_stmt(env, ctx.ret, with_labels(entered, g.labels), *body).unwrap();
    ctx.stmts.push(IrStmt::Label(update_label));
    let ghost mid = ctx.stmts@;
    match update {
        Some(u) => {
            expr(ctx, u, true)?;
            ctx.stmts.push(IrStmt::Pop);
        },
        None => {},
    }
    let ghost u = lower_update(env, b.st.scopes, b.st.labels, *update).unwrap();
    assert(ctx.stmts@ =~= mid + u.ops);
    ctx.stmts.push(IrStmt::Jump(cond_label));
    ctx.stmts.push(IrStmt::Label(end_label));
    ctx.loops.pop();
    assert(ctx.loops@ =~= b.st.loops.drop_last());
    assert(ctx.loops@ =~= old(ctx).loops@);
    assert(ctx.stmts@ =~= before + (seq![IrStmt::Label(cond_label)] + g.ops + b.ops.push(
        IrStmt::Label(update_label),
    ) + u.ops + seq![IrStmt::Jump(cond_label), IrStmt::Label(end_label)]));
    Ok(())
}

/// Lowers a statement: appends its code to the context. The code leaves
/// the operand stack as deep as it found it.
pub fn stmt(ctx: &mut FuncCtx, s: &Stmt) -> (r: Result<(), LowerError>)
    requires
        old(ctx).names.len() > 0,
    ensures
        stmt_post(
            old(ctx),
            final(ctx),
            r,
            lower_stmt(old(ctx).env(), old(ctx).ret, old(ctx).state(), *s),
        ),
    decreases *s, 1nat,
{
    let ghost before = ctx.stmts@;
    match s {
        Stmt::Empty => {
            assert(ctx.stmts@ =~= before + Seq::<IrStmt>::empty());
            Ok(())
        },
        Stmt::Ret(e) => {
            let ty = expr(ctx, e, true)?;
            if ty != ctx.ret {
                return Err(LowerError::IncompatibleReturn);
            }
            ctx.stmts.push(IrStmt::Ret);
            Ok(())
        },
        Stmt::Decl(d) => decl(ctx, d),
        Stmt::Expr(e) => {
            expr(ctx, e, true)?;
            ctx.stmts.push(IrStmt::Pop);
            Ok(())
        },
        Stmt::If(c, t, f) => if_stmt(ctx, s, c, t, f),
        Stmt::Block(stmts) => block(ctx, s, stmts),
        Stmt::DoWhile(body, cond) => do_while(ctx, s, body, cond),
        Stmt::For { cond, update, body } => for_loop(ctx, s, cond, update, body),
        Stmt::Continue => {
            let n = ctx.loops.len();
            if n == 0 {
                return Err(LowerError::ContinueOutsideLoop);
            }
            let target = ctx.loops[n - 1].1;
            ctx.stmts.push(IrStmt::Jump(target));
            assert(ctx.stmts@ =~= before + seq![IrStmt::Jump(target)]);
            Ok(())
        },
        Stmt::Break => {
            let n = ctx.loops.len();
            if n == 0 {
                return Err(LowerError::BreakOutsideLoop);
            }
            let target = ctx.loops[n - 1].0;
            ctx.stmts.push(IrStmt::Jump(target));
            assert(ctx.stmts@ =~= before + seq![IrStmt::Jump(target)]);
            Ok(())
        },
    }
}

/// Lowers one function against the tables of the program. A prototype
/// gives a function that returns zero.
pub fn func(f: &Func, funcs: &FuncMap, globs: &SymbolMap) -> (r: Result<IrFunc, LowerError>)
    ensures
        match lower_func(Env { globs: globs@, funcs: funcs@ }, *f) {
            Ok(v) => r is Ok && r.unwrap()@ == v,
            Err(e) => r == Err::<IrFunc, LowerError>(e),
        },
{
    let ghost env = Env { globs: globs@, funcs: funcs@ };
    let mut names: Vec<SymbolMap> = Vec::new();
    names.push(SymbolMap::new());
    let mut ctx = FuncCtx {
        names,
        stmts: Vec::new(),
        loops: Vec::new(),
        funcs,
        globs,
        ret: f.ret,
        var_cnt: 0,
        label_cnt: 0,
    };
    assert(ctx.scopes() =~= seq![Map::<Seq<char>, VarInfo>::empty()]);
    assert(ctx.loops@ =~= Seq::<(u32, u32)>::empty());
    let mut i: usize = 0;
    while i < f.params.len()
        invariant
            i <= f.params.len(),
            env == (Env { globs: globs@, funcs: funcs@ }),
            env == ctx.env(),
            ctx.ret == f.ret,
            ctx.names.len() == 1,
            ctx.stmts@.len() == 0,
            ctx.var_cnt == i,
            lower_params(env, f.params@, i as int) == Ok::<State, LowerError>(ctx.state()),
        decreases f.params.len() - i,
    {
        proof {
            if lower_params(env, f.params@, i + 1) is Err {
                lemma_params_error_persists(env, f.params@, i + 1, f.params@.len() as int);
            }
        }
        let p = &f.params[i];
        if p.init.is_some() {
            return Err(LowerError::ParamHasInit);
        }
        decl(&mut ctx, p)?;
        i += 1;
    }
    let ghost st = ctx.state();
    match &f.stmts {
        Some(ss) => {
            let mut j: usize = 0;
            assert(ctx.stmts@ =~= Seq::<IrStmt>::empty());
            while j < ss.len()
                invariant
                    j <= ss.len(),
                    env == (Env { globs: globs@, funcs: funcs@ }),
                    f.stmts == Some(*ss),
                    lower_params(env, f.params@, f.params@.len() as int) == Ok::<
                        State,
                        LowerError,
                    >(st),
                    env == ctx.env(),
                    ctx.ret == f.ret,
                    ctx.names.len() == 1,
                    ctx.var_cnt >= f.params.len(),
                    match lower_stmts(env, f.ret, st, ss@, j as int) {
                        Ok(pre) => ctx.stmts@ == pre.ops && ctx.state() == pre.st,
                        Err(_) => false,
                    },
                decreases ss.len() - j,
            {
                let ghost pre = lower_stmts(env, f.ret, st, ss@, j as int).unwrap();
                proof {
                    if lower_stmts(env, f.ret, st, ss@, j + 1) is Err {
                        lemma_stmts_error_persists(env, f.ret, st, ss@, j + 1, ss@.len() as int);
                    }
                }
                stmt(&mut ctx, &ss[j])?;
                j += 1;
            }
        },
        None => {
            assert(ctx.stmts@ =~= Seq::<IrStmt>::empty());
        },
    }
    let ghost body = lower_body(env, f.ret, st, f.stmts).unwrap();
    assert(ctx.stmts@ == body.ops);
    let n = ctx.stmts.len();
    let closed = n > 0 && match ctx.stmts[n - 1] {
        IrStmt::Ret => true,
        _ => false,
    };
    if !closed {
        ctx.stmts.push(IrStmt::Const(0));
        ctx.stmts.push(IrStmt::Ret);
        assert(ctx.stmts@ =~= body.ops + seq![IrStmt::Const(0), IrStmt::Ret]);
    }
    let param_cnt = f.params.len() as u32;
    Ok(
        IrFunc {
            name: f.name.clone(),
            param_cnt,
            var_cnt: ctx.var_cnt - param_cnt,
            stmts: ctx.stmts,
        },
    )
}

/// The types of the parameters of a function.
fn param_types_of(params: &Vec<Decl>) -> (v: Vec<Ty>)
    ensures
        v@ == param_types(params@),
{
    let mut v: Vec<Ty> = Vec::new();
    let mut i: usize = 0;
    while i < params.len()
        invariant
            i <= params.len(),
            v@ == param_types(params@).take(i as int),
        decreases params.len() - i,
    {
        v.push(params[i].ty);
        assert(v@ =~= param_types(params@).take(i + 1));
        i += 1;
    }
    assert(v@ =~= param_types(params@));
    v
}

/// Tests whether a recorded list of parameter types is that of `params`.
fn same_types(recorded: &Vec<Ty>, params: &Vec<Decl>) -> (same: bool)
    ensures
        same == (recorded@ == param_types(params@)),
{
    if recorded.len() != params.len() {
        return false;
    }
    let mut i: usize = 0;
    while i < params.len()
        invariant
            i <= params.len(),
            recorded.len() == params.len(),
            forall|k: int| 0 <= k < i ==> recorded@[k] == param_types(params@)[k],
        decreases params.len() - i,
    {
        if recorded[i] != params[i].ty {
            assert(recorded@[i as int] != param_types(params@)[i as int]);
            return false;
        }
        i += 1;
    }
    assert(recorded@ =~= param_types(params@));
    true
}

/// The view of the functions lowered so far.
pub open spec fn funcs_view(funcs: Seq<IrFunc>) -> Seq<crate::ir::IrFuncView> {
    funcs.map_values(|f: IrFunc| f@)
}

/// The view of the globals registered so far.
pub open spec fn globs_view(globs: Seq<(String, Result<i32, u32>)>) -> Seq<crate::ir::GlobView> {
    globs.map_values(|g: (String, Result<i32, u32>)| glob_view(g))
}

/// Registers the globals of a program: the table by name and the list of
/// initial values.
fn globals(p: &Prog) -> (r: Result<(SymbolMap, Vec<(String, Result<i32, u32>)>), LowerError>)
    ensures
        match register_globs(p.globs@, p.globs@.len() as int) {
            Ok(t) => r is Ok && r.unwrap().0@ == t.map && globs_view(r.unwrap().1@) == t.inits,
            Err(e) => r is Err && r->Err_0 == e,
        },
{
    let mut globs = SymbolMap::new();
    let mut inits: Vec<(String, Result<i32, u32>)> = Vec::new();
    let mut i: usize = 0;
    assert(globs_view(inits@) =~= Seq::empty());
    while i < p.globs.len()
        invariant
            i <= p.globs.len(),
            register_globs(p.globs@, i as int) == Ok::<GlobTable, LowerError>(
                GlobTable { map: globs@, inits: globs_view(inits@) },
            ),
        decreases p.globs.len() - i,
    {
        proof {
            if register_globs(p.globs@, i + 1) is Err {
                lemma_globs_error_persists(p.globs@, i + 1, p.globs@.len() as int);
            }
        }
        let d = &p.globs[i];
        if d.dims.len() != 0 {
            return Err(LowerError::ArrayUnsupported);
        }
        let init: i32 = match &d.init {
            None => 0,
            Some(Expr::Int(x)) => *x,
            Some(_) => {
                return Err(LowerError::GlobalInitNotConst);
            },
        };
        if globs.contains_key(&d.name) {
            return Err(LowerError::GlobalRedefined);
        }
        if inits.len() >= u32::MAX as usize {
            return Err(LowerError::LimitExceeded);
        }
        globs.insert(d.name.clone(), VarInfo { id: inits.len() as u32, ty: d.ty });
        let ghost before = inits@;
        inits.push((d.name.clone(), Ok(init)));
        assert(globs_view(inits@) =~= globs_view(before).push(
            crate::ir::GlobView { name: d.name@, init: Ok(init) },
        ));
        i += 1;
    }
    Ok((globs, inits))
}

/// Registers the functions of a program by name.
fn functions(p: &Prog, globs: &SymbolMap) -> (r: Result<FuncMap, LowerError>)
    ensures
        match register_funcs(globs@, p.funcs@, p.funcs@.len() as int) {
            Ok(t) => r is Ok && r.unwrap()@ == t.map,
            Err(e) => r is Err && r->Err_0 == e,
        },
{
    let mut funcs = FuncMap::new();
    let mut count: u32 = 0;
    let mut i: usize = 0;
    while i < p.funcs.len()
        invariant
            i <= p.funcs.len(),
            register_funcs(globs@, p.funcs@, i as int) == Ok::<FuncTable, LowerError>(
                FuncTable { map: funcs@, count },
            ),
        decreases p.funcs.len() - i,
    {
        proof {
            if register_funcs(globs@, p.funcs@, i + 1) is Err {
                lemma_funcs_error_persists(globs@, p.funcs@, i + 1, p.funcs@.len() as int);
            }
        }
        let f = &p.funcs[i];
        if globs.contains_key(&f.name) {
            return Err(LowerError::GlobalFunctionConflict);
        }
        let defines = f.stmts.is_some();
        match funcs.get(&f.name) {
            None => {
                if count == u32::MAX {
                    return Err(LowerError::LimitExceeded);
                }
                let sig = FuncSig {
                    slot: count,
                    ret: f.ret,
                    params: param_types_of(&f.params),
                    defined: defines,
                };
                funcs.insert(f.name.clone(), sig);
                count = count + 1;
            },
            Some(old) => {
                if (old.defined && defines) || old.ret != f.ret || !same_types(
                    &old.params,
                    &f.params,
                ) {
                    return Err(LowerError::FunctionConflict);
                }
                if defines {
                    let sig = FuncSig {
                        slot: old.slot,
                        ret: old.ret,
                        params: param_types_of(&f.params),
                        defined: true,
                    };
                    funcs.insert(f.name.clone(), sig);
                }
            },
        }
        i += 1;
    }
    Ok(funcs)
}

/// Lowers a program to IR. The globals and the functions are registered
/// before any body is lowered, so a body may name what the program declares
/// further down. The result is the first error in evaluation order, or the
/// IR with one function per function name, in the order in which the names
/// first occur.
pub fn ast2ir(p: &Prog) -> (r: Result<IrProg, LowerError>)
    ensures
        crate::is_lowering(*p, r),
        r matches Ok(ir) ==> program_sound(ir@),
{
    let (globs, inits) = globals(p)?;
    let funcs = functions(p, &globs)?;
    let ghost env = Env { globs: globs@, funcs: funcs@ };
    let mut out: Vec<IrFunc> = Vec::new();
    let mut i: usize = 0;
    assert(funcs_view(out@) =~= Seq::empty());
    while i < p.funcs.len()
        invariant
            i <= p.funcs.len(),
            env == (Env { globs: globs@, funcs: funcs@ }),
            register_globs(p.globs@, p.globs@.len() as int) == Ok::<GlobTable, LowerError>(
                GlobTable { map: globs@, inits: globs_view(inits@) },
            ),
            register_funcs(globs@, p.funcs@, p.funcs@.len() as int) is Ok,
            register_funcs(globs@, p.funcs@, p.funcs@.len() as int).unwrap().map == funcs@,
            lower_bodies(env, p.funcs@, i as int) == Ok::<
                Seq<crate::ir::IrFuncView>,
                LowerError,
            >(funcs_view(out@)),
        decreases p.funcs.len() - i,
    {
        proof {
            if lower_bodies(env, p.funcs@, i + 1) is Err {
                lemma_bodies_error_persists(env, p.funcs@, i + 1, p.funcs@.len() as int);
            }
            lemma_registered(globs@, p.funcs@, p.funcs@.len() as int, i as int);
        }
        let f = &p.funcs[i];
        let slot = match funcs.get(&f.name) {
            Some(sig) => sig.slot as usize,
            None => {
                proof {
                    assert(false);
                }
                return Err(LowerError::FuncUndefined);
            },
        };
        let ghost before = out@;
        if slot >= out.len() {
            let g = func(f, &funcs, &globs)?;
            out.push(g);
            assert(funcs_view(out@) =~= funcs_view(before).push(g@));
        } else if f.stmts.is_some() {
            let g = func(f, &funcs, &globs)?;
            out.set(slot, g);
            assert(funcs_view(out@) =~= funcs_view(before).update(slot as int, g@));
        }
        i += 1;
    }
    proof {
        lemma_lowered_program(*p);
    }
    Ok(IrProg { funcs: out, globs: inits })
}

} // verus!
