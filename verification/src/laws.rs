//! Laws of lowering: how ids are given out, how scopes nest, that the
//! result is a function of the program, and what closes a function body.
//!
//! The laws of the operand stack stand where they are proved: that the
//! code of an expression leaves one cell and the code of a statement none
//! in [`crate::stack_proof`], that such code runs safely in
//! [`crate::machine`], that labels resolve in [`crate::labels_proof`],
//! that the ids in the code stay within the frame in
//! [`crate::locals_proof`], and what holds of whole programs in
//! [`crate::program_proof`].

use vstd::prelude::*;
use crate::ast::{Decl, Expr, Func, Prog, Stmt, Ty};
use crate::error::LowerError;
use crate::ir::{IrProg, IrStmt};
use crate::program_proof::ends_in_ret;
use crate::lowering::{
    close_body, declare, enter_loop, lookup_local, lower_bodies, lower_body, lower_decl,
    lower_expr, lower_func, lower_guard, lower_params, lower_stmt, lower_stmts, with_labels, Env,
    Scope, State,
};
use crate::symtab::VarInfo;

verus! {

/// The number of declarations in a statement, those of nested statements
/// included.
pub open spec fn decl_count(s: Stmt) -> nat
    decreases s,
{
    match s {
        Stmt::Decl(_) => 1,
        Stmt::If(_, t, f) => decl_count(*t) + match f {
            Some(fb) => decl_count(*fb),
            None => 0,
        },
        Stmt::Block(ss) => decls_count(ss@, ss@.len() as int),
        Stmt::DoWhile(body, _) => decl_count(*body),
        Stmt::For { cond: _, update: _, body } => decl_count(*body),
        _ => 0,
    }
}

/// The number of declarations in the first `n` statements of a list.
pub open spec fn decls_count(ss: Seq<Stmt>, n: int) -> nat
    decreases ss, n,
{
    if n <= 0 || n > ss.len() {
        0
    } else {
        decls_count(ss, n - 1) + decl_count(ss[n - 1])
    }
}

/// A declaration takes the next id: it binds its name to the current value
/// of the counter in the innermost scope, with its declared type, and
/// advances the counter by one. The scopes around the innermost one stay
/// as they are.
pub proof fn lemma_decl_takes_next_id(env: Env, st: State, d: Decl)
    requires
        st.scopes.len() > 0,
        lower_decl(env, st, d) is Ok,
    ensures
        lower_decl(env, st, d).unwrap().st.vars == st.vars + 1,
        lower_decl(env, st, d).unwrap().st.scopes.len() == st.scopes.len(),
        lower_decl(env, st, d).unwrap().st.scopes.last() == st.scopes.last().insert(
            d.name@,
            VarInfo { id: st.vars, ty: d.ty },
        ),
        lower_decl(env, st, d).unwrap().st.scopes.drop_last() == st.scopes.drop_last(),
        lookup_local(lower_decl(env, st, d).unwrap().st.scopes, d.name@) == Some(
            VarInfo { id: st.vars, ty: d.ty },
        ),
{
    let scopes = declare(st.scopes, d.name@, VarInfo { id: st.vars, ty: d.ty });
    assert(scopes.drop_last() =~= st.scopes.drop_last());
}

/// A declaration without an initialiser emits no code. Declaring a
/// variable that is no array, under a name that is new in the innermost
/// scope, succeeds as long as an id is left: the name is bound to the next
/// id, the counter of ids rises by one, and the outer scopes, the loops
/// and the counter of labels stay as they are.
pub proof fn lemma_decl_without_init(env: Env, st: State, d: Decl)
    requires
        st.scopes.len() > 0,
        d.dims@.len() == 0,
        d.init is None,
        !st.scopes.last().contains_key(d.name@),
        st.vars < u32::MAX,
    ensures
        lower_decl(env, st, d) is Ok,
        lower_decl(env, st, d).unwrap().ops == Seq::<IrStmt>::empty(),
        lower_decl(env, st, d).unwrap().st.scopes.last()[d.name@] == (VarInfo {
            id: st.vars,
            ty: d.ty,
        }),
        lower_decl(env, st, d).unwrap().st.scopes.drop_last() == st.scopes.drop_last(),
        lower_decl(env, st, d).unwrap().st.vars == st.vars + 1,
        lower_decl(env, st, d).unwrap().st.loops == st.loops,
        lower_decl(env, st, d).unwrap().st.labels == st.labels,
{
    lemma_decl_takes_next_id(env, st, d);
}

/// A declaration with an initialiser emits the code of the initialiser as
/// a value, then the store to the new variable and the discarding of the
/// stored value. It succeeds where the variable is no array, its name is
/// new in the innermost scope, an id is left, and the initialiser, which
/// already sees the new variable, lowers to a value of the declared type.
pub proof fn lemma_decl_with_init(env: Env, st: State, d: Decl, x: Expr)
    requires
        st.scopes.len() > 0,
        d.dims@.len() == 0,
        d.init == Some(x),
        !st.scopes.last().contains_key(d.name@),
        st.vars < u32::MAX,
        lower_expr(
            env,
            declare(st.scopes, d.name@, VarInfo { id: st.vars, ty: d.ty }),
            st.labels,
            x,
            true,
        ) is Ok,
        lower_expr(
            env,
            declare(st.scopes, d.name@, VarInfo { id: st.vars, ty: d.ty }),
            st.labels,
            x,
            true,
        ).unwrap().ty == d.ty,
    ensures
        lower_decl(env, st, d) is Ok,
        lower_decl(env, st, d).unwrap().ops == lower_expr(
            env,
            declare(st.scopes, d.name@, VarInfo { id: st.vars, ty: d.ty }),
            st.labels,
            x,
            true,
        ).unwrap().ops + seq![IrStmt::LocalAddr(st.vars), IrStmt::Store, IrStmt::Pop],
        lower_decl(env, st, d).unwrap().st.scopes == declare(
            st.scopes,
            d.name@,
            VarInfo { id: st.vars, ty: d.ty },
        ),
        lower_decl(env, st, d).unwrap().st.vars == st.vars + 1,
        lower_decl(env, st, d).unwrap().st.loops == st.loops,
        lower_decl(env, st, d).unwrap().st.labels == lower_expr(
            env,
            declare(st.scopes, d.name@, VarInfo { id: st.vars, ty: d.ty }),
            st.labels,
            x,
            true,
        ).unwrap().labels,
{
}

/// Lowering a statement advances the counter of variable ids by exactly
/// the number of declarations in the statement, nested blocks included, so
/// that ids rise by one from each declaration to the next in the order of
/// the text. The statement leaves every scope but the innermost as it was,
/// closes every scope that it opens, and leaves the loops as they were.
pub proof fn lemma_stmt_counts_decls(env: Env, ret: Ty, st: State, s: Stmt)
    requires
        st.scopes.len() > 0,
        lower_stmt(env, ret, st, s) is Ok,
    ensures
        lower_stmt(env, ret, st, s).unwrap().st.vars == st.vars + decl_count(s),
        lower_stmt(env, ret, st, s).unwrap().st.scopes.len() == st.scopes.len(),
        lower_stmt(env, ret, st, s).unwrap().st.scopes.drop_last() == st.scopes.drop_last(),
        lower_stmt(env, ret, st, s).unwrap().st.loops == st.loops,
    decreases s,
{
    let lo = st.labels;
    match s {
        Stmt::Decl(d) => {
            lemma_decl_takes_next_id(env, st, d);
        },
        Stmt::If(cnd, t, f) => {
            let a = lower_expr(env, st.scopes, lo, cnd, true).unwrap();
            let st1 = with_labels(st, (a.labels + 2) as u32);
            let b = lower_stmt(env, ret, st1, *t).unwrap();
            lemma_stmt_counts_decls(env, ret, st1, *t);
            match f {
                None => {},
                Some(fb) => {
                    lemma_stmt_counts_decls(env, ret, b.st, *fb);
                },
            }
        },
        Stmt::Block(ss) => {
            let inner = State {
                scopes: st.scopes.push(Map::empty()),
                loops: st.loops,
                vars: st.vars,
                labels: st.labels,
            };
            lemma_stmts_count_decls(env, ret, inner, ss@, ss@.len() as int);
            assert(inner.scopes.drop_last() =~= st.scopes);
        },
        Stmt::DoWhile(body, cond) => {
            let st1 = enter_loop(st, (lo + 3) as u32, (lo + 2) as u32, (lo + 1) as u32);
            lemma_stmt_counts_decls(env, ret, st1, *body);
            assert(st1.loops.drop_last() =~= st.loops);
        },
        Stmt::For { cond, update, body } => {
            let end_label = (lo + 2) as u32;
            let st1 = enter_loop(st, (lo + 3) as u32, end_label, (lo + 1) as u32);
            let g = lower_guard(env, st1.scopes, st1.labels, cond, end_label).unwrap();
            lemma_stmt_counts_decls(env, ret, with_labels(st1, g.labels), *body);
            assert(st1.loops.drop_last() =~= st.loops);
        },
        _ => {},
    }
}

/// Lowering a list of statements advances the counter of variable ids by
/// the number of declarations in them.
pub proof fn lemma_stmts_count_decls(env: Env, ret: Ty, st: State, ss: Seq<Stmt>, n: int)
    requires
        st.scopes.len() > 0,
        0 <= n <= ss.len(),
        lower_stmts(env, ret, st, ss, n) is Ok,
    ensures
        lower_stmts(env, ret, st, ss, n).unwrap().st.vars == st.vars + decls_count(ss, n),
        lower_stmts(env, ret, st, ss, n).unwrap().st.scopes.len() == st.scopes.len(),
        lower_stmts(env, ret, st, ss, n).unwrap().st.scopes.drop_last()
            == st.scopes.drop_last(),
        lower_stmts(env, ret, st, ss, n).unwrap().st.loops == st.loops,
    decreases ss, n,
{
    if n > 0 {
        let pre = lower_stmts(env, ret, st, ss, n - 1).unwrap();
        lemma_stmts_count_decls(env, ret, st, ss, n - 1);
        lemma_stmt_counts_decls(env, ret, pre.st, ss[n - 1]);
    }
}

/// The parameters of a function take the ids from zero in the order of
/// their declaration: after the first `n` of them, parameter `i` is bound
/// to id `i` with its declared type, and the counter stands at `n`.
pub proof fn lemma_param_ids(env: Env, params: Seq<Decl>, n: int, i: int)
    requires
        0 <= i < n <= params.len(),
        lower_params(env, params, n) is Ok,
    ensures
        lower_params(env, params, n).unwrap().vars == n,
        lower_params(env, params, n).unwrap().scopes.len() == 1,
        lookup_local(lower_params(env, params, n).unwrap().scopes, params[i].name@) == Some(
            VarInfo { id: i as u32, ty: params[i].ty },
        ),
    decreases n,
{
    crate::stack_proof::lemma_params_state(env, params, n);
    crate::stack_proof::lemma_params_state(env, params, n - 1);
    let st = lower_params(env, params, n - 1).unwrap();
    lemma_decl_takes_next_id(env, st, params[n - 1]);
    if i < n - 1 {
        lemma_param_ids(env, params, n - 1, i);
        let after = lower_params(env, params, n).unwrap().scopes;
        assert(after.drop_last() =~= Seq::<Scope>::empty());
        assert(st.scopes.drop_last() =~= Seq::<Scope>::empty());
        assert(lookup_local(Seq::<Scope>::empty(), params[i].name@) is None);
        assert(lookup_local(st.scopes.drop_last(), params[i].name@) is None);
        assert(st.scopes.last().contains_key(params[i].name@));
        assert(params[n - 1].name@ != params[i].name@);
    }
}

/// A lowered function records the number of its parameters and the number
/// of declarations in its body, those of nested blocks included: the ids
/// of a function are `0` up to the sum of the two.
pub proof fn lemma_func_counts(env: Env, f: Func)
    requires
        lower_func(env, f) is Ok,
    ensures
        lower_func(env, f).unwrap().param_cnt == f.params@.len(),
        lower_func(env, f).unwrap().var_cnt == match f.stmts {
            Some(ss) => decls_count(ss@, ss@.len() as int),
            None => 0,
        },
{
    let n = f.params@.len() as int;
    let st = lower_params(env, f.params@, n).unwrap();
    crate::stack_proof::lemma_params_state(env, f.params@, n);
    match f.stmts {
        None => {},
        Some(ss) => {
            lemma_stmts_count_decls(env, f.ret, st, ss@, ss@.len() as int);
        },
    }
}

/// A variable declared in a block is gone when the block ends: after a
/// block the scopes are what they were before it, so that every name
/// resolves as it did before the block, whatever the block declared or
/// shadowed.
pub proof fn lemma_block_restores_scopes(env: Env, ret: Ty, st: State, s: Stmt)
    requires
        s is Block,
        lower_stmt(env, ret, st, s) is Ok,
    ensures
        lower_stmt(env, ret, st, s).unwrap().st.scopes == st.scopes,
{
    match s {
        Stmt::Block(ss) => {
            let inner = State {
                scopes: st.scopes.push(Map::empty()),
                loops: st.loops,
                vars: st.vars,
                labels: st.labels,
            };
            lemma_stmts_count_decls(env, ret, inner, ss@, ss@.len() as int);
            assert(inner.scopes.drop_last() =~= st.scopes);
        },
        _ => {},
    }
}

/// Inside a block a name resolves to the declaration of the block, if the
/// block has one, and to what the name meant outside otherwise: the
/// innermost scope that binds a name wins.
pub proof fn lemma_inner_scope_wins(outer: Seq<Scope>, inner: Scope, name: Seq<char>)
    ensures
        lookup_local(outer.push(inner), name) == if inner.contains_key(name) {
            Some(inner[name])
        } else {
            lookup_local(outer, name)
        },
{
    assert(outer.push(inner).drop_last() =~= outer);
}

/// A declaration shadows: once a name is declared, it resolves to the new
/// variable, whatever the name meant in the scopes around; every other
/// name resolves as before.
pub proof fn lemma_declaration_shadows(
    scopes: Seq<Scope>,
    name: Seq<char>,
    v: VarInfo,
    other: Seq<char>,
)
    requires
        scopes.len() > 0,
        other != name,
    ensures
        lookup_local(declare(scopes, name, v), name) == Some(v),
        lookup_local(declare(scopes, name, v), other) == lookup_local(scopes, other),
{
    assert(declare(scopes, name, v).drop_last() =~= scopes.drop_last());
}

/// Lowering is a function of the content of the program: two results of
/// lowering one program, or two programs with the same content, are the
/// same IR, or the same error.
pub proof fn lemma_lowering_deterministic(
    p: Prog,
    q: Prog,
    r1: Result<IrProg, LowerError>,
    r2: Result<IrProg, LowerError>,
)
    requires
        p@ == q@,
        crate::is_lowering(p, r1),
        crate::is_lowering(q, r2),
    ensures
        r1 is Ok <==> r2 is Ok,
        r1 is Ok ==> r1.unwrap()@ == r2.unwrap()@,
        r1 is Err ==> r1->Err_0 == r2->Err_0,
{
    crate::view_proof::lemma_prog_by_view(p, q);
}

/// Compilation is a function of the content of the program: two results
/// of compiling one program, or two programs with the same content, are
/// the same assembly text, or the same error.
pub proof fn lemma_compilation_deterministic(
    p: Prog,
    q: Prog,
    r1: Result<String, LowerError>,
    r2: Result<String, LowerError>,
)
    requires
        p@ == q@,
        crate::is_compilation(p, r1),
        crate::is_compilation(q, r2),
    ensures
        r1 is Ok <==> r2 is Ok,
        r1 is Ok ==> r1.unwrap()@ == r2.unwrap()@,
        r1 is Err ==> r1->Err_0 == r2->Err_0,
{
    crate::view_proof::lemma_prog_by_view(p, q);
}

/// The first `n` statements of a list lower alike whatever follows them.
proof fn lemma_stmts_prefix(
    env: Env,
    ret: Ty,
    st: State,
    ss: Seq<Stmt>,
    longer: Seq<Stmt>,
    n: int,
)
    requires
        0 <= n <= ss.len() <= longer.len(),
        forall|i: int| 0 <= i < ss.len() ==> longer[i] == ss[i],
    ensures
        lower_stmts(env, ret, st, longer, n) == lower_stmts(env, ret, st, ss, n),
    decreases n,
{
    if n > 0 {
        lemma_stmts_prefix(env, ret, st, ss, longer, n - 1);
    }
}

/// A body that does not end in a return is closed as if by `return 0;`:
/// a function that returns an integer, and whose code does not end in a
/// return, lowers to what it lowers to with the statement `return 0;`
/// added at its end.
pub proof fn lemma_implicit_return(env: Env, f: Func, g: Func)
    requires
        f.ret == 0,
        g.ret == f.ret,
        g.name == f.name,
        g.params == f.params,
        f.stmts is Some,
        g.stmts is Some,
        g.stmts.unwrap()@ == f.stmts.unwrap()@.push(Stmt::Ret(Expr::Int(0))),
        lower_func(env, f) is Ok ==> !ends_in_ret(
            lower_body(
                env,
                f.ret,
                lower_params(env, f.params@, f.params@.len() as int).unwrap(),
                f.stmts,
            ).unwrap().ops,
        ),
    ensures
        lower_func(env, g) == lower_func(env, f),
{
    let n = f.params@.len() as int;
    match lower_params(env, f.params@, n) {
        Err(_) => {},
        Ok(st) => {
            let ss = f.stmts.unwrap()@;
            let longer = g.stmts.unwrap()@;
            let k = ss.len() as int;
            lemma_stmts_prefix(env, f.ret, st, ss, longer, k);
            match lower_stmts(env, f.ret, st, ss, k) {
                Err(_) => {},
                Ok(b) => {
                    let r = lower_stmt(env, f.ret, b.st, longer[k]).unwrap();
                    assert(r.ops =~= seq![IrStmt::Const(0), IrStmt::Ret]);
                    let all = lower_stmts(env, f.ret, st, longer, k + 1).unwrap();
                    assert(all.ops == b.ops + r.ops);
                    assert(all.ops.last() == IrStmt::Ret);
                    assert(close_body(all.ops) == close_body(b.ops));
                },
            }
        },
    }
}

/// A prototype of a function that has its slot already is not lowered
/// and leaves the functions as they are, whatever its parameters are
/// called: of a later occurrence only the signature counts.
pub proof fn lemma_repeated_prototype(env: Env, funcs: Seq<Func>, n: int)
    requires
        0 < n <= funcs.len(),
        funcs[n - 1].stmts is None,
        lower_bodies(env, funcs, n - 1) is Ok,
        env.funcs[funcs[n - 1].name@].slot < lower_bodies(env, funcs, n - 1).unwrap().len(),
    ensures
        lower_bodies(env, funcs, n) == lower_bodies(env, funcs, n - 1),
{
}

/// A prototype lowers to a function that returns zero.
pub proof fn lemma_prototype_returns_zero(env: Env, f: Func)
    requires
        f.stmts is None,
        lower_func(env, f) is Ok,
    ensures
        lower_func(env, f).unwrap().stmts == seq![IrStmt::Const(0), IrStmt::Ret],
        lower_func(env, f).unwrap().var_cnt == 0,
{
    crate::stack_proof::lemma_params_state(env, f.params@, f.params@.len() as int);
    assert(Seq::<IrStmt>::empty() + seq![IrStmt::Const(0), IrStmt::Ret] =~= seq![
        IrStmt::Const(0),
        IrStmt::Ret,
    ]);
}

} // verus!
