//! Lowering depends on the content of a program only: two syntax trees
//! with the same content lower alike.

use vstd::prelude::*;
use crate::ast::{
    decls_view, expr_view, exprs_view, func_view, opt_expr_view, stmt_view,
    stmts_view, Decl, Expr, Func, Prog, Stmt, Ty,
};
use crate::lowering::{
    glob_init, is_lvalue, lower_args, lower_bodies, lower_decl, lower_expr,
    lower_func, lower_guard, lower_params, lower_prog, lower_stmt, lower_stmts, lower_update,
    param_types, register_funcs, register_globs, Env, Scope, State,
};

verus! {

/// The contents of the first `n` expressions are `n` contents, one for
/// each expression.
pub proof fn lemma_exprs_view_index(es: Seq<Expr>, n: int, i: int)
    requires
        0 <= i < n <= es.len(),
    ensures
        exprs_view(es, n).len() == n,
        exprs_view(es, n)[i] == expr_view(es[i]),
    decreases n,
{
    lemma_exprs_view_len(es, n - 1);
    if i < n - 1 {
        lemma_exprs_view_index(es, n - 1, i);
    }
}

/// The contents of the first `n` expressions are `n` contents.
pub proof fn lemma_exprs_view_len(es: Seq<Expr>, n: int)
    requires
        0 <= n <= es.len(),
    ensures
        exprs_view(es, n).len() == n,
    decreases n,
{
    if n > 0 {
        lemma_exprs_view_len(es, n - 1);
    }
}

/// The contents of the first `n` statements are `n` contents, one for
/// each statement.
pub proof fn lemma_stmts_view_index(ss: Seq<Stmt>, n: int, i: int)
    requires
        0 <= i < n <= ss.len(),
    ensures
        stmts_view(ss, n).len() == n,
        stmts_view(ss, n)[i] == stmt_view(ss[i]),
    decreases n,
{
    lemma_stmts_view_len(ss, n - 1);
    if i < n - 1 {
        lemma_stmts_view_index(ss, n - 1, i);
    }
}

/// The contents of the first `n` statements are `n` contents.
pub proof fn lemma_stmts_view_len(ss: Seq<Stmt>, n: int)
    requires
        0 <= n <= ss.len(),
    ensures
        stmts_view(ss, n).len() == n,
    decreases n,
{
    if n > 0 {
        lemma_stmts_view_len(ss, n - 1);
    }
}

/// Expressions with the same content lower alike.
#[verifier::rlimit(40)]
pub proof fn lemma_expr_by_view(
    env: Env,
    scopes: Seq<Scope>,
    labels: u32,
    a: Expr,
    b: Expr,
    load: bool,
)
    requires
        a@ == b@,
    ensures
        lower_expr(env, scopes, labels, a, load) == lower_expr(env, scopes, labels, b, load),
        is_lvalue(a) == is_lvalue(b),
    decreases a,
{
    match (a, b) {
        (Expr::Unary(_, x), Expr::Unary(_, y)) => {
            lemma_expr_by_view(env, scopes, labels, *x, *y, true);
        },
        (Expr::Binary(_, l1, r1), Expr::Binary(_, l2, r2)) => {
            lemma_expr_by_view(env, scopes, labels, *l1, *l2, true);
            match lower_expr(env, scopes, labels, *l1, true) {
                Ok(c) => {
                    lemma_expr_by_view(env, scopes, c.labels, *r1, *r2, true);
                },
                Err(_) => {},
            }
        },
        (Expr::Assign(l1, r1), Expr::Assign(l2, r2)) => {
            lemma_expr_by_view(env, scopes, labels, *l1, *l2, false);
            lemma_expr_by_view(env, scopes, labels, *r1, *r2, true);
            match lower_expr(env, scopes, labels, *r1, true) {
                Ok(c) => {
                    lemma_expr_by_view(env, scopes, c.labels, *l1, *l2, false);
                },
                Err(_) => {},
            }
        },
        (Expr::Condition(c1, t1, f1), Expr::Condition(c2, t2, f2)) => {
            lemma_expr_by_view(env, scopes, labels, *c1, *c2, true);
            match lower_expr(env, scopes, labels, *c1, true) {
                Ok(c) => {
                    if c.labels <= u32::MAX - 2 {
                        let l2 = (c.labels + 2) as u32;
                        lemma_expr_by_view(env, scopes, l2, *t1, *t2, true);
                        match lower_expr(env, scopes, l2, *t1, true) {
                            Ok(t) => {
                                lemma_expr_by_view(env, scopes, t.labels, *f1, *f2, true);
                            },
                            Err(_) => {},
                        }
                    }
                },
                Err(_) => {},
            }
        },
        (Expr::Call(n1, args1), Expr::Call(n2, args2)) => {
            lemma_exprs_view_len(args1@, args1@.len() as int);
            lemma_exprs_view_len(args2@, args2@.len() as int);
            if env.funcs.contains_key(n1@) {
                let sig = env.funcs[n1@];
                lemma_args_by_view(
                    env,
                    scopes,
                    labels,
                    args1@,
                    args2@,
                    sig.params,
                    args1@.len() as int,
                );
            }
        },
        (Expr::Deref(x), Expr::Deref(y)) => {
            lemma_expr_by_view(env, scopes, labels, *x, *y, true);
        },
        (Expr::AddrOf(x), Expr::AddrOf(y)) => {
            lemma_expr_by_view(env, scopes, labels, *x, *y, false);
        },
        (Expr::Cast(_, x), Expr::Cast(_, y)) => {
            lemma_expr_by_view(env, scopes, labels, *x, *y, true);
        },
        _ => {},
    }
}

/// Lists of arguments with the same contents lower alike.
pub proof fn lemma_args_by_view(
    env: Env,
    scopes: Seq<Scope>,
    labels: u32,
    a: Seq<Expr>,
    b: Seq<Expr>,
    params: Seq<Ty>,
    n: int,
)
    requires
        0 <= n <= a.len(),
        a.len() == b.len(),
        exprs_view(a, a.len() as int) == exprs_view(b, b.len() as int),
    ensures
        lower_args(env, scopes, labels, a, params, n) == lower_args(
            env,
            scopes,
            labels,
            b,
            params,
            n,
        ),
    decreases a, n,
{
    if n > 0 {
        lemma_args_by_view(env, scopes, labels, a, b, params, n - 1);
        lemma_exprs_view_index(a, a.len() as int, n - 1);
        lemma_exprs_view_index(b, b.len() as int, n - 1);
        match lower_args(env, scopes, labels, a, params, n - 1) {
            Ok(pre) => {
                lemma_expr_by_view(env, scopes, pre.labels, a[n - 1], b[n - 1], true);
            },
            Err(_) => {},
        }
    }
}

/// Optional expressions with the same content lower alike where they are
/// the test or the update of a loop.
proof fn lemma_opt_by_view(
    env: Env,
    scopes: Seq<Scope>,
    labels: u32,
    a: Option<Expr>,
    b: Option<Expr>,
    end_label: u32,
)
    requires
        opt_expr_view(a) == opt_expr_view(b),
    ensures
        lower_guard(env, scopes, labels, a, end_label) == lower_guard(
            env,
            scopes,
            labels,
            b,
            end_label,
        ),
        lower_update(env, scopes, labels, a) == lower_update(env, scopes, labels, b),
        glob_init(a) == glob_init(b),
        a is Some == b is Some,
{
    match (a, b) {
        (Some(x), Some(y)) => {
            lemma_expr_by_view(env, scopes, labels, x, y, true);
        },
        _ => {},
    }
}

/// Declarations with the same content lower alike.
pub proof fn lemma_decl_by_view(env: Env, st: State, a: Decl, b: Decl)
    requires
        a@ == b@,
    ensures
        lower_decl(env, st, a) == lower_decl(env, st, b),
{
    match (a.init, b.init) {
        (Some(x), Some(y)) => {
            let scopes = crate::lowering::declare(
                st.scopes,
                a.name@,
                crate::symtab::VarInfo { id: st.vars, ty: a.ty },
            );
            lemma_expr_by_view(env, scopes, st.labels, x, y, true);
        },
        _ => {},
    }
}

/// Statements with the same content lower alike.
#[verifier::rlimit(40)]
pub proof fn lemma_stmt_by_view(env: Env, ret: Ty, st: State, a: Stmt, b: Stmt)
    requires
        a@ == b@,
    ensures
        lower_stmt(env, ret, st, a) == lower_stmt(env, ret, st, b),
    decreases a,
{
    let lo = st.labels;
    match (a, b) {
        (Stmt::Ret(x), Stmt::Ret(y)) => {
            lemma_expr_by_view(env, st.scopes, lo, x, y, true);
        },
        (Stmt::Decl(x), Stmt::Decl(y)) => {
            lemma_decl_by_view(env, st, x, y);
        },
        (Stmt::Expr(x), Stmt::Expr(y)) => {
            lemma_expr_by_view(env, st.scopes, lo, x, y, true);
        },
        (Stmt::If(c1, t1, f1), Stmt::If(c2, t2, f2)) => {
            lemma_expr_by_view(env, st.scopes, lo, c1, c2, true);
            match lower_expr(env, st.scopes, lo, c1, true) {
                Ok(c) => {
                    if c.labels <= u32::MAX - 2 {
                        let st1 = crate::lowering::with_labels(st, (c.labels + 2) as u32);
                        lemma_stmt_by_view(env, ret, st1, *t1, *t2);
                        match lower_stmt(env, ret, st1, *t1) {
                            Ok(t) => {
                                match (f1, f2) {
                                    (Some(x), Some(y)) => {
                                        lemma_stmt_by_view(env, ret, t.st, *x, *y);
                                    },
                                    _ => {},
                                }
                            },
                            Err(_) => {},
                        }
                    }
                },
                Err(_) => {},
            }
        },
        (Stmt::Block(s1), Stmt::Block(s2)) => {
            lemma_stmts_view_len(s1@, s1@.len() as int);
            lemma_stmts_view_len(s2@, s2@.len() as int);
            let inner = State {
                scopes: st.scopes.push(Map::empty()),
                loops: st.loops,
                vars: st.vars,
                labels: st.labels,
            };
            lemma_stmts_by_view(env, ret, inner, s1@, s2@, s1@.len() as int);
        },
        (Stmt::DoWhile(b1, c1), Stmt::DoWhile(b2, c2)) => {
            if lo <= u32::MAX - 3 {
                let st1 = crate::lowering::enter_loop(
                    st,
                    (lo + 3) as u32,
                    (lo + 2) as u32,
                    (lo + 1) as u32,
                );
                lemma_stmt_by_view(env, ret, st1, *b1, *b2);
                match lower_stmt(env, ret, st1, *b1) {
                    Ok(body) => {
                        lemma_expr_by_view(env, body.st.scopes, body.st.labels, c1, c2, true);
                    },
                    Err(_) => {},
                }
            }
        },
        (
            Stmt::For { cond: c1, update: u1, body: b1 },
            Stmt::For { cond: c2, update: u2, body: b2 },
        ) => {
            if lo <= u32::MAX - 3 {
                let end_label = (lo + 2) as u32;
                let st1 = crate::lowering::enter_loop(
                    st,
                    (lo + 3) as u32,
                    end_label,
                    (lo + 1) as u32,
                );
                lemma_opt_by_view(env, st1.scopes, st1.labels, c1, c2, end_label);
                match lower_guard(env, st1.scopes, st1.labels, c1, end_label) {
                    Ok(g) => {
                        let st2 = crate::lowering::with_labels(st1, g.labels);
                        lemma_stmt_by_view(env, ret, st2, *b1, *b2);
                        match lower_stmt(env, ret, st2, *b1) {
                            Ok(body) => {
                                lemma_opt_by_view(
                                    env,
                                    body.st.scopes,
                                    body.st.labels,
                                    u1,
                                    u2,
                                    end_label,
                                );
                            },
                            Err(_) => {},
                        }
                    },
                    Err(_) => {},
                }
            }
        },
        _ => {},
    }
}

/// Lists of statements with the same contents lower alike.
pub proof fn lemma_stmts_by_view(
    env: Env,
    ret: Ty,
    st: State,
    a: Seq<Stmt>,
    b: Seq<Stmt>,
    n: int,
)
    requires
        0 <= n <= a.len(),
        a.len() == b.len(),
        stmts_view(a, a.len() as int) == stmts_view(b, b.len() as int),
    ensures
        lower_stmts(env, ret, st, a, n) == lower_stmts(env, ret, st, b, n),
    decreases a, n,
{
    if n > 0 {
        lemma_stmts_by_view(env, ret, st, a, b, n - 1);
        lemma_stmts_view_index(a, a.len() as int, n - 1);
        lemma_stmts_view_index(b, b.len() as int, n - 1);
        match lower_stmts(env, ret, st, a, n - 1) {
            Ok(pre) => {
                lemma_stmt_by_view(env, ret, pre.st, a[n - 1], b[n - 1]);
            },
            Err(_) => {},
        }
    }
}

/// Lists of parameters with the same contents are declared alike.
proof fn lemma_params_by_view(env: Env, a: Seq<Decl>, b: Seq<Decl>, n: int)
    requires
        0 <= n <= a.len(),
        decls_view(a) == decls_view(b),
    ensures
        a.len() == b.len(),
        lower_params(env, a, n) == lower_params(env, b, n),
        param_types(a) == param_types(b),
    decreases n,
{
    assert(decls_view(a).len() == a.len());
    assert(decls_view(b).len() == b.len());
    assert forall|i: int| 0 <= i < a.len() implies a[i]@ == b[i]@ by {
        assert(decls_view(a)[i] == a[i]@);
        assert(decls_view(b)[i] == b[i]@);
    }
    assert(param_types(a) =~= param_types(b)) by {
        assert forall|i: int| 0 <= i < a.len() implies param_types(a)[i] == param_types(b)[i] by {
            assert(a[i]@.ty == b[i]@.ty);
        }
    }
    if n > 0 {
        lemma_params_by_view(env, a, b, n - 1);
        match lower_params(env, a, n - 1) {
            Ok(st) => {
                lemma_decl_by_view(env, st, a[n - 1], b[n - 1]);
                lemma_opt_by_view(env, st.scopes, st.labels, a[n - 1].init, b[n - 1].init, 0);
            },
            Err(_) => {},
        }
    }
}

/// Functions with the same content lower alike.
pub proof fn lemma_func_by_view(env: Env, a: Func, b: Func)
    requires
        a@ == b@,
    ensures
        lower_func(env, a) == lower_func(env, b),
        param_types(a.params@) == param_types(b.params@),
        a.stmts is Some == b.stmts is Some,
{
    lemma_params_by_view(env, a.params@, b.params@, a.params@.len() as int);
    match lower_params(env, a.params@, a.params@.len() as int) {
        Ok(st) => {
            match (a.stmts, b.stmts) {
                (Some(x), Some(y)) => {
                    lemma_stmts_view_len(x@, x@.len() as int);
                    lemma_stmts_view_len(y@, y@.len() as int);
                    lemma_stmts_by_view(env, a.ret, st, x@, y@, x@.len() as int);
                },
                _ => {},
            }
        },
        Err(_) => {},
    }
}

/// Lists of globals with the same contents are registered alike.
proof fn lemma_globs_by_view(a: Seq<Decl>, b: Seq<Decl>, n: int)
    requires
        0 <= n <= a.len(),
        decls_view(a) == decls_view(b),
    ensures
        a.len() == b.len(),
        register_globs(a, n) == register_globs(b, n),
    decreases n,
{
    assert(decls_view(a).len() == a.len());
    assert(decls_view(b).len() == b.len());
    if n > 0 {
        lemma_globs_by_view(a, b, n - 1);
        assert(decls_view(a)[n - 1] == a[n - 1]@);
        assert(decls_view(b)[n - 1] == b[n - 1]@);
        lemma_opt_by_view(
            Env { globs: Map::empty(), funcs: Map::empty() },
            Seq::empty(),
            0,
            a[n - 1].init,
            b[n - 1].init,
            0,
        );
    }
}

/// The contents of a list of functions.
pub open spec fn funcs_view(fs: Seq<Func>) -> Seq<crate::ast::FuncView> {
    fs.map_values(|f: Func| func_view(f))
}

/// Lists of functions with the same contents are registered and lowered
/// alike.
proof fn lemma_funcs_by_view(globs: Scope, env: Env, a: Seq<Func>, b: Seq<Func>, n: int)
    requires
        0 <= n <= a.len(),
        funcs_view(a) == funcs_view(b),
    ensures
        a.len() == b.len(),
        register_funcs(globs, a, n) == register_funcs(globs, b, n),
        lower_bodies(env, a, n) == lower_bodies(env, b, n),
    decreases n,
{
    assert(funcs_view(a).len() == a.len());
    assert(funcs_view(b).len() == b.len());
    if n > 0 {
        lemma_funcs_by_view(globs, env, a, b, n - 1);
        assert(funcs_view(a)[n - 1] == a[n - 1]@);
        assert(funcs_view(b)[n - 1] == b[n - 1]@);
        lemma_func_by_view(env, a[n - 1], b[n - 1]);
    }
}

/// Programs with the same content lower alike: lowering reads nothing of
/// a syntax tree but its content.
pub proof fn lemma_prog_by_view(a: Prog, b: Prog)
    requires
        a@ == b@,
    ensures
        lower_prog(a) == lower_prog(b),
{
    assert(decls_view(a.globs@) == decls_view(b.globs@));
    assert(funcs_view(a.funcs@) == funcs_view(b.funcs@));
    lemma_globs_by_view(a.globs@, b.globs@, a.globs@.len() as int);
    match register_globs(a.globs@, a.globs@.len() as int) {
        Ok(g) => {
            let none = Env { globs: Map::empty(), funcs: Map::empty() };
            lemma_funcs_by_view(g.map, none, a.funcs@, b.funcs@, a.funcs@.len() as int);
            match register_funcs(g.map, a.funcs@, a.funcs@.len() as int) {
                Ok(t) => {
                    let env = Env { globs: g.map, funcs: t.map };
                    lemma_funcs_by_view(g.map, env, a.funcs@, b.funcs@, a.funcs@.len() as int);
                },
                Err(_) => {},
            }
        },
        Err(_) => {},
    }
}

} // verus!
