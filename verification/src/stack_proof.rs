//! Lowered code keeps the discipline of the operand stack.
//!
//! The code of an expression leaves the stack one cell deeper, the code of
//! a statement leaves it as deep as it found it, and the code of a function
//! never finds too few cells.

use vstd::prelude::*;
use crate::ast::{Decl, Expr, Func, Stmt, Ty};
use crate::ir::IrStmt;
use crate::stack::{
    entry, keeps_depth, lemma_run_concat, lemma_run_two, neutral, pushing, run, stack_safe,
    starts_at,
};
use crate::stack_shapes::{
    do_while_code, for_code, if_code, lemma_binary_pushing, lemma_call_pushing,
    lemma_consumed_neutral, lemma_do_while_neutral, lemma_empty_neutral, lemma_empty_pushing,
    lemma_for_neutral, lemma_guard_neutral, lemma_if_neutral, lemma_jump_neutral,
    lemma_leaf_pushing, lemma_seq_neutral, lemma_seq_pushing, lemma_ternary_pushing,
    lemma_unary_pushing, loops_in, ternary_code,
};
use crate::symtab::VarInfo;
use crate::lowering::{
    addr_op, declare, enter_loop, lower_args, lower_body,
    lower_decl, lower_expr, lower_func, lower_guard, lower_params, lower_stmt, lower_stmts,
    lower_update, resolve, with_labels, Env, Scope, State,
};

verus! {

/// The function table and the list of parameter counts by slot agree.
pub open spec fn tables_agree(env: Env, arity: Seq<nat>) -> bool {
    forall|name: Seq<char>| #[trigger]
        env.funcs.contains_key(name) ==> env.funcs[name].slot < arity.len()
            && arity[env.funcs[name].slot as int] == env.funcs[name].params.len()
}

/// The code of an expression leaves the operand stack exactly one cell
/// deeper than it found it, whatever the depth at which it starts, and
/// reads nothing of what was there. Its labels are its own.
pub proof fn lemma_expr_pushes_one(
    env: Env,
    arity: Seq<nat>,
    scopes: Seq<Scope>,
    labels: u32,
    e: Expr,
    load: bool,
)
    requires
        tables_agree(env, arity),
        lower_expr(env, scopes, labels, e, load) is Ok,
    ensures
        pushing(
            arity,
            lower_expr(env, scopes, labels, e, load).unwrap().ops,
            1,
            labels,
            lower_expr(env, scopes, labels, e, load).unwrap().labels,
        ),
    decreases e,
{
    let c = lower_expr(env, scopes, labels, e, load).unwrap();
    match e {
        Expr::Int(x) => {
            lemma_leaf_pushing(arity, IrStmt::Const(x), labels);
        },
        Expr::Unary(op, x) => {
            let a = lower_expr(env, scopes, labels, *x, true).unwrap();
            lemma_expr_pushes_one(env, arity, scopes, labels, *x, true);
            lemma_unary_pushing(arity, a.ops, IrStmt::Unary(op), labels, a.labels);
        },
        Expr::Binary(op, l, r) => {
            let a = lower_expr(env, scopes, labels, *l, true).unwrap();
            lemma_expr_pushes_one(env, arity, scopes, labels, *l, true);
            let b = lower_expr(env, scopes, a.labels, *r, true).unwrap();
            lemma_expr_pushes_one(env, arity, scopes, a.labels, *r, true);
            lemma_seq_pushing(arity, a.ops, b.ops, 1, 1, labels, a.labels, b.labels);
            lemma_binary_pushing(arity, a.ops + b.ops, IrStmt::Binary(op), labels, b.labels);
        },
        Expr::Var(name) => {
            let (is_glob, v) = resolve(env, scopes, name@).unwrap();
            lemma_leaf_pushing(arity, addr_op(is_glob, v), labels);
            if load {
                assert(c.ops =~= seq![addr_op(is_glob, v)].push(IrStmt::Load));
            } else {
                assert(c.ops =~= seq![addr_op(is_glob, v)]);
            }
        },
        Expr::Assign(l, r) => {
            let a = lower_expr(env, scopes, labels, *r, true).unwrap();
            lemma_expr_pushes_one(env, arity, scopes, labels, *r, true);
            let b = lower_expr(env, scopes, a.labels, *l, false).unwrap();
            lemma_expr_pushes_one(env, arity, scopes, a.labels, *l, false);
            lemma_seq_pushing(arity, a.ops, b.ops, 1, 1, labels, a.labels, b.labels);
            lemma_binary_pushing(arity, a.ops + b.ops, IrStmt::Store, labels, b.labels);
        },
        Expr::Condition(cnd, t, f) => {
            let a = lower_expr(env, scopes, labels, *cnd, true).unwrap();
            let l2 = (a.labels + 2) as u32;
            let b = lower_expr(env, scopes, l2, *t, true).unwrap();
            let d = lower_expr(env, scopes, b.labels, *f, true).unwrap();
            lemma_expr_pushes_one(env, arity, scopes, labels, *cnd, true);
            lemma_expr_pushes_one(env, arity, scopes, l2, *t, true);
            lemma_expr_pushes_one(env, arity, scopes, b.labels, *f, true);
            lemma_ternary_pushing(arity, a.ops, b.ops, d.ops, labels, a.labels, b.labels, d.labels);
            assert(c.ops == ternary_code(a.ops, b.ops, d.ops, a.labels));
        },
        Expr::Call(name, args) => {
            let sig = env.funcs[name@];
            let n = args@.len() as int;
            let a = lower_args(env, scopes, labels, args@, sig.params, n).unwrap();
            lemma_args_push(env, arity, scopes, labels, args@, sig.params, n);
            lemma_call_pushing(arity, a.ops, sig.slot, n, labels, a.labels);
        },
        Expr::Deref(x) => {
            let a = lower_expr(env, scopes, labels, *x, true).unwrap();
            lemma_expr_pushes_one(env, arity, scopes, labels, *x, true);
            if load {
                lemma_unary_pushing(arity, a.ops, IrStmt::Load, labels, a.labels);
                assert(c.ops =~= a.ops.push(IrStmt::Load));
            } else {
                assert(c.ops =~= a.ops);
            }
        },
        Expr::AddrOf(x) => {
            lemma_expr_pushes_one(env, arity, scopes, labels, *x, false);
        },
        Expr::Cast(ty, x) => {
            lemma_expr_pushes_one(env, arity, scopes, labels, *x, true);
        },
        Expr::Index(_, _) => {},
    }
}

/// The code of the first `n` arguments of a call leaves the operand stack
/// `n` cells deeper.
pub proof fn lemma_args_push(
    env: Env,
    arity: Seq<nat>,
    scopes: Seq<Scope>,
    labels: u32,
    args: Seq<Expr>,
    params: Seq<Ty>,
    n: int,
)
    requires
        tables_agree(env, arity),
        0 <= n <= args.len(),
        lower_args(env, scopes, labels, args, params, n) is Ok,
    ensures
        pushing(
            arity,
            lower_args(env, scopes, labels, args, params, n).unwrap().ops,
            n,
            labels,
            lower_args(env, scopes, labels, args, params, n).unwrap().labels,
        ),
    decreases args, n,
{
    if n > 0 {
        let pre = lower_args(env, scopes, labels, args, params, n - 1).unwrap();
        lemma_args_push(env, arity, scopes, labels, args, params, n - 1);
        let a = lower_expr(env, scopes, pre.labels, args[n - 1], true).unwrap();
        lemma_expr_pushes_one(env, arity, scopes, pre.labels, args[n - 1], true);
        lemma_seq_pushing(arity, pre.ops, a.ops, n - 1, 1, labels, pre.labels, a.labels);
    } else {
        lemma_empty_pushing(arity, labels);
    }
}

/// The code of a declaration keeps the depth of the operand stack.
pub proof fn lemma_decl_keeps_depth(env: Env, arity: Seq<nat>, st: State, d: Decl)
    requires
        tables_agree(env, arity),
        lower_decl(env, st, d) is Ok,
    ensures
        lower_decl(env, st, d).unwrap().st.loops == st.loops,
        neutral(
            arity,
            st.loops,
            lower_decl(env, st, d).unwrap().ops,
            st.labels,
            lower_decl(env, st, d).unwrap().st.labels,
        ),
{
    match d.init {
        None => {
            lemma_empty_neutral(arity, st.loops, st.labels);
        },
        Some(x) => {
            let id = st.vars;
            let scopes = declare(st.scopes, d.name@, VarInfo { id, ty: d.ty });
            let a = lower_expr(env, scopes, st.labels, x, true).unwrap();
            lemma_expr_pushes_one(env, arity, scopes, st.labels, x, true);
            lemma_consumed_neutral(arity, st.loops, a.ops, st.labels, a.labels, id);
        },
    }
}

/// The code of a statement leaves the operand stack as deep as it found
/// it: walked from any depth, it ends at that depth, or in dead code where
/// it ends in a jump or a return. It reads nothing of what was on the
/// stack, and it reaches the targets of the enclosing loops at the depth
/// at which it starts.
pub proof fn lemma_stmt_keeps_depth(env: Env, arity: Seq<nat>, ret: Ty, st: State, s: Stmt)
    requires
        tables_agree(env, arity),
        lower_stmt(env, ret, st, s) is Ok,
    ensures
        lower_stmt(env, ret, st, s).unwrap().st.loops == st.loops,
        neutral(
            arity,
            st.loops,
            lower_stmt(env, ret, st, s).unwrap().ops,
            st.labels,
            lower_stmt(env, ret, st, s).unwrap().st.labels,
        ),
    decreases s,
{
    let c = lower_stmt(env, ret, st, s).unwrap();
    let lo = st.labels;
    match s {
        Stmt::Empty => {
            lemma_empty_neutral(arity, st.loops, lo);
        },
        Stmt::Ret(e) => {
            let a = lower_expr(env, st.scopes, lo, e, true).unwrap();
            lemma_expr_pushes_one(env, arity, st.scopes, lo, e, true);
            lemma_consumed_neutral(arity, st.loops, a.ops, lo, a.labels, 0);
        },
        Stmt::Decl(d) => {
            lemma_decl_keeps_depth(env, arity, st, d);
        },
        Stmt::Expr(e) => {
            let a = lower_expr(env, st.scopes, lo, e, true).unwrap();
            lemma_expr_pushes_one(env, arity, st.scopes, lo, e, true);
            lemma_consumed_neutral(arity, st.loops, a.ops, lo, a.labels, 0);
        },
        Stmt::If(cnd, t, f) => {
            let a = lower_expr(env, st.scopes, lo, cnd, true).unwrap();
            let l2 = (a.labels + 2) as u32;
            let b = lower_stmt(env, ret, with_labels(st, l2), *t).unwrap();
            lemma_expr_pushes_one(env, arity, st.scopes, lo, cnd, true);
            lemma_stmt_keeps_depth(env, arity, ret, with_labels(st, l2), *t);
            match f {
                None => {
                    lemma_empty_neutral(arity, st.loops, b.st.labels);
                    lemma_if_neutral(
                        arity,
                        st.loops,
                        a.ops,
                        b.ops,
                        Seq::empty(),
                        lo,
                        a.labels,
                        b.st.labels,
                        b.st.labels,
                    );
                    assert(c.ops =~= if_code(a.ops, b.ops, Seq::empty(), a.labels));
                },
                Some(fb) => {
                    let e = lower_stmt(env, ret, b.st, *fb).unwrap();
                    lemma_stmt_keeps_depth(env, arity, ret, b.st, *fb);
                    lemma_if_neutral(
                        arity,
                        st.loops,
                        a.ops,
                        b.ops,
                        e.ops,
                        lo,
                        a.labels,
                        b.st.labels,
                        e.st.labels,
                    );
                    assert(c.ops == if_code(a.ops, b.ops, e.ops, a.labels));
                },
            }
        },
        Stmt::Block(ss) => {
            let inner = State {
                scopes: st.scopes.push(Map::empty()),
                loops: st.loops,
                vars: st.vars,
                labels: st.labels,
            };
            lemma_stmts_keep_depth(env, arity, ret, inner, ss@, ss@.len() as int);
        },
        Stmt::DoWhile(body, cond) => {
            let st1 = enter_loop(st, (lo + 3) as u32, (lo + 2) as u32, (lo + 1) as u32);
            let b = lower_stmt(env, ret, st1, *body).unwrap();
            let cc = lower_expr(env, b.st.scopes, b.st.labels, cond, true).unwrap();
            lemma_stmt_keeps_depth(env, arity, ret, st1, *body);
            lemma_expr_pushes_one(env, arity, b.st.scopes, b.st.labels, cond, true);
            assert(st1.loops == loops_in(st.loops, lo));
            lemma_do_while_neutral(arity, st.loops, b.ops, cc.ops, lo, b.st.labels, cc.labels);
            assert(c.ops == do_while_code(b.ops, cc.ops, lo));
            assert(st1.loops.drop_last() =~= st.loops);
        },
        Stmt::For { cond, update, body } => {
            let end_label = (lo + 2) as u32;
            let l3 = (lo + 3) as u32;
            let st1 = enter_loop(st, l3, end_label, (lo + 1) as u32);
            let inner = loops_in(st.loops, lo);
            assert(st1.loops == inner);
            let g = lower_guard(env, st1.scopes, l3, cond, end_label).unwrap();
            match cond {
                None => {
                    lemma_empty_neutral(arity, inner, l3);
                },
                Some(x) => {
                    let a = lower_expr(env, st1.scopes, l3, x, true).unwrap();
                    lemma_expr_pushes_one(env, arity, st1.scopes, l3, x, true);
                    lemma_guard_neutral(arity, inner, a.ops, l3, a.labels);
                },
            }
            let b = lower_stmt(env, ret, with_labels(st1, g.labels), *body).unwrap();
            lemma_stmt_keeps_depth(env, arity, ret, with_labels(st1, g.labels), *body);
            let u = lower_update(env, b.st.scopes, b.st.labels, update).unwrap();
            match update {
                None => {
                    lemma_empty_neutral(arity, inner, b.st.labels);
                },
                Some(x) => {
                    let a = lower_expr(env, b.st.scopes, b.st.labels, x, true).unwrap();
                    lemma_expr_pushes_one(env, arity, b.st.scopes, b.st.labels, x, true);
                    lemma_consumed_neutral(arity, inner, a.ops, b.st.labels, a.labels, 0);
                },
            }
            lemma_for_neutral(
                arity,
                st.loops,
                g.ops,
                b.ops,
                u.ops,
                lo,
                g.labels,
                b.st.labels,
                u.labels,
            );
            assert(c.ops == for_code(g.ops, b.ops, u.ops, lo));
            assert(st1.loops.drop_last() =~= st.loops);
        },
        Stmt::Continue => {
            lemma_jump_neutral(arity, st.loops, lo);
        },
        Stmt::Break => {
            lemma_jump_neutral(arity, st.loops, lo);
        },
    }
}

/// The code of the first `n` statements of a list keeps the depth of the
/// operand stack.
pub proof fn lemma_stmts_keep_depth(
    env: Env,
    arity: Seq<nat>,
    ret: Ty,
    st: State,
    ss: Seq<Stmt>,
    n: int,
)
    requires
        tables_agree(env, arity),
        0 <= n <= ss.len(),
        lower_stmts(env, ret, st, ss, n) is Ok,
    ensures
        lower_stmts(env, ret, st, ss, n).unwrap().st.loops == st.loops,
        neutral(
            arity,
            st.loops,
            lower_stmts(env, ret, st, ss, n).unwrap().ops,
            st.labels,
            lower_stmts(env, ret, st, ss, n).unwrap().st.labels,
        ),
    decreases ss, n,
{
    if n > 0 {
        let pre = lower_stmts(env, ret, st, ss, n - 1).unwrap();
        lemma_stmts_keep_depth(env, arity, ret, st, ss, n - 1);
        let b = lower_stmt(env, ret, pre.st, ss[n - 1]).unwrap();
        lemma_stmt_keeps_depth(env, arity, ret, pre.st, ss[n - 1]);
        lemma_seq_neutral(arity, st.loops, pre.ops, b.ops, st.labels, pre.st.labels, b.st.labels);
    } else {
        lemma_empty_neutral(arity, st.loops, st.labels);
    }
}

/// Declaring parameters emits no code: after the first `n` of them the
/// state has one scope, no loop, no label, and `n` variables.
pub proof fn lemma_params_state(env: Env, params: Seq<Decl>, n: int)
    requires
        0 <= n <= params.len(),
        lower_params(env, params, n) is Ok,
    ensures
        lower_params(env, params, n).unwrap().scopes.len() == 1,
        lower_params(env, params, n).unwrap().loops == Seq::<(u32, u32)>::empty(),
        lower_params(env, params, n).unwrap().labels == 0,
        lower_params(env, params, n).unwrap().vars == n,
    decreases n,
{
    if n > 0 {
        lemma_params_state(env, params, n - 1);
    }
}

/// The code of a function never finds too few cells on the operand stack:
/// walked from an empty stack, every operation finds its operands, every
/// call its arguments and every return its value, and every label is
/// reached at one depth only.
pub proof fn lemma_func_stack_safe(env: Env, arity: Seq<nat>, f: Func)
    requires
        tables_agree(env, arity),
        lower_func(env, f) is Ok,
    ensures
        stack_safe(arity, lower_func(env, f).unwrap().stmts),
{
    let st = lower_params(env, f.params@, f.params@.len() as int).unwrap();
    lemma_params_state(env, f.params@, f.params@.len() as int);
    let b = lower_body(env, f.ret, st, f.stmts).unwrap();
    match f.stmts {
        None => {
            lemma_empty_neutral(arity, st.loops, st.labels);
        },
        Some(ss) => {
            lemma_stmts_keep_depth(env, arity, f.ret, st, ss@, ss@.len() as int);
        },
    }
    assert(starts_at(entry(), st.loops, 0, 0));
    assert(keeps_depth(arity, entry(), b.ops, 0, 0, b.st.labels));
    let f1 = run(arity, entry(), b.ops).unwrap();
    if b.ops.len() > 0 && b.ops.last() == IrStmt::Ret {
    } else {
        lemma_run_two(arity, f1, IrStmt::Const(0), IrStmt::Ret);
        lemma_run_concat(arity, entry(), b.ops, seq![IrStmt::Const(0), IrStmt::Ret]);
    }
}

} // verus!
