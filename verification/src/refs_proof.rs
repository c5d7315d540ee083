//! Lowered code names existing globals and functions only.

use vstd::prelude::*;
use crate::ast::{Decl, Expr, Func, Stmt, Ty};
use crate::ir::{code_within, op_within, IrStmt};
use crate::stack_shapes::{do_while_code, for_code, if_code, ternary_code};
use crate::symtab::VarInfo;
use crate::lowering::{
    addr_op, declare, enter_loop, load_op, lower_args, lower_body,
    lower_decl, lower_expr, lower_func, lower_guard, lower_params, lower_stmt, lower_stmts,
    lower_update, resolve, with_labels, Env, Scope, State,
};

verus! {

/// Every slot in the function table is below `n_funcs`, and every id in
/// the table of globals is below `n_globs`.
pub open spec fn tables_within(env: Env, n_funcs: nat, n_globs: nat) -> bool {
    &&& forall|name: Seq<char>| #[trigger]
        env.funcs.contains_key(name) ==> env.funcs[name].slot < n_funcs
    &&& forall|name: Seq<char>| #[trigger] env.globs.contains_key(name) ==> env.globs[name].id < n_globs
}

/// Two pieces of such code in a row are such code.
pub proof fn lemma_within_concat(a: Seq<IrStmt>, b: Seq<IrStmt>, n_funcs: nat, n_globs: nat)
    requires
        code_within(a, n_funcs, n_globs),
        code_within(b, n_funcs, n_globs),
    ensures
        code_within(a + b, n_funcs, n_globs),
{
    assert forall|i: int| 0 <= i < (a + b).len() implies op_within(
        #[trigger] (a + b)[i],
        n_funcs,
        n_globs,
    ) by {
        if i < a.len() {
            assert((a + b)[i] == a[i]);
        } else {
            assert((a + b)[i] == b[i - a.len()]);
        }
    }
}

/// Such code with one more such operation is such code.
pub proof fn lemma_within_push(a: Seq<IrStmt>, op: IrStmt, n_funcs: nat, n_globs: nat)
    requires
        code_within(a, n_funcs, n_globs),
        op_within(op, n_funcs, n_globs),
    ensures
        code_within(a.push(op), n_funcs, n_globs),
{
    assert forall|i: int| 0 <= i < a.push(op).len() implies op_within(
        #[trigger] a.push(op)[i],
        n_funcs,
        n_globs,
    ) by {
        if i < a.len() {
            assert(a.push(op)[i] == a[i]);
        }
    }
}

/// The code of a conditional, made of such code, is such code.
pub proof fn lemma_branches_within(
    a: Seq<IrStmt>,
    b: Seq<IrStmt>,
    c: Seq<IrStmt>,
    la: u32,
    n_funcs: nat,
    n_globs: nat,
)
    requires
        code_within(a, n_funcs, n_globs),
        code_within(b, n_funcs, n_globs),
        code_within(c, n_funcs, n_globs),
    ensures
        code_within(if_code(a, b, c, la), n_funcs, n_globs),
        code_within(ternary_code(a, b, c, la), n_funcs, n_globs),
{
    let end_label = (la + 1) as u32;
    let seg1 = a.push(IrStmt::Bz(la));
    let jl = seq![IrStmt::Jump(end_label), IrStmt::Label(la)];
    lemma_within_push(a, IrStmt::Bz(la), n_funcs, n_globs);
    lemma_within_concat(seg1, b, n_funcs, n_globs);
    lemma_within_concat(seg1 + b, jl, n_funcs, n_globs);
    lemma_within_push(c, IrStmt::Label(end_label), n_funcs, n_globs);
    lemma_within_concat(seg1 + b + jl, c.push(IrStmt::Label(end_label)), n_funcs, n_globs);
}

/// The code of a loop, made of such code, is such code.
pub proof fn lemma_loops_within(
    g: Seq<IrStmt>,
    b: Seq<IrStmt>,
    u: Seq<IrStmt>,
    lo: u32,
    n_funcs: nat,
    n_globs: nat,
)
    requires
        code_within(g, n_funcs, n_globs),
        code_within(b, n_funcs, n_globs),
        code_within(u, n_funcs, n_globs),
    ensures
        code_within(for_code(g, b, u, lo), n_funcs, n_globs),
        code_within(do_while_code(b, u, lo), n_funcs, n_globs),
{
    let l1 = (lo + 1) as u32;
    let l2 = (lo + 2) as u32;
    let seg1 = seq![IrStmt::Label(lo)];
    let seg3 = b.push(IrStmt::Label(l1));
    let seg5 = seq![IrStmt::Jump(lo), IrStmt::Label(l2)];
    let q5 = seq![IrStmt::Bnz(lo), IrStmt::Label(l2)];
    lemma_within_push(b, IrStmt::Label(l1), n_funcs, n_globs);
    lemma_within_concat(seg1, g, n_funcs, n_globs);
    lemma_within_concat(seg1 + g, seg3, n_funcs, n_globs);
    lemma_within_concat(seg1 + g + seg3, u, n_funcs, n_globs);
    lemma_within_concat(seg1 + g + seg3 + u, seg5, n_funcs, n_globs);
    lemma_within_concat(seg1, seg3, n_funcs, n_globs);
    lemma_within_concat(seg1 + seg3, u, n_funcs, n_globs);
    lemma_within_concat(seg1 + seg3 + u, q5, n_funcs, n_globs);
}

/// The code of an expression names existing globals and functions only.
#[verifier::rlimit(40)]
pub proof fn lemma_expr_within(
    env: Env,
    n_funcs: nat,
    n_globs: nat,
    scopes: Seq<Scope>,
    labels: u32,
    e: Expr,
    load: bool,
)
    requires
        tables_within(env, n_funcs, n_globs),
        lower_expr(env, scopes, labels, e, load) is Ok,
    ensures
        code_within(lower_expr(env, scopes, labels, e, load).unwrap().ops, n_funcs, n_globs),
    decreases e,
{
    let c = lower_expr(env, scopes, labels, e, load).unwrap();
    match e {
        Expr::Int(x) => {},
        Expr::Unary(op, x) => {
            let a = lower_expr(env, scopes, labels, *x, true).unwrap();
            lemma_expr_within(env, n_funcs, n_globs, scopes, labels, *x, true);
            lemma_within_push(a.ops, IrStmt::Unary(op), n_funcs, n_globs);
        },
        Expr::Binary(op, l, r) => {
            let a = lower_expr(env, scopes, labels, *l, true).unwrap();
            lemma_expr_within(env, n_funcs, n_globs, scopes, labels, *l, true);
            let b = lower_expr(env, scopes, a.labels, *r, true).unwrap();
            lemma_expr_within(env, n_funcs, n_globs, scopes, a.labels, *r, true);
            lemma_within_concat(a.ops, b.ops, n_funcs, n_globs);
            lemma_within_push(a.ops + b.ops, IrStmt::Binary(op), n_funcs, n_globs);
        },
        Expr::Var(name) => {
            let (is_glob, v) = resolve(env, scopes, name@).unwrap();
            assert(op_within(addr_op(is_glob, v), n_funcs, n_globs));
            lemma_within_concat(seq![addr_op(is_glob, v)], load_op(load), n_funcs, n_globs);
        },
        Expr::Assign(l, r) => {
            let a = lower_expr(env, scopes, labels, *r, true).unwrap();
            lemma_expr_within(env, n_funcs, n_globs, scopes, labels, *r, true);
            let b = lower_expr(env, scopes, a.labels, *l, false).unwrap();
            lemma_expr_within(env, n_funcs, n_globs, scopes, a.labels, *l, false);
            lemma_within_concat(a.ops, b.ops, n_funcs, n_globs);
            lemma_within_push(a.ops + b.ops, IrStmt::Store, n_funcs, n_globs);
        },
        Expr::Condition(cnd, t, f) => {
            let a = lower_expr(env, scopes, labels, *cnd, true).unwrap();
            let l2 = (a.labels + 2) as u32;
            let b = lower_expr(env, scopes, l2, *t, true).unwrap();
            let d = lower_expr(env, scopes, b.labels, *f, true).unwrap();
            lemma_expr_within(env, n_funcs, n_globs, scopes, labels, *cnd, true);
            lemma_expr_within(env, n_funcs, n_globs, scopes, l2, *t, true);
            lemma_expr_within(env, n_funcs, n_globs, scopes, b.labels, *f, true);
            lemma_branches_within(a.ops, b.ops, d.ops, a.labels, n_funcs, n_globs);
            assert(c.ops == ternary_code(a.ops, b.ops, d.ops, a.labels));
        },
        Expr::Call(name, args) => {
            let sig = env.funcs[name@];
            let n = args@.len() as int;
            let a = lower_args(env, scopes, labels, args@, sig.params, n).unwrap();
            lemma_args_within(env, n_funcs, n_globs, scopes, labels, args@, sig.params, n);
            lemma_within_push(a.ops, IrStmt::Call(sig.slot), n_funcs, n_globs);
        },
        Expr::Deref(x) => {
            let a = lower_expr(env, scopes, labels, *x, true).unwrap();
            lemma_expr_within(env, n_funcs, n_globs, scopes, labels, *x, true);
            lemma_within_concat(a.ops, load_op(load), n_funcs, n_globs);
        },
        Expr::AddrOf(x) => {
            lemma_expr_within(env, n_funcs, n_globs, scopes, labels, *x, false);
        },
        Expr::Cast(ty, x) => {
            lemma_expr_within(env, n_funcs, n_globs, scopes, labels, *x, true);
        },
        Expr::Index(_, _) => {},
    }
}

/// The code of the arguments of a call names existing globals and
/// functions only.
pub proof fn lemma_args_within(
    env: Env,
    n_funcs: nat,
    n_globs: nat,
    scopes: Seq<Scope>,
    labels: u32,
    args: Seq<Expr>,
    params: Seq<Ty>,
    n: int,
)
    requires
        tables_within(env, n_funcs, n_globs),
        0 <= n <= args.len(),
        lower_args(env, scopes, labels, args, params, n) is Ok,
    ensures
        code_within(
            lower_args(env, scopes, labels, args, params, n).unwrap().ops,
            n_funcs,
            n_globs,
        ),
    decreases args, n,
{
    if n > 0 {
        let pre = lower_args(env, scopes, labels, args, params, n - 1).unwrap();
        lemma_args_within(env, n_funcs, n_globs, scopes, labels, args, params, n - 1);
        let a = lower_expr(env, scopes, pre.labels, args[n - 1], true).unwrap();
        lemma_expr_within(env, n_funcs, n_globs, scopes, pre.labels, args[n - 1], true);
        lemma_within_concat(pre.ops, a.ops, n_funcs, n_globs);
    }
}

/// The code of a declaration names existing globals and functions only.
pub proof fn lemma_decl_within(env: Env, n_funcs: nat, n_globs: nat, st: State, d: Decl)
    requires
        tables_within(env, n_funcs, n_globs),
        lower_decl(env, st, d) is Ok,
    ensures
        code_within(lower_decl(env, st, d).unwrap().ops, n_funcs, n_globs),
{
    match d.init {
        None => {},
        Some(x) => {
            let id = st.vars;
            let scopes = declare(st.scopes, d.name@, VarInfo { id, ty: d.ty });
            let a = lower_expr(env, scopes, st.labels, x, true).unwrap();
            lemma_expr_within(env, n_funcs, n_globs, scopes, st.labels, x, true);
            lemma_within_concat(
                a.ops,
                seq![IrStmt::LocalAddr(id), IrStmt::Store, IrStmt::Pop],
                n_funcs,
                n_globs,
            );
        },
    }
}

/// The code of a statement names existing globals and functions only.
#[verifier::rlimit(40)]
pub proof fn lemma_stmt_within(
    env: Env,
    n_funcs: nat,
    n_globs: nat,
    ret: Ty,
    st: State,
    s: Stmt,
)
    requires
        tables_within(env, n_funcs, n_globs),
        lower_stmt(env, ret, st, s) is Ok,
    ensures
        code_within(lower_stmt(env, ret, st, s).unwrap().ops, n_funcs, n_globs),
    decreases s,
{
    let lo = st.labels;
    let c = lower_stmt(env, ret, st, s).unwrap();
    match s {
        Stmt::Empty => {},
        Stmt::Ret(e) => {
            let a = lower_expr(env, st.scopes, lo, e, true).unwrap();
            lemma_expr_within(env, n_funcs, n_globs, st.scopes, lo, e, true);
            lemma_within_push(a.ops, IrStmt::Ret, n_funcs, n_globs);
        },
        Stmt::Decl(d) => {
            lemma_decl_within(env, n_funcs, n_globs, st, d);
        },
        Stmt::Expr(e) => {
            let a = lower_expr(env, st.scopes, lo, e, true).unwrap();
            lemma_expr_within(env, n_funcs, n_globs, st.scopes, lo, e, true);
            lemma_within_push(a.ops, IrStmt::Pop, n_funcs, n_globs);
        },
        Stmt::If(cnd, t, f) => {
            let a = lower_expr(env, st.scopes, lo, cnd, true).unwrap();
            let l2 = (a.labels + 2) as u32;
            let b = lower_stmt(env, ret, with_labels(st, l2), *t).unwrap();
            lemma_expr_within(env, n_funcs, n_globs, st.scopes, lo, cnd, true);
            lemma_stmt_within(env, n_funcs, n_globs, ret, with_labels(st, l2), *t);
            match f {
                None => {
                    lemma_branches_within(
                        a.ops,
                        b.ops,
                        Seq::empty(),
                        a.labels,
                        n_funcs,
                        n_globs,
                    );
                    assert(c.ops =~= if_code(a.ops, b.ops, Seq::empty(), a.labels));
                },
                Some(fb) => {
                    let e = lower_stmt(env, ret, b.st, *fb).unwrap();
                    lemma_stmt_within(env, n_funcs, n_globs, ret, b.st, *fb);
                    lemma_branches_within(a.ops, b.ops, e.ops, a.labels, n_funcs, n_globs);
                    assert(c.ops == if_code(a.ops, b.ops, e.ops, a.labels));
                },
            }
        },
        Stmt::Block(ss) => {
            let inner = State {
                scopes: st.scopes.push(Map::empty()),
                loops: st.loops,
                vars: st.vars,
                labels: st.labels,
            };
            lemma_stmts_within(env, n_funcs, n_globs, ret, inner, ss@, ss@.len() as int);
        },
        Stmt::DoWhile(body, cond) => {
            let st1 = enter_loop(st, (lo + 3) as u32, (lo + 2) as u32, (lo + 1) as u32);
            let b = lower_stmt(env, ret, st1, *body).unwrap();
            let cc = lower_expr(env, b.st.scopes, b.st.labels, cond, true).unwrap();
            lemma_stmt_within(env, n_funcs, n_globs, ret, st1, *body);
            lemma_expr_within(env, n_funcs, n_globs, b.st.scopes, b.st.labels, cond, true);
            lemma_loops_within(Seq::empty(), b.ops, cc.ops, lo, n_funcs, n_globs);
            assert(c.ops == do_while_code(b.ops, cc.ops, lo));
        },
        Stmt::For { cond, update, body } => {
            let end_label = (lo + 2) as u32;
            let l3 = (lo + 3) as u32;
            let st1 = enter_loop(st, l3, end_label, (lo + 1) as u32);
            let g = lower_guard(env, st1.scopes, l3, cond, end_label).unwrap();
            match cond {
                None => {},
                Some(x) => {
                    let a = lower_expr(env, st1.scopes, l3, x, true).unwrap();
                    lemma_expr_within(env, n_funcs, n_globs, st1.scopes, l3, x, true);
                    lemma_within_push(a.ops, IrStmt::Bz(end_label), n_funcs, n_globs);
                },
            }
            let b = lower_stmt(env, ret, with_labels(st1, g.labels), *body).unwrap();
            lemma_stmt_within(env, n_funcs, n_globs, ret, with_labels(st1, g.labels), *body);
            let u = lower_update(env, b.st.scopes, b.st.labels, update).unwrap();
            match update {
                None => {},
                Some(x) => {
                    let a = lower_expr(env, b.st.scopes, b.st.labels, x, true).unwrap();
                    lemma_expr_within(env, n_funcs, n_globs, b.st.scopes, b.st.labels, x, true);
                    lemma_within_push(a.ops, IrStmt::Pop, n_funcs, n_globs);
                },
            }
            lemma_loops_within(g.ops, b.ops, u.ops, lo, n_funcs, n_globs);
            assert(c.ops == for_code(g.ops, b.ops, u.ops, lo));
        },
        Stmt::Continue => {},
        Stmt::Break => {},
    }
}

/// The code of a list of statements names existing globals and functions
/// only.
pub proof fn lemma_stmts_within(
    env: Env,
    n_funcs: nat,
    n_globs: nat,
    ret: Ty,
    st: State,
    ss: Seq<Stmt>,
    n: int,
)
    requires
        tables_within(env, n_funcs, n_globs),
        0 <= n <= ss.len(),
        lower_stmts(env, ret, st, ss, n) is Ok,
    ensures
        code_within(lower_stmts(env, ret, st, ss, n).unwrap().ops, n_funcs, n_globs),
    decreases ss, n,
{
    if n > 0 {
        let pre = lower_stmts(env, ret, st, ss, n - 1).unwrap();
        lemma_stmts_within(env, n_funcs, n_globs, ret, st, ss, n - 1);
        let b = lower_stmt(env, ret, pre.st, ss[n - 1]).unwrap();
        lemma_stmt_within(env, n_funcs, n_globs, ret, pre.st, ss[n - 1]);
        lemma_within_concat(pre.ops, b.ops, n_funcs, n_globs);
    }
}

/// The code of a function names existing globals and functions only.
pub proof fn lemma_func_within(env: Env, n_funcs: nat, n_globs: nat, f: Func)
    requires
        tables_within(env, n_funcs, n_globs),
        lower_func(env, f) is Ok,
    ensures
        lower_func(env, f).unwrap().refs_within(n_funcs, n_globs),
{
    let st = lower_params(env, f.params@, f.params@.len() as int).unwrap();
    let b = lower_body(env, f.ret, st, f.stmts).unwrap();
    match f.stmts {
        None => {},
        Some(ss) => {
            lemma_stmts_within(env, n_funcs, n_globs, f.ret, st, ss@, ss@.len() as int);
        },
    }
    lemma_within_concat(b.ops, seq![IrStmt::Const(0), IrStmt::Ret], n_funcs, n_globs);
}

} // verus!
