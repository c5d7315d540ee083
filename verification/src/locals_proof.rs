//! Lowered code names only parameters and locals of its own frame.

use vstd::prelude::*;
use crate::ast::{Decl, Expr, Func, Stmt, Ty};
use crate::ir::{locals_below, op_local_below, IrStmt};
use crate::lowering::{
    addr_op, declare, enter_loop, load_op, lower_args, lower_body, lower_decl, lower_expr,
    lower_func, lower_guard, lower_params, lower_stmt, lower_stmts, lower_update, lookup_local,
    resolve, with_labels, Env, Scope, State, StmtCode,
};
use crate::stack_proof::lemma_params_state;
use crate::stack_shapes::{do_while_code, for_code, if_code, ternary_code};
use crate::symtab::VarInfo;

verus! {

/// Every name bound in the scopes has an id below `n`.
pub open spec fn scopes_below(scopes: Seq<Scope>, n: nat) -> bool {
    forall|k: int, name: Seq<char>|
        0 <= k < scopes.len() && #[trigger] scopes[k].contains_key(name) ==> scopes[k][name].id < n
}

/// What is found in such scopes has an id below `n`.
pub proof fn lemma_lookup_below(scopes: Seq<Scope>, name: Seq<char>, n: nat)
    requires
        scopes_below(scopes, n),
        lookup_local(scopes, name) is Some,
    ensures
        lookup_local(scopes, name).unwrap().id < n,
    decreases scopes.len(),
{
    if !scopes.last().contains_key(name) {
        let rest = scopes.drop_last();
        assert forall|k: int, other: Seq<char>|
            0 <= k < rest.len() && #[trigger] rest[k].contains_key(other) implies rest[k][other].id
            < n by {
            assert(rest[k] == scopes[k]);
        }
        lemma_lookup_below(rest, name, n);
    } else {
        assert(scopes[scopes.len() - 1].contains_key(name));
    }
}

/// Such scopes stay such when the innermost one binds an id below `m`.
pub proof fn lemma_declare_below(scopes: Seq<Scope>, name: Seq<char>, v: VarInfo, n: nat, m: nat)
    requires
        scopes.len() > 0,
        scopes_below(scopes, n),
        n <= m,
        v.id < m,
    ensures
        scopes_below(declare(scopes, name, v), m),
{
    let after = declare(scopes, name, v);
    assert forall|k: int, other: Seq<char>|
        0 <= k < after.len() && #[trigger] after[k].contains_key(other) implies after[k][other].id
        < m by {
        if k < scopes.len() - 1 {
            assert(after[k] == scopes[k]);
            assert(scopes[k].contains_key(other));
        } else if other != name {
            assert(scopes[k].contains_key(other));
        }
    }
}

/// Code whose ids are below `n` has them below any larger number.
pub proof fn lemma_below_widen(a: Seq<IrStmt>, n: nat, m: nat)
    requires
        locals_below(a, n),
        n <= m,
    ensures
        locals_below(a, m),
{
    assert forall|i: int| 0 <= i < a.len() implies op_local_below(#[trigger] a[i], m) by {
        assert(op_local_below(a[i], n));
    }
}

/// Two pieces of such code in a row are such code.
pub proof fn lemma_below_concat(a: Seq<IrStmt>, b: Seq<IrStmt>, n: nat)
    requires
        locals_below(a, n),
        locals_below(b, n),
    ensures
        locals_below(a + b, n),
{
    assert forall|i: int| 0 <= i < (a + b).len() implies op_local_below(#[trigger] (a + b)[i], n) by {
        if i < a.len() {
            assert((a + b)[i] == a[i]);
        } else {
            assert((a + b)[i] == b[i - a.len()]);
        }
    }
}

/// Such code with one more such operation is such code.
pub proof fn lemma_below_push(a: Seq<IrStmt>, op: IrStmt, n: nat)
    requires
        locals_below(a, n),
        op_local_below(op, n),
    ensures
        locals_below(a.push(op), n),
{
    assert forall|i: int| 0 <= i < a.push(op).len() implies op_local_below(
        #[trigger] a.push(op)[i],
        n,
    ) by {
        if i < a.len() {
            assert(a.push(op)[i] == a[i]);
        }
    }
}

/// The code of a conditional, made of such code, is such code.
pub proof fn lemma_branches_below(
    a: Seq<IrStmt>,
    b: Seq<IrStmt>,
    c: Seq<IrStmt>,
    la: u32,
    n: nat,
)
    requires
        locals_below(a, n),
        locals_below(b, n),
        locals_below(c, n),
    ensures
        locals_below(if_code(a, b, c, la), n),
        locals_below(ternary_code(a, b, c, la), n),
{
    let end_label = (la + 1) as u32;
    let head = a.push(IrStmt::Bz(la));
    let middle = seq![IrStmt::Jump(end_label), IrStmt::Label(la)];
    lemma_below_push(a, IrStmt::Bz(la), n);
    lemma_below_concat(head, b, n);
    lemma_below_concat(head + b, middle, n);
    lemma_below_push(c, IrStmt::Label(end_label), n);
    lemma_below_concat(head + b + middle, c.push(IrStmt::Label(end_label)), n);
}

/// The code of a loop, made of such code, is such code.
pub proof fn lemma_loops_below(g: Seq<IrStmt>, b: Seq<IrStmt>, u: Seq<IrStmt>, lo: u32, n: nat)
    requires
        locals_below(g, n),
        locals_below(b, n),
        locals_below(u, n),
    ensures
        locals_below(for_code(g, b, u, lo), n),
        locals_below(do_while_code(b, u, lo), n),
{
    let l1 = (lo + 1) as u32;
    let l2 = (lo + 2) as u32;
    let top = seq![IrStmt::Label(lo)];
    let body = b.push(IrStmt::Label(l1));
    let back = seq![IrStmt::Jump(lo), IrStmt::Label(l2)];
    let again = seq![IrStmt::Bnz(lo), IrStmt::Label(l2)];
    lemma_below_push(b, IrStmt::Label(l1), n);
    lemma_below_concat(top, g, n);
    lemma_below_concat(top + g, body, n);
    lemma_below_concat(top + g + body, u, n);
    lemma_below_concat(top + g + body + u, back, n);
    lemma_below_concat(top, body, n);
    lemma_below_concat(top + body, u, n);
    lemma_below_concat(top + body + u, again, n);
}

/// The code of an expression names only ids that the scopes bind.
#[verifier::rlimit(40)]
pub proof fn lemma_expr_below(env: Env, n: nat, scopes: Seq<Scope>, labels: u32, e: Expr, load: bool)
    requires
        scopes_below(scopes, n),
        lower_expr(env, scopes, labels, e, load) is Ok,
    ensures
        locals_below(lower_expr(env, scopes, labels, e, load).unwrap().ops, n),
    decreases e,
{
    let c = lower_expr(env, scopes, labels, e, load).unwrap();
    match e {
        Expr::Int(x) => {},
        Expr::Unary(op, x) => {
            let a = lower_expr(env, scopes, labels, *x, true).unwrap();
            lemma_expr_below(env, n, scopes, labels, *x, true);
            lemma_below_push(a.ops, IrStmt::Unary(op), n);
        },
        Expr::Binary(op, l, r) => {
            let a = lower_expr(env, scopes, labels, *l, true).unwrap();
            lemma_expr_below(env, n, scopes, labels, *l, true);
            let b = lower_expr(env, scopes, a.labels, *r, true).unwrap();
            lemma_expr_below(env, n, scopes, a.labels, *r, true);
            lemma_below_concat(a.ops, b.ops, n);
            lemma_below_push(a.ops + b.ops, IrStmt::Binary(op), n);
        },
        Expr::Var(name) => {
            let (is_glob, v) = resolve(env, scopes, name@).unwrap();
            if !is_glob {
                lemma_lookup_below(scopes, name@, n);
            }
            assert(op_local_below(addr_op(is_glob, v), n));
            lemma_below_concat(seq![addr_op(is_glob, v)], load_op(load), n);
        },
        Expr::Assign(l, r) => {
            let a = lower_expr(env, scopes, labels, *r, true).unwrap();
            lemma_expr_below(env, n, scopes, labels, *r, true);
            let b = lower_expr(env, scopes, a.labels, *l, false).unwrap();
            lemma_expr_below(env, n, scopes, a.labels, *l, false);
            lemma_below_concat(a.ops, b.ops, n);
            lemma_below_push(a.ops + b.ops, IrStmt::Store, n);
        },
        Expr::Condition(cnd, t, f) => {
            let a = lower_expr(env, scopes, labels, *cnd, true).unwrap();
            let l2 = (a.labels + 2) as u32;
            let b = lower_expr(env, scopes, l2, *t, true).unwrap();
            let d = lower_expr(env, scopes, b.labels, *f, true).unwrap();
            lemma_expr_below(env, n, scopes, labels, *cnd, true);
            lemma_expr_below(env, n, scopes, l2, *t, true);
            lemma_expr_below(env, n, scopes, b.labels, *f, true);
            lemma_branches_below(a.ops, b.ops, d.ops, a.labels, n);
            assert(c.ops == ternary_code(a.ops, b.ops, d.ops, a.labels));
        },
        Expr::Call(name, args) => {
            let sig = env.funcs[name@];
            let k = args@.len() as int;
            let a = lower_args(env, scopes, labels, args@, sig.params, k).unwrap();
            lemma_args_below(env, n, scopes, labels, args@, sig.params, k);
            lemma_below_push(a.ops, IrStmt::Call(sig.slot), n);
        },
        Expr::Deref(x) => {
            let a = lower_expr(env, scopes, labels, *x, true).unwrap();
            lemma_expr_below(env, n, scopes, labels, *x, true);
            lemma_below_concat(a.ops, load_op(load), n);
        },
        Expr::AddrOf(x) => {
            lemma_expr_below(env, n, scopes, labels, *x, false);
        },
        Expr::Cast(ty, x) => {
            lemma_expr_below(env, n, scopes, labels, *x, true);
        },
        Expr::Index(_, _) => {},
    }
}

/// The code of the arguments of a call names only ids that the scopes
/// bind.
pub proof fn lemma_args_below(
    env: Env,
    n: nat,
    scopes: Seq<Scope>,
    labels: u32,
    args: Seq<Expr>,
    params: Seq<Ty>,
    k: int,
)
    requires
        scopes_below(scopes, n),
        0 <= k <= args.len(),
        lower_args(env, scopes, labels, args, params, k) is Ok,
    ensures
        locals_below(lower_args(env, scopes, labels, args, params, k).unwrap().ops, n),
    decreases args, k,
{
    if k > 0 {
        let pre = lower_args(env, scopes, labels, args, params, k - 1).unwrap();
        lemma_args_below(env, n, scopes, labels, args, params, k - 1);
        let a = lower_expr(env, scopes, pre.labels, args[k - 1], true).unwrap();
        lemma_expr_below(env, n, scopes, pre.labels, args[k - 1], true);
        lemma_below_concat(pre.ops, a.ops, n);
    }
}

/// Whether the ids bound in the scopes of the state are below its counter
/// of ids.
pub open spec fn state_below(st: State) -> bool {
    st.scopes.len() > 0 && scopes_below(st.scopes, st.vars as nat)
}

/// What holds of a lowered statement and the state after it: the ids in
/// the scopes and in the code are below the counter, which has not gone
/// down, and as many scopes are open as before.
pub open spec fn stmt_below(st: State, c: StmtCode) -> bool {
    &&& state_below(c.st)
    &&& c.st.scopes.len() == st.scopes.len()
    &&& st.vars <= c.st.vars
    &&& locals_below(c.ops, c.st.vars as nat)
}

/// A declaration names only its own id and ids bound before it.
pub proof fn lemma_decl_below(env: Env, st: State, d: Decl)
    requires
        state_below(st),
        lower_decl(env, st, d) is Ok,
    ensures
        stmt_below(st, lower_decl(env, st, d).unwrap()),
{
    let id = st.vars;
    let v = VarInfo { id, ty: d.ty };
    let scopes = declare(st.scopes, d.name@, v);
    let m = (id + 1) as nat;
    lemma_declare_below(st.scopes, d.name@, v, st.vars as nat, m);
    match d.init {
        None => {},
        Some(x) => {
            let a = lower_expr(env, scopes, st.labels, x, true).unwrap();
            lemma_expr_below(env, m, scopes, st.labels, x, true);
            lemma_below_concat(a.ops, seq![IrStmt::LocalAddr(id), IrStmt::Store, IrStmt::Pop], m);
        },
    }
}

/// Scopes whose ids are below `n` have them below any larger number, and
/// so have all of them but the innermost.
pub proof fn lemma_scopes_widen(scopes: Seq<Scope>, n: nat, m: nat)
    requires
        scopes_below(scopes, n),
        n <= m,
    ensures
        scopes_below(scopes, m),
        scopes.len() > 0 ==> scopes_below(scopes.drop_last(), m),
        scopes_below(scopes.push(Map::empty()), m),
{
    if scopes.len() > 0 {
        let rest = scopes.drop_last();
        assert forall|k: int, name: Seq<char>|
            0 <= k < rest.len() && #[trigger] rest[k].contains_key(name) implies rest[k][name].id
            < m by {
            assert(rest[k] == scopes[k]);
        }
    }
    let more = scopes.push(Map::empty());
    assert forall|k: int, name: Seq<char>|
        0 <= k < more.len() && #[trigger] more[k].contains_key(name) implies more[k][name].id
        < m by {
        if k < scopes.len() {
            assert(more[k] == scopes[k]);
        }
    }
}

/// The code of a statement names only ids that were bound before it or
/// that it declares.
#[verifier::rlimit(40)]
pub proof fn lemma_stmt_below(env: Env, ret: Ty, st: State, s: Stmt)
    requires
        state_below(st),
        lower_stmt(env, ret, st, s) is Ok,
    ensures
        stmt_below(st, lower_stmt(env, ret, st, s).unwrap()),
    decreases s, 1nat,
{
    let lo = st.labels;
    let c = lower_stmt(env, ret, st, s).unwrap();
    let n = st.vars as nat;
    match s {
        Stmt::Empty => {},
        Stmt::Ret(e) => {
            let a = lower_expr(env, st.scopes, lo, e, true).unwrap();
            lemma_expr_below(env, n, st.scopes, lo, e, true);
            lemma_below_push(a.ops, IrStmt::Ret, n);
        },
        Stmt::Decl(d) => {
            lemma_decl_below(env, st, d);
        },
        Stmt::Expr(e) => {
            let a = lower_expr(env, st.scopes, lo, e, true).unwrap();
            lemma_expr_below(env, n, st.scopes, lo, e, true);
            lemma_below_push(a.ops, IrStmt::Pop, n);
        },
        Stmt::If(cnd, t, f) => {
            let a = lower_expr(env, st.scopes, lo, cnd, true).unwrap();
            let l2 = (a.labels + 2) as u32;
            let b = lower_stmt(env, ret, with_labels(st, l2), *t).unwrap();
            lemma_expr_below(env, n, st.scopes, lo, cnd, true);
            lemma_stmt_below(env, ret, with_labels(st, l2), *t);
            let m = c.st.vars as nat;
            match f {
                None => {
                    lemma_below_widen(a.ops, n, m);
                    lemma_branches_below(a.ops, b.ops, Seq::empty(), a.labels, m);
                    assert(c.ops =~= if_code(a.ops, b.ops, Seq::empty(), a.labels));
                },
                Some(fb) => {
                    let e = lower_stmt(env, ret, b.st, *fb).unwrap();
                    lemma_stmt_below(env, ret, b.st, *fb);
                    lemma_below_widen(a.ops, n, m);
                    lemma_below_widen(b.ops, b.st.vars as nat, m);
                    lemma_branches_below(a.ops, b.ops, e.ops, a.labels, m);
                    assert(c.ops == if_code(a.ops, b.ops, e.ops, a.labels));
                },
            }
        },
        Stmt::Block(ss) => {
            let inner = State {
                scopes: st.scopes.push(Map::empty()),
                loops: st.loops,
                vars: st.vars,
                labels: st.labels,
            };
            lemma_scopes_widen(st.scopes, n, n);
            lemma_stmts_below(env, ret, inner, ss@, ss@.len() as int);
            let b = lower_stmts(env, ret, inner, ss@, ss@.len() as int).unwrap();
            lemma_scopes_widen(b.st.scopes, b.st.vars as nat, b.st.vars as nat);
        },
        Stmt::DoWhile(body, cond) => {
            let st1 = enter_loop(st, (lo + 3) as u32, (lo + 2) as u32, (lo + 1) as u32);
            let b = lower_stmt(env, ret, st1, *body).unwrap();
            let cc = lower_expr(env, b.st.scopes, b.st.labels, cond, true).unwrap();
            let m = b.st.vars as nat;
            lemma_stmt_below(env, ret, st1, *body);
            lemma_expr_below(env, m, b.st.scopes, b.st.labels, cond, true);
            lemma_loops_below(Seq::empty(), b.ops, cc.ops, lo, m);
            assert(c.ops == do_while_code(b.ops, cc.ops, lo));
        },
        Stmt::For { cond, update, body } => {
            lemma_for_below(env, ret, st, s);
        },
        Stmt::Continue => {},
        Stmt::Break => {},
    }
}

/// The code of a `for` loop names only ids that were bound before it or
/// that its body declares.
#[verifier::rlimit(40)]
pub proof fn lemma_for_below(env: Env, ret: Ty, st: State, s: Stmt)
    requires
        s is For,
        state_below(st),
        lower_stmt(env, ret, st, s) is Ok,
    ensures
        stmt_below(st, lower_stmt(env, ret, st, s).unwrap()),
    decreases s, 0nat,
{
    let lo = st.labels;
    let c = lower_stmt(env, ret, st, s).unwrap();
    let n = st.vars as nat;
    match s {
        Stmt::For { cond, update, body } => {
            let end_label = (lo + 2) as u32;
            let l3 = (lo + 3) as u32;
            let st1 = enter_loop(st, l3, end_label, (lo + 1) as u32);
            let g = lower_guard(env, st1.scopes, l3, cond, end_label).unwrap();
            match cond {
                None => {},
                Some(x) => {
                    let a = lower_expr(env, st1.scopes, l3, x, true).unwrap();
                    lemma_expr_below(env, n, st1.scopes, l3, x, true);
                    lemma_below_push(a.ops, IrStmt::Bz(end_label), n);
                },
            }
            let b = lower_stmt(env, ret, with_labels(st1, g.labels), *body).unwrap();
            lemma_stmt_below(env, ret, with_labels(st1, g.labels), *body);
            let m = b.st.vars as nat;
            let u = lower_update(env, b.st.scopes, b.st.labels, update).unwrap();
            match update {
                None => {},
                Some(x) => {
                    let a = lower_expr(env, b.st.scopes, b.st.labels, x, true).unwrap();
                    lemma_expr_below(env, m, b.st.scopes, b.st.labels, x, true);
                    lemma_below_push(a.ops, IrStmt::Pop, m);
                },
            }
            lemma_below_widen(g.ops, n, m);
            lemma_loops_below(g.ops, b.ops, u.ops, lo, m);
            assert(c.ops == for_code(g.ops, b.ops, u.ops, lo));
        },
        _ => {},
    }
}

/// The code of a list of statements names only ids that were bound before
/// it or that it declares.
pub proof fn lemma_stmts_below(env: Env, ret: Ty, st: State, ss: Seq<Stmt>, k: int)
    requires
        state_below(st),
        0 <= k <= ss.len(),
        lower_stmts(env, ret, st, ss, k) is Ok,
    ensures
        stmt_below(st, lower_stmts(env, ret, st, ss, k).unwrap()),
    decreases ss, k,
{
    if k > 0 {
        let pre = lower_stmts(env, ret, st, ss, k - 1).unwrap();
        lemma_stmts_below(env, ret, st, ss, k - 1);
        let b = lower_stmt(env, ret, pre.st, ss[k - 1]).unwrap();
        lemma_stmt_below(env, ret, pre.st, ss[k - 1]);
        lemma_below_widen(pre.ops, pre.st.vars as nat, b.st.vars as nat);
        lemma_below_concat(pre.ops, b.ops, b.st.vars as nat);
    }
}

/// After the parameters the ids in the scope are below the counter.
pub proof fn lemma_params_below(env: Env, params: Seq<Decl>, k: int)
    requires
        0 <= k <= params.len(),
        lower_params(env, params, k) is Ok,
    ensures
        state_below(lower_params(env, params, k).unwrap()),
    decreases k,
{
    if k > 0 {
        lemma_params_below(env, params, k - 1);
        lemma_decl_below(env, lower_params(env, params, k - 1).unwrap(), params[k - 1]);
    }
}

/// Every parameter or local that the code of a function names has a slot
/// in the frame of the function.
pub proof fn lemma_func_locals_within(env: Env, f: Func)
    requires
        lower_func(env, f) is Ok,
    ensures
        lower_func(env, f).unwrap().locals_within(),
{
    let k = f.params@.len() as int;
    let st = lower_params(env, f.params@, k).unwrap();
    let b = lower_body(env, f.ret, st, f.stmts).unwrap();
    lemma_params_below(env, f.params@, k);
    lemma_params_state(env, f.params@, k);
    match f.stmts {
        None => {},
        Some(ss) => {
            lemma_stmts_below(env, f.ret, st, ss@, ss@.len() as int);
        },
    }
    let m = b.st.vars as nat;
    lemma_below_concat(b.ops, seq![IrStmt::Const(0), IrStmt::Ret], m);
}

} // verus!
