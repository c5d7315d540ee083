//! Labels of lowered code: within a function every label is defined at
//! most once, and every jump goes to a label that the function defines.

use vstd::prelude::*;
use crate::ast::{Decl, Expr, Func, Stmt, Ty};
use crate::ir::IrStmt;
use crate::stack_proof::lemma_params_state;
use crate::stack_shapes::{do_while_code, for_code, if_code, loops_in, ternary_code};
use crate::symtab::VarInfo;
use crate::lowering::{
    declare, enter_loop, lower_args, lower_body, lower_decl, lower_expr, lower_func,
    lower_guard, lower_params, lower_stmt, lower_stmts, lower_update, with_labels, Env, Scope,
    State,
};

verus! {

/// The number of times that the code defines the label `l`.
pub open spec fn defs(ops: Seq<IrStmt>, l: u32) -> nat
    decreases ops.len(),
{
    if ops.len() == 0 {
        0
    } else {
        defs(ops.drop_last(), l) + if ops.last() == IrStmt::Label(l) {
            1nat
        } else {
            0nat
        }
    }
}

/// The label that an operation jumps to, if it is a jump or a branch.
pub open spec fn target(op: IrStmt) -> Option<u32> {
    match op {
        IrStmt::Bz(l) | IrStmt::Bnz(l) | IrStmt::Jump(l) => Some(l),
        _ => None,
    }
}

/// Whether `l` is a target of one of the loops.
pub open spec fn loop_target(loops: Seq<(u32, u32)>, l: u32) -> bool {
    exists|k: int| 0 <= k < loops.len() && (#[trigger] loops[k].0 == l || loops[k].1 == l)
}

/// The code defines each label from `lo` up to `hi` once, and no other.
pub open spec fn defines(ops: Seq<IrStmt>, lo: u32, hi: u32) -> bool {
    &&& lo <= hi
    &&& forall|l: u32|
        #[trigger] defs(ops, l) == if lo <= l < hi {
            1nat
        } else {
            0nat
        }
}

/// Every jump of the code goes to a label from `lo` up to `hi` or to a
/// target of the loops.
pub open spec fn jumps_to(ops: Seq<IrStmt>, loops: Seq<(u32, u32)>, lo: u32, hi: u32) -> bool {
    forall|i: int|
        0 <= i < ops.len() ==> match target(#[trigger] ops[i]) {
            Some(l) => lo <= l < hi || loop_target(loops, l),
            None => true,
        }
}

/// A piece of code with labels of its own from `lo` up to `hi`: it
/// defines each of them once, and jumps only to them and to the targets of
/// the loops around it.
pub open spec fn labelled(ops: Seq<IrStmt>, loops: Seq<(u32, u32)>, lo: u32, hi: u32) -> bool {
    defines(ops, lo, hi) && jumps_to(ops, loops, lo, hi)
}

/// The definitions of a label in two pieces of code add up.
pub proof fn lemma_defs_concat(a: Seq<IrStmt>, b: Seq<IrStmt>, l: u32)
    ensures
        defs(a + b, l) == defs(a, l) + defs(b, l),
    decreases b.len(),
{
    if b.len() == 0 {
        assert(a + b =~= a);
    } else {
        lemma_defs_concat(a, b.drop_last(), l);
        assert((a + b).drop_last() =~= a + b.drop_last());
    }
}

/// The definitions of a label in one operation.
pub proof fn lemma_defs_one(op: IrStmt, l: u32)
    ensures
        defs(seq![op], l) == if op == IrStmt::Label(l) {
            1nat
        } else {
            0nat
        },
{
    reveal_with_fuel(defs, 2);
    assert(seq![op].drop_last() =~= Seq::<IrStmt>::empty());
}

/// Code without an operation defines nothing and jumps nowhere.
pub proof fn lemma_empty_labelled(loops: Seq<(u32, u32)>, lo: u32)
    ensures
        labelled(Seq::empty(), loops, lo, lo),
{
}

/// Code made of operations that are neither labels nor jumps defines
/// nothing and jumps nowhere.
pub proof fn lemma_plain_labelled(ops: Seq<IrStmt>, loops: Seq<(u32, u32)>, lo: u32)
    requires
        forall|i: int| 0 <= i < ops.len() ==> !(#[trigger] ops[i] is Label) && target(ops[i]) is None,
    ensures
        labelled(ops, loops, lo, lo),
    decreases ops.len(),
{
    if ops.len() > 0 {
        let front = ops.drop_last();
        assert forall|i: int| 0 <= i < front.len() implies !(#[trigger] front[i] is Label)
            && target(front[i]) is None by {
            assert(front[i] == ops[i]);
        }
        lemma_plain_labelled(front, loops, lo);
        assert(!(ops[ops.len() - 1] is Label));
        assert forall|l: u32| #[trigger] defs(ops, l) == 0 by {
            assert(defs(front, l) == 0);
        }
    }
}

/// A jump to a target of the loops defines nothing and jumps to the
/// loops only; so does a branch there after code with labels of its own.
pub proof fn lemma_jump_labelled(
    a: Seq<IrStmt>,
    op: IrStmt,
    loops: Seq<(u32, u32)>,
    lo: u32,
    hi: u32,
)
    requires
        labelled(a, loops, lo, hi),
        target(op) matches Some(l) && loop_target(loops, l),
    ensures
        labelled(a.push(op), loops, lo, hi),
{
    let one = seq![op];
    assert forall|l: u32| #[trigger] defs(one, l) == 0 by {
        lemma_defs_one(op, l);
    }
    assert(labelled(one, loops, hi, hi));
    lemma_seq_labelled(a, one, loops, lo, hi, hi);
    assert(a + one =~= a.push(op));
}

/// Two pieces of code with labels of their own, one range after the
/// other, are one such piece.
pub proof fn lemma_seq_labelled(
    a: Seq<IrStmt>,
    b: Seq<IrStmt>,
    loops: Seq<(u32, u32)>,
    lo: u32,
    mid: u32,
    hi: u32,
)
    requires
        labelled(a, loops, lo, mid),
        labelled(b, loops, mid, hi),
    ensures
        labelled(a + b, loops, lo, hi),
{
    assert forall|l: u32|
        #[trigger] defs(a + b, l) == if lo <= l < hi {
            1nat
        } else {
            0nat
        } by {
        lemma_defs_concat(a, b, l);
    }
    assert forall|i: int| 0 <= i < (a + b).len() implies match target(#[trigger] (a + b)[i]) {
        Some(l) => lo <= l < hi || loop_target(loops, l),
        None => true,
    } by {
        if i < a.len() {
            assert((a + b)[i] == a[i]);
        } else {
            assert((a + b)[i] == b[i - a.len()]);
        }
    }
}

/// Code followed by one operation that is neither a label nor a jump.
pub proof fn lemma_push_labelled(
    a: Seq<IrStmt>,
    op: IrStmt,
    loops: Seq<(u32, u32)>,
    lo: u32,
    hi: u32,
)
    requires
        labelled(a, loops, lo, hi),
        !(op is Label),
        target(op) is None,
    ensures
        labelled(a.push(op), loops, lo, hi),
{
    lemma_plain_labelled(seq![op], loops, hi);
    lemma_seq_labelled(a, seq![op], loops, lo, hi, hi);
    assert(a + seq![op] =~= a.push(op));
}

/// The targets of the loops inside a loop are those of the loops around
/// it and its own two.
pub proof fn lemma_loop_targets(loops: Seq<(u32, u32)>, lo: u32)
    requires
        lo <= u32::MAX - 3,
    ensures
        forall|l: u32|
            loop_target(loops_in(loops, lo), l) ==> loop_target(loops, l) || l == lo + 1 || l == lo
                + 2,
        loop_target(loops_in(loops, lo), (lo + 1) as u32),
        loop_target(loops_in(loops, lo), (lo + 2) as u32),
{
    let inner = loops_in(loops, lo);
    assert forall|l: u32| loop_target(inner, l) implies loop_target(loops, l) || l == lo + 1 || l
        == lo + 2 by {
        let k = choose|k: int| 0 <= k < inner.len() && (#[trigger] inner[k].0 == l || inner[k].1 == l);
        if k < loops.len() {
            assert(inner[k] == loops[k]);
            assert(loops[k].0 == l || loops[k].1 == l);
        }
    }
    let last = inner.len() - 1;
    assert(inner[last].0 == lo + 2 && inner[last].1 == lo + 1);
}

/// The labels of a conditional, made of pieces with labels of their own.
pub proof fn lemma_branches_labelled(
    a: Seq<IrStmt>,
    b: Seq<IrStmt>,
    c: Seq<IrStmt>,
    loops: Seq<(u32, u32)>,
    lo: u32,
    la: u32,
    lb: u32,
    lc: u32,
)
    requires
        la <= u32::MAX - 2,
        labelled(a, loops, lo, la),
        labelled(b, loops, (la + 2) as u32, lb),
        labelled(c, loops, lb, lc),
    ensures
        labelled(if_code(a, b, c, la), loops, lo, lc),
        labelled(ternary_code(a, b, c, la), loops, lo, lc),
{
    let end_label = (la + 1) as u32;
    let seg1 = a.push(IrStmt::Bz(la));
    let jl = seq![IrStmt::Jump(end_label), IrStmt::Label(la)];
    let seg4 = c.push(IrStmt::Label(end_label));
    let all = seg1 + b + jl + seg4;
    assert(if_code(a, b, c, la) == all);
    assert(ternary_code(a, b, c, la) == all);
    assert forall|l: u32|
        #[trigger] defs(all, l) == if lo <= l < lc {
            1nat
        } else {
            0nat
        } by {
        lemma_defs_one(IrStmt::Bz(la), l);
        lemma_defs_concat(a, seq![IrStmt::Bz(la)], l);
        assert(a + seq![IrStmt::Bz(la)] =~= seg1);
        lemma_defs_one(IrStmt::Jump(end_label), l);
        lemma_defs_one(IrStmt::Label(la), l);
        lemma_defs_concat(seq![IrStmt::Jump(end_label)], seq![IrStmt::Label(la)], l);
        assert(seq![IrStmt::Jump(end_label)] + seq![IrStmt::Label(la)] =~= jl);
        lemma_defs_one(IrStmt::Label(end_label), l);
        lemma_defs_concat(c, seq![IrStmt::Label(end_label)], l);
        assert(c + seq![IrStmt::Label(end_label)] =~= seg4);
        lemma_defs_concat(seg1, b, l);
        lemma_defs_concat(seg1 + b, jl, l);
        lemma_defs_concat(seg1 + b + jl, seg4, l);
    }
    assert forall|i: int| 0 <= i < all.len() implies match target(#[trigger] all[i]) {
        Some(l) => lo <= l < lc || loop_target(loops, l),
        None => true,
    } by {
        let n1 = a.len() as int;
        let n2 = n1 + 1 + b.len();
        let n3 = n2 + 2;
        if i < n1 {
            assert(all[i] == a[i]);
        } else if i == n1 {
            assert(all[i] == IrStmt::Bz(la));
        } else if i < n2 {
            assert(all[i] == b[i - n1 - 1]);
        } else if i == n2 {
            assert(all[i] == IrStmt::Jump(end_label));
        } else if i == n2 + 1 {
            assert(all[i] == IrStmt::Label(la));
        } else if i < n3 + c.len() {
            assert(all[i] == c[i - n3]);
        } else {
            assert(all[i] == IrStmt::Label(end_label));
        }
    }
}

/// The labels of a `for` loop, made of pieces with labels of their own.
pub proof fn lemma_for_labelled(
    g: Seq<IrStmt>,
    b: Seq<IrStmt>,
    u: Seq<IrStmt>,
    loops: Seq<(u32, u32)>,
    lo: u32,
    lg: u32,
    lb: u32,
    lu: u32,
)
    requires
        lo <= u32::MAX - 3,
        labelled(g, loops_in(loops, lo), (lo + 3) as u32, lg),
        labelled(b, loops_in(loops, lo), lg, lb),
        labelled(u, loops_in(loops, lo), lb, lu),
    ensures
        labelled(for_code(g, b, u, lo), loops, lo, lu),
{
    let l1 = (lo + 1) as u32;
    let l2 = (lo + 2) as u32;
    let seg1 = seq![IrStmt::Label(lo)];
    let seg3 = b.push(IrStmt::Label(l1));
    let seg5 = seq![IrStmt::Jump(lo), IrStmt::Label(l2)];
    let all = seg1 + g + seg3 + u + seg5;
    assert(for_code(g, b, u, lo) == all);
    lemma_loop_targets(loops, lo);
    assert forall|l: u32|
        #[trigger] defs(all, l) == if lo <= l < lu {
            1nat
        } else {
            0nat
        } by {
        lemma_defs_one(IrStmt::Label(lo), l);
        lemma_defs_one(IrStmt::Label(l1), l);
        lemma_defs_concat(b, seq![IrStmt::Label(l1)], l);
        assert(b + seq![IrStmt::Label(l1)] =~= seg3);
        lemma_defs_one(IrStmt::Jump(lo), l);
        lemma_defs_one(IrStmt::Label(l2), l);
        lemma_defs_concat(seq![IrStmt::Jump(lo)], seq![IrStmt::Label(l2)], l);
        assert(seq![IrStmt::Jump(lo)] + seq![IrStmt::Label(l2)] =~= seg5);
        lemma_defs_concat(seg1, g, l);
        lemma_defs_concat(seg1 + g, seg3, l);
        lemma_defs_concat(seg1 + g + seg3, u, l);
        lemma_defs_concat(seg1 + g + seg3 + u, seg5, l);
    }
    assert forall|i: int| 0 <= i < all.len() implies match target(#[trigger] all[i]) {
        Some(l) => lo <= l < lu || loop_target(loops, l),
        None => true,
    } by {
        let n1 = 1 + g.len();
        let n2 = n1 + b.len() + 1;
        let n3 = n2 + u.len();
        if i == 0 {
            assert(all[i] == IrStmt::Label(lo));
        } else if i < n1 {
            assert(all[i] == g[i - 1]);
        } else if i < n2 - 1 {
            assert(all[i] == b[i - n1]);
        } else if i == n2 - 1 {
            assert(all[i] == IrStmt::Label(l1));
        } else if i < n3 {
            assert(all[i] == u[i - n2]);
        } else if i == n3 {
            assert(all[i] == IrStmt::Jump(lo));
        } else {
            assert(all[i] == IrStmt::Label(l2));
        }
    }
}

/// The labels of a `do`-`while` loop, made of pieces with labels of
/// their own.
pub proof fn lemma_do_while_labelled(
    b: Seq<IrStmt>,
    c: Seq<IrStmt>,
    loops: Seq<(u32, u32)>,
    lo: u32,
    lb: u32,
    lc: u32,
)
    requires
        lo <= u32::MAX - 3,
        labelled(b, loops_in(loops, lo), (lo + 3) as u32, lb),
        labelled(c, loops, lb, lc),
    ensures
        labelled(do_while_code(b, c, lo), loops, lo, lc),
{
    let l1 = (lo + 1) as u32;
    let l2 = (lo + 2) as u32;
    let seg1 = seq![IrStmt::Label(lo)];
    let seg2 = b.push(IrStmt::Label(l1));
    let seg4 = seq![IrStmt::Bnz(lo), IrStmt::Label(l2)];
    let all = seg1 + seg2 + c + seg4;
    assert(do_while_code(b, c, lo) == all);
    lemma_loop_targets(loops, lo);
    assert forall|l: u32|
        #[trigger] defs(all, l) == if lo <= l < lc {
            1nat
        } else {
            0nat
        } by {
        lemma_defs_one(IrStmt::Label(lo), l);
        lemma_defs_one(IrStmt::Label(l1), l);
        lemma_defs_concat(b, seq![IrStmt::Label(l1)], l);
        assert(b + seq![IrStmt::Label(l1)] =~= seg2);
        lemma_defs_one(IrStmt::Bnz(lo), l);
        lemma_defs_one(IrStmt::Label(l2), l);
        lemma_defs_concat(seq![IrStmt::Bnz(lo)], seq![IrStmt::Label(l2)], l);
        assert(seq![IrStmt::Bnz(lo)] + seq![IrStmt::Label(l2)] =~= seg4);
        lemma_defs_concat(seg1, seg2, l);
        lemma_defs_concat(seg1 + seg2, c, l);
        lemma_defs_concat(seg1 + seg2 + c, seg4, l);
    }
    assert forall|i: int| 0 <= i < all.len() implies match target(#[trigger] all[i]) {
        Some(l) => lo <= l < lc || loop_target(loops, l),
        None => true,
    } by {
        let n1 = 1 + b.len();
        let n2 = n1 + 1 + c.len();
        if i == 0 {
            assert(all[i] == IrStmt::Label(lo));
        } else if i < n1 {
            assert(all[i] == b[i - 1]);
        } else if i == n1 {
            assert(all[i] == IrStmt::Label(l1));
        } else if i < n2 {
            assert(all[i] == c[i - n1 - 1]);
        } else if i == n2 {
            assert(all[i] == IrStmt::Bnz(lo));
        } else {
            assert(all[i] == IrStmt::Label(l2));
        }
    }
}

/// The code of an expression defines each of its labels once and jumps
/// only to them.
pub proof fn lemma_expr_labelled(
    env: Env,
    loops: Seq<(u32, u32)>,
    scopes: Seq<Scope>,
    labels: u32,
    e: Expr,
    load: bool,
)
    requires
        lower_expr(env, scopes, labels, e, load) is Ok,
    ensures
        labelled(
            lower_expr(env, scopes, labels, e, load).unwrap().ops,
            loops,
            labels,
            lower_expr(env, scopes, labels, e, load).unwrap().labels,
        ),
    decreases e,
{
    let c = lower_expr(env, scopes, labels, e, load).unwrap();
    match e {
        Expr::Int(x) => {
            lemma_plain_labelled(c.ops, loops, labels);
        },
        Expr::Unary(op, x) => {
            let a = lower_expr(env, scopes, labels, *x, true).unwrap();
            lemma_expr_labelled(env, loops, scopes, labels, *x, true);
            lemma_push_labelled(a.ops, IrStmt::Unary(op), loops, labels, a.labels);
        },
        Expr::Binary(op, l, r) => {
            let a = lower_expr(env, scopes, labels, *l, true).unwrap();
            lemma_expr_labelled(env, loops, scopes, labels, *l, true);
            let b = lower_expr(env, scopes, a.labels, *r, true).unwrap();
            lemma_expr_labelled(env, loops, scopes, a.labels, *r, true);
            lemma_seq_labelled(a.ops, b.ops, loops, labels, a.labels, b.labels);
            lemma_push_labelled(a.ops + b.ops, IrStmt::Binary(op), loops, labels, b.labels);
        },
        Expr::Var(name) => {
            lemma_plain_labelled(c.ops, loops, labels);
        },
        Expr::Assign(l, r) => {
            let a = lower_expr(env, scopes, labels, *r, true).unwrap();
            lemma_expr_labelled(env, loops, scopes, labels, *r, true);
            let b = lower_expr(env, scopes, a.labels, *l, false).unwrap();
            lemma_expr_labelled(env, loops, scopes, a.labels, *l, false);
            lemma_seq_labelled(a.ops, b.ops, loops, labels, a.labels, b.labels);
            lemma_push_labelled(a.ops + b.ops, IrStmt::Store, loops, labels, b.labels);
        },
        Expr::Condition(cnd, t, f) => {
            let a = lower_expr(env, scopes, labels, *cnd, true).unwrap();
            let l2 = (a.labels + 2) as u32;
            let b = lower_expr(env, scopes, l2, *t, true).unwrap();
            let d = lower_expr(env, scopes, b.labels, *f, true).unwrap();
            lemma_expr_labelled(env, loops, scopes, labels, *cnd, true);
            lemma_expr_labelled(env, loops, scopes, l2, *t, true);
            lemma_expr_labelled(env, loops, scopes, b.labels, *f, true);
            lemma_branches_labelled(
                a.ops,
                b.ops,
                d.ops,
                loops,
                labels,
                a.labels,
                b.labels,
                d.labels,
            );
            assert(c.ops == ternary_code(a.ops, b.ops, d.ops, a.labels));
        },
        Expr::Call(name, args) => {
            let sig = env.funcs[name@];
            let n = args@.len() as int;
            let a = lower_args(env, scopes, labels, args@, sig.params, n).unwrap();
            lemma_args_labelled(env, loops, scopes, labels, args@, sig.params, n);
            lemma_push_labelled(a.ops, IrStmt::Call(sig.slot), loops, labels, a.labels);
        },
        Expr::Deref(x) => {
            let a = lower_expr(env, scopes, labels, *x, true).unwrap();
            lemma_expr_labelled(env, loops, scopes, labels, *x, true);
            if load {
                lemma_push_labelled(a.ops, IrStmt::Load, loops, labels, a.labels);
                assert(c.ops =~= a.ops.push(IrStmt::Load));
            } else {
                assert(c.ops =~= a.ops);
            }
        },
        Expr::AddrOf(x) => {
            lemma_expr_labelled(env, loops, scopes, labels, *x, false);
        },
        Expr::Cast(ty, x) => {
            lemma_expr_labelled(env, loops, scopes, labels, *x, true);
        },
        Expr::Index(_, _) => {},
    }
}

/// The code of the arguments of a call defines each of its labels once
/// and jumps only to them.
pub proof fn lemma_args_labelled(
    env: Env,
    loops: Seq<(u32, u32)>,
    scopes: Seq<Scope>,
    labels: u32,
    args: Seq<Expr>,
    params: Seq<Ty>,
    n: int,
)
    requires
        0 <= n <= args.len(),
        lower_args(env, scopes, labels, args, params, n) is Ok,
    ensures
        labelled(
            lower_args(env, scopes, labels, args, params, n).unwrap().ops,
            loops,
            labels,
            lower_args(env, scopes, labels, args, params, n).unwrap().labels,
        ),
    decreases args, n,
{
    if n > 0 {
        let pre = lower_args(env, scopes, labels, args, params, n - 1).unwrap();
        lemma_args_labelled(env, loops, scopes, labels, args, params, n - 1);
        let a = lower_expr(env, scopes, pre.labels, args[n - 1], true).unwrap();
        lemma_expr_labelled(env, loops, scopes, pre.labels, args[n - 1], true);
        lemma_seq_labelled(pre.ops, a.ops, loops, labels, pre.labels, a.labels);
    }
}

/// The code of a declaration defines each of its labels once and jumps
/// only to them.
pub proof fn lemma_decl_labelled(env: Env, st: State, d: Decl)
    requires
        lower_decl(env, st, d) is Ok,
    ensures
        labelled(
            lower_decl(env, st, d).unwrap().ops,
            st.loops,
            st.labels,
            lower_decl(env, st, d).unwrap().st.labels,
        ),
{
    match d.init {
        None => {},
        Some(x) => {
            let id = st.vars;
            let scopes = declare(st.scopes, d.name@, VarInfo { id, ty: d.ty });
            let a = lower_expr(env, scopes, st.labels, x, true).unwrap();
            lemma_expr_labelled(env, st.loops, scopes, st.labels, x, true);
            let tail = seq![IrStmt::LocalAddr(id), IrStmt::Store, IrStmt::Pop];
            lemma_plain_labelled(tail, st.loops, a.labels);
            lemma_seq_labelled(a.ops, tail, st.loops, st.labels, a.labels, a.labels);
        },
    }
}

/// The code of a `for` loop defines each of its labels once, and jumps
/// only to them and to the targets of the loops around it.
#[verifier::rlimit(40)]
proof fn lemma_for_stmt_labelled(env: Env, ret: Ty, st: State, s: Stmt)
    requires
        s is For,
        lower_stmt(env, ret, st, s) is Ok,
    ensures
        lower_stmt(env, ret, st, s).unwrap().st.loops == st.loops,
        labelled(
            lower_stmt(env, ret, st, s).unwrap().ops,
            st.loops,
            st.labels,
            lower_stmt(env, ret, st, s).unwrap().st.labels,
        ),
    decreases s, 0nat,
{
    let c = lower_stmt(env, ret, st, s).unwrap();
    let lo = st.labels;
    match s {
        Stmt::For { cond, update, body } => {
            let end_label = (lo + 2) as u32;
            let l3 = (lo + 3) as u32;
            let st1 = enter_loop(st, l3, end_label, (lo + 1) as u32);
            let inner = loops_in(st.loops, lo);
            assert(st1.loops == inner);
            lemma_loop_targets(st.loops, lo);
            let g = lower_guard(env, st1.scopes, l3, cond, end_label).unwrap();
            match cond {
                None => {},
                Some(x) => {
                    let a = lower_expr(env, st1.scopes, l3, x, true).unwrap();
                    lemma_expr_labelled(env, inner, st1.scopes, l3, x, true);
                    lemma_jump_labelled(a.ops, IrStmt::Bz(end_label), inner, l3, a.labels);
                },
            }
            let b = lower_stmt(env, ret, with_labels(st1, g.labels), *body).unwrap();
            lemma_stmt_labelled(env, ret, with_labels(st1, g.labels), *body);
            let u = lower_update(env, b.st.scopes, b.st.labels, update).unwrap();
            match update {
                None => {},
                Some(x) => {
                    let a = lower_expr(env, b.st.scopes, b.st.labels, x, true).unwrap();
                    lemma_expr_labelled(env, inner, b.st.scopes, b.st.labels, x, true);
                    lemma_push_labelled(a.ops, IrStmt::Pop, inner, b.st.labels, a.labels);
                },
            }
            lemma_for_labelled(g.ops, b.ops, u.ops, st.loops, lo, g.labels, b.st.labels, u.labels);
            assert(c.ops == for_code(g.ops, b.ops, u.ops, lo));
            assert(st1.loops.drop_last() =~= st.loops);
        },
        _ => {},
    }
}

/// The code of a statement defines each of its labels once, and jumps
/// only to them and to the targets of the loops around the statement.
#[verifier::rlimit(40)]
pub proof fn lemma_stmt_labelled(env: Env, ret: Ty, st: State, s: Stmt)
    requires
        lower_stmt(env, ret, st, s) is Ok,
    ensures
        lower_stmt(env, ret, st, s).unwrap().st.loops == st.loops,
        labelled(
            lower_stmt(env, ret, st, s).unwrap().ops,
            st.loops,
            st.labels,
            lower_stmt(env, ret, st, s).unwrap().st.labels,
        ),
    decreases s, 1nat,
{
    let c = lower_stmt(env, ret, st, s).unwrap();
    let lo = st.labels;
    match s {
        Stmt::Empty => {},
        Stmt::Ret(e) => {
            let a = lower_expr(env, st.scopes, lo, e, true).unwrap();
            lemma_expr_labelled(env, st.loops, st.scopes, lo, e, true);
            lemma_push_labelled(a.ops, IrStmt::Ret, st.loops, lo, a.labels);
        },
        Stmt::Decl(d) => {
            lemma_decl_labelled(env, st, d);
        },
        Stmt::Expr(e) => {
            let a = lower_expr(env, st.scopes, lo, e, true).unwrap();
            lemma_expr_labelled(env, st.loops, st.scopes, lo, e, true);
            lemma_push_labelled(a.ops, IrStmt::Pop, st.loops, lo, a.labels);
        },
        Stmt::If(cnd, t, f) => {
            let a = lower_expr(env, st.scopes, lo, cnd, true).unwrap();
            let l2 = (a.labels + 2) as u32;
            let b = lower_stmt(env, ret, with_labels(st, l2), *t).unwrap();
            lemma_expr_labelled(env, st.loops, st.scopes, lo, cnd, true);
            lemma_stmt_labelled(env, ret, with_labels(st, l2), *t);
            match f {
                None => {
                    lemma_empty_labelled(st.loops, b.st.labels);
                    lemma_branches_labelled(
                        a.ops,
                        b.ops,
                        Seq::empty(),
                        st.loops,
                        lo,
                        a.labels,
                        b.st.labels,
                        b.st.labels,
                    );
                    assert(c.ops =~= if_code(a.ops, b.ops, Seq::empty(), a.labels));
                },
                Some(fb) => {
                    let e = lower_stmt(env, ret, b.st, *fb).unwrap();
                    lemma_stmt_labelled(env, ret, b.st, *fb);
                    lemma_branches_labelled(
                        a.ops,
                        b.ops,
                        e.ops,
                        st.loops,
                        lo,
                        a.labels,
                        b.st.labels,
                        e.st.labels,
                    );
                    assert(c.ops == if_code(a.ops, b.ops, e.ops, a.labels));
                },
            }
        },
        Stmt::Block(ss) => {
            let inner = State {
                scopes: st.scopes.push(Map::empty()),
                loops: st.loops,
                vars: st.vars,
                labels: st.labels,
            };
            lemma_stmts_labelled(env, ret, inner, ss@, ss@.len() as int);
        },
        Stmt::DoWhile(body, cond) => {
            let st1 = enter_loop(st, (lo + 3) as u32, (lo + 2) as u32, (lo + 1) as u32);
            let b = lower_stmt(env, ret, st1, *body).unwrap();
            let cc = lower_expr(env, b.st.scopes, b.st.labels, cond, true).unwrap();
            lemma_stmt_labelled(env, ret, st1, *body);
            lemma_expr_labelled(env, st.loops, b.st.scopes, b.st.labels, cond, true);
            assert(st1.loops == loops_in(st.loops, lo));
            lemma_do_while_labelled(b.ops, cc.ops, st.loops, lo, b.st.labels, cc.labels);
            assert(c.ops == do_while_code(b.ops, cc.ops, lo));
            assert(st1.loops.drop_last() =~= st.loops);
        },
        Stmt::For { .. } => {
            lemma_for_stmt_labelled(env, ret, st, s);
        },
        Stmt::Continue => {
            let l = st.loops.last().1;
            assert(st.loops[st.loops.len() - 1].1 == l);
            lemma_empty_labelled(st.loops, lo);
            lemma_jump_labelled(Seq::empty(), IrStmt::Jump(l), st.loops, lo, lo);
            assert(c.ops =~= Seq::<IrStmt>::empty().push(IrStmt::Jump(l)));
        },
        Stmt::Break => {
            let l = st.loops.last().0;
            assert(st.loops[st.loops.len() - 1].0 == l);
            lemma_empty_labelled(st.loops, lo);
            lemma_jump_labelled(Seq::empty(), IrStmt::Jump(l), st.loops, lo, lo);
            assert(c.ops =~= Seq::<IrStmt>::empty().push(IrStmt::Jump(l)));
        },
    }
}

/// The code of a list of statements defines each of its labels once, and
/// jumps only to them and to the targets of the loops around the list.
pub proof fn lemma_stmts_labelled(env: Env, ret: Ty, st: State, ss: Seq<Stmt>, n: int)
    requires
        0 <= n <= ss.len(),
        lower_stmts(env, ret, st, ss, n) is Ok,
    ensures
        lower_stmts(env, ret, st, ss, n).unwrap().st.loops == st.loops,
        labelled(
            lower_stmts(env, ret, st, ss, n).unwrap().ops,
            st.loops,
            st.labels,
            lower_stmts(env, ret, st, ss, n).unwrap().st.labels,
        ),
    decreases ss, n,
{
    if n > 0 {
        let pre = lower_stmts(env, ret, st, ss, n - 1).unwrap();
        lemma_stmts_labelled(env, ret, st, ss, n - 1);
        let b = lower_stmt(env, ret, pre.st, ss[n - 1]).unwrap();
        lemma_stmt_labelled(env, ret, pre.st, ss[n - 1]);
        lemma_seq_labelled(pre.ops, b.ops, st.loops, st.labels, pre.st.labels, b.st.labels);
    }
}

/// Whether every label is defined at most once in the code, and every
/// jump goes to a label that the code defines.
pub open spec fn labels_resolve(ops: Seq<IrStmt>) -> bool {
    &&& forall|l: u32| #[trigger] defs(ops, l) <= 1
    &&& forall|i: int|
        0 <= i < ops.len() ==> match target(#[trigger] ops[i]) {
            Some(l) => defs(ops, l) == 1,
            None => true,
        }
}

/// In the code of a function every label is defined at most once, and
/// every jump and every branch goes to a label that the function defines:
/// no label is missing, and none escapes the function.
pub proof fn lemma_func_labels_resolve(env: Env, f: Func)
    requires
        lower_func(env, f) is Ok,
    ensures
        labels_resolve(lower_func(env, f).unwrap().stmts),
{
    let st = lower_params(env, f.params@, f.params@.len() as int).unwrap();
    lemma_params_state(env, f.params@, f.params@.len() as int);
    let b = lower_body(env, f.ret, st, f.stmts).unwrap();
    match f.stmts {
        None => {},
        Some(ss) => {
            lemma_stmts_labelled(env, f.ret, st, ss@, ss@.len() as int);
        },
    }
    let tail = seq![IrStmt::Const(0), IrStmt::Ret];
    lemma_plain_labelled(tail, st.loops, b.st.labels);
    lemma_seq_labelled(b.ops, tail, st.loops, 0, b.st.labels, b.st.labels);
    let ops = lower_func(env, f).unwrap().stmts;
    assert(labelled(ops, st.loops, 0, b.st.labels));
    assert forall|i: int| 0 <= i < ops.len() implies match target(#[trigger] ops[i]) {
        Some(l) => defs(ops, l) == 1,
        None => true,
    } by {
        match target(ops[i]) {
            Some(l) => {
                assert(!loop_target(st.loops, l));
                assert(defs(ops, l) == 1);
            },
            None => {},
        }
    }
}

} // verus!
