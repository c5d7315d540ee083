//! How pieces of code that keep the discipline of the operand stack
//! combine into larger ones.

use vstd::prelude::*;
use crate::ir::IrStmt;
use crate::stack::{
    fresh_from, keeps, keeps_depth, lemma_run_concat, lemma_run_empty, lemma_run_one,
    lemma_run_push, lemma_run_three, lemma_run_two, loops_at, loops_before, neutral, news_at,
    pushes, pushing, run, starts_at, touches_only, Flow,
};

verus! {

/// Code that records only labels of its own keeps what was recorded.
pub proof fn lemma_touch_keeps(
    before: Map<u32, int>,
    after: Map<u32, int>,
    lo: u32,
    hi: u32,
    d: int,
)
    requires
        touches_only(before, after, lo, hi),
        fresh_from(before, lo),
    ensures
        keeps(before, after),
        news_at(before, after, lo, d),
{
}

/// The records of the loop targets stay at depth `d` under code that keeps
/// depth `d`.
pub proof fn lemma_loops_stay(
    loops: Seq<(u32, u32)>,
    before: Map<u32, int>,
    after: Map<u32, int>,
    lo: u32,
    hi: u32,
    d: int,
)
    requires
        loops_at(loops, before, lo, d),
        keeps(before, after),
        news_at(before, after, lo, d),
        lo <= hi,
    ensures
        loops_at(loops, after, hi, d),
{
    assert forall|i: int| 0 <= i < loops.len() implies {
        &&& (#[trigger] loops[i]).0 < hi
        &&& loops[i].1 < hi
        &&& (after.contains_key(loops[i].0) ==> after[loops[i].0] == d)
        &&& (after.contains_key(loops[i].1) ==> after[loops[i].1] == d)
    } by {
        let l0 = loops[i].0;
        let l1 = loops[i].1;
        assert(after.contains_key(l0) ==> before.contains_key(l0) || after[l0] == d);
        assert(after.contains_key(l1) ==> before.contains_key(l1) || after[l1] == d);
    }
}

/// The records of the loop targets inside a loop that is entered at depth
/// `d`, when its own targets are recorded at depth `d` or not at all.
pub proof fn lemma_loops_enter(
    loops: Seq<(u32, u32)>,
    brk: u32,
    cont: u32,
    marks: Map<u32, int>,
    lo: u32,
    hi: u32,
    d: int,
)
    requires
        loops_at(loops, marks, lo, d),
        lo <= hi,
        brk < hi,
        cont < hi,
        marks.contains_key(brk) ==> marks[brk] == d,
        marks.contains_key(cont) ==> marks[cont] == d,
    ensures
        loops_at(loops.push((brk, cont)), marks, hi, d),
{
    let inner = loops.push((brk, cont));
    assert forall|i: int| 0 <= i < inner.len() implies {
        &&& (#[trigger] inner[i]).0 < hi
        &&& inner[i].1 < hi
        &&& (marks.contains_key(inner[i].0) ==> marks[inner[i].0] == d)
        &&& (marks.contains_key(inner[i].1) ==> marks[inner[i].1] == d)
    } by {
        if i < loops.len() {
            assert(inner[i] == loops[i]);
        } else {
            assert(inner[i] == (brk, cont));
        }
    }
}

/// The loops around the body of a loop whose labels start at `lo`: its
/// `continue` target is `lo + 1`, its `break` target `lo + 2`.
pub open spec fn loops_in(loops: Seq<(u32, u32)>, lo: u32) -> Seq<(u32, u32)> {
    loops.push(((lo + 2) as u32, (lo + 1) as u32))
}

/// The targets of the loops inside a loop were given out before its body.
pub proof fn lemma_loops_in_before(loops: Seq<(u32, u32)>, lo: u32, from: u32)
    requires
        lo <= u32::MAX - 3,
        loops_before(loops, lo),
        lo + 3 <= from,
    ensures
        loops_before(loops_in(loops, lo), from),
{
    let inner = loops_in(loops, lo);
    assert forall|i: int| 0 <= i < inner.len() implies (#[trigger] inner[i]).0 < from
        && inner[i].1 < from by {
        if i < loops.len() {
            assert(inner[i] == loops[i]);
        }
    }
}

/// Two pieces of code that keep depth `d`, one after the other, keep it.
pub proof fn lemma_frames_compose(
    m0: Map<u32, int>,
    m1: Map<u32, int>,
    m2: Map<u32, int>,
    lo0: u32,
    lo1: u32,
    d: int,
)
    requires
        keeps(m0, m1),
        news_at(m0, m1, lo0, d),
        keeps(m1, m2),
        news_at(m1, m2, lo1, d),
        lo0 <= lo1,
    ensures
        keeps(m0, m2),
        news_at(m0, m2, lo0, d),
{
    assert forall|l: u32| #[trigger] m0.contains_key(l) implies m2.contains_key(l) && m2[l]
        == m0[l] by {
        assert(m1.contains_key(l));
    }
    assert forall|l: u32| l < lo0 && #[trigger] m2.contains_key(l) && !m0.contains_key(
        l,
    ) implies m2[l] == d by {
        assert(m1.contains_key(l) ==> m1[l] == d);
    }
}

/// Walked from `fl` in dead code, `ops` ends in dead code and records
/// labels from `lo` up to `hi` only.
pub open spec fn skips(arity: Seq<nat>, fl: Flow, ops: Seq<IrStmt>, lo: u32, hi: u32) -> bool {
    match run(arity, fl, ops) {
        None => false,
        Some(out) => {
            &&& out.depth is None
            &&& touches_only(fl.marks, out.marks, lo, hi)
            &&& fresh_from(out.marks, hi)
        },
    }
}

/// Code that stays dead when it is reached by no jump: it has no label
/// but its own, from `lo` up to `hi`.
pub open spec fn skipping(arity: Seq<nat>, code: Seq<IrStmt>, lo: u32, hi: u32) -> bool {
    &&& lo <= hi
    &&& forall|fl: Flow|
        fl.depth is None && fresh_from(fl.marks, lo) ==> #[trigger] skips(arity, fl, code, lo, hi)
}

/// Code that behaves as expressions stays dead in dead code.
pub proof fn lemma_pushing_skips(arity: Seq<nat>, code: Seq<IrStmt>, n: int, lo: u32, hi: u32)
    requires
        pushing(arity, code, n, lo, hi),
    ensures
        skipping(arity, code, lo, hi),
{
    assert forall|fl: Flow| fl.depth is None && fresh_from(fl.marks, lo) implies #[trigger] skips(
        arity,
        fl,
        code,
        lo,
        hi,
    ) by {
        assert(pushes(arity, fl, code, n, lo, hi));
    }
}

/// Code that behaves as a statement stays dead in dead code.
pub proof fn lemma_neutral_skips(
    arity: Seq<nat>,
    loops: Seq<(u32, u32)>,
    code: Seq<IrStmt>,
    lo: u32,
    hi: u32,
)
    requires
        neutral(arity, loops, code, lo, hi),
        loops_before(loops, lo),
    ensures
        skipping(arity, code, lo, hi),
{
    assert forall|fl: Flow| fl.depth is None && fresh_from(fl.marks, lo) implies #[trigger] skips(
        arity,
        fl,
        code,
        lo,
        hi,
    ) by {
        assert(starts_at(fl, loops, lo, 0));
        assert(keeps_depth(arity, fl, code, 0, lo, hi));
    }
}

/// No code at all behaves as a statement.
pub proof fn lemma_empty_neutral(arity: Seq<nat>, loops: Seq<(u32, u32)>, lo: u32)
    ensures
        neutral(arity, loops, Seq::empty(), lo, lo),
{
    assert forall|fl: Flow, d: int| d >= 0 && starts_at(fl, loops, lo, d) implies #[trigger] keeps_depth(
        arity,
        fl,
        Seq::empty(),
        d,
        lo,
        lo,
    ) by {
        lemma_run_empty(arity, fl);
    }
}

/// Two statements in a row behave as a statement.
pub proof fn lemma_seq_neutral(
    arity: Seq<nat>,
    loops: Seq<(u32, u32)>,
    a: Seq<IrStmt>,
    b: Seq<IrStmt>,
    lo: u32,
    mid: u32,
    hi: u32,
)
    requires
        neutral(arity, loops, a, lo, mid),
        neutral(arity, loops, b, mid, hi),
    ensures
        neutral(arity, loops, a + b, lo, hi),
{
    assert forall|fl: Flow, d: int| d >= 0 && starts_at(fl, loops, lo, d) implies #[trigger] keeps_depth(
        arity,
        fl,
        a + b,
        d,
        lo,
        hi,
    ) by {
        assert(keeps_depth(arity, fl, a, d, lo, mid));
        let f1 = run(arity, fl, a).unwrap();
        if fl.depth is Some {
            lemma_loops_stay(loops, fl.marks, f1.marks, lo, mid, d);
        }
        assert(starts_at(f1, loops, mid, d));
        assert(keeps_depth(arity, f1, b, d, mid, hi));
        let f2 = run(arity, f1, b).unwrap();
        lemma_frames_compose(fl.marks, f1.marks, f2.marks, lo, mid, d);
        lemma_run_concat(arity, fl, a, b);
    }
}

/// An expression whose value is discarded, returned, or stored into a
/// variable behaves as a statement.
pub proof fn lemma_consumed_neutral(
    arity: Seq<nat>,
    loops: Seq<(u32, u32)>,
    a: Seq<IrStmt>,
    lo: u32,
    hi: u32,
    id: u32,
)
    requires
        pushing(arity, a, 1, lo, hi),
    ensures
        neutral(arity, loops, a.push(IrStmt::Pop), lo, hi),
        neutral(arity, loops, a.push(IrStmt::Ret), lo, hi),
        neutral(
            arity,
            loops,
            a + seq![IrStmt::LocalAddr(id), IrStmt::Store, IrStmt::Pop],
            lo,
            hi,
        ),
{
    assert forall|fl: Flow, d: int| d >= 0 && starts_at(fl, loops, lo, d) implies #[trigger] keeps_depth(
        arity,
        fl,
        a.push(IrStmt::Pop),
        d,
        lo,
        hi,
    ) by {
        assert(pushes(arity, fl, a, 1, lo, hi));
        let f1 = run(arity, fl, a).unwrap();
        lemma_touch_keeps(fl.marks, f1.marks, lo, hi, d);
        lemma_run_push(arity, fl, a, IrStmt::Pop);
    }
    assert forall|fl: Flow, d: int| d >= 0 && starts_at(fl, loops, lo, d) implies #[trigger] keeps_depth(
        arity,
        fl,
        a.push(IrStmt::Ret),
        d,
        lo,
        hi,
    ) by {
        assert(pushes(arity, fl, a, 1, lo, hi));
        let f1 = run(arity, fl, a).unwrap();
        lemma_touch_keeps(fl.marks, f1.marks, lo, hi, d);
        lemma_run_push(arity, fl, a, IrStmt::Ret);
    }
    let tail = seq![IrStmt::LocalAddr(id), IrStmt::Store, IrStmt::Pop];
    assert forall|fl: Flow, d: int| d >= 0 && starts_at(fl, loops, lo, d) implies #[trigger] keeps_depth(
        arity,
        fl,
        a + tail,
        d,
        lo,
        hi,
    ) by {
        assert(pushes(arity, fl, a, 1, lo, hi));
        let f1 = run(arity, fl, a).unwrap();
        lemma_touch_keeps(fl.marks, f1.marks, lo, hi, d);
        lemma_run_three(arity, f1, IrStmt::LocalAddr(id), IrStmt::Store, IrStmt::Pop);
        lemma_run_concat(arity, fl, a, tail);
    }
}

/// A jump to a target of the innermost loop behaves as a statement.
pub proof fn lemma_jump_neutral(arity: Seq<nat>, loops: Seq<(u32, u32)>, lo: u32)
    requires
        loops.len() > 0,
    ensures
        neutral(arity, loops, seq![IrStmt::Jump(loops.last().0)], lo, lo),
        neutral(arity, loops, seq![IrStmt::Jump(loops.last().1)], lo, lo),
{
    let brk = loops.last().0;
    let cont = loops.last().1;
    assert forall|fl: Flow, d: int| d >= 0 && starts_at(fl, loops, lo, d) implies #[trigger] keeps_depth(
        arity,
        fl,
        seq![IrStmt::Jump(brk)],
        d,
        lo,
        lo,
    ) by {
        assert(loops[loops.len() - 1].0 == brk);
        lemma_run_one(arity, fl, IrStmt::Jump(brk));
    }
    assert forall|fl: Flow, d: int| d >= 0 && starts_at(fl, loops, lo, d) implies #[trigger] keeps_depth(
        arity,
        fl,
        seq![IrStmt::Jump(cont)],
        d,
        lo,
        lo,
    ) by {
        assert(loops[loops.len() - 1].1 == cont);
        lemma_run_one(arity, fl, IrStmt::Jump(cont));
    }
}

/// An integer test that leaves the innermost loop when it fails behaves as
/// a statement inside the loop.
pub proof fn lemma_guard_neutral(
    arity: Seq<nat>,
    loops: Seq<(u32, u32)>,
    a: Seq<IrStmt>,
    lo: u32,
    hi: u32,
)
    requires
        loops.len() > 0,
        pushing(arity, a, 1, lo, hi),
    ensures
        neutral(arity, loops, a.push(IrStmt::Bz(loops.last().0)), lo, hi),
{
    let brk = loops.last().0;
    assert forall|fl: Flow, d: int| d >= 0 && starts_at(fl, loops, lo, d) implies #[trigger] keeps_depth(
        arity,
        fl,
        a.push(IrStmt::Bz(brk)),
        d,
        lo,
        hi,
    ) by {
        assert(loops[loops.len() - 1].0 == brk);
        assert(pushes(arity, fl, a, 1, lo, hi));
        let f1 = run(arity, fl, a).unwrap();
        lemma_touch_keeps(fl.marks, f1.marks, lo, hi, d);
        lemma_run_push(arity, fl, a, IrStmt::Bz(brk));
    }
}

/// One operation that pushes a constant or an address behaves as an
/// expression, and so does an address followed by a load.
pub proof fn lemma_leaf_pushing(arity: Seq<nat>, op: IrStmt, lo: u32)
    requires
        op is Const || op is LocalAddr || op is GlobAddr,
    ensures
        pushing(arity, seq![op], 1, lo, lo),
        pushing(arity, seq![op].push(IrStmt::Load), 1, lo, lo),
{
    assert forall|fl: Flow|
        fresh_from(fl.marks, lo) && (fl.depth matches Some(d) ==> d >= 0) implies #[trigger] pushes(
        arity,
        fl,
        seq![op],
        1,
        lo,
        lo,
    ) by {
        lemma_run_one(arity, fl, op);
    }
    assert forall|fl: Flow|
        fresh_from(fl.marks, lo) && (fl.depth matches Some(d) ==> d >= 0) implies #[trigger] pushes(
        arity,
        fl,
        seq![op].push(IrStmt::Load),
        1,
        lo,
        lo,
    ) by {
        lemma_run_one(arity, fl, op);
        lemma_run_push(arity, fl, seq![op], IrStmt::Load);
    }
}

/// An expression followed by an operation that replaces the top of the
/// stack behaves as an expression.
pub proof fn lemma_unary_pushing(arity: Seq<nat>, a: Seq<IrStmt>, op: IrStmt, lo: u32, hi: u32)
    requires
        pushing(arity, a, 1, lo, hi),
        op is Unary || op is Load,
    ensures
        pushing(arity, a.push(op), 1, lo, hi),
{
    assert forall|fl: Flow|
        fresh_from(fl.marks, lo) && (fl.depth matches Some(d) ==> d >= 0) implies #[trigger] pushes(
        arity,
        fl,
        a.push(op),
        1,
        lo,
        hi,
    ) by {
        assert(pushes(arity, fl, a, 1, lo, hi));
        lemma_run_push(arity, fl, a, op);
    }
}

/// Pieces of code that push `n` cells and then `m` cells push `n + m`.
pub proof fn lemma_seq_pushing(
    arity: Seq<nat>,
    a: Seq<IrStmt>,
    b: Seq<IrStmt>,
    n: int,
    m: int,
    lo: u32,
    mid: u32,
    hi: u32,
)
    requires
        n >= 0,
        pushing(arity, a, n, lo, mid),
        pushing(arity, b, m, mid, hi),
    ensures
        pushing(arity, a + b, n + m, lo, hi),
{
    assert forall|fl: Flow|
        fresh_from(fl.marks, lo) && (fl.depth matches Some(d) ==> d >= 0) implies #[trigger] pushes(
        arity,
        fl,
        a + b,
        n + m,
        lo,
        hi,
    ) by {
        assert(pushes(arity, fl, a, n, lo, mid));
        let f1 = run(arity, fl, a).unwrap();
        assert(fresh_from(f1.marks, mid));
        assert(f1.depth matches Some(x) ==> x >= 0);
        assert(pushes(arity, f1, b, m, mid, hi));
        let f2 = run(arity, f1, b).unwrap();
        lemma_run_concat(arity, fl, a, b);
        assert(touches_only(fl.marks, f2.marks, lo, hi));
    }
}

/// No code pushes no cell.
pub proof fn lemma_empty_pushing(arity: Seq<nat>, lo: u32)
    ensures
        pushing(arity, Seq::empty(), 0, lo, lo),
{
    assert forall|fl: Flow|
        fresh_from(fl.marks, lo) && (fl.depth matches Some(d) ==> d >= 0) implies #[trigger] pushes(
        arity,
        fl,
        Seq::empty(),
        0,
        lo,
        lo,
    ) by {
        lemma_run_empty(arity, fl);
    }
}

/// Two cells combined into one by a binary operator or a store leave one
/// cell.
pub proof fn lemma_binary_pushing(arity: Seq<nat>, a: Seq<IrStmt>, op: IrStmt, lo: u32, hi: u32)
    requires
        pushing(arity, a, 2, lo, hi),
        op is Binary || op is Store,
    ensures
        pushing(arity, a.push(op), 1, lo, hi),
{
    assert forall|fl: Flow|
        fresh_from(fl.marks, lo) && (fl.depth matches Some(d) ==> d >= 0) implies #[trigger] pushes(
        arity,
        fl,
        a.push(op),
        1,
        lo,
        hi,
    ) by {
        assert(pushes(arity, fl, a, 2, lo, hi));
        lemma_run_push(arity, fl, a, op);
    }
}

/// A call after as many arguments as the callee has parameters leaves one
/// cell, the return value.
pub proof fn lemma_call_pushing(
    arity: Seq<nat>,
    a: Seq<IrStmt>,
    f: u32,
    n: int,
    lo: u32,
    hi: u32,
)
    requires
        pushing(arity, a, n, lo, hi),
        f < arity.len(),
        arity[f as int] == n,
    ensures
        pushing(arity, a.push(IrStmt::Call(f)), 1, lo, hi),
{
    assert forall|fl: Flow|
        fresh_from(fl.marks, lo) && (fl.depth matches Some(d) ==> d >= 0) implies #[trigger] pushes(
        arity,
        fl,
        a.push(IrStmt::Call(f)),
        1,
        lo,
        hi,
    ) by {
        assert(pushes(arity, fl, a, n, lo, hi));
        lemma_run_push(arity, fl, a, IrStmt::Call(f));
    }
}

/// The code of a conditional expression with the labels `la` and `la + 1`.
pub open spec fn ternary_code(a: Seq<IrStmt>, b: Seq<IrStmt>, c: Seq<IrStmt>, la: u32) -> Seq<
    IrStmt,
> {
    a.push(IrStmt::Bz(la)) + b + seq![IrStmt::Jump((la + 1) as u32), IrStmt::Label(la)] + c.push(
        IrStmt::Label((la + 1) as u32),
    )
}

/// The code of an `if` statement with the labels `la` and `la + 1`.
pub open spec fn if_code(a: Seq<IrStmt>, b: Seq<IrStmt>, e: Seq<IrStmt>, la: u32) -> Seq<IrStmt> {
    a.push(IrStmt::Bz(la)) + b + seq![IrStmt::Jump((la + 1) as u32), IrStmt::Label(la)] + e.push(
        IrStmt::Label((la + 1) as u32),
    )
}

/// The code of a `do`-`while` loop with the labels `lo`, `lo + 1` and
/// `lo + 2`.
pub open spec fn do_while_code(b: Seq<IrStmt>, c: Seq<IrStmt>, lo: u32) -> Seq<IrStmt> {
    seq![IrStmt::Label(lo)] + b.push(IrStmt::Label((lo + 1) as u32)) + c + seq![
        IrStmt::Bnz(lo),
        IrStmt::Label((lo + 2) as u32),
    ]
}

/// The code of a `for` loop with the labels `lo`, `lo + 1` and `lo + 2`.
pub open spec fn for_code(g: Seq<IrStmt>, b: Seq<IrStmt>, u: Seq<IrStmt>, lo: u32) -> Seq<IrStmt> {
    seq![IrStmt::Label(lo)] + g + b.push(IrStmt::Label((lo + 1) as u32)) + u + seq![
        IrStmt::Jump(lo),
        IrStmt::Label((lo + 2) as u32),
    ]
}

/// A conditional in dead code stays dead.
proof fn lemma_branches_skip(
    arity: Seq<nat>,
    a: Seq<IrStmt>,
    b: Seq<IrStmt>,
    c: Seq<IrStmt>,
    lo: u32,
    la: u32,
    lb: u32,
    lc: u32,
    fl: Flow,
)
    requires
        la <= u32::MAX - 2,
        skipping(arity, a, lo, la),
        skipping(arity, b, (la + 2) as u32, lb),
        skipping(arity, c, lb, lc),
        fl.depth is None,
        fresh_from(fl.marks, lo),
    ensures
        skips(arity, fl, if_code(a, b, c, la), lo, lc),
        skips(arity, fl, ternary_code(a, b, c, la), lo, lc),
{
    let else_label = la;
    let end_label = (la + 1) as u32;
    assert(skips(arity, fl, a, lo, la));
    let f1 = run(arity, fl, a).unwrap();
    let seg1 = a.push(IrStmt::Bz(else_label));
    lemma_run_push(arity, fl, a, IrStmt::Bz(else_label));
    assert(skips(arity, f1, b, (la + 2) as u32, lb));
    lemma_run_concat(arity, fl, seg1, b);
    let f3 = run(arity, fl, seg1 + b).unwrap();
    let jl = seq![IrStmt::Jump(end_label), IrStmt::Label(else_label)];
    lemma_run_two(arity, f3, IrStmt::Jump(end_label), IrStmt::Label(else_label));
    lemma_run_concat(arity, fl, seg1 + b, jl);
    let f4 = run(arity, fl, seg1 + b + jl).unwrap();
    assert(skips(arity, f4, c, lb, lc));
    let f5 = run(arity, f4, c).unwrap();
    lemma_run_push(arity, f4, c, IrStmt::Label(end_label));
    lemma_run_concat(arity, fl, seg1 + b + jl, c.push(IrStmt::Label(end_label)));
}

#[verifier::rlimit(40)]
proof fn lemma_ternary_flow(
    arity: Seq<nat>,
    a: Seq<IrStmt>,
    b: Seq<IrStmt>,
    c: Seq<IrStmt>,
    lo: u32,
    la: u32,
    lb: u32,
    lc: u32,
    fl: Flow,
)
    requires
        la <= u32::MAX - 2,
        pushing(arity, a, 1, lo, la),
        pushing(arity, b, 1, (la + 2) as u32, lb),
        pushing(arity, c, 1, lb, lc),
        fresh_from(fl.marks, lo),
        fl.depth matches Some(d) && d >= 0,
    ensures
        pushes(arity, fl, ternary_code(a, b, c, la), 1, lo, lc),
{
    let else_label = la;
    let end_label = (la + 1) as u32;
    assert(pushes(arity, fl, a, 1, lo, la));
    let f1 = run(arity, fl, a).unwrap();
    let seg1 = a.push(IrStmt::Bz(else_label));
    lemma_run_push(arity, fl, a, IrStmt::Bz(else_label));
    let f2 = run(arity, fl, seg1).unwrap();
    assert(pushes(arity, f2, b, 1, (la + 2) as u32, lb));
    lemma_run_concat(arity, fl, seg1, b);
    let f3 = run(arity, fl, seg1 + b).unwrap();
    let jl = seq![IrStmt::Jump(end_label), IrStmt::Label(else_label)];
    lemma_run_two(arity, f3, IrStmt::Jump(end_label), IrStmt::Label(else_label));
    lemma_run_concat(arity, fl, seg1 + b, jl);
    let f4 = run(arity, fl, seg1 + b + jl).unwrap();
    assert(pushes(arity, f4, c, 1, lb, lc));
    let f5 = run(arity, f4, c).unwrap();
    lemma_run_push(arity, f4, c, IrStmt::Label(end_label));
    lemma_run_concat(arity, fl, seg1 + b + jl, c.push(IrStmt::Label(end_label)));
}

/// A conditional expression behaves as an expression: whichever branch is
/// taken leaves one cell.
pub proof fn lemma_ternary_pushing(
    arity: Seq<nat>,
    a: Seq<IrStmt>,
    b: Seq<IrStmt>,
    c: Seq<IrStmt>,
    lo: u32,
    la: u32,
    lb: u32,
    lc: u32,
)
    requires
        la <= u32::MAX - 2,
        pushing(arity, a, 1, lo, la),
        pushing(arity, b, 1, (la + 2) as u32, lb),
        pushing(arity, c, 1, lb, lc),
    ensures
        pushing(arity, ternary_code(a, b, c, la), 1, lo, lc),
{
    lemma_pushing_skips(arity, a, 1, lo, la);
    lemma_pushing_skips(arity, b, 1, (la + 2) as u32, lb);
    lemma_pushing_skips(arity, c, 1, lb, lc);
    assert forall|fl: Flow|
        fresh_from(fl.marks, lo) && (fl.depth matches Some(d) ==> d >= 0) implies #[trigger] pushes(
        arity,
        fl,
        ternary_code(a, b, c, la),
        1,
        lo,
        lc,
    ) by {
        if fl.depth is None {
            lemma_branches_skip(arity, a, b, c, lo, la, lb, lc, fl);
        } else {
            lemma_ternary_flow(arity, a, b, c, lo, la, lb, lc, fl);
        }
    }
}

#[verifier::rlimit(40)]
proof fn lemma_if_flow(
    arity: Seq<nat>,
    loops: Seq<(u32, u32)>,
    a: Seq<IrStmt>,
    b: Seq<IrStmt>,
    e: Seq<IrStmt>,
    lo: u32,
    la: u32,
    lb: u32,
    le: u32,
    fl: Flow,
    d: int,
)
    requires
        la <= u32::MAX - 2,
        pushing(arity, a, 1, lo, la),
        neutral(arity, loops, b, (la + 2) as u32, lb),
        neutral(arity, loops, e, lb, le),
        d >= 0,
        fl.depth == Some(d),
        starts_at(fl, loops, lo, d),
    ensures
        keeps_depth(arity, fl, if_code(a, b, e, la), d, lo, le),
{
    let else_label = la;
    let end_label = (la + 1) as u32;
    let l2 = (la + 2) as u32;
    assert(pushes(arity, fl, a, 1, lo, la));
    let f1 = run(arity, fl, a).unwrap();
    lemma_touch_keeps(fl.marks, f1.marks, lo, la, d);
    let seg1 = a.push(IrStmt::Bz(else_label));
    lemma_run_push(arity, fl, a, IrStmt::Bz(else_label));
    let f2 = run(arity, fl, seg1).unwrap();
    assert(keeps(f1.marks, f2.marks));
    assert(news_at(f1.marks, f2.marks, lo, d));
    lemma_frames_compose(fl.marks, f1.marks, f2.marks, lo, lo, d);
    lemma_loops_stay(loops, fl.marks, f2.marks, lo, l2, d);
    assert(starts_at(f2, loops, l2, d));
    assert(keeps_depth(arity, f2, b, d, l2, lb));
    lemma_run_concat(arity, fl, seg1, b);
    let f3 = run(arity, fl, seg1 + b).unwrap();
    lemma_frames_compose(fl.marks, f2.marks, f3.marks, lo, l2, d);
    assert(f2.marks.contains_key(else_label) && f2.marks[else_label] == d);
    assert(f3.marks.contains_key(else_label) && f3.marks[else_label] == d);
    assert(f3.marks.contains_key(end_label) ==> f3.marks[end_label] == d);
    let jl = seq![IrStmt::Jump(end_label), IrStmt::Label(else_label)];
    lemma_run_two(arity, f3, IrStmt::Jump(end_label), IrStmt::Label(else_label));
    lemma_run_concat(arity, fl, seg1 + b, jl);
    let head = seg1 + b + jl;
    let f4 = run(arity, fl, head).unwrap();
    assert(f4.depth == Some(d));
    assert(keeps(f3.marks, f4.marks));
    assert(news_at(f3.marks, f4.marks, lo, d));
    lemma_frames_compose(fl.marks, f3.marks, f4.marks, lo, lo, d);
    lemma_loops_stay(loops, fl.marks, f4.marks, lo, lb, d);
    assert(starts_at(f4, loops, lb, d));
    assert(keeps_depth(arity, f4, e, d, lb, le));
    let f5 = run(arity, f4, e).unwrap();
    lemma_frames_compose(fl.marks, f4.marks, f5.marks, lo, lb, d);
    assert(f5.marks.contains_key(end_label) ==> f5.marks[end_label] == d);
    lemma_run_push(arity, f4, e, IrStmt::Label(end_label));
    let f6 = run(arity, f4, e.push(IrStmt::Label(end_label))).unwrap();
    assert(keeps(f5.marks, f6.marks));
    assert(news_at(f5.marks, f6.marks, lo, d));
    lemma_frames_compose(fl.marks, f5.marks, f6.marks, lo, lo, d);
    lemma_run_concat(arity, fl, head, e.push(IrStmt::Label(end_label)));
}

/// An `if` statement behaves as a statement: both ways through it keep
/// the depth.
pub proof fn lemma_if_neutral(
    arity: Seq<nat>,
    loops: Seq<(u32, u32)>,
    a: Seq<IrStmt>,
    b: Seq<IrStmt>,
    e: Seq<IrStmt>,
    lo: u32,
    la: u32,
    lb: u32,
    le: u32,
)
    requires
        la <= u32::MAX - 2,
        pushing(arity, a, 1, lo, la),
        neutral(arity, loops, b, (la + 2) as u32, lb),
        neutral(arity, loops, e, lb, le),
    ensures
        neutral(arity, loops, if_code(a, b, e, la), lo, le),
{
    assert forall|fl: Flow, d: int| d >= 0 && starts_at(fl, loops, lo, d) implies #[trigger] keeps_depth(
        arity,
        fl,
        if_code(a, b, e, la),
        d,
        lo,
        le,
    ) by {
        if fl.depth is None {
            lemma_pushing_skips(arity, a, 1, lo, la);
            lemma_neutral_skips(arity, loops, b, (la + 2) as u32, lb);
            lemma_neutral_skips(arity, loops, e, lb, le);
            lemma_branches_skip(arity, a, b, e, lo, la, lb, le, fl);
            let out = run(arity, fl, if_code(a, b, e, la)).unwrap();
            lemma_touch_keeps(fl.marks, out.marks, lo, le, d);
        } else {
            lemma_if_flow(arity, loops, a, b, e, lo, la, lb, le, fl, d);
        }
    }
}

/// A loop in dead code stays dead.
proof fn lemma_loops_skip(
    arity: Seq<nat>,
    g: Seq<IrStmt>,
    b: Seq<IrStmt>,
    u: Seq<IrStmt>,
    lo: u32,
    lg: u32,
    lb: u32,
    lu: u32,
    fl: Flow,
)
    requires
        lo <= u32::MAX - 3,
        skipping(arity, g, (lo + 3) as u32, lg),
        skipping(arity, b, lg, lb),
        skipping(arity, u, lb, lu),
        fl.depth is None,
        fresh_from(fl.marks, lo),
    ensures
        skips(arity, fl, for_code(g, b, u, lo), lo, lu),
        lg == lo + 3 && g.len() == 0 ==> skips(arity, fl, do_while_code(b, u, lo), lo, lu),
{
    let l1 = (lo + 1) as u32;
    let l2 = (lo + 2) as u32;
    let seg1 = seq![IrStmt::Label(lo)];
    lemma_run_one(arity, fl, IrStmt::Label(lo));
    let f1 = run(arity, fl, seg1).unwrap();
    assert(skips(arity, f1, g, (lo + 3) as u32, lg));
    let f2 = run(arity, f1, g).unwrap();
    lemma_run_concat(arity, fl, seg1, g);
    assert(skips(arity, f2, b, lg, lb));
    let f3 = run(arity, f2, b).unwrap();
    lemma_run_push(arity, f2, b, IrStmt::Label(l1));
    let seg3 = b.push(IrStmt::Label(l1));
    let f4 = run(arity, f2, seg3).unwrap();
    lemma_run_concat(arity, fl, seg1 + g, seg3);
    assert(skips(arity, f4, u, lb, lu));
    let f5 = run(arity, f4, u).unwrap();
    lemma_run_concat(arity, fl, seg1 + g + seg3, u);
    let seg5 = seq![IrStmt::Jump(lo), IrStmt::Label(l2)];
    lemma_run_two(arity, f5, IrStmt::Jump(lo), IrStmt::Label(l2));
    lemma_run_concat(arity, fl, seg1 + g + seg3 + u, seg5);
    if lg == lo + 3 && g.len() == 0 {
        let q5 = seq![IrStmt::Bnz(lo), IrStmt::Label(l2)];
        assert(seg1 + g =~= seg1);
        lemma_run_two(arity, f5, IrStmt::Bnz(lo), IrStmt::Label(l2));
        lemma_run_concat(arity, fl, seg1 + seg3 + u, q5);
    }
}

#[verifier::rlimit(40)]
proof fn lemma_do_while_flow(
    arity: Seq<nat>,
    loops: Seq<(u32, u32)>,
    b: Seq<IrStmt>,
    c: Seq<IrStmt>,
    lo: u32,
    lb: u32,
    lc: u32,
    fl: Flow,
    d: int,
)
    requires
        lo <= u32::MAX - 3,
        neutral(arity, loops_in(loops, lo), b, (lo + 3) as u32, lb),
        pushing(arity, c, 1, lb, lc),
        d >= 0,
        fl.depth == Some(d),
        starts_at(fl, loops, lo, d),
    ensures
        keeps_depth(arity, fl, do_while_code(b, c, lo), d, lo, lc),
{
    let body_label = lo;
    let cond_label = (lo + 1) as u32;
    let end_label = (lo + 2) as u32;
    let l3 = (lo + 3) as u32;
    let inner = loops_in(loops, lo);
    lemma_loops_in_before(loops, lo, l3);
    lemma_run_one(arity, fl, IrStmt::Label(body_label));
    let f1 = run(arity, fl, seq![IrStmt::Label(body_label)]).unwrap();
    assert(keeps(fl.marks, f1.marks));
    assert(news_at(fl.marks, f1.marks, lo, d));
    lemma_loops_stay(loops, fl.marks, f1.marks, lo, lo, d);
    lemma_loops_enter(loops, end_label, cond_label, f1.marks, lo, l3, d);
    assert(starts_at(f1, inner, l3, d));
    assert(keeps_depth(arity, f1, b, d, l3, lb));
    let f2 = run(arity, f1, b).unwrap();
    lemma_frames_compose(fl.marks, f1.marks, f2.marks, lo, l3, d);
    lemma_loops_stay(inner, f1.marks, f2.marks, l3, lb, d);
    assert(inner[inner.len() - 1] == (end_label, cond_label));
    assert(f2.marks.contains_key(cond_label) ==> f2.marks[cond_label] == d);
    assert(f2.marks.contains_key(end_label) ==> f2.marks[end_label] == d);
    lemma_run_push(arity, f1, b, IrStmt::Label(cond_label));
    let f3 = run(arity, f1, b.push(IrStmt::Label(cond_label))).unwrap();
    assert(keeps(f2.marks, f3.marks));
    assert(news_at(f2.marks, f3.marks, lo, d));
    lemma_frames_compose(fl.marks, f2.marks, f3.marks, lo, lo, d);
    lemma_run_concat(arity, fl, seq![IrStmt::Label(body_label)], b.push(IrStmt::Label(cond_label)));
    let seg3 = seq![IrStmt::Label(body_label)] + b.push(IrStmt::Label(cond_label));
    assert(pushes(arity, f3, c, 1, lb, lc));
    let f4 = run(arity, f3, c).unwrap();
    lemma_touch_keeps(f3.marks, f4.marks, lb, lc, d);
    lemma_frames_compose(fl.marks, f3.marks, f4.marks, lo, lb, d);
    lemma_run_concat(arity, fl, seg3, c);
    assert(f4.marks.contains_key(end_label) ==> f4.marks[end_label] == d);
    assert(f4.marks.contains_key(body_label) && f4.marks[body_label] == d) by {
        assert(f1.marks.contains_key(body_label) && f1.marks[body_label] == d);
        assert(f2.marks.contains_key(body_label) && f2.marks[body_label] == d);
        assert(f3.marks.contains_key(body_label) && f3.marks[body_label] == d);
    }
    lemma_run_two(arity, f4, IrStmt::Bnz(body_label), IrStmt::Label(end_label));
    let f5 = run(arity, f4, seq![IrStmt::Bnz(body_label), IrStmt::Label(end_label)]).unwrap();
    assert(keeps(f4.marks, f5.marks));
    assert(news_at(f4.marks, f5.marks, lo, d));
    lemma_frames_compose(fl.marks, f4.marks, f5.marks, lo, lo, d);
    lemma_run_concat(
        arity,
        fl,
        seg3 + c,
        seq![IrStmt::Bnz(body_label), IrStmt::Label(end_label)],
    );
}

/// A `do`-`while` loop behaves as a statement.
pub proof fn lemma_do_while_neutral(
    arity: Seq<nat>,
    loops: Seq<(u32, u32)>,
    b: Seq<IrStmt>,
    c: Seq<IrStmt>,
    lo: u32,
    lb: u32,
    lc: u32,
)
    requires
        lo <= u32::MAX - 3,
        neutral(arity, loops_in(loops, lo), b, (lo + 3) as u32, lb),
        pushing(arity, c, 1, lb, lc),
    ensures
        neutral(arity, loops, do_while_code(b, c, lo), lo, lc),
{
    assert forall|fl: Flow, d: int| d >= 0 && starts_at(fl, loops, lo, d) implies #[trigger] keeps_depth(
        arity,
        fl,
        do_while_code(b, c, lo),
        d,
        lo,
        lc,
    ) by {
        if fl.depth is None {
            let l3 = (lo + 3) as u32;
            lemma_loops_in_before(loops, lo, l3);
            lemma_neutral_skips(arity, loops_in(loops, lo), b, l3, lb);
            lemma_pushing_skips(arity, c, 1, lb, lc);
            assert(skipping(arity, Seq::empty(), l3, l3)) by {
                assert forall|f: Flow|
                    f.depth is None && fresh_from(f.marks, l3) implies #[trigger] skips(
                    arity,
                    f,
                    Seq::empty(),
                    l3,
                    l3,
                ) by {
                    lemma_run_empty(arity, f);
                }
            }
            assert(skipping(arity, b, l3, lb));
            lemma_loops_skip(arity, Seq::empty(), b, c, lo, l3, lb, lc, fl);
            let out = run(arity, fl, do_while_code(b, c, lo)).unwrap();
            lemma_touch_keeps(fl.marks, out.marks, lo, lc, d);
        } else {
            lemma_do_while_flow(arity, loops, b, c, lo, lb, lc, fl, d);
        }
    }
}

#[verifier::rlimit(40)]
proof fn lemma_for_flow(
    arity: Seq<nat>,
    loops: Seq<(u32, u32)>,
    g: Seq<IrStmt>,
    b: Seq<IrStmt>,
    u: Seq<IrStmt>,
    lo: u32,
    lg: u32,
    lb: u32,
    lu: u32,
    fl: Flow,
    d: int,
)
    requires
        lo <= u32::MAX - 3,
        neutral(arity, loops_in(loops, lo), g, (lo + 3) as u32, lg),
        neutral(arity, loops_in(loops, lo), b, lg, lb),
        neutral(arity, loops_in(loops, lo), u, lb, lu),
        d >= 0,
        fl.depth == Some(d),
        starts_at(fl, loops, lo, d),
    ensures
        keeps_depth(arity, fl, for_code(g, b, u, lo), d, lo, lu),
{
    let cond_label = lo;
    let update_label = (lo + 1) as u32;
    let end_label = (lo + 2) as u32;
    let l3 = (lo + 3) as u32;
    let inner = loops_in(loops, lo);
    lemma_loops_in_before(loops, lo, l3);
    lemma_loops_in_before(loops, lo, lg);
    lemma_loops_in_before(loops, lo, lb);
    assert(inner[inner.len() - 1] == (end_label, update_label));
    lemma_run_one(arity, fl, IrStmt::Label(cond_label));
    let f1 = run(arity, fl, seq![IrStmt::Label(cond_label)]).unwrap();
    assert(keeps(fl.marks, f1.marks));
    assert(news_at(fl.marks, f1.marks, lo, d));
    lemma_loops_stay(loops, fl.marks, f1.marks, lo, lo, d);
    lemma_loops_enter(loops, end_label, update_label, f1.marks, lo, l3, d);
    assert(starts_at(f1, inner, l3, d));
    assert(keeps_depth(arity, f1, g, d, l3, lg));
    let f2 = run(arity, f1, g).unwrap();
    lemma_frames_compose(fl.marks, f1.marks, f2.marks, lo, l3, d);
    lemma_loops_stay(inner, f1.marks, f2.marks, l3, lg, d);
    lemma_run_concat(arity, fl, seq![IrStmt::Label(cond_label)], g);
    let seg2 = seq![IrStmt::Label(cond_label)] + g;
    assert(starts_at(f2, inner, lg, d));
    assert(keeps_depth(arity, f2, b, d, lg, lb));
    let f3 = run(arity, f2, b).unwrap();
    lemma_frames_compose(fl.marks, f2.marks, f3.marks, lo, lg, d);
    lemma_loops_stay(inner, f2.marks, f3.marks, lg, lb, d);
    assert(f3.marks.contains_key(update_label) ==> f3.marks[update_label] == d);
    assert(f3.marks.contains_key(end_label) ==> f3.marks[end_label] == d);
    lemma_run_push(arity, f2, b, IrStmt::Label(update_label));
    let f4 = run(arity, f2, b.push(IrStmt::Label(update_label))).unwrap();
    assert(keeps(f3.marks, f4.marks));
    assert(news_at(f3.marks, f4.marks, lo, d));
    lemma_frames_compose(fl.marks, f3.marks, f4.marks, lo, lo, d);
    lemma_run_concat(arity, fl, seg2, b.push(IrStmt::Label(update_label)));
    let seg4 = seg2 + b.push(IrStmt::Label(update_label));
    assert(f4.depth is Some ==> loops_at(inner, f4.marks, lb, d)) by {
        if f4.depth is Some {
            assert(f4.marks.contains_key(update_label) && f4.marks[update_label] == d);
            assert forall|i: int| 0 <= i < inner.len() implies {
                &&& (#[trigger] inner[i]).0 < lb
                &&& inner[i].1 < lb
                &&& (f4.marks.contains_key(inner[i].0) ==> f4.marks[inner[i].0] == d)
                &&& (f4.marks.contains_key(inner[i].1) ==> f4.marks[inner[i].1] == d)
            } by {
                let t0 = inner[i].0;
                let t1 = inner[i].1;
                assert(f4.marks.contains_key(t0) ==> f3.marks.contains_key(t0) || t0
                    == update_label);
                assert(f4.marks.contains_key(t1) ==> f3.marks.contains_key(t1) || t1
                    == update_label);
            }
        }
    }
    assert(starts_at(f4, inner, lb, d));
    assert(keeps_depth(arity, f4, u, d, lb, lu));
    let f5 = run(arity, f4, u).unwrap();
    assert(keeps(f4.marks, f5.marks));
    assert(news_at(f4.marks, f5.marks, lo, d));
    lemma_frames_compose(fl.marks, f4.marks, f5.marks, lo, lo, d);
    lemma_run_concat(arity, fl, seg4, u);
    assert(f5.marks.contains_key(end_label) ==> f5.marks[end_label] == d) by {
        assert(f4.marks.contains_key(end_label) ==> f4.marks[end_label] == d);
        assert(f5.marks.contains_key(end_label) && !f4.marks.contains_key(end_label)
            ==> f5.marks[end_label] == d);
    }
    assert(f5.marks.contains_key(cond_label) && f5.marks[cond_label] == d) by {
        assert(f1.marks.contains_key(cond_label) && f1.marks[cond_label] == d);
        assert(f2.marks.contains_key(cond_label) && f2.marks[cond_label] == d);
        assert(f3.marks.contains_key(cond_label) && f3.marks[cond_label] == d);
        assert(f4.marks.contains_key(cond_label) && f4.marks[cond_label] == d);
    }
    lemma_run_two(arity, f5, IrStmt::Jump(cond_label), IrStmt::Label(end_label));
    let f6 = run(arity, f5, seq![IrStmt::Jump(cond_label), IrStmt::Label(end_label)]).unwrap();
    assert(keeps(f5.marks, f6.marks));
    assert(news_at(f5.marks, f6.marks, lo, d));
    lemma_frames_compose(fl.marks, f5.marks, f6.marks, lo, lo, d);
    lemma_run_concat(
        arity,
        fl,
        seg4 + u,
        seq![IrStmt::Jump(cond_label), IrStmt::Label(end_label)],
    );
}

/// A `for` loop behaves as a statement, when its test, its body and its
/// update behave as statements inside it.
pub proof fn lemma_for_neutral(
    arity: Seq<nat>,
    loops: Seq<(u32, u32)>,
    g: Seq<IrStmt>,
    b: Seq<IrStmt>,
    u: Seq<IrStmt>,
    lo: u32,
    lg: u32,
    lb: u32,
    lu: u32,
)
    requires
        lo <= u32::MAX - 3,
        neutral(arity, loops_in(loops, lo), g, (lo + 3) as u32, lg),
        neutral(arity, loops_in(loops, lo), b, lg, lb),
        neutral(arity, loops_in(loops, lo), u, lb, lu),
    ensures
        neutral(arity, loops, for_code(g, b, u, lo), lo, lu),
{
    assert forall|fl: Flow, d: int| d >= 0 && starts_at(fl, loops, lo, d) implies #[trigger] keeps_depth(
        arity,
        fl,
        for_code(g, b, u, lo),
        d,
        lo,
        lu,
    ) by {
        if fl.depth is None {
            let inner = loops_in(loops, lo);
            lemma_loops_in_before(loops, lo, (lo + 3) as u32);
            lemma_loops_in_before(loops, lo, lg);
            lemma_loops_in_before(loops, lo, lb);
            lemma_neutral_skips(arity, inner, g, (lo + 3) as u32, lg);
            lemma_neutral_skips(arity, inner, b, lg, lb);
            lemma_neutral_skips(arity, inner, u, lb, lu);
            lemma_loops_skip(arity, g, b, u, lo, lg, lb, lu, fl);
            let out = run(arity, fl, for_code(g, b, u, lo)).unwrap();
            lemma_touch_keeps(fl.marks, out.marks, lo, lu, d);
        } else {
            lemma_for_flow(arity, loops, g, b, u, lo, lg, lb, lu, fl, d);
        }
    }
}

} // verus!
