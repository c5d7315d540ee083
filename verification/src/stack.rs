//! Depth accounting for the operand stack.
//!
//! [`run`] walks a piece of code once, from its first operation to its
//! last, and keeps the depth of the operand stack. Along the way it
//! records for each label the depth at which control reaches it; every
//! jump to the label and every fall into it must agree. After an
//! unconditional jump or a return the walk is in dead code, which it skips
//! up to the next label that some jump has reached. A label that the walk
//! passes in dead code before any jump has reached it is recorded as
//! passed, and no later jump may go to it: so no code that can run goes
//! unwalked.

use vstd::prelude::*;
use crate::ir::IrStmt;

verus! {

/// The record of a label that the walk has passed in dead code: no depth.
pub open spec fn passed() -> int {
    -1
}

/// Where a walk stands: the depth of the operand stack, or `None` in dead
/// code, and for each label met so far the depth at which control reaches
/// it, or [`passed`].
pub struct Flow {
    pub depth: Option<int>,
    pub marks: Map<u32, int>,
}

/// Records that control reaches label `l` at depth `d`. Fails if the label
/// is known at another depth.
pub open spec fn mark(marks: Map<u32, int>, l: u32, d: int) -> Option<Map<u32, int>> {
    if marks.contains_key(l) {
        if marks[l] == d {
            Some(marks)
        } else {
            None
        }
    } else {
        Some(marks.insert(l, d))
    }
}

/// The flow at depth `d`, or in dead code, once label `l` is recorded at
/// depth `at`.
pub open spec fn marked(fl: Flow, l: u32, at: int, depth: Option<int>) -> Option<Flow> {
    match mark(fl.marks, l, at) {
        Some(marks) => Some(Flow { depth, marks }),
        None => None,
    }
}

/// One operation in live code at depth `d`. `arity[f]` is the number of
/// parameters of the function with index `f`. `None` means that the
/// operation finds too few cells, calls an unknown function, or meets a
/// label at a depth other than the recorded one.
pub open spec fn step_live(arity: Seq<nat>, fl: Flow, d: int, op: IrStmt) -> Option<Flow> {
    match op {
        IrStmt::Const(_) | IrStmt::LocalAddr(_) | IrStmt::GlobAddr(_) => Some(
            Flow { depth: Some(d + 1), marks: fl.marks },
        ),
        IrStmt::Unary(_) | IrStmt::Load => if d >= 1 {
            Some(fl)
        } else {
            None
        },
        IrStmt::Binary(_) | IrStmt::Store => if d >= 2 {
            Some(Flow { depth: Some(d - 1), marks: fl.marks })
        } else {
            None
        },
        IrStmt::Pop => if d >= 1 {
            Some(Flow { depth: Some(d - 1), marks: fl.marks })
        } else {
            None
        },
        IrStmt::Label(l) => marked(fl, l, d, Some(d)),
        IrStmt::Bz(l) | IrStmt::Bnz(l) => if d >= 1 {
            marked(fl, l, d - 1, Some(d - 1))
        } else {
            None
        },
        IrStmt::Jump(l) => marked(fl, l, d, None),
        IrStmt::Call(f) => if f < arity.len() && d >= arity[f as int] {
            Some(Flow { depth: Some(d - arity[f as int] + 1), marks: fl.marks })
        } else {
            None
        },
        IrStmt::Ret => if d >= 1 {
            Some(Flow { depth: None, marks: fl.marks })
        } else {
            None
        },
    }
}

/// One operation. Dead code is skipped; a label that a jump has reached
/// makes the code live again, at the depth of the jump; any other label
/// in dead code is recorded as passed.
pub open spec fn step(arity: Seq<nat>, fl: Flow, op: IrStmt) -> Option<Flow> {
    match fl.depth {
        Some(d) => if d >= 0 {
            step_live(arity, fl, d, op)
        } else {
            None
        },
        None => match op {
            IrStmt::Label(l) => if fl.marks.contains_key(l) {
                if fl.marks[l] >= 0 {
                    Some(Flow { depth: Some(fl.marks[l]), marks: fl.marks })
                } else {
                    Some(fl)
                }
            } else {
                Some(Flow { depth: None, marks: fl.marks.insert(l, passed()) })
            },
            _ => Some(fl),
        },
    }
}

/// Walks `ops` from `fl`.
#[verifier::opaque]
pub open spec fn run(arity: Seq<nat>, fl: Flow, ops: Seq<IrStmt>) -> Option<Flow>
    decreases ops.len(),
{
    if ops.len() == 0 {
        Some(fl)
    } else {
        match run(arity, fl, ops.drop_last()) {
            None => None,
            Some(mid) => step(arity, mid, ops.last()),
        }
    }
}

/// Walks `ops` from what an earlier walk gave, if it gave anything.
pub open spec fn then_run(arity: Seq<nat>, fl: Option<Flow>, ops: Seq<IrStmt>) -> Option<Flow> {
    match fl {
        None => None,
        Some(mid) => run(arity, mid, ops),
    }
}

/// Takes one step from what an earlier walk gave, if it gave anything.
pub open spec fn then_step(arity: Seq<nat>, fl: Option<Flow>, op: IrStmt) -> Option<Flow> {
    match fl {
        None => None,
        Some(mid) => step(arity, mid, op),
    }
}

/// The start of a function: live code on an empty operand stack, no label
/// met.
pub open spec fn entry() -> Flow {
    Flow { depth: Some(0), marks: Map::empty() }
}

/// A function's code keeps the discipline of the operand stack: walked
/// from its entry, no operation finds too few cells and every label is
/// reached at one depth only.
pub open spec fn stack_safe(arity: Seq<nat>, ops: Seq<IrStmt>) -> bool {
    run(arity, entry(), ops) is Some
}

/// A walk over no code changes nothing.
pub proof fn lemma_run_empty(arity: Seq<nat>, fl: Flow)
    ensures
        run(arity, fl, Seq::empty()) == Some(fl),
{
    reveal_with_fuel(run, 1);
}

/// A walk over one operation is one step.
pub proof fn lemma_run_one(arity: Seq<nat>, fl: Flow, op: IrStmt)
    ensures
        run(arity, fl, seq![op]) == step(arity, fl, op),
{
    reveal_with_fuel(run, 2);
    assert(seq![op].drop_last() =~= Seq::<IrStmt>::empty());
    assert(run(arity, fl, seq![op].drop_last()) == Some(fl));
}

/// A walk over code with one more operation is the walk over the code,
/// then one step.
pub proof fn lemma_run_push(arity: Seq<nat>, fl: Flow, ops: Seq<IrStmt>, op: IrStmt)
    ensures
        run(arity, fl, ops.push(op)) == then_step(arity, run(arity, fl, ops), op),
{
    reveal_with_fuel(run, 1);
    assert(ops.push(op).drop_last() =~= ops);
}

/// A walk over two pieces of code is the walk over the first, then the
/// walk over the second.
pub proof fn lemma_run_concat(arity: Seq<nat>, fl: Flow, a: Seq<IrStmt>, b: Seq<IrStmt>)
    ensures
        run(arity, fl, a + b) == then_run(arity, run(arity, fl, a), b),
    decreases b.len(),
{
    reveal_with_fuel(run, 1);
    if b.len() == 0 {
        assert(a + b =~= a);
    } else {
        lemma_run_concat(arity, fl, a, b.drop_last());
        assert((a + b).drop_last() =~= a + b.drop_last());
    }
}

/// A walk over two operations is two steps.
pub proof fn lemma_run_two(arity: Seq<nat>, fl: Flow, x: IrStmt, y: IrStmt)
    ensures
        run(arity, fl, seq![x, y]) == then_step(arity, step(arity, fl, x), y),
{
    lemma_run_one(arity, fl, x);
    lemma_run_push(arity, fl, seq![x], y);
    assert(seq![x].push(y) =~= seq![x, y]);
}

/// A walk over three operations is three steps.
pub proof fn lemma_run_three(arity: Seq<nat>, fl: Flow, x: IrStmt, y: IrStmt, z: IrStmt)
    ensures
        run(arity, fl, seq![x, y, z]) == then_step(
            arity,
            then_step(arity, step(arity, fl, x), y),
            z,
        ),
{
    lemma_run_two(arity, fl, x, y);
    lemma_run_push(arity, fl, seq![x, y], z);
    assert(seq![x, y].push(z) =~= seq![x, y, z]);
}

/// No label from `labels` on is recorded.
pub open spec fn fresh_from(marks: Map<u32, int>, labels: u32) -> bool {
    forall|l: u32| l >= labels ==> !marks.contains_key(l)
}

/// `after` records what `before` records, and differs from it only on the
/// labels from `lo` up to `hi`.
pub open spec fn touches_only(before: Map<u32, int>, after: Map<u32, int>, lo: u32, hi: u32)
    -> bool {
    forall|l: u32|
        !(lo <= l < hi) ==> (#[trigger] after.contains_key(l) == before.contains_key(l) && (
        before.contains_key(l) ==> after[l] == before[l]))
}

/// `after` keeps every record of `before`.
pub open spec fn keeps(before: Map<u32, int>, after: Map<u32, int>) -> bool {
    forall|l: u32| #[trigger]
        before.contains_key(l) ==> after.contains_key(l) && after[l] == before[l]
}

/// Every label below `labels` that `after` records and `before` does not
/// is recorded at depth `d`.
pub open spec fn news_at(before: Map<u32, int>, after: Map<u32, int>, labels: u32, d: int)
    -> bool {
    forall|l: u32|
        l < labels && #[trigger] after.contains_key(l) && !before.contains_key(l) ==> after[l]
            == d
}

/// The targets of the enclosing loops were given out before `labels`, and
/// where one is recorded, it is recorded at depth `d`.
pub open spec fn loops_at(loops: Seq<(u32, u32)>, marks: Map<u32, int>, labels: u32, d: int)
    -> bool {
    forall|i: int|
        0 <= i < loops.len() ==> {
            &&& (#[trigger] loops[i]).0 < labels
            &&& loops[i].1 < labels
            &&& (marks.contains_key(loops[i].0) ==> marks[loops[i].0] == d)
            &&& (marks.contains_key(loops[i].1) ==> marks[loops[i].1] == d)
        }
}

/// Walked from `fl`, `ops` ends `n` cells deeper, or stays dead code, and
/// records labels from `lo` up to `hi` only.
pub open spec fn pushes(arity: Seq<nat>, fl: Flow, ops: Seq<IrStmt>, n: int, lo: u32, hi: u32)
    -> bool {
    match run(arity, fl, ops) {
        None => false,
        Some(out) => {
            &&& match fl.depth {
                Some(d) => out.depth == Some(d + n),
                None => out.depth is None,
            }
            &&& touches_only(fl.marks, out.marks, lo, hi)
            &&& fresh_from(out.marks, hi)
        },
    }
}

/// Walked from `fl`, which is at depth `d` or dead, `ops` ends at depth `d`
/// or dead. It keeps every record of a label, records the labels that
/// were given out before `lo` at depth `d` only, and none from `hi` on.
/// Dead code stays dead and records labels from `lo` up to `hi` only.
pub open spec fn keeps_depth(
    arity: Seq<nat>,
    fl: Flow,
    ops: Seq<IrStmt>,
    d: int,
    lo: u32,
    hi: u32,
) -> bool {
    match run(arity, fl, ops) {
        None => false,
        Some(out) => {
            &&& (out.depth == Some(d) || out.depth is None)
            &&& keeps(fl.marks, out.marks)
            &&& news_at(fl.marks, out.marks, lo, d)
            &&& fresh_from(out.marks, hi)
            &&& (fl.depth is None ==> out.depth is None && touches_only(
                fl.marks,
                out.marks,
                lo,
                hi,
            ))
        },
    }
}

/// A flow from which the code of a statement may start: at depth `d` or
/// dead, with no label from `labels` on recorded and, in live code, the
/// targets of the enclosing loops recorded at depth `d` if at all.
pub open spec fn starts_at(fl: Flow, loops: Seq<(u32, u32)>, labels: u32, d: int) -> bool {
    &&& (fl.depth == Some(d) || fl.depth is None)
    &&& fresh_from(fl.marks, labels)
    &&& loops_before(loops, labels)
    &&& (fl.depth is Some ==> loops_at(loops, fl.marks, labels, d))
}

/// The targets of the enclosing loops were given out before `labels`.
pub open spec fn loops_before(loops: Seq<(u32, u32)>, labels: u32) -> bool {
    forall|i: int| 0 <= i < loops.len() ==> (#[trigger] loops[i]).0 < labels && loops[i].1 < labels
}

/// Code that behaves as `n` expressions in a row: from every depth it ends
/// exactly `n` cells deeper, it never reads below the depth at which it
/// starts, and its labels, `lo` up to `hi`, are its own.
pub open spec fn pushing(arity: Seq<nat>, code: Seq<IrStmt>, n: int, lo: u32, hi: u32) -> bool {
    &&& lo <= hi
    &&& forall|fl: Flow|
        fresh_from(fl.marks, lo) && (fl.depth matches Some(d) ==> d >= 0) ==> #[trigger] pushes(
            arity,
            fl,
            code,
            n,
            lo,
            hi,
        )
}

/// Code that behaves as a statement inside the loops `loops`: from every
/// depth it ends at the same depth, or in dead code after a jump or a
/// return; it never reads below the depth at which it starts; and it
/// jumps only to labels of its own, `lo` up to `hi`, and to the targets of
/// the loops.
pub open spec fn neutral(
    arity: Seq<nat>,
    loops: Seq<(u32, u32)>,
    code: Seq<IrStmt>,
    lo: u32,
    hi: u32,
) -> bool {
    &&& lo <= hi
    &&& forall|fl: Flow, d: int|
        d >= 0 && starts_at(fl, loops, lo, d) ==> #[trigger] keeps_depth(
            arity,
            fl,
            code,
            d,
            lo,
            hi,
        )
}

} // verus!
