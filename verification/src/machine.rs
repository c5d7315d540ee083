//! What the walk of [`crate::stack`] is good for: code that it accepts
//! runs without ever finding too few cells on the operand stack.
//!
//! The machine of this module knows the operand stack by its depth only.
//! A branch may go either way, so that the runs of the machine cover
//! every run of the code on real values.

use vstd::prelude::*;
use crate::ir::IrStmt;
use crate::labels_proof::{defs, target};
use crate::stack::{entry, keeps, lemma_run_push, run, step, Flow};

verus! {

/// Where a run stands: the position of the next operation and the depth
/// of the operand stack.
pub struct Config {
    pub pc: int,
    pub depth: int,
}

/// The position of the first definition of the label `l` among the first
/// `n` operations.
pub open spec fn find(ops: Seq<IrStmt>, l: u32, n: int) -> Option<int>
    decreases n,
{
    if n <= 0 || n > ops.len() {
        None
    } else {
        match find(ops, l, n - 1) {
            Some(i) => Some(i),
            None => if ops[n - 1] == IrStmt::Label(l) {
                Some(n - 1)
            } else {
                None
            },
        }
    }
}

/// The position of the label `l` in the code.
pub open spec fn position(ops: Seq<IrStmt>, l: u32) -> Option<int> {
    find(ops, l, ops.len() as int)
}

/// Whether the machine can take its next step: there is an operation, it
/// finds the cells that it takes, and where it jumps there is a label.
pub open spec fn ready(arity: Seq<nat>, ops: Seq<IrStmt>, c: Config) -> bool {
    &&& 0 <= c.pc < ops.len()
    &&& c.depth >= 0
    &&& match ops[c.pc] {
        IrStmt::Unary(_) | IrStmt::Load | IrStmt::Pop | IrStmt::Ret => c.depth >= 1,
        IrStmt::Binary(_) | IrStmt::Store => c.depth >= 2,
        IrStmt::Bz(l) | IrStmt::Bnz(l) => c.depth >= 1 && position(ops, l) is Some,
        IrStmt::Jump(l) => position(ops, l) is Some,
        IrStmt::Call(f) => f < arity.len() && c.depth >= arity[f as int],
        _ => true,
    }
}

/// Whether one step of the machine leads from `c` to `next`. A branch
/// may fall through or jump; a return ends the run.
pub open spec fn moves(arity: Seq<nat>, ops: Seq<IrStmt>, c: Config, next: Config) -> bool {
    &&& ready(arity, ops, c)
    &&& match ops[c.pc] {
        IrStmt::Const(_) | IrStmt::LocalAddr(_) | IrStmt::GlobAddr(_) => next == (Config {
            pc: c.pc + 1,
            depth: c.depth + 1,
        }),
        IrStmt::Unary(_) | IrStmt::Load | IrStmt::Label(_) => next == (Config {
            pc: c.pc + 1,
            depth: c.depth,
        }),
        IrStmt::Binary(_) | IrStmt::Store | IrStmt::Pop => next == (Config {
            pc: c.pc + 1,
            depth: c.depth - 1,
        }),
        IrStmt::Bz(l) | IrStmt::Bnz(l) => next == (Config { pc: c.pc + 1, depth: c.depth - 1 })
            || next == (Config { pc: position(ops, l).unwrap(), depth: c.depth - 1 }),
        IrStmt::Jump(l) => next == (Config { pc: position(ops, l).unwrap(), depth: c.depth }),
        IrStmt::Call(f) => next == (Config {
            pc: c.pc + 1,
            depth: c.depth - arity[f as int] + 1,
        }),
        IrStmt::Ret => false,
    }
}

/// Whether the machine can stand at `c` after `n` steps from the start of
/// the code on an empty stack.
pub open spec fn reaches(arity: Seq<nat>, ops: Seq<IrStmt>, n: nat, c: Config) -> bool
    decreases n,
{
    if n == 0 {
        c == (Config { pc: 0, depth: 0 })
    } else {
        exists|prev: Config|
            reaches(arity, ops, (n - 1) as nat, prev) && #[trigger] moves(arity, ops, prev, c)
    }
}

/// The code runs safely: wherever a run of the machine stands, it can
/// take its next step. No operation finds too few cells, no jump misses
/// its label, and no run falls off the end of the code.
pub open spec fn runs_safely(arity: Seq<nat>, ops: Seq<IrStmt>) -> bool {
    forall|n: nat, c: Config| #[trigger] reaches(arity, ops, n, c) ==> ready(arity, ops, c)
}

/// The walk over the first `i` operations.
pub open spec fn walk(arity: Seq<nat>, ops: Seq<IrStmt>, i: int) -> Option<Flow> {
    run(arity, entry(), ops.take(i))
}

/// The walk over one more operation is one more step.
proof fn lemma_walk_step(arity: Seq<nat>, ops: Seq<IrStmt>, i: int)
    requires
        0 <= i < ops.len(),
    ensures
        walk(arity, ops, i + 1) == match walk(arity, ops, i) {
            None => None,
            Some(fl) => step(arity, fl, ops[i]),
        },
{
    lemma_run_push(arity, entry(), ops.take(i), ops[i]);
    assert(ops.take(i).push(ops[i]) =~= ops.take(i + 1));
}

/// A walk that succeeds has succeeded so far at every operation.
proof fn lemma_walk_so_far(arity: Seq<nat>, ops: Seq<IrStmt>, i: int)
    requires
        0 <= i <= ops.len(),
        run(arity, entry(), ops) is Some,
    ensures
        walk(arity, ops, i) is Some,
    decreases ops.len() - i,
{
    if i < ops.len() {
        lemma_walk_so_far(arity, ops, i + 1);
        lemma_walk_step(arity, ops, i);
    } else {
        assert(ops.take(i) =~= ops);
    }
}

/// A step keeps every record of a label.
proof fn lemma_step_keeps(arity: Seq<nat>, fl: Flow, op: IrStmt)
    requires
        step(arity, fl, op) is Some,
    ensures
        keeps(fl.marks, step(arity, fl, op).unwrap().marks),
{
}

/// A walk keeps every record of a label.
proof fn lemma_walk_keeps(arity: Seq<nat>, ops: Seq<IrStmt>, i: int, j: int)
    requires
        0 <= i <= j <= ops.len(),
        run(arity, entry(), ops) is Some,
    ensures
        walk(arity, ops, i) is Some,
        walk(arity, ops, j) is Some,
        keeps(walk(arity, ops, i).unwrap().marks, walk(arity, ops, j).unwrap().marks),
    decreases j - i,
{
    lemma_walk_so_far(arity, ops, i);
    lemma_walk_so_far(arity, ops, j);
    if i < j {
        lemma_walk_keeps(arity, ops, i, j - 1);
        lemma_walk_so_far(arity, ops, j - 1);
        lemma_walk_step(arity, ops, j - 1);
        lemma_step_keeps(arity, walk(arity, ops, j - 1).unwrap(), ops[j - 1]);
        let a = walk(arity, ops, i).unwrap().marks;
        let b = walk(arity, ops, j - 1).unwrap().marks;
        let c = walk(arity, ops, j).unwrap().marks;
        assert forall|l: u32| #[trigger] a.contains_key(l) implies c.contains_key(l) && c[l]
            == a[l] by {
            assert(b.contains_key(l));
        }
    }
}

/// After a label that the walk has recorded at a depth, the walk is live
/// at that depth.
proof fn lemma_live_after_label(arity: Seq<nat>, ops: Seq<IrStmt>, q: int, l: u32)
    requires
        0 <= q < ops.len(),
        ops[q] == IrStmt::Label(l),
        run(arity, entry(), ops) matches Some(last) && last.marks.contains_key(l) && last.marks[l]
            >= 0,
    ensures
        walk(arity, ops, q + 1) matches Some(fl) && fl.depth == Some(
            run(arity, entry(), ops).unwrap().marks[l],
        ),
{
    lemma_walk_so_far(arity, ops, q);
    lemma_walk_step(arity, ops, q);
    lemma_walk_keeps(arity, ops, q + 1, ops.len() as int);
    assert(ops.take(ops.len() as int) =~= ops);
    let before = walk(arity, ops, q).unwrap();
    let after = walk(arity, ops, q + 1).unwrap();
    assert(after.marks.contains_key(l));
}

/// A label that is defined has a position, and the label is there.
proof fn lemma_position(ops: Seq<IrStmt>, l: u32, n: int)
    requires
        0 <= n <= ops.len(),
    ensures
        find(ops, l, n) matches Some(q) ==> 0 <= q < n && ops[q] == IrStmt::Label(l),
        find(ops, l, n) is None ==> defs(ops.take(n), l) == 0,
    decreases n,
{
    if n > 0 {
        lemma_position(ops, l, n - 1);
        assert(ops.take(n).drop_last() =~= ops.take(n - 1));
    }
}

/// What holds wherever a run stands in code that the walk accepts: the
/// walk was live there at the depth of the run, or the run has jumped to
/// a label after which the walk is live at that depth.
pub open spec fn walked(arity: Seq<nat>, ops: Seq<IrStmt>, c: Config) -> bool {
    &&& 0 <= c.pc < ops.len()
    &&& c.depth >= 0
    &&& {
        ||| walk(arity, ops, c.pc) matches Some(fl) && fl.depth == Some(c.depth)
        ||| ops[c.pc] is Label && (walk(arity, ops, c.pc + 1) matches Some(fl) && fl.depth == Some(
            c.depth,
        ))
    }
}

/// Where the walk has gone, a run can take its next step.
proof fn lemma_walked_ready(arity: Seq<nat>, ops: Seq<IrStmt>, c: Config)
    requires
        run(arity, entry(), ops) is Some,
        forall|i: int|
            0 <= i < ops.len() ==> match target(#[trigger] ops[i]) {
                Some(l) => defs(ops, l) >= 1,
                None => true,
            },
        walked(arity, ops, c),
    ensures
        ready(arity, ops, c),
{
    if !(ops[c.pc] is Label) {
        lemma_walk_so_far(arity, ops, c.pc + 1);
        lemma_walk_step(arity, ops, c.pc);
        match target(ops[c.pc]) {
            Some(l) => {
                lemma_position(ops, l, ops.len() as int);
                assert(ops.take(ops.len() as int) =~= ops);
            },
            None => {},
        }
    }
}

/// One step of a run stays where the walk has gone.
proof fn lemma_walked_moves(arity: Seq<nat>, ops: Seq<IrStmt>, c: Config, next: Config)
    requires
        run(arity, entry(), ops) matches Some(last) && last.depth is None,
        walked(arity, ops, c),
        moves(arity, ops, c, next),
    ensures
        walked(arity, ops, next),
{
    let n = ops.len() as int;
    let last = run(arity, entry(), ops).unwrap();
    assert(ops.take(n) =~= ops);
    lemma_walk_so_far(arity, ops, c.pc);
    lemma_walk_so_far(arity, ops, c.pc + 1);
    lemma_walk_step(arity, ops, c.pc);
    let after = walk(arity, ops, c.pc + 1).unwrap();
    lemma_walk_keeps(arity, ops, c.pc + 1, n);
    match target(ops[c.pc]) {
        Some(l) => {
            lemma_position(ops, l, n);
            let q = position(ops, l).unwrap();
            if next.pc == q && next.depth == (if ops[c.pc] is Jump {
                c.depth
            } else {
                c.depth - 1
            }) {
                assert(after.marks.contains_key(l) && after.marks[l] == next.depth);
                assert(last.marks.contains_key(l) && last.marks[l] == next.depth);
                lemma_live_after_label(arity, ops, q, l);
            }
        },
        None => {},
    }
}

/// Wherever a run stands, the walk has gone.
proof fn lemma_reaches_walked(arity: Seq<nat>, ops: Seq<IrStmt>, n: nat, c: Config)
    requires
        run(arity, entry(), ops) matches Some(last) && last.depth is None,
        reaches(arity, ops, n, c),
    ensures
        walked(arity, ops, c),
    decreases n,
{
    if n == 0 {
        assert(ops.take(0) =~= Seq::<IrStmt>::empty());
        crate::stack::lemma_run_empty(arity, entry());
        if ops.len() == 0 {
            assert(ops =~= Seq::<IrStmt>::empty());
        }
    } else {
        let prev = choose|prev: Config|
            reaches(arity, ops, (n - 1) as nat, prev) && #[trigger] moves(arity, ops, prev, c);
        lemma_reaches_walked(arity, ops, (n - 1) as nat, prev);
        lemma_walked_moves(arity, ops, prev, c);
    }
}

/// Code that the walk accepts from an empty stack to its end, and that
/// defines the labels that it jumps to, runs safely: no operation ever
/// finds too few cells on the operand stack, every call finds its
/// arguments, every jump finds its label, and every run ends in a return.
pub proof fn lemma_walk_sound(arity: Seq<nat>, ops: Seq<IrStmt>)
    requires
        run(arity, entry(), ops) matches Some(last) && last.depth is None,
        forall|i: int|
            0 <= i < ops.len() ==> match target(#[trigger] ops[i]) {
                Some(l) => defs(ops, l) >= 1,
                None => true,
            },
    ensures
        runs_safely(arity, ops),
{
    assert forall|n: nat, c: Config| #[trigger] reaches(arity, ops, n, c) implies ready(
        arity,
        ops,
        c,
    ) by {
        lemma_reaches_walked(arity, ops, n, c);
        lemma_walked_ready(arity, ops, c);
    }
}

} // verus!
