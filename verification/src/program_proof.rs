//! Properties of whole lowered programs: every function keeps the
//! discipline of the operand stack, and every index that the code names
//! exists.

use vstd::prelude::*;
use crate::ast::{Decl, Func, Prog};
use crate::ir::{IrFuncView, IrProgView, IrStmt};
use crate::labels_proof::{labels_resolve, lemma_func_labels_resolve};
use crate::machine::{lemma_walk_sound, runs_safely};
use crate::locals_proof::lemma_func_locals_within;
use crate::lowering::{
    lemma_funcs_error_persists, lemma_slots_given, lower_bodies, lower_func, lower_prog,
    register_funcs, register_globs, Env, Scope,
};
use crate::refs_proof::{lemma_func_within, tables_within};
use crate::stack::{entry, lemma_run_push, run, stack_safe};
use crate::stack_proof::{lemma_func_stack_safe, lemma_params_state, tables_agree};

verus! {

/// The number of parameters of each function of a program, by index.
pub open spec fn arity_of(funcs: Seq<IrFuncView>) -> Seq<nat> {
    Seq::new(funcs.len(), |i: int| funcs[i].param_cnt as nat)
}

/// Every function of the program keeps the discipline of the operand
/// stack, each call taking as many cells as its callee has parameters.
pub open spec fn program_stack_safe(p: IrProgView) -> bool {
    forall|i: int|
        0 <= i < p.funcs.len() ==> stack_safe(arity_of(p.funcs), (#[trigger] p.funcs[i]).stmts)
}

/// Whether code ends in a return.
pub open spec fn ends_in_ret(ops: Seq<IrStmt>) -> bool {
    ops.len() > 0 && ops.last() == IrStmt::Ret
}

/// What holds of every lowered program: every global and function that
/// its code names exists; every function names only parameters and locals
/// that have a slot in its frame, keeps the discipline of the operand
/// stack, ends in a return, defines no label twice and jumps only to
/// labels of its own; and every function runs safely.
pub open spec fn program_sound(p: IrProgView) -> bool {
    &&& p.wf()
    &&& program_stack_safe(p)
    &&& forall|i: int|
        0 <= i < p.funcs.len() ==> {
            &&& (#[trigger] p.funcs[i]).locals_within()
            &&& ends_in_ret(p.funcs[i].stmts)
            &&& labels_resolve(p.funcs[i].stmts)
            &&& runs_safely(arity_of(p.funcs), p.funcs[i].stmts)
        }
}

/// Code that keeps the discipline of the operand stack, ends in a return
/// and defines the labels that it jumps to runs safely.
pub proof fn lemma_safe_code_runs_safely(arity: Seq<nat>, ops: Seq<IrStmt>)
    requires
        stack_safe(arity, ops),
        ends_in_ret(ops),
        labels_resolve(ops),
    ensures
        runs_safely(arity, ops),
{
    lemma_run_push(arity, entry(), ops.drop_last(), ops.last());
    assert(ops.drop_last().push(ops.last()) =~= ops);
    lemma_walk_sound(arity, ops);
}

/// The code of a function ends in a return.
pub proof fn lemma_func_ends_in_ret(env: Env, f: Func)
    requires
        lower_func(env, f) is Ok,
    ensures
        ends_in_ret(lower_func(env, f).unwrap().stmts),
{
}

/// The id of every registered global is its position in the list of
/// initial values.
pub proof fn lemma_glob_ids(globs: Seq<Decl>, n: int)
    requires
        0 <= n <= globs.len(),
        register_globs(globs, n) is Ok,
    ensures
        register_globs(globs, n).unwrap().inits.len() == n,
        forall|name: Seq<char>| #[trigger]
            register_globs(globs, n).unwrap().map.contains_key(name) ==> register_globs(
                globs,
                n,
            ).unwrap().map[name].id < n,
    decreases n,
{
    if n > 0 {
        lemma_glob_ids(globs, n - 1);
    }
}

/// A function table only grows: what the first `m` functions registered
/// keeps its slot and its signature when more functions are registered.
pub proof fn lemma_table_grows(globs: Scope, funcs: Seq<Func>, m: int, n: int)
    requires
        0 <= m <= n <= funcs.len(),
        register_funcs(globs, funcs, n) is Ok,
    ensures
        register_funcs(globs, funcs, m) is Ok,
        register_funcs(globs, funcs, m).unwrap().count <= register_funcs(
            globs,
            funcs,
            n,
        ).unwrap().count,
        forall|name: Seq<char>| #[trigger]
            register_funcs(globs, funcs, m).unwrap().map.contains_key(name) ==> {
                &&& register_funcs(globs, funcs, n).unwrap().map.contains_key(name)
                &&& register_funcs(globs, funcs, n).unwrap().map[name].slot == register_funcs(
                    globs,
                    funcs,
                    m,
                ).unwrap().map[name].slot
                &&& register_funcs(globs, funcs, n).unwrap().map[name].params == register_funcs(
                    globs,
                    funcs,
                    m,
                ).unwrap().map[name].params
            },
    decreases n - m,
{
    if m < n {
        if register_funcs(globs, funcs, n - 1) is Err {
            lemma_funcs_error_persists(globs, funcs, n - 1, n);
        }
        lemma_table_grows(globs, funcs, m, n - 1);
    }
}

/// Two names in a function table never share a slot.
pub proof fn lemma_slots_distinct(globs: Scope, funcs: Seq<Func>, n: int)
    requires
        0 <= n <= funcs.len(),
        register_funcs(globs, funcs, n) is Ok,
    ensures
        forall|a: Seq<char>, b: Seq<char>|
            #![trigger register_funcs(globs, funcs, n).unwrap().map[a], register_funcs(globs, funcs, n).unwrap().map[b]]
            register_funcs(globs, funcs, n).unwrap().map.contains_key(a) && register_funcs(
                globs,
                funcs,
                n,
            ).unwrap().map.contains_key(b) && a != b ==> register_funcs(
                globs,
                funcs,
                n,
            ).unwrap().map[a].slot != register_funcs(globs, funcs, n).unwrap().map[b].slot,
    decreases n,
{
    if n > 0 {
        lemma_slots_distinct(globs, funcs, n - 1);
        lemma_slots_given(globs, funcs, n - 1);
    }
}

/// After the first `n` bodies there is one function per slot given out to
/// the first `n` functions, and each has the number of parameters that
/// the table records for its name.
pub proof fn lemma_bodies_fill_slots(globs: Scope, gmap: Scope, funcs: Seq<Func>, n: int)
    requires
        0 <= n <= funcs.len(),
        register_funcs(globs, funcs, funcs.len() as int) is Ok,
        lower_bodies(
            Env { globs: gmap, funcs: register_funcs(globs, funcs, funcs.len() as int).unwrap().map },
            funcs,
            n,
        ) is Ok,
    ensures
        register_funcs(globs, funcs, n) is Ok,
        lower_bodies(
            Env { globs: gmap, funcs: register_funcs(globs, funcs, funcs.len() as int).unwrap().map },
            funcs,
            n,
        ).unwrap().len() == register_funcs(globs, funcs, n).unwrap().count,
        forall|name: Seq<char>| #[trigger]
            register_funcs(globs, funcs, n).unwrap().map.contains_key(name) ==> lower_bodies(
                Env {
                    globs: gmap,
                    funcs: register_funcs(globs, funcs, funcs.len() as int).unwrap().map,
                },
                funcs,
                n,
            ).unwrap()[register_funcs(globs, funcs, n).unwrap().map[name].slot as int].param_cnt
                == register_funcs(globs, funcs, n).unwrap().map[name].params.len(),
    decreases n,
{
    let total = funcs.len() as int;
    let env = Env { globs: gmap, funcs: register_funcs(globs, funcs, total).unwrap().map };
    lemma_table_grows(globs, funcs, n, total);
    if n > 0 {
        lemma_bodies_fill_slots(globs, gmap, funcs, n - 1);
        lemma_table_grows(globs, funcs, n - 1, n);
        lemma_slots_given(globs, funcs, n - 1);
        lemma_slots_distinct(globs, funcs, n);
        let t0 = register_funcs(globs, funcs, n - 1).unwrap();
        let t1 = register_funcs(globs, funcs, n).unwrap();
        let out0 = lower_bodies(env, funcs, n - 1).unwrap();
        let out1 = lower_bodies(env, funcs, n).unwrap();
        let f = funcs[n - 1];
        assert(t1.map.contains_key(f.name@));
        assert(t1.map[f.name@].params.len() == f.params@.len());
        let s = env.funcs[f.name@].slot;
        assert(s == t1.map[f.name@].slot);
        if s < out0.len() && f.stmts is None {
            assert(t0.map.contains_key(f.name@));
            assert(t0.map[f.name@].params.len() == f.params@.len());
        } else {
            let g = lower_func(env, f).unwrap();
            lemma_params_state(env, f.params@, f.params@.len() as int);
            assert(g.param_cnt == f.params@.len());
        }
        assert forall|name: Seq<char>| #[trigger] t1.map.contains_key(name) implies out1[t1.map[name].slot as int].param_cnt
            == t1.map[name].params.len() by {
            if name == f.name@ {
            } else {
                assert(t0.map.contains_key(name));
                assert(t1.map[name].slot == t0.map[name].slot);
                assert(t1.map[name].slot != t1.map[f.name@].slot);
            }
        }
    }
}

/// Every function among the first `n` bodies keeps the discipline of the
/// operand stack, names existing globals and functions and locals of its
/// own frame only, ends in a return and jumps only to labels that it
/// defines once, for any list of parameter counts and any bounds that the
/// tables agree with.
pub proof fn lemma_bodies_safe(
    env: Env,
    arity: Seq<nat>,
    n_funcs: nat,
    n_globs: nat,
    funcs: Seq<Func>,
    n: int,
)
    requires
        0 <= n <= funcs.len(),
        tables_agree(env, arity),
        tables_within(env, n_funcs, n_globs),
        lower_bodies(env, funcs, n) is Ok,
    ensures
        forall|i: int|
            0 <= i < lower_bodies(env, funcs, n).unwrap().len() ==> {
                &&& stack_safe(arity, (#[trigger] lower_bodies(env, funcs, n).unwrap()[i]).stmts)
                &&& lower_bodies(env, funcs, n).unwrap()[i].refs_within(n_funcs, n_globs)
                &&& lower_bodies(env, funcs, n).unwrap()[i].locals_within()
                &&& ends_in_ret(lower_bodies(env, funcs, n).unwrap()[i].stmts)
                &&& labels_resolve(lower_bodies(env, funcs, n).unwrap()[i].stmts)
            },
    decreases n,
{
    if n > 0 {
        lemma_bodies_safe(env, arity, n_funcs, n_globs, funcs, n - 1);
        if lower_func(env, funcs[n - 1]) is Ok {
            lemma_func_stack_safe(env, arity, funcs[n - 1]);
            lemma_func_within(env, n_funcs, n_globs, funcs[n - 1]);
            lemma_func_locals_within(env, funcs[n - 1]);
            lemma_func_ends_in_ret(env, funcs[n - 1]);
            lemma_func_labels_resolve(env, funcs[n - 1]);
        }
    }
}

/// What lowering accepts, the code generator accepts: in the IR of a
/// program every named global and function exists, and every function
/// names only parameters and locals of its own frame, keeps the
/// discipline of the operand stack, ends in a return, jumps only to
/// labels that it defines once, and runs safely.
pub proof fn lemma_lowered_program(p: Prog)
    requires
        lower_prog(p) is Ok,
    ensures
        program_sound(lower_prog(p).unwrap()),
{
    let ir = lower_prog(p).unwrap();
    let total = p.funcs@.len() as int;
    let g = register_globs(p.globs@, p.globs@.len() as int).unwrap();
    let t = register_funcs(g.map, p.funcs@, total).unwrap();
    let env = Env { globs: g.map, funcs: t.map };
    lemma_glob_ids(p.globs@, p.globs@.len() as int);
    lemma_slots_given(g.map, p.funcs@, total);
    lemma_bodies_fill_slots(g.map, g.map, p.funcs@, total);
    let arity = arity_of(ir.funcs);
    assert(tables_agree(env, arity)) by {
        assert forall|name: Seq<char>| #[trigger] env.funcs.contains_key(name) implies env.funcs[name].slot
            < arity.len() && arity[env.funcs[name].slot as int] == env.funcs[name].params.len() by {
            assert(t.map.contains_key(name));
        }
    }
    assert(tables_within(env, ir.funcs.len(), ir.globs.len()));
    lemma_bodies_safe(env, arity, ir.funcs.len(), ir.globs.len(), p.funcs@, total);
    assert forall|i: int| 0 <= i < ir.funcs.len() implies runs_safely(
        arity,
        (#[trigger] ir.funcs[i]).stmts,
    ) by {
        lemma_safe_code_runs_safely(arity, ir.funcs[i].stmts);
    }
}

} // verus!
