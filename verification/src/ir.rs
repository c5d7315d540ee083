//! The stack-machine intermediate representation.
//!
//! Every operation works on an implicit operand stack of 4-byte cells.

use vstd::prelude::*;
use crate::ast::{BinaryOp, UnaryOp};

pub use crate::lower::ast2ir;

verus! {

/// One operation of the stack machine.
#[derive(Debug, Clone, Copy, PartialEq, Eq, Structural)]
pub enum IrStmt {
    /// Push a constant.
    Const(i32),
    /// Pop one value, apply the operator, push the result.
    Unary(UnaryOp),
    /// Pop the right operand, then the left one, and push the result.
    Binary(BinaryOp),
    /// Push the address of the local variable or parameter with this id.
    LocalAddr(u32),
    /// Push the address of the global variable with this index.
    GlobAddr(u32),
    /// Pop an address and push the value stored there.
    Load,
    /// Pop an address, then a value; store the value at the address and push
    /// it back, so that an assignment yields what it assigned.
    Store,
    /// Define a label. Label ids are unique within one function only.
    Label(u32),
    /// Pop a value and jump to the label if it is zero.
    Bz(u32),
    /// Pop a value and jump to the label if it is not zero.
    Bnz(u32),
    /// Jump to the label.
    Jump(u32),
    /// Call the function at this index of the program's function list. The
    /// arguments were pushed left to right; the call replaces them by the
    /// callee's return value.
    Call(u32),
    /// Discard the top of the stack.
    Pop,
    /// Pop a value and return it from the function.
    Ret,
}

/// One function of an IR program.
#[derive(Debug)]
pub struct IrFunc {
    pub name: String,
    /// Number of parameters.
    pub param_cnt: u32,
    /// Number of local variables, parameters not counted.
    pub var_cnt: u32,
    pub stmts: Vec<IrStmt>,
}

/// A whole IR program. A global is a name with either `Ok(word)`, its
/// initial value, or `Err(cells)`, the number of zero-filled cells of an
/// array.
#[derive(Debug)]
pub struct IrProg {
    pub funcs: Vec<IrFunc>,
    pub globs: Vec<(String, Result<i32, u32>)>,
}

/// The mathematical content of an [`IrFunc`].
pub struct IrFuncView {
    pub name: Seq<char>,
    pub param_cnt: u32,
    pub var_cnt: u32,
    pub stmts: Seq<IrStmt>,
}

/// The mathematical content of a global: its name and initialiser.
pub struct GlobView {
    pub name: Seq<char>,
    pub init: Result<i32, u32>,
}

/// The mathematical content of an [`IrProg`].
pub struct IrProgView {
    pub funcs: Seq<IrFuncView>,
    pub globs: Seq<GlobView>,
}

impl View for IrFunc {
    type V = IrFuncView;

    open spec fn view(&self) -> IrFuncView {
        IrFuncView {
            name: self.name@,
            param_cnt: self.param_cnt,
            var_cnt: self.var_cnt,
            stmts: self.stmts@,
        }
    }
}

/// The content of a stored global.
pub open spec fn glob_view(g: (String, Result<i32, u32>)) -> GlobView {
    GlobView { name: g.0@, init: g.1 }
}

impl View for IrProg {
    type V = IrProgView;

    open spec fn view(&self) -> IrProgView {
        IrProgView {
            funcs: self.funcs@.map_values(|f: IrFunc| f@),
            globs: self.globs@.map_values(|g: (String, Result<i32, u32>)| glob_view(g)),
        }
    }
}

/// The operation names no global and no function beyond the given
/// numbers of them.
pub open spec fn op_within(op: IrStmt, n_funcs: nat, n_globs: nat) -> bool {
    match op {
        IrStmt::GlobAddr(x) => x < n_globs,
        IrStmt::Call(x) => x < n_funcs,
        _ => true,
    }
}

/// Every operation of the code names existing globals and functions only.
pub open spec fn code_within(ops: Seq<IrStmt>, n_funcs: nat, n_globs: nat) -> bool {
    forall|i: int| 0 <= i < ops.len() ==> op_within(#[trigger] ops[i], n_funcs, n_globs)
}

/// The operation names no parameter or local beyond the first `n` ids.
pub open spec fn op_local_below(op: IrStmt, n: nat) -> bool {
    match op {
        IrStmt::LocalAddr(x) => x < n,
        _ => true,
    }
}

/// Every parameter or local that the code names has an id below `n`.
pub open spec fn locals_below(ops: Seq<IrStmt>, n: nat) -> bool {
    forall|i: int| 0 <= i < ops.len() ==> op_local_below(#[trigger] ops[i], n)
}

impl IrFuncView {
    /// Every global and every callee that the function names exists.
    pub open spec fn refs_within(self, n_funcs: nat, n_globs: nat) -> bool {
        code_within(self.stmts, n_funcs, n_globs)
    }

    /// Every parameter or local that the function names has a slot in its
    /// frame: its id is below the number of parameters and locals.
    pub open spec fn locals_within(self) -> bool {
        locals_below(self.stmts, (self.param_cnt + self.var_cnt) as nat)
    }
}

impl IrProgView {
    /// Every index in every function refers to an existing global or function.
    pub open spec fn wf(self) -> bool {
        forall|i: int|
            0 <= i < self.funcs.len() ==> (#[trigger] self.funcs[i]).refs_within(
                self.funcs.len(),
                self.globs.len(),
            )
    }
}

impl IrFunc {
    /// Tests whether every index in the function is below the given bounds.
    pub fn refs_within(&self, n_funcs: usize, n_globs: usize) -> (ok: bool)
        ensures
            ok == self@.refs_within(n_funcs as nat, n_globs as nat),
    {
        let mut i: usize = 0;
        while i < self.stmts.len()
            invariant
                i <= self.stmts.len(),
                forall|j: int|
                    0 <= j < i ==> op_within(
                        #[trigger] self.stmts@[j],
                        n_funcs as nat,
                        n_globs as nat,
                    ),
            decreases self.stmts.len() - i,
        {
            let ok = match self.stmts[i] {
                IrStmt::GlobAddr(x) => (x as usize) < n_globs,
                IrStmt::Call(x) => (x as usize) < n_funcs,
                _ => true,
            };
            if !ok {
                assert(!op_within(self.stmts@[i as int], n_funcs as nat, n_globs as nat));
                return false;
            }
            i += 1;
        }
        true
    }
}

impl IrProg {
    /// Tests whether the program is well formed, which the code generator
    /// requires of its input.
    pub fn is_wf(&self) -> (ok: bool)
        ensures
            ok == self@.wf(),
    {
        let mut i: usize = 0;
        while i < self.funcs.len()
            invariant
                i <= self.funcs.len(),
                forall|j: int|
                    0 <= j < i ==> (#[trigger] self@.funcs[j]).refs_within(
                        self@.funcs.len(),
                        self@.globs.len(),
                    ),
            decreases self.funcs.len() - i,
        {
            if !self.funcs[i].refs_within(self.funcs.len(), self.globs.len()) {
                assert(!self@.funcs[i as int].refs_within(self@.funcs.len(), self@.globs.len()));
                return false;
            }
            i += 1;
        }
        true
    }
}

} // verus!
