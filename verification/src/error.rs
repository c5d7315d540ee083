//! The reasons for which a program is rejected.

use vstd::prelude::*;

verus! {

/// Why lowering failed. The first failure in evaluation order ends the
/// compilation; nothing is accumulated.
#[derive(Debug, Clone, Copy, PartialEq, Eq, Structural)]
pub enum LowerError {
    /// A global variable has an initialiser that is not an integer literal.
    GlobalInitNotConst,
    /// Two global variables share a name.
    GlobalRedefined,
    /// A function has the name of a global variable.
    GlobalFunctionConflict,
    /// A function is defined twice, or declared with two signatures.
    FunctionConflict,
    /// A parameter carries an initialiser.
    ParamHasInit,
    /// A variable is declared twice in one scope.
    VarRedefined,
    /// A variable is used that no enclosing scope and no global declares.
    VarUndefined,
    /// A function is called that the program does not declare.
    FuncUndefined,
    /// An initialiser has another type than the variable.
    IncompatibleInit,
    /// A condition or the operand of a unary operator is not an integer.
    ExpectInt,
    /// A returned value has another type than the function returns.
    IncompatibleReturn,
    /// The operands of a binary operator have different types, or are
    /// pointers under an operator other than `==` and `!=`.
    IncompatibleBinary,
    /// The target of an assignment or the operand of `&` is no lvalue.
    ExpectLvalue,
    /// The two sides of an assignment have different types.
    IncompatibleAssign,
    /// The two branches of a conditional expression have different types.
    IncompatibleCondition,
    /// A call passes another number of arguments than the function takes.
    ArgCountMismatch,
    /// An argument has another type than its parameter.
    ArgTypeMismatch,
    /// The operand of `*` is not a pointer.
    ExpectPointer,
    /// `break` outside of any loop.
    BreakOutsideLoop,
    /// `continue` outside of any loop.
    ContinueOutsideLoop,
    /// The program declares an array or indexes a value; arrays have no
    /// lowering.
    ArrayUnsupported,
    /// A counter of ids, labels, table slots or pointer depth would leave
    /// the range of `u32`.
    LimitExceeded,
}

} // verus!
