//! Rendering of an IR program as RISC-V assembly text.
//!
//! Each function keeps its parameters and locals in a frame addressed from
//! `s0`; the operand stack of the IR grows downwards from `sp`, below the
//! saved `s0` and `ra`. The callee clears its own parameters on return and
//! leaves the return value in `a0`.
//!
//! The frame of a function with `m` parameters and `n` locals, by bytes
//! below `s0`:
//!
//! ```text
//!   4 ..= 4 * m              the parameters, the first one highest
//!   4 * m + 4 ..= 4 * (m+n)  the locals
//!   4 * (m + n + 1)          the saved s0
//!   4 * (m + n + 2)          the saved ra, where sp points after the prologue
//! ```
//!
//! On entry `sp` points at the last parameter, so that `s0` is `sp` plus
//! `4 * m`.

use vstd::prelude::*;
use vstd::string::StringExecFns;
use crate::ast::{BinaryOp, UnaryOp};
use crate::ir::{GlobView, IrFunc, IrFuncView, IrProg, IrProgView, IrStmt};
use crate::text::{
    decimal, decimal_nat, is_decimal_digit, lemma_decimal_nat_digits, lemma_decimal_nat_injective,
    push_int, push_nat,
};

verus! {

/// The name of a unary operator as it appears in a comment line.
pub open spec fn unary_name(op: UnaryOp) -> Seq<char> {
    match op {
        UnaryOp::Neg => "Neg"@,
        UnaryOp::BNot => "BNot"@,
        UnaryOp::LNot => "LNot"@,
    }
}

/// The name of a binary operator as it appears in a comment line.
pub open spec fn binary_name(op: BinaryOp) -> Seq<char> {
    match op {
        BinaryOp::Add => "Add"@,
        BinaryOp::Sub => "Sub"@,
        BinaryOp::Mul => "Mul"@,
        BinaryOp::Div => "Div"@,
        BinaryOp::Mod => "Mod"@,
        BinaryOp::Lt => "Lt"@,
        BinaryOp::Le => "Le"@,
        BinaryOp::Ge => "Ge"@,
        BinaryOp::Gt => "Gt"@,
        BinaryOp::Eq => "Eq"@,
        BinaryOp::Ne => "Ne"@,
        BinaryOp::And => "And"@,
        BinaryOp::Or => "Or"@,
    }
}

/// How an operation is written in the comment line above its code: the
/// variant's name, with its operand in parentheses where it has one.
pub open spec fn op_name(op: IrStmt) -> Seq<char> {
    match op {
        IrStmt::Const(x) => "Const("@ + decimal(x as int) + ")"@,
        IrStmt::Unary(u) => "Unary("@ + unary_name(u) + ")"@,
        IrStmt::Binary(b) => "Binary("@ + binary_name(b) + ")"@,
        IrStmt::LocalAddr(x) => "LocalAddr("@ + decimal(x as int) + ")"@,
        IrStmt::GlobAddr(x) => "GlobAddr("@ + decimal(x as int) + ")"@,
        IrStmt::Load => "Load"@,
        IrStmt::Store => "Store"@,
        IrStmt::Label(x) => "Label("@ + decimal(x as int) + ")"@,
        IrStmt::Bz(x) => "Bz("@ + decimal(x as int) + ")"@,
        IrStmt::Bnz(x) => "Bnz("@ + decimal(x as int) + ")"@,
        IrStmt::Jump(x) => "Jump("@ + decimal(x as int) + ")"@,
        IrStmt::Call(x) => "Call("@ + decimal(x as int) + ")"@,
        IrStmt::Pop => "Pop"@,
        IrStmt::Ret => "Ret"@,
    }
}

/// The instruction that computes a unary operator on `t0`.
pub open spec fn unary_instr(op: UnaryOp) -> Seq<char> {
    match op {
        UnaryOp::Neg => "neg"@,
        UnaryOp::BNot => "not"@,
        UnaryOp::LNot => "seqz"@,
    }
}

/// The instructions that combine the left operand in `t1` and the right
/// operand in `t0` into `t0`.
pub open spec fn binary_instrs(op: BinaryOp) -> Seq<char> {
    match op {
        BinaryOp::Add => "  add t0, t1, t0\n"@,
        BinaryOp::Sub => "  sub t0, t1, t0\n"@,
        BinaryOp::Mul => "  mul t0, t1, t0\n"@,
        BinaryOp::Div => "  div t0, t1, t0\n"@,
        BinaryOp::Mod => "  rem t0, t1, t0\n"@,
        BinaryOp::Lt => "  slt t0, t1, t0\n"@,
        BinaryOp::Le => "  slt t0, t0, t1\n  xor t0, t0, 1\n"@,
        BinaryOp::Ge => "  slt t0, t1, t0\n  xor t0, t0, 1\n"@,
        BinaryOp::Gt => "  slt t0, t0, t1\n"@,
        BinaryOp::Eq => "  xor t0, t0, t1\n  seqz t0, t0\n"@,
        BinaryOp::Ne => "  xor t0, t0, t1\n  snez t0, t0\n"@,
        BinaryOp::And => "  snez t0, t0\n  snez t1, t1\n  and t0, t0, t1\n"@,
        BinaryOp::Or => "  or t0, t0, t1\n  snez t0, t0\n"@,
    }
}

/// How many bytes below `s0` the variable with id `x` lives.
pub open spec fn slot_offset(x: u32) -> int {
    (x + 1) * 4
}

/// How many bytes below `s0` the caller's `s0` is saved.
pub open spec fn saved_s0_offset(f: IrFuncView) -> int {
    (f.param_cnt + f.var_cnt + 1) * 4
}

/// How many bytes below `s0` the return address is saved.
pub open spec fn saved_ra_offset(f: IrFuncView) -> int {
    (f.param_cnt + f.var_cnt + 2) * 4
}

/// How many bytes above `sp` on entry `s0` points: past the parameters.
pub open spec fn params_bytes(f: IrFuncView) -> int {
    f.param_cnt * 4
}

/// How many bytes below `sp` on entry the frame ends: the locals and the
/// two saved registers.
pub open spec fn frame_bytes(f: IrFuncView) -> int {
    (f.var_cnt + 2) * 4
}

/// The layout of a frame: the variables of a function lie in cells of
/// their own, the parameters first and above the locals; the two saved
/// registers lie below all of them; the prologue, which counts from `sp`
/// on entry, and the epilogue, which counts from `s0`, agree on the two
/// cells; and the operand stack starts below the frame.
pub proof fn lemma_frame_layout(f: IrFuncView, x: u32, y: u32)
    requires
        x < y < f.param_cnt + f.var_cnt,
    ensures
        0 < slot_offset(x),
        slot_offset(x) + 4 <= slot_offset(y),
        slot_offset(y) + 4 <= saved_s0_offset(f),
        x < f.param_cnt ==> slot_offset(x) <= params_bytes(f),
        f.param_cnt <= y ==> slot_offset(y) > params_bytes(f),
        saved_s0_offset(f) + 4 == saved_ra_offset(f),
        saved_s0_offset(f) == params_bytes(f) + (f.var_cnt + 1) * 4,
        saved_ra_offset(f) == params_bytes(f) + frame_bytes(f),
{
}

/// A branch label in the text: the function's name qualifies the label id,
/// so that labels of different functions never collide.
pub open spec fn label_text(fname: Seq<char>, x: u32) -> Seq<char> {
    fname + "."@ + decimal(x as int)
}

/// A branch label names one function and one label id: labels of
/// different functions differ, and so do different labels of one function,
/// whatever the names of the functions are.
pub proof fn lemma_label_text_injective(a: Seq<char>, x: u32, b: Seq<char>, y: u32)
    requires
        label_text(a, x) == label_text(b, y),
    ensures
        a == b,
        x == y,
{
    reveal_strlit(".");
    let dot = "."@;
    let da = decimal_nat(x as nat);
    let db = decimal_nat(y as nat);
    let s = label_text(a, x);
    let t = label_text(b, y);
    lemma_decimal_nat_digits(x as nat);
    lemma_decimal_nat_digits(y as nat);
    assert(s.len() == a.len() + 1 + da.len());
    assert(t.len() == b.len() + 1 + db.len());
    assert(s[a.len() as int] == '.');
    assert(t[b.len() as int] == '.');
    if a.len() < b.len() {
        assert(s[b.len() as int] == da[b.len() - a.len() - 1]);
        assert(is_decimal_digit(da[b.len() - a.len() - 1]));
    } else if b.len() < a.len() {
        assert(t[a.len() as int] == db[a.len() - b.len() - 1]);
        assert(is_decimal_digit(db[a.len() - b.len() - 1]));
    }
    assert(a.len() == b.len());
    assert forall|i: int| 0 <= i < a.len() implies a[i] == b[i] by {
        assert(s[i] == a[i]);
        assert(t[i] == b[i]);
    }
    assert(a =~= b);
    assert forall|i: int| 0 <= i < da.len() implies da[i] == db[i] by {
        assert(s[a.len() + 1 + i] == da[i]);
        assert(t[b.len() + 1 + i] == db[i]);
    }
    assert(da =~= db);
    lemma_decimal_nat_injective(x as nat, y as nat);
}

/// The name of the global with index `x`.
pub open spec fn glob_name(p: IrProgView, x: u32) -> Seq<char> {
    p.globs[x as int].name
}

/// The name of the function with index `x`.
pub open spec fn func_name(p: IrProgView, x: u32) -> Seq<char> {
    p.funcs[x as int].name
}

/// The instructions of one operation of function `f`, without the comment
/// line.
pub open spec fn asm_op_body(p: IrProgView, f: IrFuncView, op: IrStmt) -> Seq<char> {
    match op {
        IrStmt::Const(x) => "  li t0, "@ + decimal(x as int)
            + "\n  sw t0, -4(sp)\n  add sp, sp, -4\n"@,
        IrStmt::Unary(u) => "  lw t0, 0(sp)\n  "@ + unary_instr(u) + " t0, t0\n  sw t0, 0(sp)\n"@,
        IrStmt::Binary(b) => "  lw t0, 0(sp)\n  lw t1, 4(sp)\n  add sp, sp, 4\n"@ + binary_instrs(
            b,
        ) + "  sw t0, 0(sp)\n"@,
        IrStmt::LocalAddr(x) => "  add t0, s0, -"@ + decimal(slot_offset(x))
            + "\n  sw t0, -4(sp)\n  add sp, sp, -4\n"@,
        IrStmt::GlobAddr(x) => "  la t0, "@ + glob_name(p, x)
            + "\n  sw t0, -4(sp)\n  add sp, sp, -4\n"@,
        IrStmt::Load => "  lw t0, 0(sp)\n  lw t0, 0(t0)\n  sw t0, 0(sp)\n"@,
        IrStmt::Store => "  lw t0, 0(sp)\n  lw t1, 4(sp)\n  sw t1, 0(t0)\n  add sp, sp, 4\n"@,
        IrStmt::Label(x) => label_text(f.name, x) + ":\n"@,
        IrStmt::Bz(x) => "  lw t0, 0(sp)\n  add sp, sp, 4\n  beqz t0, "@ + label_text(f.name, x)
            + "\n"@,
        IrStmt::Bnz(x) => "  lw t0, 0(sp)\n  add sp, sp, 4\n  bnez t0, "@ + label_text(f.name, x)
            + "\n"@,
        IrStmt::Jump(x) => "  j "@ + label_text(f.name, x) + "\n"@,
        IrStmt::Call(x) => "  jal "@ + func_name(p, x)
            + "\n  sw a0, -4(sp)\n  add sp, sp, -4\n"@,
        IrStmt::Pop => "  add sp, sp, 4\n"@,
        IrStmt::Ret => "  lw a0, 0(sp)\n  mv sp, s0\n  lw s0, -"@ + decimal(saved_s0_offset(f))
            + "(sp)\n  lw ra, -"@ + decimal(saved_ra_offset(f)) + "(sp)\n  ret\n"@,
    }
}

/// The text of one operation: a comment line that names it, then its
/// instructions.
pub open spec fn asm_op(p: IrProgView, f: IrFuncView, op: IrStmt) -> Seq<char> {
    "  # "@ + op_name(op) + "\n"@ + asm_op_body(p, f, op)
}

/// The text of the first `n` operations of `f`.
pub open spec fn asm_ops(p: IrProgView, f: IrFuncView, n: int) -> Seq<char>
    decreases n,
{
    if n <= 0 {
        Seq::empty()
    } else {
        asm_ops(p, f, n - 1) + asm_op(p, f, f.stmts[n - 1])
    }
}

/// The entry of a function: its global label, then the prologue, which
/// saves `s0` and `ra` below the locals, points `s0` just above the first
/// parameter and moves `sp` below the saved registers.
pub open spec fn asm_prologue(f: IrFuncView) -> Seq<char> {
    ".global "@ + f.name + "\n"@ + f.name + ":\n  sw s0, -"@ + decimal(frame_bytes(f) - 4)
        + "(sp)\n  sw ra, -"@ + decimal(frame_bytes(f)) + "(sp)\n  add s0, sp, "@ + decimal(
        params_bytes(f),
    ) + "\n  add sp, sp, -"@ + decimal(frame_bytes(f)) + "\n"@
}

/// The text of one function.
pub open spec fn asm_func(p: IrProgView, f: IrFuncView) -> Seq<char> {
    asm_prologue(f) + asm_ops(p, f, f.stmts.len() as int)
}

/// The text of the first `n` functions of `p`.
pub open spec fn asm_funcs(p: IrProgView, n: int) -> Seq<char>
    decreases n,
{
    if n <= 0 {
        Seq::empty()
    } else {
        asm_funcs(p, n - 1) + asm_func(p, p.funcs[n - 1])
    }
}

/// The data section entry of one global: its label, then one initialised
/// word or a zero-filled block of four bytes per cell, then an empty line.
pub open spec fn asm_glob(g: GlobView) -> Seq<char> {
    ".data\n"@ + g.name + ":\n"@ + match g.init {
        Ok(x) => "  .word "@ + decimal(x as int),
        Err(n) => "  .zero "@ + decimal(n * 4),
    } + "\n\n"@
}

/// The data section entries of the first `n` globals.
pub open spec fn asm_globs(globs: Seq<GlobView>, n: int) -> Seq<char>
    decreases n,
{
    if n <= 0 {
        Seq::empty()
    } else {
        asm_globs(globs, n - 1) + asm_glob(globs[n - 1])
    }
}

/// The assembly text of a whole program: the globals, then the functions,
/// each in the order of the program.
pub open spec fn asm_text(p: IrProgView) -> Seq<char> {
    asm_globs(p.globs, p.globs.len() as int) + asm_funcs(p, p.funcs.len() as int)
}

fn unary_name_str(op: UnaryOp) -> (s: &'static str)
    ensures
        s@ == unary_name(op),
{
    match op {
        UnaryOp::Neg => "Neg",
        UnaryOp::BNot => "BNot",
        UnaryOp::LNot => "LNot",
    }
}

fn binary_name_str(op: BinaryOp) -> (s: &'static str)
    ensures
        s@ == binary_name(op),
{
    match op {
        BinaryOp::Add => "Add",
        BinaryOp::Sub => "Sub",
        BinaryOp::Mul => "Mul",
        BinaryOp::Div => "Div",
        BinaryOp::Mod => "Mod",
        BinaryOp::Lt => "Lt",
        BinaryOp::Le => "Le",
        BinaryOp::Ge => "Ge",
        BinaryOp::Gt => "Gt",
        BinaryOp::Eq => "Eq",
        BinaryOp::Ne => "Ne",
        BinaryOp::And => "And",
        BinaryOp::Or => "Or",
    }
}

fn unary_instr_str(op: UnaryOp) -> (s: &'static str)
    ensures
        s@ == unary_instr(op),
{
    match op {
        UnaryOp::Neg => "neg",
        UnaryOp::BNot => "not",
        UnaryOp::LNot => "seqz",
    }
}

fn binary_instrs_str(op: BinaryOp) -> (s: &'static str)
    ensures
        s@ == binary_instrs(op),
{
    match op {
        BinaryOp::Add => "  add t0, t1, t0\n",
        BinaryOp::Sub => "  sub t0, t1, t0\n",
        BinaryOp::Mul => "  mul t0, t1, t0\n",
        BinaryOp::Div => "  div t0, t1, t0\n",
        BinaryOp::Mod => "  rem t0, t1, t0\n",
        BinaryOp::Lt => "  slt t0, t1, t0\n",
        BinaryOp::Le => "  slt t0, t0, t1\n  xor t0, t0, 1\n",
        BinaryOp::Ge => "  slt t0, t1, t0\n  xor t0, t0, 1\n",
        BinaryOp::Gt => "  slt t0, t0, t1\n",
        BinaryOp::Eq => "  xor t0, t0, t1\n  seqz t0, t0\n",
        BinaryOp::Ne => "  xor t0, t0, t1\n  snez t0, t0\n",
        BinaryOp::And => "  snez t0, t0\n  snez t1, t1\n  and t0, t0, t1\n",
        BinaryOp::Or => "  or t0, t0, t1\n  snez t0, t0\n",
    }
}

/// Appends `head`, the decimal text of `x`, and `tail`.
fn push_numbered(out: &mut String, head: &str, x: u64, tail: &str)
    ensures
        final(out)@ == old(out)@ + (head@ + crate::text::decimal_nat(x as nat) + tail@),
{
    out.append(head);
    push_nat(out, x);
    out.append(tail);
    assert(out@ =~= old(out)@ + (head@ + crate::text::decimal_nat(x as nat) + tail@));
}

/// Appends `head`, `name` and `tail`.
fn push_named(out: &mut String, head: &str, name: &str, tail: &str)
    ensures
        final(out)@ == old(out)@ + (head@ + name@ + tail@),
{
    out.append(head);
    out.append(name);
    out.append(tail);
    assert(out@ =~= old(out)@ + (head@ + name@ + tail@));
}

/// Appends the name of an operation as its comment line shows it.
fn push_op_name(out: &mut String, op: IrStmt)
    ensures
        final(out)@ == old(out)@ + op_name(op),
{
    match op {
        IrStmt::Const(x) => {
            out.append("Const(");
            push_int(out, x);
            out.append(")");
            assert(out@ =~= old(out)@ + op_name(op));
        },
        IrStmt::Unary(u) => push_named(out, "Unary(", unary_name_str(u), ")"),
        IrStmt::Binary(b) => push_named(out, "Binary(", binary_name_str(b), ")"),
        IrStmt::LocalAddr(x) => push_numbered(out, "LocalAddr(", x as u64, ")"),
        IrStmt::GlobAddr(x) => push_numbered(out, "GlobAddr(", x as u64, ")"),
        IrStmt::Load => out.append("Load"),
        IrStmt::Store => out.append("Store"),
        IrStmt::Label(x) => push_numbered(out, "Label(", x as u64, ")"),
        IrStmt::Bz(x) => push_numbered(out, "Bz(", x as u64, ")"),
        IrStmt::Bnz(x) => push_numbered(out, "Bnz(", x as u64, ")"),
        IrStmt::Jump(x) => push_numbered(out, "Jump(", x as u64, ")"),
        IrStmt::Call(x) => push_numbered(out, "Call(", x as u64, ")"),
        IrStmt::Pop => out.append("Pop"),
        IrStmt::Ret => out.append("Ret"),
    }
}

/// Appends `head`, the label `x` of function `fname`, and `tail`.
fn push_labelled(out: &mut String, head: &str, fname: &str, x: u32, tail: &str)
    ensures
        final(out)@ == old(out)@ + (head@ + label_text(fname@, x) + tail@),
{
    out.append(head);
    out.append(fname);
    out.append(".");
    push_nat(out, x as u64);
    out.append(tail);
    assert(out@ =~= old(out)@ + (head@ + label_text(fname@, x) + tail@));
}

/// Appends the instructions of one operation of `f`.
fn push_op_body(out: &mut String, p: &IrProg, f: &IrFunc, op: IrStmt)
    requires
        op matches IrStmt::GlobAddr(x) ==> x < p.globs.len(),
        op matches IrStmt::Call(x) ==> x < p.funcs.len(),
    ensures
        final(out)@ == old(out)@ + asm_op_body(p@, f@, op),
{
    match op {
        IrStmt::Const(x) => {
            out.append("  li t0, ");
            push_int(out, x);
            out.append("\n  sw t0, -4(sp)\n  add sp, sp, -4\n");
            assert(out@ =~= old(out)@ + asm_op_body(p@, f@, op));
        },
        IrStmt::Unary(u) => push_named(
            out,
            "  lw t0, 0(sp)\n  ",
            unary_instr_str(u),
            " t0, t0\n  sw t0, 0(sp)\n",
        ),
        IrStmt::Binary(b) => push_named(
            out,
            "  lw t0, 0(sp)\n  lw t1, 4(sp)\n  add sp, sp, 4\n",
            binary_instrs_str(b),
            "  sw t0, 0(sp)\n",
        ),
        IrStmt::LocalAddr(x) => push_numbered(
            out,
            "  add t0, s0, -",
            (x as u64 + 1) * 4,
            "\n  sw t0, -4(sp)\n  add sp, sp, -4\n",
        ),
        IrStmt::GlobAddr(x) => push_named(
            out,
            "  la t0, ",
            p.globs[x as usize].0.as_str(),
            "\n  sw t0, -4(sp)\n  add sp, sp, -4\n",
        ),
        IrStmt::Load => out.append("  lw t0, 0(sp)\n  lw t0, 0(t0)\n  sw t0, 0(sp)\n"),
        IrStmt::Store => out.append(
            "  lw t0, 0(sp)\n  lw t1, 4(sp)\n  sw t1, 0(t0)\n  add sp, sp, 4\n",
        ),
        IrStmt::Label(x) => {
            proof {
                reveal_strlit("");
            }
            push_labelled(out, "", f.name.as_str(), x, ":\n");
            assert(out@ =~= old(out)@ + asm_op_body(p@, f@, op));
        },
        IrStmt::Bz(x) => push_labelled(
            out,
            "  lw t0, 0(sp)\n  add sp, sp, 4\n  beqz t0, ",
            f.name.as_str(),
            x,
            "\n",
        ),
        IrStmt::Bnz(x) => push_labelled(
            out,
            "  lw t0, 0(sp)\n  add sp, sp, 4\n  bnez t0, ",
            f.name.as_str(),
            x,
            "\n",
        ),
        IrStmt::Jump(x) => push_labelled(out, "  j ", f.name.as_str(), x, "\n"),
        IrStmt::Call(x) => push_named(
            out,
            "  jal ",
            p.funcs[x as usize].name.as_str(),
            "\n  sw a0, -4(sp)\n  add sp, sp, -4\n",
        ),
        IrStmt::Pop => out.append("  add sp, sp, 4\n"),
        IrStmt::Ret => {
            let frame: u64 = f.param_cnt as u64 + f.var_cnt as u64;
            out.append("  lw a0, 0(sp)\n  mv sp, s0\n  lw s0, -");
            push_nat(out, (frame + 1) * 4);
            out.append("(sp)\n  lw ra, -");
            push_nat(out, (frame + 2) * 4);
            out.append("(sp)\n  ret\n");
            assert(out@ =~= old(out)@ + asm_op_body(p@, f@, op));
        },
    }
}

/// Appends the text of one function of `p`.
fn push_func(out: &mut String, p: &IrProg, f: &IrFunc)
    requires
        f@.refs_within(p@.funcs.len(), p@.globs.len()),
    ensures
        final(out)@ == old(out)@ + asm_func(p@, f@),
{
    let name = f.name.as_str();
    out.append(".global ");
    out.append(name);
    out.append("\n");
    out.append(name);
    out.append(":\n  sw s0, -");
    push_nat(out, (f.var_cnt as u64 + 1) * 4);
    out.append("(sp)\n  sw ra, -");
    push_nat(out, (f.var_cnt as u64 + 2) * 4);
    out.append("(sp)\n  add s0, sp, ");
    push_nat(out, f.param_cnt as u64 * 4);
    out.append("\n  add sp, sp, -");
    push_nat(out, (f.var_cnt as u64 + 2) * 4);
    out.append("\n");
    assert(out@ =~= old(out)@ + asm_prologue(f@));
    let mut i: usize = 0;
    while i < f.stmts.len()
        invariant
            i <= f.stmts.len(),
            f@.refs_within(p@.funcs.len(), p@.globs.len()),
            out@ == old(out)@ + (asm_prologue(f@) + asm_ops(p@, f@, i as int)),
        decreases f.stmts.len() - i,
    {
        let op = f.stmts[i];
        assert(op == f@.stmts[i as int]);
        let ghost before = out@;
        out.append("  # ");
        push_op_name(out, op);
        out.append("\n");
        push_op_body(out, p, f, op);
        assert(out@ =~= before + asm_op(p@, f@, op));
        assert(out@ =~= old(out)@ + (asm_prologue(f@) + asm_ops(p@, f@, i + 1)));
        i += 1;
    }
}

/// Appends the data section entry of one global.
fn push_glob(out: &mut String, g: &(String, Result<i32, u32>))
    ensures
        final(out)@ == old(out)@ + asm_glob(crate::ir::glob_view(*g)),
{
    out.append(".data\n");
    out.append(g.0.as_str());
    out.append(":\n");
    match g.1 {
        Ok(x) => {
            out.append("  .word ");
            push_int(out, x);
        },
        Err(n) => {
            out.append("  .zero ");
            push_nat(out, n as u64 * 4);
        },
    }
    out.append("\n\n");
    assert(out@ =~= old(out)@ + asm_glob(crate::ir::glob_view(*g)));
}

/// Appends the assembly text of `p` to `w`: first the data section with one
/// entry per global, then the code of every function.
pub fn write_asm(p: &IrProg, w: &mut String)
    requires
        p@.wf(),
    ensures
        final(w)@ == old(w)@ + asm_text(p@),
{
    let mut i: usize = 0;
    while i < p.globs.len()
        invariant
            i <= p.globs.len(),
            w@ == old(w)@ + asm_globs(p@.globs, i as int),
        decreases p.globs.len() - i,
    {
        push_glob(w, &p.globs[i]);
        assert(w@ =~= old(w)@ + asm_globs(p@.globs, i + 1));
        i += 1;
    }
    let mut j: usize = 0;
    while j < p.funcs.len()
        invariant
            j <= p.funcs.len(),
            p@.wf(),
            w@ == old(w)@ + (asm_globs(p@.globs, p@.globs.len() as int) + asm_funcs(p@, j as int)),
        decreases p.funcs.len() - j,
    {
        assert(p@.funcs[j as int] == p.funcs[j as int]@);
        push_func(w, p, &p.funcs[j]);
        assert(w@ =~= old(w)@ + (asm_globs(p@.globs, p@.globs.len() as int) + asm_funcs(
            p@,
            j + 1,
        )));
        j += 1;
    }
}

} // verus!
