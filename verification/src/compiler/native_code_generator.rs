//! Turning commands of the stack machine into assembly lines.
//!
//! The stack of the machine is the stack of the processor, in cells of
//! eight bytes. A variable gets its cell when it is first stored into:
//! the k-th variable lives `8 * k` bytes below the frame pointer `s0`.

use vstd::prelude::*;
use vstd::string::StrSliceExecFns;
use vstd::string::StringExecFns;
use crate::compiler::intermediate_code_generator::lines_view;
use crate::text::{decimal_nat, push_nat};

verus! {

/// Why commands have no assembly.
#[derive(Debug, Clone, Copy, PartialEq, Eq, Structural)]
pub enum NativeError {
    /// `PUSH`, `STORE` or `LOAD` without an operand.
    MissingOperand,
    /// `LOAD` of a variable that nothing was stored into.
    UnknownVariable,
    /// More variables than offsets can be written for.
    TooManyVariables,
}

/// The position of the first blank at or after `from`, or the length of
/// the text if there is none.
pub open spec fn blank_from(cmd: Seq<char>, from: int) -> int
    decreases cmd.len() - from,
{
    if from < 0 || from >= cmd.len() {
        cmd.len() as int
    } else if cmd[from] == ' ' {
        from
    } else {
        blank_from(cmd, from + 1)
    }
}

/// The name of a command: its text up to the first blank.
pub open spec fn head(cmd: Seq<char>) -> Seq<char> {
    cmd.subrange(0, blank_from(cmd, 0))
}

/// The operand of a command: the text between its first blank and its
/// second, or its end; `None` without a first blank.
pub open spec fn operand(cmd: Seq<char>) -> Option<Seq<char>> {
    let b = blank_from(cmd, 0);
    if b >= cmd.len() {
        None
    } else {
        Some(cmd.subrange(b + 1, blank_from(cmd, b + 1)))
    }
}

/// A blank is found within the text.
pub proof fn lemma_blank_within(cmd: Seq<char>, from: int)
    requires
        0 <= from <= cmd.len(),
    ensures
        from <= blank_from(cmd, from) <= cmd.len(),
    decreases cmd.len() - from,
{
    if from < cmd.len() && cmd[from] != ' ' {
        lemma_blank_within(cmd, from + 1);
    }
}

/// The number of the variable `name` among the first `n` variables, in the
/// order in which they were first stored into.
pub open spec fn index_of(vars: Seq<Seq<char>>, name: Seq<char>, n: int) -> Option<int>
    decreases n,
{
    if n <= 0 || n > vars.len() {
        None
    } else if vars[n - 1] == name {
        Some(n - 1)
    } else {
        index_of(vars, name, n - 1)
    }
}

/// The number of the variable `name`.
pub open spec fn slot_of(vars: Seq<Seq<char>>, name: Seq<char>) -> Option<int> {
    index_of(vars, name, vars.len() as int)
}

/// The lines and the variables so far.
pub struct NativeState {
    pub lines: Seq<Seq<char>>,
    pub vars: Seq<Seq<char>>,
}

/// The lines that push `t0`.
pub open spec fn push_t0() -> Seq<Seq<char>> {
    seq!["\tsd t0, -8(sp)"@, "\taddi sp, sp, -8"@]
}

/// The lines that pop into `t0`.
pub open spec fn pop_t0() -> Seq<Seq<char>> {
    seq!["\tld t0, 0(sp)"@, "\taddi sp, sp, 8"@]
}

/// The lines that pop into `t1`.
pub open spec fn pop_t1() -> Seq<Seq<char>> {
    seq!["\tld t1, 0(sp)"@, "\taddi sp, sp, 8"@]
}

/// The lines that compute an operator on `t1` and `t0` into `t0`; `None`
/// if the name is that of no operator.
pub open spec fn operator_lines(name: Seq<char>) -> Option<Seq<Seq<char>>> {
    if name == "ADD"@ {
        Some(seq!["\tadd t0, t1, t0"@])
    } else if name == "SUB"@ {
        Some(seq!["\tsub t0, t1, t0"@])
    } else if name == "MUL"@ {
        Some(seq!["\tmul t0, t1, t0"@])
    } else if name == "DIV"@ {
        Some(seq!["\tdiv t0, t1, t0"@])
    } else if name == "EQUAL"@ {
        Some(seq!["\tsub t0, t0, t1"@, "\tseqz t0, t0"@])
    } else if name == "NONEQUAL"@ {
        Some(seq!["\tsub t0, t1, t0"@, "\tsnez t0, t0"@])
    } else if name == "LT"@ {
        Some(seq!["\tslt t0, t1, t0"@])
    } else if name == "ELT"@ {
        Some(seq!["\tsgt t0, t1, t0"@, "\txori t0, t0, 1"@])
    } else {
        None
    }
}

/// The line that moves `t0` to or from the variable with number `k`.
pub open spec fn variable_line(instr: Seq<char>, k: int) -> Seq<char> {
    instr + decimal_nat((8 * (k + 1)) as nat) + "(s0)"@
}

/// The largest number of variables.
pub open spec fn max_vars() -> int {
    0x1fff_ffff_ffff_ffff - 1
}

/// The state after one command.
pub open spec fn native_step(st: NativeState, cmd: Seq<char>) -> Result<NativeState, NativeError> {
    let name = head(cmd);
    if name == "PUSH"@ {
        match operand(cmd) {
            None => Err(NativeError::MissingOperand),
            Some(x) => Ok(
                NativeState {
                    lines: st.lines + seq!["\tadd t0, x0, "@ + x] + push_t0(),
                    vars: st.vars,
                },
            ),
        }
    } else if name == "STORE"@ {
        match operand(cmd) {
            None => Err(NativeError::MissingOperand),
            Some(x) => match slot_of(st.vars, x) {
                Some(k) => Ok(
                    NativeState {
                        lines: st.lines + pop_t0() + seq![variable_line("\tsd t0, -"@, k)],
                        vars: st.vars,
                    },
                ),
                None => if st.vars.len() >= max_vars() {
                    Err(NativeError::TooManyVariables)
                } else {
                    Ok(
                        NativeState {
                            lines: st.lines + pop_t0() + seq![
                                variable_line("\tsd t0, -"@, st.vars.len() as int),
                                "\taddi sp, sp, -8"@,
                            ],
                            vars: st.vars.push(x),
                        },
                    )
                },
            },
        }
    } else if name == "LOAD"@ {
        match operand(cmd) {
            None => Err(NativeError::MissingOperand),
            Some(x) => match slot_of(st.vars, x) {
                Some(k) => Ok(
                    NativeState {
                        lines: st.lines + seq![variable_line("\tld t0, -"@, k)] + push_t0(),
                        vars: st.vars,
                    },
                ),
                None => Err(NativeError::UnknownVariable),
            },
        }
    } else {
        match operator_lines(name) {
            Some(lines) => Ok(
                NativeState {
                    lines: st.lines + pop_t0() + pop_t1() + lines + push_t0(),
                    vars: st.vars,
                },
            ),
            None => Ok(st),
        }
    }
}

/// The lines at the start of the program.
pub open spec fn prologue() -> Seq<Seq<char>> {
    seq![".global main"@, "main:"@, "\tmv s0, sp"@]
}

/// The lines at the end of the program: the top of the stack is what the
/// program returns.
pub open spec fn epilogue() -> Seq<Seq<char>> {
    seq!["\tld a0, 0(sp)"@, "\taddi sp, sp, -8"@, "\tret"@]
}

/// The state after the first `n` commands.
pub open spec fn native_prefix(commands: Seq<Seq<char>>, n: int) -> Result<
    NativeState,
    NativeError,
>
    decreases n,
{
    if n <= 0 || n > commands.len() {
        Ok(NativeState { lines: prologue(), vars: Seq::empty() })
    } else {
        match native_prefix(commands, n - 1) {
            Err(e) => Err(e),
            Ok(st) => native_step(st, commands[n - 1]),
        }
    }
}

/// The assembly lines of a list of commands.
pub open spec fn native(commands: Seq<Seq<char>>) -> Result<Seq<Seq<char>>, NativeError> {
    match native_prefix(commands, commands.len() as int) {
        Err(e) => Err(e),
        Ok(st) => Ok(st.lines + epilogue()),
    }
}

/// An error among the first `i` commands is the error of every longer
/// prefix.
pub proof fn lemma_native_error_persists(commands: Seq<Seq<char>>, i: int, n: int)
    requires
        0 <= i <= n <= commands.len(),
        native_prefix(commands, i) is Err,
    ensures
        native_prefix(commands, n) == native_prefix(commands, i),
    decreases n - i,
{
    if i < n {
        lemma_native_error_persists(commands, i, n - 1);
    }
}

/// The position of the first blank at or after `from`.
fn find_blank(cmd: &str, from: usize) -> (b: usize)
    requires
        from <= cmd@.len(),
    ensures
        b == blank_from(cmd@, from as int),
        from <= b <= cmd@.len(),
{
    let n = cmd.unicode_len();
    let mut i: usize = from;
    while i < n && cmd.get_char(i) != ' '
        invariant
            from <= i <= n,
            n == cmd@.len(),
            blank_from(cmd@, from as int) == blank_from(cmd@, i as int),
        decreases n - i,
    {
        i += 1;
    }
    i
}

/// The number of a variable, if it has one.
fn find_variable(vars: &Vec<String>, name: &String) -> (r: Option<usize>)
    ensures
        r matches Some(i) ==> i < vars.len() && slot_of(lines_view(vars@), name@) == Some(
            i as int,
        ),
        r is None ==> slot_of(lines_view(vars@), name@) is None,
{
    let mut i: usize = vars.len();
    while i > 0
        invariant
            i <= vars.len(),
            slot_of(lines_view(vars@), name@) == index_of(lines_view(vars@), name@, i as int),
        decreases i,
    {
        i -= 1;
        assert(lines_view(vars@)[i as int] == vars@[i as int]@);
        if vars[i] == *name {
            return Some(i);
        }
    }
    None
}

/// Appends one line.
fn line(out: &mut Vec<String>, text: &str)
    ensures
        lines_view(final(out)@) == lines_view(old(out)@).push(text@),
{
    let ghost before = out@;
    out.push(String::from_str(text));
    assert(lines_view(out@) =~= lines_view(before).push(text@));
}

/// Appends the lines that push `t0`.
fn line_push_t0(out: &mut Vec<String>)
    ensures
        lines_view(final(out)@) == lines_view(old(out)@) + push_t0(),
{
    line(out, "\tsd t0, -8(sp)");
    line(out, "\taddi sp, sp, -8");
    assert(lines_view(out@) =~= lines_view(old(out)@) + push_t0());
}

/// Appends the lines that pop into `t0`.
fn line_pop_t0(out: &mut Vec<String>)
    ensures
        lines_view(final(out)@) == lines_view(old(out)@) + pop_t0(),
{
    line(out, "\tld t0, 0(sp)");
    line(out, "\taddi sp, sp, 8");
    assert(lines_view(out@) =~= lines_view(old(out)@) + pop_t0());
}

/// Appends the lines that pop into `t1`.
fn line_pop_t1(out: &mut Vec<String>)
    ensures
        lines_view(final(out)@) == lines_view(old(out)@) + pop_t1(),
{
    line(out, "\tld t1, 0(sp)");
    line(out, "\taddi sp, sp, 8");
    assert(lines_view(out@) =~= lines_view(old(out)@) + pop_t1());
}

/// Appends the line that moves `t0` to or from the variable number `k`.
fn line_variable(out: &mut Vec<String>, instr: &str, k: usize)
    requires
        k < max_vars(),
    ensures
        lines_view(final(out)@) == lines_view(old(out)@).push(variable_line(instr@, k as int)),
        final(out)@.len() == old(out)@.len() + 1,
{
    let mut s = String::from_str(instr);
    push_nat(&mut s, 8 * (k as u64 + 1));
    s.append("(s0)");
    let ghost before = out@;
    out.push(s);
    assert(lines_view(out@) =~= lines_view(before).push(variable_line(instr@, k as int)));
}

/// Appends the lines of an operator, if `name` is one.
fn line_operator(out: &mut Vec<String>, name: &String) -> (found: bool)
    ensures
        match operator_lines(name@) {
            Some(lines) => found && lines_view(final(out)@) == lines_view(old(out)@) + pop_t0()
                + pop_t1() + lines + push_t0(),
            None => !found && final(out)@ == old(out)@,
        },
{
    let ghost before = lines_view(out@);
    let which: u8 = if is_name(name, "ADD") {
        1
    } else if is_name(name, "SUB") {
        2
    } else if is_name(name, "MUL") {
        3
    } else if is_name(name, "DIV") {
        4
    } else if is_name(name, "EQUAL") {
        5
    } else if is_name(name, "NONEQUAL") {
        6
    } else if is_name(name, "LT") {
        7
    } else if is_name(name, "ELT") {
        8
    } else {
        return false;
    };
    line_pop_t0(out);
    line_pop_t1(out);
    let ghost mid = lines_view(out@);
    if which == 1 {
        line(out, "\tadd t0, t1, t0");
    } else if which == 2 {
        line(out, "\tsub t0, t1, t0");
    } else if which == 3 {
        line(out, "\tmul t0, t1, t0");
    } else if which == 4 {
        line(out, "\tdiv t0, t1, t0");
    } else if which == 5 {
        line(out, "\tsub t0, t0, t1");
        line(out, "\tseqz t0, t0");
    } else if which == 6 {
        line(out, "\tsub t0, t1, t0");
        line(out, "\tsnez t0, t0");
    } else if which == 7 {
        line(out, "\tslt t0, t1, t0");
    } else {
        line(out, "\tsgt t0, t1, t0");
        line(out, "\txori t0, t0, 1");
    }
    assert(lines_view(out@) =~= mid + operator_lines(name@).unwrap());
    line_push_t0(out);
    true
}

/// Tests whether a string is a given text.
fn is_name(s: &String, text: &str) -> (b: bool)
    ensures
        b == (s@ == text@),
{
    let t = String::from_str(text);
    *s == t
}

/// The operand of a command, if it has one.
fn operand_of(cmd: &str, blank: usize) -> (r: Option<String>)
    requires
        blank == blank_from(cmd@, 0),
        blank <= cmd@.len(),
    ensures
        match operand(cmd@) {
            Some(x) => r is Some && r.unwrap()@ == x,
            None => r is None,
        },
{
    let n = cmd.unicode_len();
    if blank >= n {
        return None;
    }
    let end = find_blank(cmd, blank + 1);
    Some(String::from_str(cmd.substring_char(blank + 1, end)))
}

/// Appends the lines of one command.
fn command(out: &mut Vec<String>, vars: &mut Vec<String>, cmd: &str) -> (r: Result<
    (),
    NativeError,
>)
    requires
        old(vars).len() <= max_vars(),
    ensures
        final(vars).len() <= max_vars(),
        match native_step(
            NativeState { lines: lines_view(old(out)@), vars: lines_view(old(vars)@) },
            cmd@,
        ) {
            Ok(st) => r is Ok && lines_view(final(out)@) == st.lines && lines_view(final(vars)@)
                == st.vars,
            Err(e) => r == Err::<(), NativeError>(e),
        },
{
    let blank = find_blank(cmd, 0);
    let name = String::from_str(cmd.substring_char(0, blank));
    let ghost before = lines_view(out@);
    if is_name(&name, "PUSH") {
        let x = match operand_of(cmd, blank) {
            Some(x) => x,
            None => {
                return Err(NativeError::MissingOperand);
            },
        };
        let mut s = String::from_str("\tadd t0, x0, ");
        s.append(x.as_str());
        let ghost b0 = out@;
        out.push(s);
        assert(lines_view(out@) =~= before + seq!["\tadd t0, x0, "@ + x@]);
        line_push_t0(out);
        Ok(())
    } else if is_name(&name, "STORE") {
        let x = match operand_of(cmd, blank) {
            Some(x) => x,
            None => {
                return Err(NativeError::MissingOperand);
            },
        };
        match find_variable(vars, &x) {
            Some(k) => {
                line_pop_t0(out);
                let ghost mid = lines_view(out@);
                line_variable(out, "\tsd t0, -", k);
                assert(lines_view(out@) =~= mid + seq![variable_line("\tsd t0, -"@, k as int)]);
                Ok(())
            },
            None => {
                let k = vars.len();
                if k as u64 >= 0x1fff_ffff_ffff_fffe {
                    return Err(NativeError::TooManyVariables);
                }
                line_pop_t0(out);
                let ghost mid = lines_view(out@);
                line_variable(out, "\tsd t0, -", k);
                line(out, "\taddi sp, sp, -8");
                assert(lines_view(out@) =~= mid + seq![
                    variable_line("\tsd t0, -"@, k as int),
                    "\taddi sp, sp, -8"@,
                ]);
                let ghost vb = vars@;
                vars.push(x);
                assert(lines_view(vars@) =~= lines_view(vb).push(x@));
                Ok(())
            },
        }
    } else if is_name(&name, "LOAD") {
        let x = match operand_of(cmd, blank) {
            Some(x) => x,
            None => {
                return Err(NativeError::MissingOperand);
            },
        };
        match find_variable(vars, &x) {
            Some(k) => {
                line_variable(out, "\tld t0, -", k);
                assert(lines_view(out@) =~= before + seq![variable_line("\tld t0, -"@, k as int)]);
                line_push_t0(out);
                Ok(())
            },
            None => Err(NativeError::UnknownVariable),
        }
    } else {
        line_operator(out, &name);
        Ok(())
    }
}

/// Turns commands of the stack machine into the assembly lines of a
/// program `main` that returns what the commands leave on the stack.
pub fn generate_native_code(mid_commands: &Vec<String>) -> (r: Result<Vec<String>, NativeError>)
    ensures
        match native(lines_view(mid_commands@)) {
            Ok(lines) => r is Ok && lines_view(r.unwrap()@) == lines,
            Err(e) => r is Err && r->Err_0 == e,
        },
{
    let ghost commands = lines_view(mid_commands@);
    let mut out: Vec<String> = Vec::new();
    let mut vars: Vec<String> = Vec::new();
    line(&mut out, ".global main");
    line(&mut out, "main:");
    line(&mut out, "\tmv s0, sp");
    assert(lines_view(out@) =~= prologue());
    assert(lines_view(vars@) =~= Seq::<Seq<char>>::empty());
    let mut i: usize = 0;
    while i < mid_commands.len()
        invariant
            i <= mid_commands.len(),
            commands == lines_view(mid_commands@),
            vars.len() <= max_vars(),
            native_prefix(commands, i as int) == Ok::<NativeState, NativeError>(
                NativeState { lines: lines_view(out@), vars: lines_view(vars@) },
            ),
        decreases mid_commands.len() - i,
    {
        proof {
            if native_prefix(commands, i + 1) is Err {
                lemma_native_error_persists(commands, i + 1, mid_commands@.len() as int);
            }
        }
        assert(commands[i as int] == mid_commands@[i as int]@);
        command(&mut out, &mut vars, mid_commands[i].as_str())?;
        i += 1;
    }
    let ghost body = lines_view(out@);
    line(&mut out, "\tld a0, 0(sp)");
    line(&mut out, "\taddi sp, sp, -8");
    line(&mut out, "\tret");
    assert(lines_view(out@) =~= body + epilogue());
    Ok(out)
}

} // verus!
