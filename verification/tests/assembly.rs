use minidecaf::ast::{BinaryOp, UnaryOp};
use minidecaf::codegen::write_asm;
use minidecaf::error::LowerError;
use minidecaf::grammar::ParseError;
use minidecaf::ir::{IrFunc, IrProg, IrStmt};
use minidecaf::parser::parse;
use minidecaf::text::{digit_str, push_int, push_nat};
use minidecaf::{ast2ir, compile, run, Error};

fn text_of(p: &IrProg) -> String {
    let mut s = String::new();
    write_asm(p, &mut s);
    s
}

fn one(name: &str, param_cnt: u32, var_cnt: u32, stmts: Vec<IrStmt>) -> IrProg {
    IrProg {
        funcs: vec![IrFunc { name: name.to_string(), param_cnt, var_cnt, stmts }],
        globs: vec![("g0".to_string(), Ok(0)), ("g1".to_string(), Ok(1))],
    }
}

/// The lines of the only function after its prologue.
fn body(p: &IrProg) -> Vec<String> {
    let text = text_of(p);
    let at = text.find(".global").unwrap();
    text[at..].lines().skip(6).map(String::from).collect()
}

fn op(op: IrStmt) -> Vec<String> {
    body(&one("fn1", 2, 3, vec![op]))
}

#[test]
fn decimal_text() {
    for n in [0u64, 1, 9, 10, 11, 99, 100, 101, 4294967295, 17179869180, u64::MAX] {
        let mut s = String::from("x");
        push_nat(&mut s, n);
        assert_eq!(s, format!("x{}", n));
    }
    for n in [0i32, 1, -1, 9, -9, 10, -10, 12345, -12345, i32::MAX, i32::MIN, i32::MIN + 1] {
        let mut s = String::from("y");
        push_int(&mut s, n);
        assert_eq!(s, format!("y{}", n));
    }
    for d in 0..10u64 {
        assert_eq!(digit_str(d), format!("{}", d));
    }
}

#[test]
fn whole_program_text() {
    let ir = ast2ir(&parse("int x = 3; int f(int a) { return a + x; }").unwrap()).unwrap();
    let expected = "\
.data
x:
  .word 3

.global f
f:
  sw s0, -4(sp)
  sw ra, -8(sp)
  add s0, sp, 4
  add sp, sp, -8
  # LocalAddr(0)
  add t0, s0, -4
  sw t0, -4(sp)
  add sp, sp, -4
  # Load
  lw t0, 0(sp)
  lw t0, 0(t0)
  sw t0, 0(sp)
  # GlobAddr(0)
  la t0, x
  sw t0, -4(sp)
  add sp, sp, -4
  # Load
  lw t0, 0(sp)
  lw t0, 0(t0)
  sw t0, 0(sp)
  # Binary(Add)
  lw t0, 0(sp)
  lw t1, 4(sp)
  add sp, sp, 4
  add t0, t1, t0
  sw t0, 0(sp)
  # Ret
  lw a0, 0(sp)
  mv sp, s0
  lw s0, -8(sp)
  lw ra, -12(sp)
  ret
";
    assert_eq!(text_of(&ir), expected);
}

#[test]
fn data_section() {
    let p = IrProg {
        funcs: vec![],
        globs: vec![
            ("a".to_string(), Ok(-5)),
            ("b".to_string(), Err(10)),
            ("c".to_string(), Ok(i32::MIN)),
            ("d".to_string(), Err(u32::MAX)),
            ("e".to_string(), Err(0)),
        ],
    };
    assert_eq!(
        text_of(&p),
        ".data\na:\n  .word -5\n\n.data\nb:\n  .zero 40\n\n.data\nc:\n  .word -2147483648\n\n\
         .data\nd:\n  .zero 17179869180\n\n.data\ne:\n  .zero 0\n\n"
    );
    assert_eq!(text_of(&IrProg { funcs: vec![], globs: vec![] }), "");
}

#[test]
fn prologue_and_epilogue_by_frame_size() {
    let text = text_of(&one("fn1", 2, 3, vec![IrStmt::Ret]));
    let at = text.find(".global").unwrap();
    let lines: Vec<&str> = text[at..].lines().collect();
    assert_eq!(
        lines,
        vec![
            ".global fn1",
            "fn1:",
            "  sw s0, -16(sp)",
            "  sw ra, -20(sp)",
            "  add s0, sp, 8",
            "  add sp, sp, -20",
            "  # Ret",
            "  lw a0, 0(sp)",
            "  mv sp, s0",
            "  lw s0, -24(sp)",
            "  lw ra, -28(sp)",
            "  ret",
        ]
    );
    let text = text_of(&one("z", u32::MAX, u32::MAX, vec![IrStmt::Ret]));
    assert!(text.contains("  sw s0, -17179869184(sp)\n"));
    assert!(text.contains("  sw ra, -17179869188(sp)\n"));
    assert!(text.contains("  add s0, sp, 17179869180\n"));
    assert!(text.contains("  lw s0, -34359738364(sp)\n"));
    assert!(text.contains("  lw ra, -34359738368(sp)\n"));
}

#[test]
fn comment_names_the_operation() {
    let all = vec![
        IrStmt::Const(0),
        IrStmt::Const(-7),
        IrStmt::Const(i32::MIN),
        IrStmt::Unary(UnaryOp::Neg),
        IrStmt::Unary(UnaryOp::BNot),
        IrStmt::Unary(UnaryOp::LNot),
        IrStmt::Binary(BinaryOp::Add),
        IrStmt::Binary(BinaryOp::Sub),
        IrStmt::Binary(BinaryOp::Mul),
        IrStmt::Binary(BinaryOp::Div),
        IrStmt::Binary(BinaryOp::Mod),
        IrStmt::Binary(BinaryOp::Lt),
        IrStmt::Binary(BinaryOp::Le),
        IrStmt::Binary(BinaryOp::Ge),
        IrStmt::Binary(BinaryOp::Gt),
        IrStmt::Binary(BinaryOp::Eq),
        IrStmt::Binary(BinaryOp::Ne),
        IrStmt::Binary(BinaryOp::And),
        IrStmt::Binary(BinaryOp::Or),
        IrStmt::LocalAddr(0),
        IrStmt::LocalAddr(u32::MAX),
        IrStmt::GlobAddr(1),
        IrStmt::Load,
        IrStmt::Store,
        IrStmt::Label(12),
        IrStmt::Bz(3),
        IrStmt::Bnz(4),
        IrStmt::Jump(u32::MAX),
        IrStmt::Call(0),
        IrStmt::Pop,
        IrStmt::Ret,
    ];
    for s in all {
        assert_eq!(op(s)[0], format!("  # {:?}", s));
    }
}

#[test]
fn stack_operations() {
    let push = ["  sw t0, -4(sp)", "  add sp, sp, -4"];
    assert_eq!(op(IrStmt::Const(-42))[1..], [&["  li t0, -42"][..], &push[..]].concat());
    assert_eq!(op(IrStmt::LocalAddr(0))[1..], [&["  add t0, s0, -4"][..], &push[..]].concat());
    assert_eq!(op(IrStmt::LocalAddr(6))[1..], [&["  add t0, s0, -28"][..], &push[..]].concat());
    assert_eq!(
        op(IrStmt::LocalAddr(u32::MAX))[1..],
        [&["  add t0, s0, -17179869184"][..], &push[..]].concat()
    );
    assert_eq!(op(IrStmt::GlobAddr(1))[1..], [&["  la t0, g1"][..], &push[..]].concat());
    assert_eq!(op(IrStmt::Call(0))[1..], ["  jal fn1", "  sw a0, -4(sp)", "  add sp, sp, -4"]);
    assert_eq!(op(IrStmt::Load)[1..], ["  lw t0, 0(sp)", "  lw t0, 0(t0)", "  sw t0, 0(sp)"]);
    assert_eq!(
        op(IrStmt::Store)[1..],
        ["  lw t0, 0(sp)", "  lw t1, 4(sp)", "  sw t1, 0(t0)", "  add sp, sp, 4"]
    );
    assert_eq!(op(IrStmt::Pop)[1..], ["  add sp, sp, 4"]);
}

#[test]
fn labels_carry_the_name_of_the_function() {
    assert_eq!(op(IrStmt::Label(3))[1..], ["fn1.3:"]);
    assert_eq!(op(IrStmt::Jump(0))[1..], ["  j fn1.0"]);
    assert_eq!(
        op(IrStmt::Bz(10))[1..],
        ["  lw t0, 0(sp)", "  add sp, sp, 4", "  beqz t0, fn1.10"]
    );
    assert_eq!(
        op(IrStmt::Bnz(4294967295))[1..],
        ["  lw t0, 0(sp)", "  add sp, sp, 4", "  bnez t0, fn1.4294967295"]
    );
}

#[test]
fn labels_of_two_functions_differ() {
    let code = vec![IrStmt::Label(0), IrStmt::Const(1), IrStmt::Bnz(0), IrStmt::Jump(0)];
    let p = IrProg {
        funcs: vec![
            IrFunc { name: "a".to_string(), param_cnt: 0, var_cnt: 0, stmts: code.clone() },
            IrFunc { name: "b".to_string(), param_cnt: 0, var_cnt: 0, stmts: code },
        ],
        globs: vec![],
    };
    let text = text_of(&p);
    let lines: Vec<&str> = text.lines().collect();
    let start_b = lines.iter().position(|l| *l == "b:").unwrap();
    let (in_a, in_b) = lines.split_at(start_b);
    assert_eq!(in_a.iter().filter(|l| **l == "a.0:").count(), 1);
    assert_eq!(in_b.iter().filter(|l| **l == "b.0:").count(), 1);
    assert!(in_a.contains(&"  bnez t0, a.0") && in_a.contains(&"  j a.0"));
    assert!(in_b.contains(&"  bnez t0, b.0") && in_b.contains(&"  j b.0"));
    assert!(!in_a.iter().any(|l| l.contains("b.0")));
    assert!(!in_b.iter().any(|l| l.contains("a.0")));
}

#[test]
fn unary_operator_text() {
    for (o, name) in [(UnaryOp::Neg, "neg"), (UnaryOp::BNot, "not"), (UnaryOp::LNot, "seqz")] {
        assert_eq!(
            op(IrStmt::Unary(o))[1..],
            ["  lw t0, 0(sp)".to_string(), format!("  {} t0, t0", name), "  sw t0, 0(sp)".to_string()]
        );
    }
}

#[test]
fn binary_operator_text() {
    let cases: Vec<(BinaryOp, Vec<&str>)> = vec![
        (BinaryOp::Add, vec!["  add t0, t1, t0"]),
        (BinaryOp::Sub, vec!["  sub t0, t1, t0"]),
        (BinaryOp::Mul, vec!["  mul t0, t1, t0"]),
        (BinaryOp::Div, vec!["  div t0, t1, t0"]),
        (BinaryOp::Mod, vec!["  rem t0, t1, t0"]),
        (BinaryOp::Lt, vec!["  slt t0, t1, t0"]),
        (BinaryOp::Le, vec!["  slt t0, t0, t1", "  xor t0, t0, 1"]),
        (BinaryOp::Ge, vec!["  slt t0, t1, t0", "  xor t0, t0, 1"]),
        (BinaryOp::Gt, vec!["  slt t0, t0, t1"]),
        (BinaryOp::Eq, vec!["  xor t0, t0, t1", "  seqz t0, t0"]),
        (BinaryOp::Ne, vec!["  xor t0, t0, t1", "  snez t0, t0"]),
        (BinaryOp::And, vec!["  snez t0, t0", "  snez t1, t1", "  and t0, t0, t1"]),
        (BinaryOp::Or, vec!["  or t0, t0, t1", "  snez t0, t0"]),
    ];
    for (o, middle) in cases {
        let mut expected = vec!["  lw t0, 0(sp)", "  lw t1, 4(sp)", "  add sp, sp, 4"];
        expected.extend(middle);
        expected.push("  sw t0, 0(sp)");
        assert_eq!(op(IrStmt::Binary(o))[1..], expected[..]);
    }
}

#[test]
fn text_is_appended() {
    let mut s = String::from("# before\n");
    write_asm(&one("f", 0, 0, vec![IrStmt::Const(1), IrStmt::Ret]), &mut s);
    assert!(s.starts_with("# before\n.data\ng0:\n"));
    assert!(s.ends_with("  ret\n"));
}

#[test]
fn functions_follow_the_globals_in_their_order() {
    let ir = ast2ir(&parse("int b() { } int a; int a1() { return b(); } int c;").unwrap()).unwrap();
    let text = text_of(&ir);
    let pos = |needle: &str| text.find(needle).unwrap();
    assert!(pos("a:\n") < pos("c:\n"));
    assert!(pos("c:\n") < pos(".global b\n"));
    assert!(pos(".global b\n") < pos(".global a1\n"));
    assert!(text.contains("  jal b\n"));
}

#[test]
fn well_formed_programs() {
    assert!(one("f", 0, 0, vec![IrStmt::GlobAddr(1), IrStmt::Call(0)]).is_wf());
    assert!(!one("f", 0, 0, vec![IrStmt::GlobAddr(2)]).is_wf());
    assert!(!one("f", 0, 0, vec![IrStmt::Ret, IrStmt::Call(1)]).is_wf());
    assert!(one("f", 0, 0, vec![IrStmt::LocalAddr(99), IrStmt::Jump(7)]).is_wf());
    let p = one("f", 0, 0, vec![IrStmt::Call(0), IrStmt::GlobAddr(3)]);
    assert!(p.funcs[0].refs_within(1, 4));
    assert!(!p.funcs[0].refs_within(1, 3));
    assert!(!p.funcs[0].refs_within(0, 4));
    assert!(IrProg { funcs: vec![], globs: vec![] }.is_wf());
}

#[test]
fn run_compiles_a_text() {
    let text = run("int f() { return 1 + 2 * 3; }").unwrap();
    let ops: Vec<&str> = text.lines().filter(|l| l.starts_with("  # ")).collect();
    assert_eq!(
        ops,
        vec!["  # Const(1)", "  # Const(2)", "  # Const(3)", "  # Binary(Mul)", "  # Binary(Add)", "  # Ret"]
    );
    assert!(text.starts_with(".global f\nf:\n"));
}

#[test]
fn run_is_parse_then_compile() {
    let source = "int n = 10; int fib(int k) { return k < 2 ? k : fib(k - 1) + fib(k - 2); }
                  int main() { return fib(n); }";
    let p = parse(source).unwrap();
    assert_eq!(run(source).unwrap(), compile(&p).unwrap());
    assert_eq!(run(source).unwrap(), text_of(&ast2ir(&p).unwrap()));
}

#[test]
fn run_twice_gives_the_same() {
    let source = "int f(int a) { while (a) { if (a == 3) break; a = a - 1; } return a; }";
    assert_eq!(run(source), run(source));
    assert_eq!(run("int f() { return x; }"), run("int f() { return x; }"));
}

#[test]
fn run_errors() {
    assert_eq!(run("int f() { return 1 }"), Err(Error::Parse(ParseError::Syntax)));
    assert_eq!(run("int f() { return 1 ^ 2; }"), Err(Error::Parse(ParseError::Character)));
    assert_eq!(run("int x = 99999999999;"), Err(Error::Parse(ParseError::NumberTooLarge)));
    assert_eq!(run("int f() { return x; }"), Err(Error::Lower(LowerError::VarUndefined)));
    assert_eq!(
        run("int f() { int *p; int x = 9; p = x; return *p; }"),
        Err(Error::Lower(LowerError::IncompatibleAssign))
    );
    assert_eq!(
        compile(&parse("int f() { break; }").unwrap()),
        Err(LowerError::BreakOutsideLoop)
    );
    // a syntax error comes before an error of names
    assert_eq!(run("int f() { return x; } int"), Err(Error::Parse(ParseError::Syntax)));
}

#[test]
fn implicit_return_in_the_text() {
    assert_eq!(run("int f() { 1; }"), run("int f() { 1; return 0; }"));
    assert_eq!(
        run("int f(int a) { if (a) return 1; }"),
        run("int f(int a) { if (a) return 1; return 0; }")
    );
}
