use minidecaf::ast::{BinaryOp, Decl, Expr, Func, Prog, Stmt, UnaryOp};
use minidecaf::ast2ir;
use minidecaf::error::LowerError;
use minidecaf::ir::{IrProg, IrStmt};
use minidecaf::parser::parse;
use std::collections::HashMap;

fn lit(x: i32) -> Expr {
    Expr::Int(x)
}

fn var(name: &str) -> Expr {
    Expr::Var(name.to_string())
}

fn bin(op: BinaryOp, l: Expr, r: Expr) -> Expr {
    Expr::Binary(op, Box::new(l), Box::new(r))
}

fn assign(l: Expr, r: Expr) -> Expr {
    Expr::Assign(Box::new(l), Box::new(r))
}

fn decl(ty: u32, name: &str, init: Option<Expr>) -> Decl {
    Decl { ty, name: name.to_string(), dims: Vec::new(), init }
}

fn func(ret: u32, name: &str, params: Vec<Decl>, stmts: Option<Vec<Stmt>>) -> Func {
    Func { ret, name: name.to_string(), params, stmts }
}

fn prog(funcs: Vec<Func>, globs: Vec<Decl>) -> Prog {
    Prog { funcs, globs }
}

const GLOBALS: i32 = 0x10000;

struct Machine<'a> {
    ir: &'a IrProg,
    mem: HashMap<i32, i32>,
    next_frame: i32,
    steps: u64,
}

impl<'a> Machine<'a> {
    fn new(ir: &'a IrProg) -> Self {
        let mut mem = HashMap::new();
        for (i, g) in ir.globs.iter().enumerate() {
            if let Ok(x) = g.1 {
                mem.insert(GLOBALS + 4 * i as i32, x);
            }
        }
        Machine { ir, mem, next_frame: 0x100000, steps: 0 }
    }

    fn call(&mut self, f: usize, args: &[i32]) -> i32 {
        let func = &self.ir.funcs[f];
        assert_eq!(args.len(), func.param_cnt as usize);
        let base = self.next_frame;
        self.next_frame += 4 * (func.param_cnt + func.var_cnt) as i32;
        for (i, a) in args.iter().enumerate() {
            self.mem.insert(base + 4 * i as i32, *a);
        }
        let mut labels = HashMap::new();
        for (i, s) in func.stmts.iter().enumerate() {
            if let IrStmt::Label(l) = s {
                assert!(labels.insert(*l, i).is_none(), "label defined twice");
            }
        }
        let mut stack: Vec<i32> = Vec::new();
        let mut pc = 0;
        loop {
            self.steps += 1;
            assert!(self.steps < 1_000_000, "no end in sight");
            let op = func.stmts[pc];
            pc += 1;
            match op {
                IrStmt::Const(x) => stack.push(x),
                IrStmt::Unary(op) => {
                    let x = stack.pop().unwrap();
                    stack.push(match op {
                        UnaryOp::Neg => x.wrapping_neg(),
                        UnaryOp::BNot => !x,
                        UnaryOp::LNot => (x == 0) as i32,
                    });
                }
                IrStmt::Binary(op) => {
                    let r = stack.pop().unwrap();
                    let l = stack.pop().unwrap();
                    stack.push(match op {
                        BinaryOp::Add => l.wrapping_add(r),
                        BinaryOp::Sub => l.wrapping_sub(r),
                        BinaryOp::Mul => l.wrapping_mul(r),
                        BinaryOp::Div => l.wrapping_div(r),
                        BinaryOp::Mod => l.wrapping_rem(r),
                        BinaryOp::Lt => (l < r) as i32,
                        BinaryOp::Le => (l <= r) as i32,
                        BinaryOp::Ge => (l >= r) as i32,
                        BinaryOp::Gt => (l > r) as i32,
                        BinaryOp::Eq => (l == r) as i32,
                        BinaryOp::Ne => (l != r) as i32,
                        BinaryOp::And => (l != 0 && r != 0) as i32,
                        BinaryOp::Or => (l != 0 || r != 0) as i32,
                    });
                }
                IrStmt::LocalAddr(x) => stack.push(base + 4 * x as i32),
                IrStmt::GlobAddr(x) => stack.push(GLOBALS + 4 * x as i32),
                IrStmt::Load => {
                    let a = stack.pop().unwrap();
                    stack.push(*self.mem.get(&a).unwrap_or(&0));
                }
                IrStmt::Store => {
                    let a = stack.pop().unwrap();
                    let v = stack.pop().unwrap();
                    self.mem.insert(a, v);
                    stack.push(v);
                }
                IrStmt::Label(_) => {}
                IrStmt::Bz(l) => {
                    if stack.pop().unwrap() == 0 {
                        pc = labels[&l];
                    }
                }
                IrStmt::Bnz(l) => {
                    if stack.pop().unwrap() != 0 {
                        pc = labels[&l];
                    }
                }
                IrStmt::Jump(l) => pc = labels[&l],
                IrStmt::Call(g) => {
                    let n = self.ir.funcs[g as usize].param_cnt as usize;
                    let at = stack.len() - n;
                    let args: Vec<i32> = stack.split_off(at);
                    let v = self.call(g as usize, &args);
                    stack.push(v);
                }
                IrStmt::Pop => {
                    stack.pop().unwrap();
                }
                IrStmt::Ret => return stack.pop().unwrap(),
            }
        }
    }
}

fn run_func(ir: &IrProg, name: &str, args: &[i32]) -> i32 {
    let f = ir.funcs.iter().position(|f| f.name == name).unwrap();
    Machine::new(ir).call(f, args)
}

#[test]
fn arithmetic_respects_the_tree() {
    let body = Stmt::Ret(bin(BinaryOp::Add, lit(1), bin(BinaryOp::Mul, lit(2), lit(3))));
    let p = prog(vec![func(0, "f", vec![], Some(vec![body]))], vec![]);
    let ir = ast2ir(&p).unwrap();
    assert_eq!(ir.funcs.len(), 1);
    assert_eq!(ir.funcs[0].name, "f");
    assert_eq!(ir.funcs[0].param_cnt, 0);
    assert_eq!(ir.funcs[0].var_cnt, 0);
    assert_eq!(
        ir.funcs[0].stmts,
        vec![
            IrStmt::Const(1),
            IrStmt::Const(2),
            IrStmt::Const(3),
            IrStmt::Binary(BinaryOp::Mul),
            IrStmt::Binary(BinaryOp::Add),
            IrStmt::Ret,
        ]
    );
    assert_eq!(run_func(&ir, "f", &[]), 7);
}

#[test]
fn global_is_zero_until_assigned() {
    let body = vec![
        Stmt::Expr(assign(var("x"), lit(5))),
        Stmt::Ret(var("x")),
    ];
    let p = prog(vec![func(0, "f", vec![], Some(body))], vec![decl(0, "x", None)]);
    let ir = ast2ir(&p).unwrap();
    assert_eq!(ir.globs, vec![("x".to_string(), Ok(0))]);
    assert_eq!(
        ir.funcs[0].stmts,
        vec![
            IrStmt::Const(5),
            IrStmt::GlobAddr(0),
            IrStmt::Store,
            IrStmt::Pop,
            IrStmt::GlobAddr(0),
            IrStmt::Load,
            IrStmt::Ret,
        ]
    );
    assert_eq!(run_func(&ir, "f", &[]), 5);
}

fn sum_below() -> Prog {
    // int f(int n) { int s = 0; for (int i = 0; i < n; i = i + 1) s = s + i; return s; }
    let loop_stmt = Stmt::For {
        cond: Some(bin(BinaryOp::Lt, var("i"), var("n"))),
        update: Some(assign(var("i"), bin(BinaryOp::Add, var("i"), lit(1)))),
        body: Box::new(Stmt::Expr(assign(var("s"), bin(BinaryOp::Add, var("s"), var("i"))))),
    };
    let body = vec![
        Stmt::Decl(decl(0, "s", Some(lit(0)))),
        Stmt::Block(vec![Stmt::Decl(decl(0, "i", Some(lit(0)))), loop_stmt]),
        Stmt::Ret(var("s")),
    ];
    prog(vec![func(0, "f", vec![decl(0, "n", None)], Some(body))], vec![])
}

#[test]
fn for_loop_sums() {
    let ir = ast2ir(&sum_below()).unwrap();
    assert_eq!(ir.funcs[0].param_cnt, 1);
    assert_eq!(ir.funcs[0].var_cnt, 2);
    assert_eq!(run_func(&ir, "f", &[4]), 6);
    assert_eq!(run_func(&ir, "f", &[0]), 0);
    assert_eq!(run_func(&ir, "f", &[10]), 45);
}

#[test]
fn for_loop_code() {
    let ir = ast2ir(&sum_below()).unwrap();
    assert_eq!(
        ir.funcs[0].stmts,
        vec![
            IrStmt::Const(0),
            IrStmt::LocalAddr(1),
            IrStmt::Store,
            IrStmt::Pop,
            IrStmt::Const(0),
            IrStmt::LocalAddr(2),
            IrStmt::Store,
            IrStmt::Pop,
            IrStmt::Label(0),
            IrStmt::LocalAddr(2),
            IrStmt::Load,
            IrStmt::LocalAddr(0),
            IrStmt::Load,
            IrStmt::Binary(BinaryOp::Lt),
            IrStmt::Bz(2),
            IrStmt::LocalAddr(1),
            IrStmt::Load,
            IrStmt::LocalAddr(2),
            IrStmt::Load,
            IrStmt::Binary(BinaryOp::Add),
            IrStmt::LocalAddr(1),
            IrStmt::Store,
            IrStmt::Pop,
            IrStmt::Label(1),
            IrStmt::LocalAddr(2),
            IrStmt::Load,
            IrStmt::Const(1),
            IrStmt::Binary(BinaryOp::Add),
            IrStmt::LocalAddr(2),
            IrStmt::Store,
            IrStmt::Pop,
            IrStmt::Jump(0),
            IrStmt::Label(2),
            IrStmt::LocalAddr(1),
            IrStmt::Load,
            IrStmt::Ret,
        ]
    );
}

#[test]
fn break_leaves_the_loop() {
    // int f() { int i = 0; while (i < 3) { if (i == 1) break; i = i + 1; } return i; }
    let body = vec![
        Stmt::Decl(decl(0, "i", Some(lit(0)))),
        Stmt::For {
            cond: Some(bin(BinaryOp::Lt, var("i"), lit(3))),
            update: None,
            body: Box::new(Stmt::Block(vec![
                Stmt::If(bin(BinaryOp::Eq, var("i"), lit(1)), Box::new(Stmt::Break), None),
                Stmt::Expr(assign(var("i"), bin(BinaryOp::Add, var("i"), lit(1)))),
            ])),
        },
        Stmt::Ret(var("i")),
    ];
    let p = prog(vec![func(0, "f", vec![], Some(body))], vec![]);
    let ir = ast2ir(&p).unwrap();
    assert_eq!(run_func(&ir, "f", &[]), 1);
}

#[test]
fn continue_runs_the_update() {
    // int f() { int s = 0; for (int i = 0; i < 5; i = i + 1) { if (i % 2) continue; s = s + i; } return s; }
    let loop_stmt = Stmt::For {
        cond: Some(bin(BinaryOp::Lt, var("i"), lit(5))),
        update: Some(assign(var("i"), bin(BinaryOp::Add, var("i"), lit(1)))),
        body: Box::new(Stmt::Block(vec![
            Stmt::If(bin(BinaryOp::Mod, var("i"), lit(2)), Box::new(Stmt::Continue), None),
            Stmt::Expr(assign(var("s"), bin(BinaryOp::Add, var("s"), var("i")))),
        ])),
    };
    let body = vec![
        Stmt::Decl(decl(0, "s", Some(lit(0)))),
        Stmt::Block(vec![Stmt::Decl(decl(0, "i", Some(lit(0)))), loop_stmt]),
        Stmt::Ret(var("s")),
    ];
    let p = prog(vec![func(0, "f", vec![], Some(body))], vec![]);
    let ir = ast2ir(&p).unwrap();
    assert_eq!(run_func(&ir, "f", &[]), 6);
}

#[test]
fn do_while_runs_once_at_least() {
    // int f() { int i = 10; do { i = i + 1; } while (i < 3); return i; }
    let body = vec![
        Stmt::Decl(decl(0, "i", Some(lit(10)))),
        Stmt::DoWhile(
            Box::new(Stmt::Expr(assign(var("i"), bin(BinaryOp::Add, var("i"), lit(1))))),
            bin(BinaryOp::Lt, var("i"), lit(3)),
        ),
        Stmt::Ret(var("i")),
    ];
    let p = prog(vec![func(0, "f", vec![], Some(body))], vec![]);
    let ir = ast2ir(&p).unwrap();
    assert_eq!(
        ir.funcs[0].stmts[4..],
        [
            IrStmt::Label(0),
            IrStmt::LocalAddr(0),
            IrStmt::Load,
            IrStmt::Const(1),
            IrStmt::Binary(BinaryOp::Add),
            IrStmt::LocalAddr(0),
            IrStmt::Store,
            IrStmt::Pop,
            IrStmt::Label(1),
            IrStmt::LocalAddr(0),
            IrStmt::Load,
            IrStmt::Const(3),
            IrStmt::Binary(BinaryOp::Lt),
            IrStmt::Bnz(0),
            IrStmt::Label(2),
            IrStmt::LocalAddr(0),
            IrStmt::Load,
            IrStmt::Ret,
        ]
    );
    assert_eq!(run_func(&ir, "f", &[]), 11);
}

#[test]
fn call_pushes_arguments_left_to_right() {
    // int g(int a, int b) { return a + b; } int f() { return g(2, 3); }
    let g = func(
        0,
        "g",
        vec![decl(0, "a", None), decl(0, "b", None)],
        Some(vec![Stmt::Ret(bin(BinaryOp::Add, var("a"), var("b")))]),
    );
    let f = func(
        0,
        "f",
        vec![],
        Some(vec![Stmt::Ret(Expr::Call("g".to_string(), vec![lit(2), lit(3)]))]),
    );
    let ir = ast2ir(&prog(vec![g, f], vec![])).unwrap();
    assert_eq!(
        ir.funcs[1].stmts,
        vec![IrStmt::Const(2), IrStmt::Const(3), IrStmt::Call(0), IrStmt::Ret]
    );
    assert_eq!(run_func(&ir, "f", &[]), 5);
}

#[test]
fn call_keeps_argument_order() {
    // int g(int a, int b) { return a - b; } int f() { return g(7, 2); }
    let g = func(
        0,
        "g",
        vec![decl(0, "a", None), decl(0, "b", None)],
        Some(vec![Stmt::Ret(bin(BinaryOp::Sub, var("a"), var("b")))]),
    );
    let f = func(
        0,
        "f",
        vec![],
        Some(vec![Stmt::Ret(Expr::Call("g".to_string(), vec![lit(7), lit(2)]))]),
    );
    let ir = ast2ir(&prog(vec![g, f], vec![])).unwrap();
    assert_eq!(run_func(&ir, "f", &[]), 5);
}

fn pointer_program(take_address: bool) -> Prog {
    // int f() { int *p; int x = 9; p = &x; return *p; }
    let x = if take_address { Expr::AddrOf(Box::new(var("x"))) } else { var("x") };
    let body = vec![
        Stmt::Decl(decl(1, "p", None)),
        Stmt::Decl(decl(0, "x", Some(lit(9)))),
        Stmt::Expr(assign(var("p"), x)),
        Stmt::Ret(Expr::Deref(Box::new(var("p")))),
    ];
    prog(vec![func(0, "f", vec![], Some(body))], vec![])
}

#[test]
fn pointer_reads_what_it_points_to() {
    let ir = ast2ir(&pointer_program(true)).unwrap();
    assert_eq!(
        ir.funcs[0].stmts,
        vec![
            IrStmt::Const(9),
            IrStmt::LocalAddr(1),
            IrStmt::Store,
            IrStmt::Pop,
            IrStmt::LocalAddr(1),
            IrStmt::LocalAddr(0),
            IrStmt::Store,
            IrStmt::Pop,
            IrStmt::LocalAddr(0),
            IrStmt::Load,
            IrStmt::Load,
            IrStmt::Ret,
        ]
    );
    assert_eq!(run_func(&ir, "f", &[]), 9);
}

#[test]
fn integer_assigned_to_pointer_is_rejected() {
    assert_eq!(ast2ir(&pointer_program(false)).unwrap_err(), LowerError::IncompatibleAssign);
}

#[test]
fn store_through_pointer() {
    // int f() { int x = 1; int *p = &x; *p = 4; return x; }
    let body = vec![
        Stmt::Decl(decl(0, "x", Some(lit(1)))),
        Stmt::Decl(decl(1, "p", Some(Expr::AddrOf(Box::new(var("x")))))),
        Stmt::Expr(assign(Expr::Deref(Box::new(var("p"))), lit(4))),
        Stmt::Ret(var("x")),
    ];
    let ir = ast2ir(&prog(vec![func(0, "f", vec![], Some(body))], vec![])).unwrap();
    assert_eq!(run_func(&ir, "f", &[]), 4);
}

#[test]
fn conditional_expression_takes_one_branch() {
    // int f(int c) { return c ? 10 : 20; }
    let body = vec![Stmt::Ret(Expr::Condition(
        Box::new(var("c")),
        Box::new(lit(10)),
        Box::new(lit(20)),
    ))];
    let ir = ast2ir(&prog(vec![func(0, "f", vec![decl(0, "c", None)], Some(body))], vec![])).unwrap();
    assert_eq!(
        ir.funcs[0].stmts,
        vec![
            IrStmt::LocalAddr(0),
            IrStmt::Load,
            IrStmt::Bz(0),
            IrStmt::Const(10),
            IrStmt::Jump(1),
            IrStmt::Label(0),
            IrStmt::Const(20),
            IrStmt::Label(1),
            IrStmt::Ret,
        ]
    );
    assert_eq!(run_func(&ir, "f", &[1]), 10);
    assert_eq!(run_func(&ir, "f", &[0]), 20);
}

#[test]
fn if_else_code() {
    // int f(int c) { if (c) return 1; else return 2; }
    let body = vec![Stmt::If(
        var("c"),
        Box::new(Stmt::Ret(lit(1))),
        Some(Box::new(Stmt::Ret(lit(2)))),
    )];
    let ir = ast2ir(&prog(vec![func(0, "f", vec![decl(0, "c", None)], Some(body))], vec![])).unwrap();
    assert_eq!(
        ir.funcs[0].stmts,
        vec![
            IrStmt::LocalAddr(0),
            IrStmt::Load,
            IrStmt::Bz(0),
            IrStmt::Const(1),
            IrStmt::Ret,
            IrStmt::Jump(1),
            IrStmt::Label(0),
            IrStmt::Const(2),
            IrStmt::Ret,
            IrStmt::Label(1),
            IrStmt::Const(0),
            IrStmt::Ret,
        ]
    );
    assert_eq!(run_func(&ir, "f", &[5]), 1);
    assert_eq!(run_func(&ir, "f", &[0]), 2);
}

#[test]
fn unary_operators() {
    // int f(int a) { return -a + ~a + !a; }
    let u = |op, e| Expr::Unary(op, Box::new(e));
    let body = vec![Stmt::Ret(bin(
        BinaryOp::Add,
        bin(BinaryOp::Add, u(UnaryOp::Neg, var("a")), u(UnaryOp::BNot, var("a"))),
        u(UnaryOp::LNot, var("a")),
    ))];
    let ir = ast2ir(&prog(vec![func(0, "f", vec![decl(0, "a", None)], Some(body))], vec![])).unwrap();
    assert_eq!(run_func(&ir, "f", &[5]), -5 + !5 + 0);
    assert_eq!(run_func(&ir, "f", &[0]), 0 + !0 + 1);
}

#[test]
fn recursion_through_a_prototype() {
    // int fact(int n); int f() { return fact(5); } int fact(int n) { return n ? n * fact(n - 1) : 1; }
    let proto = func(0, "fact", vec![decl(0, "n", None)], None);
    let f = func(
        0,
        "f",
        vec![],
        Some(vec![Stmt::Ret(Expr::Call("fact".to_string(), vec![lit(5)]))]),
    );
    let fact = func(
        0,
        "fact",
        vec![decl(0, "n", None)],
        Some(vec![Stmt::Ret(Expr::Condition(
            Box::new(var("n")),
            Box::new(bin(
                BinaryOp::Mul,
                var("n"),
                Expr::Call("fact".to_string(), vec![bin(BinaryOp::Sub, var("n"), lit(1))]),
            )),
            Box::new(lit(1)),
        ))]),
    );
    let ir = ast2ir(&prog(vec![proto, f, fact], vec![])).unwrap();
    assert_eq!(ir.funcs.len(), 2);
    assert_eq!(ir.funcs[0].name, "fact");
    assert_eq!(ir.funcs[1].name, "f");
    assert_eq!(run_func(&ir, "f", &[]), 120);
}

#[test]
fn body_may_name_what_follows_it() {
    // int f() { return g() + x; } int g() { return 2; } with the global x = 40 declared
    let f = func(
        0,
        "f",
        vec![],
        Some(vec![Stmt::Ret(bin(
            BinaryOp::Add,
            Expr::Call("g".to_string(), vec![]),
            var("x"),
        ))]),
    );
    let g = func(0, "g", vec![], Some(vec![Stmt::Ret(lit(2))]));
    let ir = ast2ir(&prog(vec![f, g], vec![decl(0, "x", Some(lit(40)))])).unwrap();
    assert_eq!(ir.funcs[0].stmts[0], IrStmt::Call(1));
    assert_eq!(ir.globs, vec![("x".to_string(), Ok(40))]);
    assert_eq!(run_func(&ir, "f", &[]), 42);
}

#[test]
fn cast_changes_the_type_only() {
    // int f() { int x = 3; int *p = (int *) x; return (int) p; }
    let body = vec![
        Stmt::Decl(decl(0, "x", Some(lit(3)))),
        Stmt::Decl(decl(1, "p", Some(Expr::Cast(1, Box::new(var("x")))))),
        Stmt::Ret(Expr::Cast(0, Box::new(var("p")))),
    ];
    let ir = ast2ir(&prog(vec![func(0, "f", vec![], Some(body))], vec![])).unwrap();
    assert_eq!(
        ir.funcs[0].stmts[4..8],
        [IrStmt::LocalAddr(0), IrStmt::Load, IrStmt::LocalAddr(1), IrStmt::Store]
    );
    assert_eq!(run_func(&ir, "f", &[]), 3);
}

#[test]
fn pointers_compare_for_equality_only() {
    let body = |op| {
        vec![
            Stmt::Decl(decl(1, "p", None)),
            Stmt::Decl(decl(1, "q", None)),
            Stmt::Ret(bin(op, var("p"), var("q"))),
        ]
    };
    let p = |op| prog(vec![func(0, "f", vec![], Some(body(op)))], vec![]);
    assert!(ast2ir(&p(BinaryOp::Eq)).is_ok());
    assert!(ast2ir(&p(BinaryOp::Ne)).is_ok());
    assert_eq!(ast2ir(&p(BinaryOp::Lt)).unwrap_err(), LowerError::IncompatibleBinary);
    assert_eq!(ast2ir(&p(BinaryOp::Add)).unwrap_err(), LowerError::IncompatibleBinary);
}

fn eval(text: &str, name: &str, args: &[i32]) -> i32 {
    let ir = ast2ir(&parse(text).unwrap()).unwrap();
    run_func(&ir, name, args)
}

#[test]
fn scenarios_from_text() {
    assert_eq!(eval("int f() { return 1 + 2 * 3; }", "f", &[]), 7);
    assert_eq!(eval("int x; int f() { x = 5; return x; }", "f", &[]), 5);
    let sum = "int f(int n) { int s = 0; for (int i = 0; i < n; i = i + 1) s = s + i; return s; }";
    assert_eq!(eval(sum, "f", &[4]), 6);
    let brk = "int f() { int i = 0; while (i < 3) { if (i == 1) break; i = i + 1; } return i; }";
    assert_eq!(eval(brk, "f", &[]), 1);
    let call = "int g(int a, int b) { return a + b; } int f() { return g(2, 3); }";
    assert_eq!(eval(call, "f", &[]), 5);
    assert_eq!(eval("int f() { int *p; int x = 9; p = &x; return *p; }", "f", &[]), 9);
}

#[test]
fn recursion_and_loops() {
    let fib = "int fib(int n) { if (n < 2) return n; return fib(n - 1) + fib(n - 2); }";
    assert_eq!(eval(fib, "fib", &[10]), 55);
    let gcd = "int gcd(int a, int b) { while (b != 0) { int t = a % b; a = b; b = t; } return a; }";
    assert_eq!(eval(gcd, "gcd", &[48, 18]), 6);
    let collatz = "int f(int n) { int k = 0; do { if (n % 2 == 0) n = n / 2; else n = 3 * n + 1;
                   k = k + 1; } while (n != 1); return k; }";
    assert_eq!(eval(collatz, "f", &[6]), 8);
    let nested = "int f(int n) { int c = 0; for (int i = 0; i < n; i = i + 1)
                  for (int j = 0; j < n; j = j + 1) { if (j > i) break; if ((i + j) % 2) continue;
                  c = c + 1; } return c; }";
    assert_eq!(eval(nested, "f", &[5]), 9);
}

#[test]
fn pointers_and_parameters() {
    let swap = "int swap(int *a, int *b) { int t = *a; *a = *b; *b = t; return 0; }
                int f() { int x = 1; int y = 2; swap(&x, &y); return x * 10 + y; }";
    assert_eq!(eval(swap, "f", &[]), 21);
    let twice = "int g; int *where() { return &g; } int f() { *where() = 7; **&*&where; return g; }";
    assert!(ast2ir(&parse(twice).unwrap()).is_err());
    let global = "int g; int *where() { return &g; } int f() { *where() = 7; return g + *where(); }";
    assert_eq!(eval(global, "f", &[]), 14);
    let deep = "int f() { int x = 3; int *p = &x; int **q = &p; **q = **q + 1; return x; }";
    assert_eq!(eval(deep, "f", &[]), 4);
}

#[test]
fn values_of_expressions() {
    assert_eq!(eval("int f(int a, int b) { return a - b; }", "f", &[7, 2]), 5);
    assert_eq!(eval("int f(int a, int b) { return a / b; }", "f", &[7, 2]), 3);
    assert_eq!(eval("int f(int a, int b) { return a % b; }", "f", &[7, 2]), 1);
    assert_eq!(eval("int f(int a, int b) { return a < b; }", "f", &[7, 2]), 0);
    assert_eq!(eval("int f(int a, int b) { return a >= b; }", "f", &[7, 2]), 1);
    assert_eq!(eval("int f(int a, int b) { return a && b; }", "f", &[7, 0]), 0);
    assert_eq!(eval("int f(int a, int b) { return a || b; }", "f", &[7, 0]), 1);
    assert_eq!(eval("int f(int a, int b) { return (a = b) + a; }", "f", &[7, 2]), 4);
    assert_eq!(eval("int f(int a) { int b; return b = a = a + 1; }", "f", &[7]), 8);
    assert_eq!(eval("int f(int a) { return a ? a ? 1 : 2 : 3; }", "f", &[0]), 3);
    assert_eq!(eval("int f(int a) { return -a + ~a + !a; }", "f", &[3]), -3 + !3);
    assert_eq!(eval("int f(int a) { return (int) (int *) a; }", "f", &[3]), 3);
}

#[test]
fn shadowing_at_run_time() {
    let text = "int x = 1; int f() { int r = x; { int x = 10; r = r + x; { int x = 100; r = r + x; }
                r = r + x; } return r + x; }";
    assert_eq!(eval(text, "f", &[]), 1 + 10 + 100 + 10 + 1);
}
