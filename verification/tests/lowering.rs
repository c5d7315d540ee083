use minidecaf::ast::{Decl, Expr, Func, Prog, Stmt};
use minidecaf::ast2ir;
use minidecaf::error::LowerError;
use minidecaf::ir::{IrFunc, IrProg, IrStmt};
use minidecaf::lower::{ck_int, ck_lvalue, decl, expr, func, stmt, FuncCtx};
use minidecaf::parser::parse;
use minidecaf::symtab::{FuncMap, FuncSig, SymbolMap, VarInfo};
use std::collections::HashMap;

fn lower(text: &str) -> Result<IrProg, LowerError> {
    ast2ir(&parse(text).unwrap())
}

fn error(text: &str) -> LowerError {
    lower(text).unwrap_err()
}

fn code(text: &str) -> Vec<IrStmt> {
    lower(text).unwrap().funcs.pop().unwrap().stmts
}

#[test]
fn name_errors() {
    assert_eq!(error("int f() { return x; }"), LowerError::VarUndefined);
    assert_eq!(error("int f() { x = 1; }"), LowerError::VarUndefined);
    assert_eq!(error("int f() { return g(); }"), LowerError::FuncUndefined);
    assert_eq!(error("int f() { int x; int x; }"), LowerError::VarRedefined);
    assert_eq!(error("int f(int a, int a) { }"), LowerError::VarRedefined);
    assert_eq!(error("int f(int a) { int a; }"), LowerError::VarRedefined);
    assert_eq!(error("int f(int a, int a);"), LowerError::VarRedefined);
    assert_eq!(error("int x; int x;"), LowerError::GlobalRedefined);
    assert_eq!(error("int x; int *x;"), LowerError::GlobalRedefined);
    assert_eq!(error("int x; int x() { }"), LowerError::GlobalFunctionConflict);
    assert_eq!(error("int x() { } int x;"), LowerError::GlobalFunctionConflict);
}

#[test]
fn function_conflicts() {
    assert_eq!(error("int f() { } int f() { }"), LowerError::FunctionConflict);
    assert_eq!(error("int f(); int f() { } int f() { }"), LowerError::FunctionConflict);
    assert_eq!(error("int f() { } int f(); int f() { }"), LowerError::FunctionConflict);
    assert_eq!(error("int f(); int *f();"), LowerError::FunctionConflict);
    assert_eq!(error("int f(int a); int f();"), LowerError::FunctionConflict);
    assert_eq!(error("int f(int a); int f(int *a) { }"), LowerError::FunctionConflict);
    assert!(lower("int f(int a); int f(int b); int f(int c) { } int f(int d);").is_ok());
}

#[test]
fn a_repeated_prototype_is_not_lowered() {
    assert!(lower("int f(int a, int b); int f(int a, int a);").is_ok());
    assert!(lower("int f(int a, int b) { return a; } int f(int a, int a);").is_ok());
    assert_eq!(
        error("int f(int a, int b); int f(int a, int a) { }"),
        LowerError::VarRedefined
    );
    assert_eq!(error("int f(int a, int a); int f(int a, int b);"), LowerError::VarRedefined);
    let ir = lower("int f(int a, int b) { return b; } int f(int c, int d);").unwrap();
    assert_eq!(ir.funcs.len(), 1);
    assert_eq!(ir.funcs[0].stmts, vec![IrStmt::LocalAddr(1), IrStmt::Load, IrStmt::Ret]);
}

#[test]
fn local_addresses_stay_in_the_frame() {
    let ir = lower(
        "int g; int f(int a, int b) { int c = a; { int d = b; c = d + g; } for (int i = 0; i < c; i = i + 1) { int j = i; } return c; } int h() { int x; return x; }",
    ).unwrap();
    for f in &ir.funcs {
        for s in &f.stmts {
            if let IrStmt::LocalAddr(x) = s {
                assert!(*x < f.param_cnt + f.var_cnt);
            }
        }
    }
    assert_eq!((ir.funcs[0].param_cnt, ir.funcs[0].var_cnt), (2, 4));
    assert_eq!(locals(&ir.funcs[0].stmts).iter().max(), Some(&5));
}

#[test]
fn type_errors() {
    assert_eq!(error("int f() { int *p; return p + 1; }"), LowerError::IncompatibleBinary);
    assert_eq!(error("int f() { int *p; return p == 1; }"), LowerError::IncompatibleBinary);
    assert_eq!(error("int f() { int *p; int **q; return p == q; }"), LowerError::IncompatibleBinary);
    assert_eq!(error("int f() { int *p; return -p; }"), LowerError::ExpectInt);
    assert_eq!(error("int f() { int *p; if (p) ; }"), LowerError::ExpectInt);
    assert_eq!(error("int f() { int *p; while (p) ; }"), LowerError::ExpectInt);
    assert_eq!(error("int f() { int *p; do ; while (p); }"), LowerError::ExpectInt);
    assert_eq!(error("int f() { int *p; for (;p;) ; }"), LowerError::ExpectInt);
    assert_eq!(error("int f() { int *p; return p ? 1 : 2; }"), LowerError::ExpectInt);
    assert_eq!(error("int f() { int *p; int x; x = p; }"), LowerError::IncompatibleAssign);
    assert_eq!(error("int f() { int *p = 1; }"), LowerError::IncompatibleInit);
    assert_eq!(error("int f() { int *p; return p; }"), LowerError::IncompatibleReturn);
    assert_eq!(error("int *f() { return 0; }"), LowerError::IncompatibleReturn);
    assert_eq!(error("int f() { int *p; return 1 ? p : 2; }"), LowerError::IncompatibleCondition);
    assert_eq!(error("int f() { int x; return *x; }"), LowerError::ExpectPointer);
    assert_eq!(error("int f() { 1 = 2; }"), LowerError::ExpectLvalue);
    assert_eq!(error("int f() { int a; a + 1 = 2; }"), LowerError::ExpectLvalue);
    assert_eq!(error("int f() { return &1; }"), LowerError::ExpectLvalue);
    assert_eq!(error("int f() { int a; return &(a = 1); }"), LowerError::ExpectLvalue);
    assert_eq!(error("int g(int a); int f() { return g(); }"), LowerError::ArgCountMismatch);
    assert_eq!(error("int g(int a); int f() { return g(1, 2); }"), LowerError::ArgCountMismatch);
    assert_eq!(error("int g(int *a); int f() { return g(1); }"), LowerError::ArgTypeMismatch);
    assert_eq!(error("int x = 1 + 2;"), LowerError::GlobalInitNotConst);
    assert_eq!(error("int y; int x = y;"), LowerError::GlobalInitNotConst);
    assert_eq!(error("int x = -1;"), LowerError::GlobalInitNotConst);
}

#[test]
fn control_errors() {
    assert_eq!(error("int f() { break; }"), LowerError::BreakOutsideLoop);
    assert_eq!(error("int f() { continue; }"), LowerError::ContinueOutsideLoop);
    assert_eq!(error("int f() { while (1) ; break; }"), LowerError::BreakOutsideLoop);
    assert_eq!(error("int f() { if (1) { continue; } }"), LowerError::ContinueOutsideLoop);
}

#[test]
fn other_errors() {
    assert_eq!(error("int f(int a = 1) { }"), LowerError::ParamHasInit);
    assert_eq!(error("int f(int a = 1);"), LowerError::ParamHasInit);
    assert_eq!(error("int a[2];"), LowerError::ArrayUnsupported);
    assert_eq!(error("int f() { int a[2]; }"), LowerError::ArrayUnsupported);
    assert_eq!(error("int f(int a[2]) { }"), LowerError::ArrayUnsupported);
    assert_eq!(error("int f() { int *a; return a[0]; }"), LowerError::ArrayUnsupported);
    assert_eq!(error("int f() { int *a; a[0] = 1; }"), LowerError::ExpectLvalue);
}

#[test]
fn pointer_depth_is_bounded() {
    let deep = Decl { ty: u32::MAX, name: "x".to_string(), dims: vec![], init: None };
    let body = vec![
        Stmt::Decl(deep),
        Stmt::Expr(Expr::AddrOf(Box::new(Expr::Var("x".to_string())))),
    ];
    let f = Func { ret: 0, name: "f".to_string(), params: vec![], stmts: Some(body) };
    let p = Prog { funcs: vec![f], globs: vec![] };
    assert_eq!(ast2ir(&p).unwrap_err(), LowerError::LimitExceeded);
}

#[test]
fn the_first_error_is_reported() {
    assert_eq!(error("int x; int x; int f() { break; }"), LowerError::GlobalRedefined);
    assert_eq!(error("int f() { break; } int g() { } int g() { }"), LowerError::FunctionConflict);
    assert_eq!(error("int f() { y; break; }"), LowerError::VarUndefined);
    assert_eq!(error("int f() { break; y; }"), LowerError::BreakOutsideLoop);
    assert_eq!(error("int f() { int *p; return (p + 1) + y; }"), LowerError::IncompatibleBinary);
    assert_eq!(error("int f() { int *p; return y + (p + 1); }"), LowerError::VarUndefined);
    assert_eq!(error("int f() { 1 = y; }"), LowerError::ExpectLvalue);
    assert_eq!(error("int g(int a); int f() { return g(y, y); }"), LowerError::ArgCountMismatch);
}

#[test]
fn initialiser_sees_the_new_variable() {
    assert_eq!(
        code("int f() { int x = x; }"),
        vec![
            IrStmt::LocalAddr(0),
            IrStmt::Load,
            IrStmt::LocalAddr(0),
            IrStmt::Store,
            IrStmt::Pop,
            IrStmt::Const(0),
            IrStmt::Ret,
        ]
    );
}

#[test]
fn equality_of_pointers_is_an_integer() {
    assert!(lower("int f() { int *p; int *q; return p == q; }").is_ok());
    assert!(lower("int f() { int *p; int *q; return (p != q) + 1; }").is_ok());
}

#[test]
fn address_and_dereference_types() {
    assert!(lower("int f() { int x; int *p = &x; int **q = &p; return **q; }").is_ok());
    assert!(lower("int f() { int x; return *&x; }").is_ok());
    assert!(lower("int *f(int *p) { return &*p; }").is_ok());
    assert_eq!(error("int f() { int x; int **q = &x; }"), LowerError::IncompatibleInit);
    assert!(lower("int f() { int *p; *p = 1; return *p; }").is_ok());
    assert!(lower("int f() { int **p; **p = 1; *p = (int *) 4; return 0; }").is_ok());
}

fn locals(stmts: &[IrStmt]) -> Vec<u32> {
    stmts
        .iter()
        .filter_map(|s| if let IrStmt::LocalAddr(x) = s { Some(*x) } else { None })
        .collect()
}

#[test]
fn ids_rise_in_the_order_of_declaration() {
    let ir = lower(
        "int f(int a, int b, int c) {
            int d = 1;
            { int e = 2; { int g = 3; } int h = 4; }
            if (a) { int i = 5; } else { int j = 6; }
            for (int k = 7; k < 8; k = k + 1) { int l = 9; }
            int m = 10;
            return c;
        }",
    )
    .unwrap();
    let f = &ir.funcs[0];
    assert_eq!(f.param_cnt, 3);
    assert_eq!(f.var_cnt, 9);
    let ids = locals(&f.stmts);
    assert_eq!(ids, vec![3, 4, 5, 6, 0, 7, 8, 9, 9, 10, 9, 9, 11, 2]);
}

#[test]
fn parameters_take_the_first_ids() {
    assert_eq!(
        locals(&code("int f(int a, int b, int c) { return a + b * c; }")),
        vec![0, 1, 2]
    );
    assert_eq!(locals(&code("int f(int a, int b) { int c; return b; }")), vec![1]);
}

#[test]
fn ids_are_not_given_back() {
    let ir = lower("int f() { { int a = 1; } { int b = 2; } { { int c = 3; } } return 0; }").unwrap();
    assert_eq!(ir.funcs[0].var_cnt, 3);
    assert_eq!(locals(&ir.funcs[0].stmts), vec![0, 1, 2]);
}

#[test]
fn inner_declaration_is_gone_after_the_block() {
    assert_eq!(error("int f() { { int x; } return x; }"), LowerError::VarUndefined);
    assert_eq!(error("int f() { for (int i = 0;;) ; return i; }"), LowerError::VarUndefined);
    assert_eq!(error("int f() { if (1) { int x; } else { x = 1; } }"), LowerError::VarUndefined);
}

#[test]
fn shadowing_ends_with_the_block() {
    // the stores go to the outer x, the inner x, and the outer x again
    let ids = locals(&code("int f() { int x = 1; { int x = 2; x = 3; } x = 4; return x; }"));
    assert_eq!(ids, vec![0, 1, 1, 0, 0]);
    // a local shadows a global and a parameter
    let ir = lower("int x; int f(int y) { x = 1; { int x; x = 2; int y; y = 3; } y = 4; x = 5; }")
        .unwrap();
    let refs: Vec<IrStmt> = ir.funcs[0]
        .stmts
        .iter()
        .filter(|s| matches!(s, IrStmt::LocalAddr(_) | IrStmt::GlobAddr(_)))
        .cloned()
        .collect();
    assert_eq!(
        refs,
        vec![
            IrStmt::GlobAddr(0),
            IrStmt::LocalAddr(1),
            IrStmt::LocalAddr(2),
            IrStmt::LocalAddr(0),
            IrStmt::GlobAddr(0),
        ]
    );
}

#[test]
fn labels_count_up_within_a_function() {
    let ir = lower(
        "int f(int a) { if (a) ; while (a) { do ; while (a ? 1 : 0); } return 0; }
         int g(int a) { for (;;) break; }",
    )
    .unwrap();
    let labels = |f: &IrFunc| -> Vec<u32> {
        f.stmts
            .iter()
            .filter_map(|s| if let IrStmt::Label(x) = s { Some(*x) } else { None })
            .collect()
    };
    assert_eq!(labels(&ir.funcs[0]), vec![0, 1, 2, 5, 6, 8, 9, 7, 3, 4]);
    assert_eq!(labels(&ir.funcs[1]), vec![0, 1, 2]);
}

#[test]
fn implicit_return() {
    assert_eq!(code("int f() { }"), vec![IrStmt::Const(0), IrStmt::Ret]);
    assert_eq!(code("int f() { 1; }"), code("int f() { 1; return 0; }"));
    assert_eq!(
        code("int f(int a) { if (a) return 1; }"),
        code("int f(int a) { if (a) return 1; return 0; }")
    );
    assert_eq!(
        code("int f(int a) { while (a) a = a - 1; }"),
        code("int f(int a) { while (a) a = a - 1; return 0; }")
    );
    assert_eq!(code("int f() { return 5; }"), vec![IrStmt::Const(5), IrStmt::Ret]);
    // no second return after code that ends in one, though the body does not end in a
    // return statement
    assert_eq!(code("int f() { { return 5; } }"), vec![IrStmt::Const(5), IrStmt::Ret]);
    // a pointer function is closed by a return of zero all the same
    assert_eq!(code("int *f() { }"), vec![IrStmt::Const(0), IrStmt::Ret]);
}

#[test]
fn prototype_returns_zero() {
    let ir = lower("int f(int a, int *b);").unwrap();
    assert_eq!(ir.funcs.len(), 1);
    assert_eq!(ir.funcs[0].name, "f");
    assert_eq!(ir.funcs[0].param_cnt, 2);
    assert_eq!(ir.funcs[0].var_cnt, 0);
    assert_eq!(ir.funcs[0].stmts, vec![IrStmt::Const(0), IrStmt::Ret]);
}

#[test]
fn slots_go_to_names_as_they_first_occur() {
    let ir = lower(
        "int c(); int a() { return b() + c(); } int b() { return 2; } int c() { return 3; } int a();",
    )
    .unwrap();
    let names: Vec<&str> = ir.funcs.iter().map(|f| f.name.as_str()).collect();
    assert_eq!(names, vec!["c", "a", "b"]);
    assert_eq!(ir.funcs[0].stmts, vec![IrStmt::Const(3), IrStmt::Ret]);
    assert_eq!(
        ir.funcs[1].stmts,
        vec![IrStmt::Call(2), IrStmt::Call(0), IrStmt::Binary(minidecaf::ast::BinaryOp::Add), IrStmt::Ret]
    );
}

#[test]
fn globals_in_order() {
    let ir = lower("int a; int *p; int b = 7; int f() { return b; }").unwrap();
    assert_eq!(
        ir.globs,
        vec![("a".to_string(), Ok(0)), ("p".to_string(), Ok(0)), ("b".to_string(), Ok(7))]
    );
    assert_eq!(ir.funcs[0].stmts[0], IrStmt::GlobAddr(2));
}

#[test]
fn lowering_twice_gives_the_same() {
    let text = "int g; int f(int n) { int s = 0; for (int i = 0; i < n; i = i + 1) s = s + (i ? g : -i);
                return s; } int main() { g = 3; return f(10); }";
    let a = lower(text).unwrap();
    let b = lower(text).unwrap();
    assert_eq!(format!("{:?}", a), format!("{:?}", b));
    let p = parse(text).unwrap();
    assert_eq!(format!("{:?}", ast2ir(&p).unwrap()), format!("{:?}", ast2ir(&p).unwrap()));
    assert_eq!(error("int f() { break; }"), error("int f() { break; }"));
}

/// Walks the code once and keeps the depth of the operand stack; `None` is dead code, and
/// the depth -1 marks a label that was passed in dead code before any jump reached it.
fn walk(ir: &IrProg, f: &IrFunc) -> Result<(), String> {
    let mut depth: Option<i64> = Some(0);
    let mut marks: HashMap<u32, i64> = HashMap::new();
    let mark = |marks: &mut HashMap<u32, i64>, l: u32, d: i64| -> Result<(), String> {
        match marks.get(&l) {
            Some(x) if *x != d => Err(format!("label {} at depths {} and {}", l, x, d)),
            Some(_) => Ok(()),
            None => {
                marks.insert(l, d);
                Ok(())
            }
        }
    };
    let need = |d: i64, n: i64| if d >= n { Ok(()) } else { Err(format!("depth {} < {}", d, n)) };
    for op in &f.stmts {
        match depth {
            None => {
                if let IrStmt::Label(l) = op {
                    match marks.get(l) {
                        Some(d) if *d >= 0 => depth = Some(*d),
                        Some(_) => {}
                        None => {
                            marks.insert(*l, -1);
                        }
                    }
                }
            }
            Some(d) => match op {
                IrStmt::Const(_) | IrStmt::LocalAddr(_) | IrStmt::GlobAddr(_) => depth = Some(d + 1),
                IrStmt::Unary(_) | IrStmt::Load => need(d, 1)?,
                IrStmt::Binary(_) | IrStmt::Store => {
                    need(d, 2)?;
                    depth = Some(d - 1);
                }
                IrStmt::Pop => {
                    need(d, 1)?;
                    depth = Some(d - 1);
                }
                IrStmt::Label(l) => mark(&mut marks, *l, d)?,
                IrStmt::Bz(l) | IrStmt::Bnz(l) => {
                    need(d, 1)?;
                    mark(&mut marks, *l, d - 1)?;
                    depth = Some(d - 1);
                }
                IrStmt::Jump(l) => {
                    mark(&mut marks, *l, d)?;
                    depth = None;
                }
                IrStmt::Call(g) => {
                    let n = ir.funcs[*g as usize].param_cnt as i64;
                    need(d, n)?;
                    depth = Some(d - n + 1);
                }
                IrStmt::Ret => {
                    need(d, 1)?;
                    depth = None;
                }
            },
        }
    }
    if depth.is_none() { Ok(()) } else { Err("falls off the end".to_string()) }
}

const PROGRAMS: [&str; 8] = [
    "int f() { return 1 + 2 * 3; }",
    "int x; int f() { x = 5; return x; }",
    "int f(int n) { int s = 0; for (int i = 0; i < n; i = i + 1) s = s + i; return s; }",
    "int f() { int i = 0; while (i < 3) { if (i == 1) break; i = i + 1; } return i; }",
    "int g(int a, int b) { return a + b; } int f() { return g(2, g(3, 4)) + g(1 ? 2 : 3, 4); }",
    "int f() { int *p; int x = 9; p = &x; return *p; }",
    "int f(int a) { do { if (a) continue; else break; a = a ? a - 1 : (a ? 2 : 3); } while (a);
       for (;;) { while (a) { break; } if (a) return 1; continue; } }",
    "int f(int a) { return 1; 1; } int g(int a) { return a ? g(a ? 1 : 2) : g(g(g(0))); }",
];

#[test]
fn lowered_code_keeps_the_stack_discipline() {
    for text in PROGRAMS.iter() {
        let ir = lower(text).unwrap();
        assert!(ir.is_wf());
        for f in &ir.funcs {
            assert_eq!(walk(&ir, f), Ok(()), "{} in {}", f.name, text);
        }
    }
}

#[test]
fn the_walk_finds_broken_code() {
    let f = |stmts| IrFunc { name: "f".to_string(), param_cnt: 0, var_cnt: 0, stmts };
    let ir = |stmts| IrProg { funcs: vec![f(stmts)], globs: vec![] };
    for bad in [
        vec![IrStmt::Pop],
        vec![IrStmt::Ret],
        vec![IrStmt::Const(1), IrStmt::Store, IrStmt::Ret],
        vec![IrStmt::Const(1)],
        vec![IrStmt::Const(1), IrStmt::Bz(0), IrStmt::Const(1), IrStmt::Label(0), IrStmt::Ret],
        // the code after the first label is reached by the last jump only
        vec![
            IrStmt::Jump(1),
            IrStmt::Label(0),
            IrStmt::Pop,
            IrStmt::Label(1),
            IrStmt::Jump(0),
        ],
    ] {
        let p = ir(bad);
        assert!(walk(&p, &p.funcs[0]).is_err());
    }
}

#[test]
fn expression_statements_and_stores_leave_nothing() {
    let stmts = code("int f(int a) { a; a = 1; a + a; int b = a; return 0; }");
    assert_eq!(
        stmts,
        vec![
            IrStmt::LocalAddr(0),
            IrStmt::Load,
            IrStmt::Pop,
            IrStmt::Const(1),
            IrStmt::LocalAddr(0),
            IrStmt::Store,
            IrStmt::Pop,
            IrStmt::LocalAddr(0),
            IrStmt::Load,
            IrStmt::LocalAddr(0),
            IrStmt::Load,
            IrStmt::Binary(minidecaf::ast::BinaryOp::Add),
            IrStmt::Pop,
            IrStmt::LocalAddr(0),
            IrStmt::Load,
            IrStmt::LocalAddr(1),
            IrStmt::Store,
            IrStmt::Pop,
            IrStmt::Const(0),
            IrStmt::Ret,
        ]
    );
}

#[test]
fn checks() {
    assert_eq!(ck_int(0), Ok(()));
    assert_eq!(ck_int(1), Err(LowerError::ExpectInt));
    assert_eq!(ck_lvalue(&Expr::Var("a".to_string())), Ok(()));
    assert_eq!(ck_lvalue(&Expr::Deref(Box::new(Expr::Int(1)))), Ok(()));
    assert_eq!(ck_lvalue(&Expr::Int(1)), Err(LowerError::ExpectLvalue));
    assert_eq!(
        ck_lvalue(&Expr::Index(Box::new(Expr::Int(1)), Box::new(Expr::Int(1)))),
        Err(LowerError::ExpectLvalue)
    );
}

#[test]
fn symbol_map_replaces_and_finds() {
    let mut m = SymbolMap::new();
    let a = VarInfo { id: 0, ty: 0 };
    let b = VarInfo { id: 1, ty: 2 };
    assert_eq!(m.get(&"x".to_string()), None);
    assert!(!m.contains_key(&"x".to_string()));
    assert_eq!(m.insert("x".to_string(), a), None);
    assert_eq!(m.insert("y".to_string(), b), None);
    assert_eq!(m.get(&"x".to_string()), Some(a));
    assert_eq!(m.get(&"y".to_string()), Some(b));
    assert_eq!(m.insert("x".to_string(), b), Some(a));
    assert_eq!(m.get(&"x".to_string()), Some(b));
    assert!(m.contains_key(&"x".to_string()));
    assert_eq!(m.get(&"".to_string()), None);
}

#[test]
fn func_map_replaces_and_finds() {
    let mut m = FuncMap::new();
    assert!(m.get(&"f".to_string()).is_none());
    m.insert("f".to_string(), FuncSig { slot: 0, ret: 0, params: vec![0, 1], defined: false });
    m.insert("g".to_string(), FuncSig { slot: 1, ret: 2, params: vec![], defined: true });
    assert_eq!(m.get(&"f".to_string()).unwrap().params, vec![0, 1]);
    assert!(!m.get(&"f".to_string()).unwrap().defined);
    m.insert("f".to_string(), FuncSig { slot: 0, ret: 0, params: vec![0, 1], defined: true });
    assert!(m.get(&"f".to_string()).unwrap().defined);
    assert_eq!(m.get(&"g".to_string()).unwrap().slot, 1);
}

fn context<'a>(funcs: &'a FuncMap, globs: &'a SymbolMap) -> FuncCtx<'a> {
    FuncCtx {
        names: vec![SymbolMap::new()],
        stmts: vec![],
        loops: vec![],
        funcs,
        globs,
        ret: 0,
        var_cnt: 0,
        label_cnt: 0,
    }
}

#[test]
fn context_resolves_innermost_first() {
    let funcs = FuncMap::new();
    let mut globs = SymbolMap::new();
    globs.insert("g".to_string(), VarInfo { id: 7, ty: 1 });
    globs.insert("x".to_string(), VarInfo { id: 8, ty: 0 });
    let mut ctx = context(&funcs, &globs);
    assert_eq!(ctx.lookup(&"x".to_string()), Ok((true, VarInfo { id: 8, ty: 0 })));
    ctx.names[0].insert("x".to_string(), VarInfo { id: 0, ty: 0 });
    ctx.names.push(SymbolMap::new());
    assert_eq!(ctx.lookup(&"x".to_string()), Ok((false, VarInfo { id: 0, ty: 0 })));
    ctx.names[1].insert("x".to_string(), VarInfo { id: 1, ty: 3 });
    assert_eq!(ctx.lookup(&"x".to_string()), Ok((false, VarInfo { id: 1, ty: 3 })));
    assert_eq!(ctx.lookup(&"g".to_string()), Ok((true, VarInfo { id: 7, ty: 1 })));
    assert_eq!(ctx.lookup(&"h".to_string()), Err(LowerError::VarUndefined));
    ctx.names.pop();
    assert_eq!(ctx.lookup(&"x".to_string()), Ok((false, VarInfo { id: 0, ty: 0 })));
}

#[test]
fn context_counts_labels() {
    let funcs = FuncMap::new();
    let globs = SymbolMap::new();
    let mut ctx = context(&funcs, &globs);
    assert_eq!(ctx.new_label(), Ok(0));
    assert_eq!(ctx.new_label(), Ok(1));
    ctx.label_cnt = u32::MAX - 1;
    assert_eq!(ctx.new_label(), Ok(u32::MAX - 1));
    assert_eq!(ctx.new_label(), Err(LowerError::LimitExceeded));
    assert_eq!(ctx.label_cnt, u32::MAX);
}

#[test]
fn labels_are_bounded() {
    let funcs = FuncMap::new();
    let globs = SymbolMap::new();
    let mut ctx = context(&funcs, &globs);
    ctx.label_cnt = u32::MAX - 2;
    let s = Stmt::For { cond: None, update: None, body: Box::new(Stmt::Empty) };
    assert_eq!(stmt(&mut ctx, &s), Err(LowerError::LimitExceeded));
    let mut ctx = context(&funcs, &globs);
    ctx.label_cnt = u32::MAX - 3;
    assert_eq!(stmt(&mut ctx, &s), Ok(()));
    assert_eq!(ctx.label_cnt, u32::MAX);
    let mut ctx = context(&funcs, &globs);
    ctx.label_cnt = u32::MAX - 1;
    let c = Expr::Condition(Box::new(Expr::Int(1)), Box::new(Expr::Int(2)), Box::new(Expr::Int(3)));
    assert_eq!(expr(&mut ctx, &c, true), Err(LowerError::LimitExceeded));
    let mut ctx = context(&funcs, &globs);
    ctx.var_cnt = u32::MAX;
    let d = Decl { ty: 0, name: "x".to_string(), dims: vec![], init: None };
    assert_eq!(decl(&mut ctx, &d), Err(LowerError::LimitExceeded));
}

#[test]
fn expression_as_address_or_value() {
    let funcs = FuncMap::new();
    let globs = SymbolMap::new();
    let mut ctx = context(&funcs, &globs);
    ctx.names[0].insert("p".to_string(), VarInfo { id: 4, ty: 2 });
    let p = Expr::Var("p".to_string());
    assert_eq!(expr(&mut ctx, &p, false), Ok(2));
    assert_eq!(ctx.stmts, vec![IrStmt::LocalAddr(4)]);
    ctx.stmts.clear();
    assert_eq!(expr(&mut ctx, &p, true), Ok(2));
    assert_eq!(ctx.stmts, vec![IrStmt::LocalAddr(4), IrStmt::Load]);
    ctx.stmts.clear();
    let d = Expr::Deref(Box::new(Expr::Var("p".to_string())));
    assert_eq!(expr(&mut ctx, &d, false), Ok(1));
    assert_eq!(ctx.stmts, vec![IrStmt::LocalAddr(4), IrStmt::Load]);
    ctx.stmts.clear();
    assert_eq!(expr(&mut ctx, &d, true), Ok(1));
    assert_eq!(ctx.stmts, vec![IrStmt::LocalAddr(4), IrStmt::Load, IrStmt::Load]);
    ctx.stmts.clear();
    let a = Expr::AddrOf(Box::new(Expr::Var("p".to_string())));
    assert_eq!(expr(&mut ctx, &a, true), Ok(3));
    assert_eq!(ctx.stmts, vec![IrStmt::LocalAddr(4)]);
}

#[test]
fn one_function_against_given_tables() {
    let mut funcs = FuncMap::new();
    funcs.insert("g".to_string(), FuncSig { slot: 5, ret: 1, params: vec![0], defined: false });
    let mut globs = SymbolMap::new();
    globs.insert("x".to_string(), VarInfo { id: 2, ty: 0 });
    let p = parse("int *f(int a) { return g(a + x); }").unwrap();
    let f = func(&p.funcs[0], &funcs, &globs).unwrap();
    assert_eq!(f.name, "f");
    assert_eq!(
        f.stmts,
        vec![
            IrStmt::LocalAddr(0),
            IrStmt::Load,
            IrStmt::GlobAddr(2),
            IrStmt::Load,
            IrStmt::Binary(minidecaf::ast::BinaryOp::Add),
            IrStmt::Call(5),
            IrStmt::Ret,
        ]
    );
}
