use minidecaf::ast::{BinaryOp, Decl, Expr, Func, Prog, Stmt, UnaryOp};
use minidecaf::grammar::{ParseError, TokenKind};
use minidecaf::parser::{parse, parse_tokens, Lexer, Parser, Token};

fn kinds(text: &str) -> Vec<TokenKind> {
    Lexer::new(text).all().unwrap().iter().map(|t| t.ty).collect()
}

fn pieces(text: &str) -> Vec<String> {
    Lexer::new(text).all().unwrap().iter().map(|t| t.piece.clone()).collect()
}

#[test]
fn lexer_knows_every_token() {
    assert_eq!(
        kinds("int return if else while do for break continue"),
        vec![TokenKind::Int, TokenKind::Return, TokenKind::If, TokenKind::Else, TokenKind::While, TokenKind::Do, TokenKind::For, TokenKind::Break, TokenKind::Continue]
    );
    assert_eq!(kinds("; ( ) { } [ ] ,"), vec![TokenKind::Semi, TokenKind::LPar, TokenKind::RPar, TokenKind::LBrc, TokenKind::RBrc, TokenKind::LBrk, TokenKind::RBrk, TokenKind::Comma]);
    assert_eq!(
        kinds("= + - * / % < <= >= > == != && || ~ ! ? : &"),
        vec![
            TokenKind::Assign, TokenKind::Add, TokenKind::Sub, TokenKind::Mul, TokenKind::Div, TokenKind::Mod, TokenKind::Lt, TokenKind::Le, TokenKind::Ge, TokenKind::Gt, TokenKind::Eq, TokenKind::Ne, TokenKind::And, TokenKind::Or, TokenKind::BNot, TokenKind::LNot,
            TokenKind::Question, TokenKind::Colon, TokenKind::AddrOf,
        ]
    );
    assert_eq!(kinds("12 x _y1"), vec![TokenKind::IntConst, TokenKind::Id, TokenKind::Id]);
}

#[test]
fn lexer_takes_the_longest_token() {
    assert_eq!(kinds("intx int1 _int returning"), vec![TokenKind::Id, TokenKind::Id, TokenKind::Id, TokenKind::Id]);
    assert_eq!(kinds("a<=b"), vec![TokenKind::Id, TokenKind::Le, TokenKind::Id]);
    assert_eq!(kinds("a<==b"), vec![TokenKind::Id, TokenKind::Le, TokenKind::Assign, TokenKind::Id]);
    assert_eq!(kinds("a&&&b"), vec![TokenKind::Id, TokenKind::And, TokenKind::AddrOf, TokenKind::Id]);
    assert_eq!(kinds("a===b"), vec![TokenKind::Id, TokenKind::Eq, TokenKind::Assign, TokenKind::Id]);
    assert_eq!(kinds("!!=a"), vec![TokenKind::LNot, TokenKind::Ne, TokenKind::Id]);
    assert_eq!(kinds("12ab"), vec![TokenKind::IntConst, TokenKind::Id]);
    assert_eq!(pieces("12ab <= x_1"), vec!["12", "ab", "<=", "x_1"]);
}

#[test]
fn lexer_skips_space() {
    assert_eq!(pieces(" \t\r\n\x0b\x0c a \n b"), vec!["a", "b"]);
    assert!(kinds("").is_empty());
    assert!(kinds("  \n ").is_empty());
}

#[test]
fn lexer_rejects_other_characters() {
    for text in ["a | b", "a # b", "a @", "\"", "é", "a ^ b", "$"] {
        assert_eq!(Lexer::new(text).all().unwrap_err(), ParseError::Character);
    }
}

#[test]
fn lexer_continues_from_its_position() {
    let mut l = Lexer::new("int x;");
    l.pos = 3;
    let tokens = l.all().unwrap();
    assert_eq!(tokens.len(), 2);
    assert_eq!(tokens[0].str(), "x");
}

#[test]
fn token_parse() {
    let t = |s: &str| Token { ty: TokenKind::IntConst, piece: s.to_string() };
    assert_eq!(t("0").parse(10), Ok(0));
    assert_eq!(t("0010").parse(10), Ok(10));
    assert_eq!(t("11").parse(10), Err(ParseError::NumberTooLarge));
    assert_eq!(t("4294967295").parse(u32::MAX), Ok(u32::MAX));
    assert_eq!(t("4294967296").parse(u32::MAX), Err(ParseError::NumberTooLarge));
    assert_eq!(t("99999999999999999999").parse(u32::MAX), Err(ParseError::NumberTooLarge));
    assert_eq!(t("2147483647").parse(0x7fff_ffff), Ok(0x7fff_ffff));
    assert_eq!(t("2147483648").parse(0x7fff_ffff), Err(ParseError::NumberTooLarge));
    assert_eq!(t("12a").parse(100), Err(ParseError::Syntax));
    assert_eq!(t("99999999999999999999x").parse(100), Err(ParseError::Syntax));
    assert_eq!(t("-1").parse(100), Err(ParseError::Syntax));
    assert_eq!(t("").parse(100), Ok(0));
}

fn show(e: &Expr) -> String {
    match e {
        Expr::Int(x) => format!("{}", x),
        Expr::Unary(op, x) => format!("({:?} {})", op, show(x)),
        Expr::Binary(op, l, r) => format!("({:?} {} {})", op, show(l), show(r)),
        Expr::Var(name) => name.clone(),
        Expr::Assign(l, r) => format!("(= {} {})", show(l), show(r)),
        Expr::Condition(c, t, f) => format!("(? {} {} {})", show(c), show(t), show(f)),
        Expr::Call(name, args) => {
            let args: Vec<String> = args.iter().map(show).collect();
            format!("({}({}))", name, args.join(","))
        }
        Expr::Deref(x) => format!("(* {})", show(x)),
        Expr::AddrOf(x) => format!("(& {})", show(x)),
        Expr::Cast(ty, x) => format!("(cast{} {})", ty, show(x)),
        Expr::Index(a, i) => format!("([] {} {})", show(a), show(i)),
    }
}

fn show_decl(d: &Decl) -> String {
    let mut s = format!("{}:{}", d.name, d.ty);
    for n in &d.dims {
        s += &format!("[{}]", n);
    }
    if let Some(x) = &d.init {
        s += &format!("={}", show(x));
    }
    s
}

fn show_opt(e: &Option<Expr>) -> String {
    match e {
        Some(e) => show(e),
        None => "_".to_string(),
    }
}

fn show_stmt(s: &Stmt) -> String {
    match s {
        Stmt::Empty => ";".to_string(),
        Stmt::Ret(e) => format!("ret {};", show(e)),
        Stmt::Decl(d) => format!("decl {};", show_decl(d)),
        Stmt::Expr(e) => format!("{};", show(e)),
        Stmt::If(c, t, None) => format!("if {} {{{}}}", show(c), show_stmt(t)),
        Stmt::If(c, t, Some(f)) => {
            format!("if {} {{{}}} else {{{}}}", show(c), show_stmt(t), show_stmt(f))
        }
        Stmt::Block(ss) => {
            let ss: Vec<String> = ss.iter().map(show_stmt).collect();
            format!("[{}]", ss.join(" "))
        }
        Stmt::DoWhile(b, c) => format!("do {{{}}} while {}", show_stmt(b), show(c)),
        Stmt::For { cond, update, body } => {
            format!("for {} {} {{{}}}", show_opt(cond), show_opt(update), show_stmt(body))
        }
        Stmt::Continue => "continue;".to_string(),
        Stmt::Break => "break;".to_string(),
    }
}

fn show_func(f: &Func) -> String {
    let ps: Vec<String> = f.params.iter().map(show_decl).collect();
    let body = match &f.stmts {
        None => ";".to_string(),
        Some(ss) => {
            let ss: Vec<String> = ss.iter().map(show_stmt).collect();
            format!("{{{}}}", ss.join(" "))
        }
    };
    format!("{}:{}({}){}", f.name, f.ret, ps.join(","), body)
}

fn expr(text: &str) -> String {
    let p = parse(&format!("int f() {{ {}; }}", text)).unwrap();
    match &p.funcs[0].stmts.as_ref().unwrap()[0] {
        Stmt::Expr(e) => show(e),
        _ => panic!("no expression statement"),
    }
}

fn stmts(text: &str) -> String {
    let p = parse(&format!("int f() {{ {} }}", text)).unwrap();
    let ss: Vec<String> = p.funcs[0].stmts.as_ref().unwrap().iter().map(show_stmt).collect();
    ss.join(" ")
}

#[test]
fn binary_operators_by_precedence() {
    assert_eq!(expr("1 + 2 * 3"), "(Add 1 (Mul 2 3))");
    assert_eq!(expr("1 * 2 + 3"), "(Add (Mul 1 2) 3)");
    assert_eq!(expr("1 + 2 < 3 - 4"), "(Lt (Add 1 2) (Sub 3 4))");
    assert_eq!(expr("1 < 2 == 3 >= 4"), "(Eq (Lt 1 2) (Ge 3 4))");
    assert_eq!(expr("1 == 2 && 3 != 4"), "(And (Eq 1 2) (Ne 3 4))");
    assert_eq!(expr("1 && 2 || 3 && 4"), "(Or (And 1 2) (And 3 4))");
    assert_eq!(expr("1 || 2 && 3"), "(Or 1 (And 2 3))");
    assert_eq!(expr("a % b / c"), "(Div (Mod a b) c)");
    assert_eq!(expr("a <= b > c"), "(Gt (Le a b) c)");
}

#[test]
fn binary_operators_to_the_left() {
    assert_eq!(expr("1 - 2 - 3"), "(Sub (Sub 1 2) 3)");
    assert_eq!(expr("1 - 2 + 3"), "(Add (Sub 1 2) 3)");
    assert_eq!(expr("8 / 4 / 2"), "(Div (Div 8 4) 2)");
    assert_eq!(expr("a == b != c"), "(Ne (Eq a b) c)");
    assert_eq!(expr("a || b || c"), "(Or (Or a b) c)");
}

#[test]
fn assignment_and_conditional_to_the_right() {
    assert_eq!(expr("a = b = c"), "(= a (= b c))");
    assert_eq!(expr("a ? b : c ? d : e"), "(? a b (? c d e))");
    assert_eq!(expr("a ? b ? c : d : e"), "(? a (? b c d) e)");
    assert_eq!(expr("a = b ? c : d"), "(= a (? b c d))");
    assert_eq!(expr("a ? b : c = d"), "(= (? a b c) d)");
    assert_eq!(expr("a ? b = 1 : c"), "(? a (= b 1) c)");
    assert_eq!(expr("a || b ? c : d"), "(? (Or a b) c d)");
    assert_eq!(expr("a + b = c"), "(= (Add a b) c)");
    assert_eq!(expr("a = b + c"), "(= a (Add b c))");
}

#[test]
fn prefixes_bind_tighter_than_binary_operators() {
    assert_eq!(expr("-a + b"), "(Add (Neg a) b)");
    assert_eq!(expr("a - -b"), "(Sub a (Neg b))");
    assert_eq!(expr("!a == ~b"), "(Eq (LNot a) (BNot b))");
    assert_eq!(expr("- - a"), "(Neg (Neg a))");
    assert_eq!(expr("*p * *q"), "(Mul (* p) (* q))");
    assert_eq!(expr("&a == &b"), "(Eq (& a) (& b))");
    assert_eq!(expr("**p"), "(* (* p))");
    assert_eq!(expr("*&a"), "(* (& a))");
    assert_eq!(expr("!a = b"), "(= (LNot a) b)");
}

#[test]
fn casts() {
    assert_eq!(expr("(int) a"), "(cast0 a)");
    assert_eq!(expr("(int **) a + 1"), "(Add (cast2 a) 1)");
    assert_eq!(expr("(int *) (int) -a"), "(cast1 (cast0 (Neg a)))");
    assert_eq!(expr("-(int) a"), "(Neg (cast0 a))");
    assert_eq!(expr("(a) + 1"), "(Add a 1)");
    assert_eq!(expr("((int) a)"), "(cast0 a)");
}

#[test]
fn indexing_binds_tightest() {
    assert_eq!(expr("a[1]"), "([] a 1)");
    assert_eq!(expr("a[1][2]"), "([] ([] a 1) 2)");
    assert_eq!(expr("-a[1]"), "(Neg ([] a 1))");
    assert_eq!(expr("*a[1]"), "(* ([] a 1))");
    assert_eq!(expr("(int *) a[1]"), "(cast1 ([] a 1))");
    assert_eq!(expr("(-a)[1]"), "([] (Neg a) 1)");
    assert_eq!(expr("a[b = c]"), "([] a (= b c))");
    assert_eq!(expr("f(1)[2]"), "([] (f(1)) 2)");
    assert_eq!(expr("a[1] + b[2]"), "(Add ([] a 1) ([] b 2))");
}

#[test]
fn calls_and_parentheses() {
    assert_eq!(expr("f()"), "(f())");
    assert_eq!(expr("f(1)"), "(f(1))");
    assert_eq!(expr("f(1, a + 2, g(b))"), "(f(1,(Add a 2),(g(b))))");
    assert_eq!(expr("f(a = 1, b ? c : d)"), "(f((= a 1),(? b c d)))");
    assert_eq!(expr("(1 + 2) * 3"), "(Mul (Add 1 2) 3)");
    assert_eq!(expr("((a))"), "a");
    assert_eq!(expr("2147483647"), "2147483647");
}

#[test]
fn statements() {
    assert_eq!(stmts(";"), ";");
    assert_eq!(stmts("return 1;"), "ret 1;");
    assert_eq!(stmts("int x; int *y = &x; x = 1;"), "decl x:0; decl y:1=(& x); (= x 1);");
    assert_eq!(stmts("{ int x; { } }"), "[decl x:0; []]");
    assert_eq!(stmts("break; continue;"), "break; continue;");
    assert_eq!(stmts("int a[2][3];"), "decl a:0[2][3];");
    assert_eq!(stmts("int **a[4294967295];"), "decl a:2[4294967295];");
}

#[test]
fn if_else_binds_to_the_nearest_if() {
    assert_eq!(stmts("if (a) b;"), "if a {b;}");
    assert_eq!(stmts("if (a) b; else c;"), "if a {b;} else {c;}");
    assert_eq!(stmts("if (a) if (b) c; else d;"), "if a {if b {c;} else {d;}}");
    assert_eq!(
        stmts("if (a) { if (b) c; } else d;"),
        "if a {[if b {c;}]} else {d;}"
    );
    assert_eq!(
        stmts("if (a) b; else if (c) d; else e;"),
        "if a {b;} else {if c {d;} else {e;}}"
    );
}

#[test]
fn loops() {
    assert_eq!(stmts("while (a) b;"), "for a _ {b;}");
    assert_eq!(stmts("do a; while (b);"), "do {a;} while b");
    assert_eq!(stmts("do { a; } while (b); c;"), "do {[a;]} while b c;");
    assert_eq!(stmts("for (;;) ;"), "[; for _ _ {;}]");
    assert_eq!(stmts("for (i = 0; i < n; i = i + 1) s;"), "[(= i 0); for (Lt i n) (= i (Add i 1)) {s;}]");
    assert_eq!(
        stmts("for (int i = 0; i < n;) { break; }"),
        "[decl i:0=0; for (Lt i n) _ {[break;]}]"
    );
    assert_eq!(stmts("for (; ; i = 1) continue;"), "[; for _ (= i 1) {continue;}]");
    assert_eq!(stmts("while (a) while (b) c;"), "for a _ {for b _ {c;}}");
}

#[test]
fn programs() {
    let p = parse(
        "int g; int *h = 3; int f(int a, int *b); int a[2];
         int f(int a, int *b) { return a; } int main() { }",
    )
    .unwrap();
    let globs: Vec<String> = p.globs.iter().map(show_decl).collect();
    let funcs: Vec<String> = p.funcs.iter().map(show_func).collect();
    assert_eq!(globs, vec!["g:0", "h:1=3", "a:0[2]"]);
    assert_eq!(funcs, vec!["f:0(a:0,b:1);", "f:0(a:0,b:1){ret a;}", "main:0(){}"]);
    let empty = parse("").unwrap();
    assert!(empty.funcs.is_empty() && empty.globs.is_empty());
}

#[test]
fn parameters_are_declarations() {
    let p = parse("int *f(int a = 1, int b[2]) ;").unwrap();
    assert_eq!(show_func(&p.funcs[0]), "f:1(a:0=1,b:0[2]);");
}

#[test]
fn syntax_errors() {
    for text in [
        "int",
        "int f",
        "int f(",
        "int f()",
        "int f() {",
        "int f() { return }",
        "int f() { return 1 }",
        "int f() { 1 + ; }",
        "int f() { (1; }",
        "int f() { f(1,); }",
        "int f() { f(1 2); }",
        "int f() { a[1; }",
        "int f() { a ? b; }",
        "int f() { if a b; }",
        "int f() { if (a) int x; }",
        "int f() { while (a) int x; }",
        "int f() { do a; while (b) }",
        "int f() { do a; (b); }",
        "int f() { for (;;;) ; }",
        "int f() { for (int i) ; }",
        "int f() { else a; }",
        "int f() { break }",
        "int f() { } }",
        "int f(int) { }",
        "int f(int a,) { }",
        "int f(a) { }",
        "int x = ;",
        "int x[];",
        "int x[a];",
        "int x[1] = 2;",
        "int x",
        "x;",
        "f() { }",
        "int 1;",
        "int f() { int; }",
        "int f() { (int) ; }",
        "int f() { (int a); }",
        "return 1;",
        ";",
    ] {
        assert_eq!(parse(text).unwrap_err(), ParseError::Syntax, "{}", text);
    }
}

#[test]
fn number_errors() {
    assert_eq!(parse("int x = 2147483648;").unwrap_err(), ParseError::NumberTooLarge);
    assert_eq!(parse("int x[4294967296];").unwrap_err(), ParseError::NumberTooLarge);
    assert!(parse("int x = 2147483647;").is_ok());
    assert!(parse("int f() { return -2147483647 - 1; }").is_ok());
}

#[test]
fn character_errors_come_first() {
    assert_eq!(parse("int f( { # }").unwrap_err(), ParseError::Character);
    assert_eq!(parse("int f() { return a | b; }").unwrap_err(), ParseError::Character);
}

#[test]
fn parser_reads_what_its_lexer_has_left() {
    let mut l = Lexer::new("garbage ) int x;");
    l.pos = 9;
    let p = Parser {}.parse(&mut l).unwrap();
    assert_eq!(show_decl(&p.globs[0]), "x:0");
}

#[test]
fn tokens_need_no_lexer() {
    let t = |ty, s: &str| Token { ty, piece: s.to_string() };
    let tokens = vec![
        t(TokenKind::Int, "int"),
        t(TokenKind::Mul, "*"),
        t(TokenKind::Id, "p"),
        t(TokenKind::Assign, "="),
        t(TokenKind::IntConst, "5"),
        t(TokenKind::Semi, ";"),
    ];
    let p: Prog = parse_tokens(&tokens).unwrap();
    assert_eq!(show_decl(&p.globs[0]), "p:1=5");
    let bad = vec![
        t(TokenKind::Int, "int"),
        t(TokenKind::Id, "p"),
        t(TokenKind::Assign, "="),
        t(TokenKind::IntConst, "five"),
        t(TokenKind::Semi, ";"),
    ];
    assert_eq!(parse_tokens(&bad).unwrap_err(), ParseError::Syntax);
}

#[test]
fn operators_of_the_tree() {
    let p = parse("int f() { return -1 < ~2 - !3; }").unwrap();
    match &p.funcs[0].stmts.as_ref().unwrap()[0] {
        Stmt::Ret(Expr::Binary(BinaryOp::Lt, l, r)) => {
            assert!(matches!(**l, Expr::Unary(UnaryOp::Neg, _)));
            assert!(matches!(**r, Expr::Binary(BinaryOp::Sub, _, _)));
        }
        _ => panic!("not a comparison"),
    }
}
