use minidecaf::compiler::intermediate_code_generator::{traverse, GenError};
use minidecaf::compiler::lexer::{check_valid_token, return_letter_kind, LexError};
use minidecaf::compiler::native_code_generator::NativeError;
use minidecaf::compiler::parser::{consume, create_node, ParseError};
use minidecaf::compiler::{
    generate_intermediate_code, generate_native_code, lexing, parsing, LetterKind, Node,
    NodeKind, Token, TokenKind,
};

fn kinds_and_texts(tokens: &[Token]) -> Vec<(TokenKind, String)> {
    tokens.iter().map(|t| (t.kind, t.val.clone())).collect()
}

fn tok(kind: TokenKind, val: &str) -> Token {
    Token { kind, val: val.to_string() }
}

fn lex(text: &str) -> Vec<(TokenKind, String)> {
    kinds_and_texts(&lexing(&text.to_string()).unwrap())
}

fn pairs(items: &[(TokenKind, &str)]) -> Vec<(TokenKind, String)> {
    items.iter().map(|(k, v)| (*k, v.to_string())).collect()
}

#[test]
fn lexing_splits_numbers_and_operators() {
    assert_eq!(
        lex("12+3*(4-5) "),
        pairs(&[
            (TokenKind::TkNum, "12"),
            (TokenKind::TkOperator, "+"),
            (TokenKind::TkNum, "3"),
            (TokenKind::TkOperator, "*"),
            (TokenKind::TkParenthesis, "("),
            (TokenKind::TkNum, "4"),
            (TokenKind::TkOperator, "-"),
            (TokenKind::TkNum, "5"),
            (TokenKind::TkParenthesis, ")"),
        ])
    );
}

#[test]
fn lexing_joins_two_comparison_characters() {
    assert_eq!(
        lex("1<=2 == 3!=4<5 "),
        pairs(&[
            (TokenKind::TkNum, "1"),
            (TokenKind::TkComparisonOperator, "<="),
            (TokenKind::TkNum, "2"),
            (TokenKind::TkComparisonOperator, "=="),
            (TokenKind::TkNum, "3"),
            (TokenKind::TkComparisonOperator, "!="),
            (TokenKind::TkNum, "4"),
            (TokenKind::TkComparisonOperator, "<"),
            (TokenKind::TkNum, "5"),
        ])
    );
}

#[test]
fn lexing_drops_what_the_end_cuts_short() {
    assert_eq!(lex("1+23"), pairs(&[(TokenKind::TkNum, "1"), (TokenKind::TkOperator, "+")]));
    assert_eq!(lex("1 <"), pairs(&[(TokenKind::TkNum, "1")]));
    assert_eq!(lex(""), pairs(&[]));
}

#[test]
fn lexing_tests_comparisons_unless_a_blank_ends_them() {
    assert_eq!(lexing(&"1=2 ".to_string()).unwrap_err(), LexError::InvalidToken);
    assert_eq!(lexing(&"1!+2 ".to_string()).unwrap_err(), LexError::InvalidToken);
    assert_eq!(lexing(&"1=<2 ".to_string()).unwrap_err(), LexError::InvalidToken);
    assert_eq!(
        lex("1 = 2 "),
        pairs(&[
            (TokenKind::TkNum, "1"),
            (TokenKind::TkComparisonOperator, "="),
            (TokenKind::TkNum, "2"),
        ])
    );
}

#[test]
fn lexing_rejects_other_characters() {
    assert_eq!(lexing(&"1+a ".to_string()).unwrap_err(), LexError::UnrecognizedLetter);
    assert_eq!(lexing(&"1;".to_string()).unwrap_err(), LexError::UnrecognizedLetter);
    assert_eq!(lexing(&"1\n".to_string()).unwrap_err(), LexError::UnrecognizedLetter);
}

#[test]
fn letter_kinds() {
    assert_eq!(return_letter_kind('7'), Ok(LetterKind::LtNum));
    assert_eq!(return_letter_kind(' '), Ok(LetterKind::LtSpace));
    assert_eq!(return_letter_kind('/'), Ok(LetterKind::LtOperator));
    assert_eq!(return_letter_kind(')'), Ok(LetterKind::LtParenthesis));
    assert_eq!(return_letter_kind('!'), Ok(LetterKind::LtComparisonOperator));
    assert_eq!(return_letter_kind('x'), Err(LexError::UnrecognizedLetter));
}

#[test]
fn valid_comparisons() {
    for op in ["<", ">", "<=", ">=", "==", "!="] {
        assert_eq!(check_valid_token(op), Ok(op));
    }
    for op in ["=", "!", "=<", "<>", "", "<=="] {
        assert_eq!(check_valid_token(op), Err(LexError::InvalidToken));
    }
}

fn show(node: &Option<Box<Node>>) -> String {
    match node {
        None => "_".to_string(),
        Some(n) => show_node(n),
    }
}

fn show_node(n: &Node) -> String {
    if n.left.is_none() && n.right.is_none() {
        n.val.clone()
    } else {
        format!("({} {} {})", n.val, show(&n.left), show(&n.right))
    }
}

fn parse(tokens: &[(TokenKind, &str)]) -> Vec<String> {
    let tokens: Vec<Token> = tokens.iter().map(|(k, v)| tok(*k, v)).collect();
    parsing(&tokens)
        .unwrap()
        .iter()
        .map(|n| match n {
            Some(n) => show_node(n),
            None => "end".to_string(),
        })
        .collect()
}

const NUM: TokenKind = TokenKind::TkNum;
const OP: TokenKind = TokenKind::TkOperator;
const CMP: TokenKind = TokenKind::TkComparisonOperator;
const PAR: TokenKind = TokenKind::TkParenthesis;
const SYM: TokenKind = TokenKind::TkSymbol;
const VAR: TokenKind = TokenKind::TkVariable;

#[test]
fn parsing_respects_precedence() {
    assert_eq!(
        parse(&[(NUM, "1"), (OP, "+"), (NUM, "2"), (OP, "*"), (NUM, "3"), (SYM, ";")]),
        vec!["(+ 1 (* 2 3))", "end"]
    );
    assert_eq!(
        parse(&[
            (PAR, "("),
            (NUM, "1"),
            (OP, "+"),
            (NUM, "2"),
            (PAR, ")"),
            (OP, "*"),
            (NUM, "3"),
            (SYM, ";"),
        ]),
        vec!["(* (+ 1 2) 3)", "end"]
    );
}

#[test]
fn parsing_associates_to_the_left() {
    assert_eq!(
        parse(&[(NUM, "8"), (OP, "-"), (NUM, "3"), (OP, "-"), (NUM, "2"), (SYM, ";")]),
        vec!["(- (- 8 3) 2)", "end"]
    );
    assert_eq!(
        parse(&[(NUM, "8"), (OP, "/"), (NUM, "4"), (OP, "/"), (NUM, "2"), (SYM, ";")]),
        vec!["(/ (/ 8 4) 2)", "end"]
    );
}

#[test]
fn parsing_turns_greater_into_less() {
    assert_eq!(
        parse(&[(NUM, "1"), (CMP, ">"), (NUM, "2"), (SYM, ";")]),
        vec!["(< 2 1)", "end"]
    );
    assert_eq!(
        parse(&[(NUM, "1"), (CMP, ">="), (NUM, "2"), (SYM, ";")]),
        vec!["(<= 2 1)", "end"]
    );
    assert_eq!(
        parse(&[(NUM, "1"), (CMP, "<"), (NUM, "2"), (CMP, "=="), (NUM, "3"), (SYM, ";")]),
        vec!["(== (< 1 2) 3)", "end"]
    );
}

#[test]
fn parsing_signs_statements_and_assignments() {
    assert_eq!(parse(&[(OP, "-"), (NUM, "5"), (SYM, ";")]), vec!["(- 0 5)", "end"]);
    assert_eq!(parse(&[(OP, "+"), (NUM, "5"), (SYM, ";")]), vec!["(+ 0 5)", "end"]);
    assert_eq!(
        parse(&[
            (VAR, "x"),
            (CMP, "="),
            (NUM, "1"),
            (SYM, ";"),
            (VAR, "return"),
            (VAR, "x"),
            (SYM, ";"),
        ]),
        vec!["(= x 1)", "(return x _)", "end"]
    );
}

#[test]
fn parsing_stops_where_no_statement_is() {
    assert_eq!(parse(&[]), vec!["end"]);
    assert_eq!(parse(&[(NUM, "1")]), vec!["end"]);
    assert_eq!(parse(&[(NUM, "1"), (SYM, ";"), (NUM, "2")]), vec!["1", "end"]);
    assert_eq!(parse(&[(SYM, ";"), (NUM, "2"), (SYM, ";")]), vec!["end"]);
}

#[test]
fn parsing_wants_the_closing_parenthesis() {
    let tokens = vec![tok(PAR, "("), tok(NUM, "1"), tok(SYM, ";")];
    assert_eq!(parsing(&tokens).unwrap_err(), ParseError::ExpectedClosingParenthesis);
}

#[test]
fn consume_steps_over_the_expected_token() {
    let tokens = vec![tok(NUM, "1"), tok(OP, "+")];
    let mut idx = 1;
    assert!(!consume(&tokens, &mut idx, "-"));
    assert_eq!(idx, 1);
    assert!(consume(&tokens, &mut idx, "+"));
    assert_eq!(idx, 2);
    assert!(!consume(&tokens, &mut idx, "+"));
    assert_eq!(idx, 2);
}

#[test]
fn create_node_boxes_its_children() {
    let l = create_node("1", NodeKind::NdNum, None, None);
    let n = create_node("+", NodeKind::NdOperator, l, None).unwrap();
    assert_eq!(n.val, "+");
    assert_eq!(n.kind, NodeKind::NdOperator);
    assert_eq!(n.left.as_ref().unwrap().val, "1");
    assert!(n.right.is_none());
}

fn commands_of(tokens: &[(TokenKind, &str)]) -> Result<Vec<String>, GenError> {
    let tokens: Vec<Token> = tokens.iter().map(|(k, v)| tok(*k, v)).collect();
    generate_intermediate_code(&parsing(&tokens).unwrap())
}

#[test]
fn commands_come_in_postorder() {
    assert_eq!(
        commands_of(&[(NUM, "1"), (OP, "+"), (NUM, "2"), (OP, "*"), (NUM, "3"), (SYM, ";")]),
        Ok(vec!["PUSH 1", "PUSH 2", "PUSH 3", "MUL", "ADD"]
            .into_iter()
            .map(String::from)
            .collect())
    );
    assert_eq!(
        commands_of(&[(NUM, "1"), (CMP, ">="), (NUM, "2"), (SYM, ";")]),
        Ok(vec!["PUSH 2", "PUSH 1", "ELT"].into_iter().map(String::from).collect())
    );
}

#[test]
fn commands_of_assignment_and_return() {
    assert_eq!(
        commands_of(&[
            (VAR, "x"),
            (CMP, "="),
            (NUM, "4"),
            (OP, "-"),
            (NUM, "1"),
            (SYM, ";"),
            (VAR, "return"),
            (VAR, "x"),
            (CMP, "!="),
            (NUM, "3"),
            (SYM, ";"),
        ]),
        Ok(vec!["PUSH 4", "PUSH 1", "SUB", "STORE x", "LOAD x", "PUSH 3", "NONEQUAL"]
            .into_iter()
            .map(String::from)
            .collect())
    );
}

#[test]
fn commands_reject_bad_trees() {
    assert_eq!(
        commands_of(&[(NUM, "1"), (CMP, "="), (NUM, "2"), (SYM, ";")]),
        Err(GenError::ExpectedVariable)
    );
    let bad = Node { val: "%".to_string(), kind: NodeKind::NdOperator, left: None, right: None };
    let mut out = Vec::new();
    assert_eq!(traverse(&bad, &mut out), Err(GenError::UnexpectedOperator));
    let bad = Node {
        val: ">".to_string(),
        kind: NodeKind::NdComparisonOperator,
        left: None,
        right: None,
    };
    assert_eq!(traverse(&bad, &mut out), Err(GenError::UnexpectedOperator));
}

fn native_of(commands: &[&str]) -> Result<Vec<String>, NativeError> {
    generate_native_code(&commands.iter().map(|c| c.to_string()).collect())
}

#[test]
fn native_code_of_a_sum() {
    assert_eq!(
        native_of(&["PUSH 1", "PUSH 2", "ADD"]).unwrap(),
        vec![
            ".global main",
            "main:",
            "\tmv s0, sp",
            "\tadd t0, x0, 1",
            "\tsd t0, -8(sp)",
            "\taddi sp, sp, -8",
            "\tadd t0, x0, 2",
            "\tsd t0, -8(sp)",
            "\taddi sp, sp, -8",
            "\tld t0, 0(sp)",
            "\taddi sp, sp, 8",
            "\tld t1, 0(sp)",
            "\taddi sp, sp, 8",
            "\tadd t0, t1, t0",
            "\tsd t0, -8(sp)",
            "\taddi sp, sp, -8",
            "\tld a0, 0(sp)",
            "\taddi sp, sp, -8",
            "\tret",
        ]
    );
}

#[test]
fn native_code_gives_variables_cells_in_order() {
    assert_eq!(
        native_of(&["PUSH 1", "STORE x", "PUSH 2", "STORE y", "PUSH 3", "STORE x", "LOAD y"])
            .unwrap()[3..]
            .to_vec(),
        vec![
            "\tadd t0, x0, 1",
            "\tsd t0, -8(sp)",
            "\taddi sp, sp, -8",
            "\tld t0, 0(sp)",
            "\taddi sp, sp, 8",
            "\tsd t0, -8(s0)",
            "\taddi sp, sp, -8",
            "\tadd t0, x0, 2",
            "\tsd t0, -8(sp)",
            "\taddi sp, sp, -8",
            "\tld t0, 0(sp)",
            "\taddi sp, sp, 8",
            "\tsd t0, -16(s0)",
            "\taddi sp, sp, -8",
            "\tadd t0, x0, 3",
            "\tsd t0, -8(sp)",
            "\taddi sp, sp, -8",
            "\tld t0, 0(sp)",
            "\taddi sp, sp, 8",
            "\tsd t0, -8(s0)",
            "\tld t0, -16(s0)",
            "\tsd t0, -8(sp)",
            "\taddi sp, sp, -8",
            "\tld a0, 0(sp)",
            "\taddi sp, sp, -8",
            "\tret",
        ]
    );
}

#[test]
fn native_code_of_each_operator() {
    let middle = |c: &str| native_of(&[c]).unwrap()[7..].iter().rev().skip(5).rev().cloned().collect::<Vec<_>>();
    assert_eq!(middle("SUB"), vec!["\tsub t0, t1, t0"]);
    assert_eq!(middle("MUL"), vec!["\tmul t0, t1, t0"]);
    assert_eq!(middle("DIV"), vec!["\tdiv t0, t1, t0"]);
    assert_eq!(middle("EQUAL"), vec!["\tsub t0, t0, t1", "\tseqz t0, t0"]);
    assert_eq!(middle("NONEQUAL"), vec!["\tsub t0, t1, t0", "\tsnez t0, t0"]);
    assert_eq!(middle("LT"), vec!["\tslt t0, t1, t0"]);
    assert_eq!(middle("ELT"), vec!["\tsgt t0, t1, t0", "\txori t0, t0, 1"]);
}

#[test]
fn native_code_reads_the_first_two_words() {
    assert_eq!(native_of(&["PUSH 1 2"]).unwrap()[3], "\tadd t0, x0, 1");
    assert_eq!(native_of(&["PUSH "]).unwrap()[3], "\tadd t0, x0, ");
    assert_eq!(native_of(&["NOP", "", "ADD1"]).unwrap().len(), 6);
}

#[test]
fn native_code_errors() {
    assert_eq!(native_of(&["PUSH"]), Err(NativeError::MissingOperand));
    assert_eq!(native_of(&["STORE"]), Err(NativeError::MissingOperand));
    assert_eq!(native_of(&["LOAD"]), Err(NativeError::MissingOperand));
    assert_eq!(native_of(&["PUSH 1", "STORE x", "LOAD y"]), Err(NativeError::UnknownVariable));
}

#[test]
fn formula_from_text_to_assembly() {
    let tokens = lexing(&"(1+2)*3 ".to_string()).unwrap();
    let mut tokens = tokens;
    tokens.push(tok(SYM, ";"));
    let commands = generate_intermediate_code(&parsing(&tokens).unwrap()).unwrap();
    assert_eq!(commands, vec!["PUSH 1", "PUSH 2", "ADD", "PUSH 3", "MUL"]);
    let lines = generate_native_code(&commands).unwrap();
    assert_eq!(lines.len(), 3 + 3 + 3 + 7 + 3 + 7 + 3);
}
