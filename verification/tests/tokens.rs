use minidecaf::lexer::{
    keyword_map, tokenize, CharacterType, Ctype, Token, TokenType, TokenizeError, Tokenizer,
    Type,
};

fn types(tokens: &[Token]) -> Vec<TokenType> {
    tokens.iter().map(|t| t.ty.clone()).collect()
}

fn ident(name: &str) -> TokenType {
    TokenType::Ident(name.to_string())
}

#[test]
fn tokenize_a_function() {
    assert_eq!(
        types(&tokenize("int main() {\n\treturn x1 = 42;\n}\n").unwrap()),
        vec![
            TokenType::Int,
            ident("main"),
            TokenType::LeftParen,
            TokenType::RightParen,
            TokenType::LeftBrace,
            TokenType::Return,
            ident("x1"),
            TokenType::Equal,
            TokenType::Num(42),
            TokenType::Semicolon,
            TokenType::RightBrace,
        ]
    );
}

#[test]
fn tokenize_takes_the_longest_word() {
    assert_eq!(
        types(&tokenize("int integer returns _return return_ i").unwrap()),
        vec![
            TokenType::Int,
            ident("integer"),
            ident("returns"),
            ident("_return"),
            ident("return_"),
            ident("i"),
        ]
    );
    assert_eq!(types(&tokenize("1a").unwrap()), vec![TokenType::Num(1), ident("a")]);
    assert_eq!(types(&tokenize("a1 2").unwrap()), vec![ident("a1"), TokenType::Num(2)]);
}

#[test]
fn tokenize_numbers() {
    assert_eq!(types(&tokenize("0 007 2147483647").unwrap()), vec![
        TokenType::Num(0),
        TokenType::Num(7),
        TokenType::Num(2147483647),
    ]);
    assert_eq!(tokenize("2147483648").unwrap_err(), TokenizeError::NumberTooLarge);
    assert_eq!(tokenize("x = 99999999999;").unwrap_err(), TokenizeError::NumberTooLarge);
}

#[test]
fn tokenize_rejects_other_characters() {
    assert_eq!(tokenize("a + b").unwrap_err(), TokenizeError::UnknownCharacter);
    assert_eq!(tokenize("a\r\n").unwrap_err(), TokenizeError::UnknownCharacter);
    assert_eq!(tokenize("#").unwrap_err(), TokenizeError::UnknownCharacter);
}

#[test]
fn tokenize_nothing() {
    assert!(tokenize("").unwrap().is_empty());
    assert!(tokenize(" \n\t ").unwrap().is_empty());
}

#[test]
fn tokenize_letters_of_other_scripts() {
    assert_eq!(types(&tokenize("é1 = 2;").unwrap()), vec![
        ident("é1"),
        TokenType::Equal,
        TokenType::Num(2),
        TokenType::Semicolon,
    ]);
}

#[test]
fn single_letters() {
    assert_eq!(TokenType::new_single_letter(';'), Some(TokenType::Semicolon));
    assert_eq!(TokenType::new_single_letter('='), Some(TokenType::Equal));
    assert_eq!(TokenType::new_single_letter('('), Some(TokenType::LeftParen));
    assert_eq!(TokenType::new_single_letter(')'), Some(TokenType::RightParen));
    assert_eq!(TokenType::new_single_letter('{'), Some(TokenType::LeftBrace));
    assert_eq!(TokenType::new_single_letter('}'), Some(TokenType::RightBrace));
    assert_eq!(TokenType::new_single_letter('+'), None);
    assert_eq!(TokenType::new_single_letter('a'), None);
}

#[test]
fn token_is_ident() {
    let t = Token::new(ident("main"));
    assert!(t.is_ident("main"));
    assert!(!t.is_ident("mai"));
    assert!(!t.is_ident("main2"));
    assert!(!Token::new(TokenType::Int).is_ident("int"));
    assert!(!Token::new(TokenType::Num(1)).is_ident("1"));
}

#[test]
fn defaults() {
    assert_eq!(Token::default().ty, TokenType::Int);
    assert_eq!(Ctype::default(), Ctype::Int);
    assert_eq!(Type::default(), Type { ty: Ctype::Int, size: 4, align: 4 });
}

#[test]
fn duplicate_keeps_the_token() {
    for ty in [ident("abc"), TokenType::Num(-3), TokenType::Return, TokenType::LeftBrace] {
        assert_eq!(ty.duplicate(), ty);
    }
}

#[test]
fn keywords() {
    let m = keyword_map();
    assert_eq!(m.get(&"int".to_string()), Some(&TokenType::Int));
    assert_eq!(m.get(&"return".to_string()), Some(&TokenType::Return));
    assert_eq!(m.get(&"if".to_string()), None);
}

#[test]
fn tokenizer_classifies_characters() {
    let t = Tokenizer::new("a_ 1\n\t;");
    assert_eq!(t.get_character(0), Some(CharacterType::Alphabetic));
    assert_eq!(t.get_character(1), Some(CharacterType::Alphabetic));
    assert_eq!(t.get_character(2), Some(CharacterType::Whitespace));
    assert_eq!(t.get_character(3), Some(CharacterType::Digit));
    assert_eq!(t.get_character(4), Some(CharacterType::NewLine));
    assert_eq!(t.get_character(5), Some(CharacterType::Whitespace));
    assert_eq!(t.get_character(6), Some(CharacterType::NonAlphabetic(';')));
    assert_eq!(t.get_character(7), None);
    assert_eq!(t.get_character(usize::MAX), None);
}

#[test]
fn tokenizer_reads_one_token_at_a_time() {
    let mut t = Tokenizer::new("ab1 23");
    let keywords = keyword_map();
    t.ident(&keywords);
    assert_eq!(t.pos, 3);
    assert_eq!(types(&t.tokens), vec![ident("ab1")]);
    t.pos = 4;
    assert_eq!(t.number(), Ok(()));
    assert_eq!(t.pos, 6);
    assert_eq!(types(&t.tokens), vec![ident("ab1"), TokenType::Num(23)]);
}

#[test]
fn scan_continues_from_the_position() {
    let mut t = Tokenizer::new("int x;");
    t.pos = 3;
    let all = t.scan(&keyword_map()).unwrap();
    assert_eq!(types(&all), vec![ident("x"), TokenType::Semicolon]);
    assert_eq!(types(&t.tokens), vec![ident("x"), TokenType::Semicolon]);
}
