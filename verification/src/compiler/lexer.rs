//! Splitting a formula into tokens.

use vstd::prelude::*;
use vstd::string::StrSliceExecFns;
use crate::text::{chars_of, text_of};
use crate::compiler::{tokens_view, LetterKind, LexerCondition, Token, TokenKind, TokenView};

verus! {

/// Why a text is no sequence of tokens.
#[derive(Debug, Clone, Copy, PartialEq, Eq, Structural)]
pub enum LexError {
    /// A character outside the alphabet of formulas.
    UnrecognizedLetter,
    /// A comparison operator that the language does not have.
    InvalidToken,
}

/// The class of a character, if it belongs to the alphabet: digits, the
/// blank, `+ - * /`, parentheses, and `< > = !`.
pub open spec fn letter_kind(c: char) -> Option<LetterKind> {
    if '0' <= c && c <= '9' {
        Some(LetterKind::LtNum)
    } else if c == ' ' {
        Some(LetterKind::LtSpace)
    } else if c == '+' || c == '-' || c == '*' || c == '/' {
        Some(LetterKind::LtOperator)
    } else if c == '(' || c == ')' {
        Some(LetterKind::LtParenthesis)
    } else if c == '<' || c == '>' || c == '=' || c == '!' {
        Some(LetterKind::LtComparisonOperator)
    } else {
        None
    }
}

/// Whether the text is a comparison operator of the language.
pub open spec fn valid_comparison(s: Seq<char>) -> bool {
    s == seq!['<'] || s == seq!['>'] || s == seq!['<', '='] || s == seq!['>', '='] || s == seq![
        '=',
        '=',
    ] || s == seq!['!', '=']
}

/// The state of the lexer between two characters.
pub struct LexState {
    /// The tokens completed so far.
    pub tokens: Seq<TokenView>,
    /// Where the token in progress starts.
    pub begin: int,
    /// What kind of token is in progress.
    pub cond: LexerCondition,
}

/// The state before the first character.
pub open spec fn lex_start() -> LexState {
    LexState { tokens: Seq::empty(), begin: 0, cond: LexerCondition::CondCompletion }
}

/// The token of a given kind that the text from `from` up to `to` is.
pub open spec fn piece(input: Seq<char>, kind: TokenKind, from: int, to: int) -> TokenView {
    TokenView { kind, val: input.subrange(from, to) }
}

/// The tokens after the token in progress has ended before position `i`:
/// nothing is added where none was in progress. `Err` if the token is a
/// comparison operator that has to be valid and is not.
pub open spec fn finish(input: Seq<char>, st: LexState, i: int, checked: bool) -> Result<
    Seq<TokenView>,
    LexError,
> {
    match st.cond {
        LexerCondition::CondMiddleOfNumber => Ok(
            st.tokens.push(piece(input, TokenKind::TkNum, st.begin, i)),
        ),
        LexerCondition::CondMiddleOfComparisonOperator => if checked && !valid_comparison(
            input.subrange(st.begin, i),
        ) {
            Err(LexError::InvalidToken)
        } else {
            Ok(st.tokens.push(piece(input, TokenKind::TkComparisonOperator, st.begin, i)))
        },
        _ => Ok(st.tokens),
    }
}

/// The state after the character at position `i`.
///
/// A digit continues a number or starts one. A blank ends the token in
/// progress. An operator or a parenthesis ends it and is a token itself.
/// A comparison character starts a comparison operator or completes one
/// of two characters. A comparison operator is tested for validity unless
/// a blank ends it.
pub open spec fn lex_step(input: Seq<char>, st: LexState, i: int) -> Result<LexState, LexError> {
    match letter_kind(input[i]) {
        None => Err(LexError::UnrecognizedLetter),
        Some(LetterKind::LtNum) => match st.cond {
            LexerCondition::CondMiddleOfNumber => Ok(st),
            _ => match finish(input, st, i, true) {
                Err(e) => Err(e),
                Ok(tokens) => Ok(
                    LexState { tokens, begin: i, cond: LexerCondition::CondMiddleOfNumber },
                ),
            },
        },
        Some(LetterKind::LtSpace) => match finish(input, st, i, false) {
            Err(e) => Err(e),
            Ok(tokens) => Ok(
                LexState {
                    tokens,
                    begin: i + 1,
                    cond: match st.cond {
                        LexerCondition::CondMiddleOfVariable => st.cond,
                        _ => LexerCondition::CondCompletion,
                    },
                },
            ),
        },
        Some(LetterKind::LtComparisonOperator) => match st.cond {
            LexerCondition::CondMiddleOfComparisonOperator => if !valid_comparison(
                input.subrange(st.begin, i + 1),
            ) {
                Err(LexError::InvalidToken)
            } else {
                Ok(
                    LexState {
                        tokens: st.tokens.push(
                            piece(input, TokenKind::TkComparisonOperator, st.begin, i + 1),
                        ),
                        begin: i + 1,
                        cond: LexerCondition::CondCompletion,
                    },
                )
            },
            _ => match finish(input, st, i, true) {
                Err(e) => Err(e),
                Ok(tokens) => Ok(
                    LexState {
                        tokens,
                        begin: i,
                        cond: LexerCondition::CondMiddleOfComparisonOperator,
                    },
                ),
            },
        },
        Some(kind) => match finish(input, st, i, true) {
            Err(e) => Err(e),
            Ok(tokens) => Ok(
                LexState {
                    tokens: tokens.push(
                        piece(
                            input,
                            if kind == LetterKind::LtParenthesis {
                                TokenKind::TkParenthesis
                            } else {
                                TokenKind::TkOperator
                            },
                            i,
                            i + 1,
                        ),
                    ),
                    begin: i + 1,
                    cond: match st.cond {
                        LexerCondition::CondMiddleOfVariable => st.cond,
                        _ => LexerCondition::CondCompletion,
                    },
                },
            ),
        },
    }
}

/// The state after the first `n` characters.
pub open spec fn lex_prefix(input: Seq<char>, n: int) -> Result<LexState, LexError>
    decreases n,
{
    if n <= 0 {
        Ok(lex_start())
    } else {
        match lex_prefix(input, n - 1) {
            Err(e) => Err(e),
            Ok(st) => lex_step(input, st, n - 1),
        }
    }
}

/// The tokens of a text: those that are complete when the text ends. A
/// number or a comparison operator that the end of the text cuts short is
/// not among them.
pub open spec fn lex(input: Seq<char>) -> Result<Seq<TokenView>, LexError> {
    match lex_prefix(input, input.len() as int) {
        Err(e) => Err(e),
        Ok(st) => Ok(st.tokens),
    }
}

/// An error in a prefix of the text is the error of the text.
pub proof fn lemma_lex_error_persists(input: Seq<char>, i: int, n: int)
    requires
        0 <= i <= n,
        lex_prefix(input, i) is Err,
    ensures
        lex_prefix(input, n) == lex_prefix(input, i),
    decreases n - i,
{
    if i < n {
        lemma_lex_error_persists(input, i, n - 1);
    }
}

/// The class of a character.
pub fn return_letter_kind(s: char) -> (r: Result<LetterKind, LexError>)
    ensures
        match letter_kind(s) {
            Some(kind) => r == Ok::<LetterKind, LexError>(kind),
            None => r == Err::<LetterKind, LexError>(LexError::UnrecognizedLetter),
        },
{
    if s >= '0' && s <= '9' {
        Ok(LetterKind::LtNum)
    } else if s == ' ' {
        Ok(LetterKind::LtSpace)
    } else if s == '+' || s == '-' || s == '*' || s == '/' {
        Ok(LetterKind::LtOperator)
    } else if s == '(' || s == ')' {
        Ok(LetterKind::LtParenthesis)
    } else if s == '<' || s == '>' || s == '=' || s == '!' {
        Ok(LetterKind::LtComparisonOperator)
    } else {
        Err(LexError::UnrecognizedLetter)
    }
}

/// Accepts the comparison operators of the language.
pub fn check_valid_token(s: &str) -> (r: Result<&str, LexError>)
    ensures
        match r {
            Ok(t) => t@ == s@ && valid_comparison(s@),
            Err(e) => e == LexError::InvalidToken && !valid_comparison(s@),
        },
{
    let n = s.unicode_len();
    let valid = if n == 1 {
        let a = s.get_char(0);
        assert(s@ =~= seq![a]);
        a == '<' || a == '>'
    } else if n == 2 {
        let a = s.get_char(0);
        let b = s.get_char(1);
        assert(s@ =~= seq![a, b]);
        b == '=' && (a == '<' || a == '>' || a == '=' || a == '!')
    } else {
        false
    };
    if valid {
        Ok(s)
    } else {
        assert(!valid_comparison(s@)) by {
            if valid_comparison(s@) {
                assert(s@.len() == 1 || s@.len() == 2);
                if s@.len() == 1 {
                    assert(s@[0] == '<' || s@[0] == '>');
                } else {
                    assert(s@[1] == '=');
                    assert(s@[0] == '<' || s@[0] == '>' || s@[0] == '=' || s@[0] == '!');
                }
            }
        }
        Err(LexError::InvalidToken)
    }
}

/// The token of the given kind that the text from `from` up to `to` is.
fn token_of(input: &Vec<char>, kind: TokenKind, from: usize, to: usize) -> (t: Token)
    requires
        from <= to <= input.len(),
    ensures
        t@ == piece(input@, kind, from as int, to as int),
{
    Token { kind, val: text_of(input, from, to) }
}

/// Ends the token in progress before position `i`.
fn finish_token(
    tokens: &mut Vec<Token>,
    input: &Vec<char>,
    begin: usize,
    condition: LexerCondition,
    i: usize,
    checked: bool,
) -> (r: Result<(), LexError>)
    requires
        begin <= i <= input.len(),
    ensures
        match finish(
            input@,
            LexState { tokens: tokens_view(old(tokens)@), begin: begin as int, cond: condition },
            i as int,
            checked,
        ) {
            Ok(all) => r is Ok && tokens_view(final(tokens)@) == all,
            Err(e) => r == Err::<(), LexError>(e),
        },
{
    let ghost before = tokens@;
    match condition {
        LexerCondition::CondMiddleOfNumber => {
            let t = token_of(input, TokenKind::TkNum, begin, i);
            tokens.push(t);
            assert(tokens_view(tokens@) =~= tokens_view(before).push(t@));
        },
        LexerCondition::CondMiddleOfComparisonOperator => {
            let t = token_of(input, TokenKind::TkComparisonOperator, begin, i);
            if checked {
                check_valid_token(t.val.as_str())?;
            }
            tokens.push(t);
            assert(tokens_view(tokens@) =~= tokens_view(before).push(t@));
        },
        _ => {},
    }
    Ok(())
}

/// Splits a formula into tokens.
pub fn lexing(input: &String) -> (r: Result<Vec<Token>, LexError>)
    ensures
        match lex(input@) {
            Ok(all) => r is Ok && tokens_view(r.unwrap()@) == all,
            Err(e) => r is Err && r->Err_0 == e,
        },
{
    let text = chars_of(input.as_str());
    let n = text.len();
    let mut tokens: Vec<Token> = Vec::new();
    let mut begin_idx: usize = 0;
    let mut condition = LexerCondition::CondCompletion;
    let mut i: usize = 0;
    assert(tokens_view(tokens@) =~= Seq::<TokenView>::empty());
    while i < n
        invariant
            i <= n,
            n == input@.len(),
            text@ == input@,
            begin_idx <= i,
            lex_prefix(input@, i as int) == Ok::<LexState, LexError>(
                LexState {
                    tokens: tokens_view(tokens@),
                    begin: begin_idx as int,
                    cond: condition,
                },
            ),
        decreases n - i,
    {
        proof {
            if lex_prefix(input@, i + 1) is Err {
                lemma_lex_error_persists(input@, i + 1, n as int);
            }
        }
        let s = text[i];
        let ghost before = tokens@;
        match return_letter_kind(s)? {
            LetterKind::LtNum => match condition {
                LexerCondition::CondMiddleOfNumber => {},
                _ => {
                    finish_token(&mut tokens, &text, begin_idx, condition, i, true)?;
                    begin_idx = i;
                    condition = LexerCondition::CondMiddleOfNumber;
                },
            },
            LetterKind::LtSpace => {
                finish_token(&mut tokens, &text, begin_idx, condition, i, false)?;
                begin_idx = i + 1;
                condition = match condition {
                    LexerCondition::CondMiddleOfVariable => condition,
                    _ => LexerCondition::CondCompletion,
                };
            },
            LetterKind::LtComparisonOperator => match condition {
                LexerCondition::CondMiddleOfComparisonOperator => {
                    let t = token_of(&text, TokenKind::TkComparisonOperator, begin_idx, i + 1);
                    check_valid_token(t.val.as_str())?;
                    tokens.push(t);
                    assert(tokens_view(tokens@) =~= tokens_view(before).push(t@));
                    begin_idx = i + 1;
                    condition = LexerCondition::CondCompletion;
                },
                _ => {
                    finish_token(&mut tokens, &text, begin_idx, condition, i, true)?;
                    begin_idx = i;
                    condition = LexerCondition::CondMiddleOfComparisonOperator;
                },
            },
            kind => {
                finish_token(&mut tokens, &text, begin_idx, condition, i, true)?;
                let new_kind = match kind {
                    LetterKind::LtParenthesis => TokenKind::TkParenthesis,
                    _ => TokenKind::TkOperator,
                };
                let ghost mid = tokens@;
                let t = token_of(&text, new_kind, i, i + 1);
                tokens.push(t);
                assert(tokens_view(tokens@) =~= tokens_view(mid).push(t@));
                begin_idx = i + 1;
                condition = match condition {
                    LexerCondition::CondMiddleOfVariable => condition,
                    _ => LexerCondition::CondCompletion,
                };
            },
        }
        i += 1;
    }
    Ok(tokens)
}

} // verus!
