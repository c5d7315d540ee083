//! The front end: a lexer that splits a text into tokens, and a parser
//! by recursive descent that reads the tokens as a program. What the
//! parser reads is fixed by the rules of [`crate::grammar`].

use vstd::prelude::*;
use vstd::string::StrSliceExecFns;
use vstd::string::StringExecFns;
use crate::ast::{
    decls_view, exprs_view, lemma_exprs_view_prefix,
    lemma_stmts_view_prefix, opt_expr_view, stmts_view, BinaryOp, Decl, DeclView, Expr,
    ExprView, Func, Prog, ProgView, Stmt, StmtView, Ty, UnaryOp,
};
use crate::grammar::{
    all_digits, binary_rank, is_at, kind_at, literal, number,
    operator_at, p_args_rest, p_assign, p_binary, p_binary_rest, p_body, p_decl, p_dims_rest,
    p_do_tail, p_else, p_expr_semi, p_for_head, p_index_rest, p_item, p_maybe_expr, p_params,
    p_params_rest, p_paren, p_prefix, p_primary, p_prog, p_prog_rest, p_stmt, p_stmts_rest,
    p_ternary, p_top, p_ty, prefix_operator, shift, stars, with_top, ForHead, Got,
    ParseError, TokenKind, TokenView, TopView,
};
use crate::lexer::{digit_value, digits_value, is_digit};
use crate::text::{chars_of, text_of};

verus! {

/// A token: its kind and its text.
#[derive(Debug)]
pub struct Token {
    pub ty: TokenKind,
    pub piece: String,
}

impl View for Token {
    type V = TokenView;

    open spec fn view(&self) -> TokenView {
        TokenView { ty: self.ty, piece: self.piece@ }
    }
}

/// The contents of a list of tokens.
pub open spec fn tokens_view(tokens: Seq<Token>) -> Seq<TokenView> {
    tokens.map_values(|t: Token| t@)
}

impl Token {
    /// The text of the token.
    pub fn str(&self) -> (s: &str)
        ensures
            s@ == self.piece@,
    {
        self.piece.as_str()
    }

    /// The integer that the token writes, if it is at most `max`.
    pub fn parse(&self, max: u32) -> (r: Result<u32, ParseError>)
        ensures
            match literal(self.piece@, max as int) {
                Ok(v) => r == Ok::<u32, ParseError>(v as u32) && 0 <= v <= max,
                Err(e) => r == Err::<u32, ParseError>(e),
            },
    {
        let s = self.piece.as_str();
        let n = s.unicode_len();
        let mut i: usize = 0;
        while i < n
            invariant
                i <= n,
                n == s@.len(),
                s@ == self.piece@,
                all_digits(s@, i as int),
            decreases n - i,
        {
            let c = s.get_char(i);
            if !(c >= '0' && c <= '9') {
                proof {
                    lemma_not_all_digits(s@, i + 1, n as int);
                }
                return Err(ParseError::Syntax);
            }
            i += 1;
        }
        let mut value: u32 = 0;
        let mut k: usize = 0;
        while k < n
            invariant
                k <= n,
                n == s@.len(),
                s@ == self.piece@,
                all_digits(s@, n as int),
                value == digits_value(s@, 0, k as int),
                value <= max,
            decreases n - k,
        {
            proof {
                lemma_digit_at(s@, n as int, k as int);
                lemma_digits_grow(s@, k + 1, n as int);
            }
            let d = s.get_char(k) as u32 - '0' as u32;
            if d > max || value > (max - d) / 10 {
                return Err(ParseError::NumberTooLarge);
            }
            value = value * 10 + d;
            k += 1;
        }
        Ok(value)
    }
}

/// A text with a character that is no digit among the first `i` has one
/// among the first `n`.
proof fn lemma_not_all_digits(piece: Seq<char>, i: int, n: int)
    requires
        0 <= i <= n <= piece.len(),
        !all_digits(piece, i),
    ensures
        !all_digits(piece, n),
    decreases n - i,
{
    if i < n {
        lemma_not_all_digits(piece, i, n - 1);
    }
}

/// Every character of a text of digits is a digit.
proof fn lemma_digit_at(piece: Seq<char>, n: int, k: int)
    requires
        0 <= k < n <= piece.len(),
        all_digits(piece, n),
    ensures
        is_digit(piece[k]),
        0 <= digit_value(piece[k]) <= 9,
    decreases n,
{
    if k < n - 1 {
        lemma_digit_at(piece, n - 1, k);
    }
}

/// The value of a text of digits is at least the value of each of its
/// beginnings.
proof fn lemma_digits_grow(piece: Seq<char>, k: int, n: int)
    requires
        0 <= k <= n <= piece.len(),
        all_digits(piece, n),
    ensures
        0 <= digits_value(piece, 0, k) <= digits_value(piece, 0, n),
    decreases n,
{
    if k < n {
        lemma_digits_grow(piece, k, n - 1);
        lemma_digit_at(piece, n, n - 1);
    } else {
        lemma_digits_nonnegative(piece, n);
    }
}

/// The value of a text of digits is not negative.
proof fn lemma_digits_nonnegative(piece: Seq<char>, n: int)
    requires
        0 <= n <= piece.len(),
        all_digits(piece, n),
    ensures
        0 <= digits_value(piece, 0, n),
    decreases n,
{
    if n > 0 {
        lemma_digits_nonnegative(piece, n - 1);
        lemma_digit_at(piece, n, n - 1);
    }
}

/// Whether the character separates tokens.
pub open spec fn is_space(c: char) -> bool {
    c == ' ' || c == '\t' || c == '\n' || c == '\r' || c == '\x0b' || c == '\x0c'
}

/// Whether the character starts a word: a letter or an underscore.
pub open spec fn is_letter(c: char) -> bool {
    ('a' <= c && c <= 'z') || ('A' <= c && c <= 'Z') || c == '_'
}

/// Whether the character continues a word.
pub open spec fn is_word(c: char) -> bool {
    is_letter(c) || is_digit(c)
}

/// Where the run of word characters that holds position `i` ends.
pub open spec fn word_end(input: Seq<char>, i: int) -> int
    decreases input.len() - i,
{
    if 0 <= i < input.len() && is_word(input[i]) {
        word_end(input, i + 1)
    } else {
        i
    }
}

/// Where the run of digits that holds position `i` ends.
pub open spec fn number_end(input: Seq<char>, i: int) -> int
    decreases input.len() - i,
{
    if 0 <= i < input.len() && is_digit(input[i]) {
        number_end(input, i + 1)
    } else {
        i
    }
}

/// The kind of a word: that of the keyword, or `Id`.
pub open spec fn word_kind(name: Seq<char>) -> TokenKind {
    if name == "int"@ {
        TokenKind::Int
    } else if name == "return"@ {
        TokenKind::Return
    } else if name == "if"@ {
        TokenKind::If
    } else if name == "else"@ {
        TokenKind::Else
    } else if name == "while"@ {
        TokenKind::While
    } else if name == "do"@ {
        TokenKind::Do
    } else if name == "for"@ {
        TokenKind::For
    } else if name == "break"@ {
        TokenKind::Break
    } else if name == "continue"@ {
        TokenKind::Continue
    } else {
        TokenKind::Id
    }
}

/// The kind of the punctuation that starts with `c`, where `eq` tells
/// whether `=` follows and `twice` whether `c` follows once more, and the
/// number of characters that it takes.
pub open spec fn punct(c: char, eq: bool, twice: bool) -> Option<(TokenKind, int)> {
    if c == ';' {
        Some((TokenKind::Semi, 1int))
    } else if c == '(' {
        Some((TokenKind::LPar, 1int))
    } else if c == ')' {
        Some((TokenKind::RPar, 1int))
    } else if c == '{' {
        Some((TokenKind::LBrc, 1int))
    } else if c == '}' {
        Some((TokenKind::RBrc, 1int))
    } else if c == '[' {
        Some((TokenKind::LBrk, 1int))
    } else if c == ']' {
        Some((TokenKind::RBrk, 1int))
    } else if c == ',' {
        Some((TokenKind::Comma, 1int))
    } else if c == '+' {
        Some((TokenKind::Add, 1int))
    } else if c == '-' {
        Some((TokenKind::Sub, 1int))
    } else if c == '*' {
        Some((TokenKind::Mul, 1int))
    } else if c == '/' {
        Some((TokenKind::Div, 1int))
    } else if c == '%' {
        Some((TokenKind::Mod, 1int))
    } else if c == '~' {
        Some((TokenKind::BNot, 1int))
    } else if c == '?' {
        Some((TokenKind::Question, 1int))
    } else if c == ':' {
        Some((TokenKind::Colon, 1int))
    } else if c == '<' {
        if eq {
            Some((TokenKind::Le, 2int))
        } else {
            Some((TokenKind::Lt, 1int))
        }
    } else if c == '>' {
        if eq {
            Some((TokenKind::Ge, 2int))
        } else {
            Some((TokenKind::Gt, 1int))
        }
    } else if c == '=' {
        if eq {
            Some((TokenKind::Eq, 2int))
        } else {
            Some((TokenKind::Assign, 1int))
        }
    } else if c == '!' {
        if eq {
            Some((TokenKind::Ne, 2int))
        } else {
            Some((TokenKind::LNot, 1int))
        }
    } else if c == '&' {
        if twice {
            Some((TokenKind::And, 2int))
        } else {
            Some((TokenKind::AddrOf, 1int))
        }
    } else if c == '|' {
        if twice {
            Some((TokenKind::Or, 2int))
        } else {
            None
        }
    } else {
        None
    }
}

/// The token that starts at position `pos`, which holds no space, and
/// where it ends: the longest word, number or punctuation.
pub open spec fn token_at(input: Seq<char>, pos: int) -> Option<(TokenKind, int)> {
    let c = input[pos];
    if is_letter(c) {
        let end = word_end(input, pos + 1);
        Some((word_kind(input.subrange(pos, end)), end))
    } else if is_digit(c) {
        Some((TokenKind::IntConst, number_end(input, pos + 1)))
    } else {
        let eq = pos + 1 < input.len() && input[pos + 1] == '=';
        let twice = pos + 1 < input.len() && input[pos + 1] == c;
        match punct(c, eq, twice) {
            Some((k, n)) => Some((k, pos + n)),
            None => None,
        }
    }
}

/// A token in front of the tokens that follow it.
pub open spec fn then_tokens(first: TokenView, rest: Result<Seq<TokenView>, ParseError>) -> Result<
    Seq<TokenView>,
    ParseError,
> {
    match rest {
        Ok(r) => Ok(seq![first] + r),
        Err(e) => Err(e),
    }
}

/// The tokens of the text from position `pos` on.
pub open spec fn scan_from(input: Seq<char>, pos: int) -> Result<Seq<TokenView>, ParseError>
    decreases input.len() - pos,
{
    if pos < 0 || pos >= input.len() {
        Ok(Seq::empty())
    } else if is_space(input[pos]) {
        scan_from(input, pos + 1)
    } else {
        match token_at(input, pos) {
            None => Err(ParseError::Character),
            Some((ty, end)) => if end <= pos || end > input.len() {
                Err(ParseError::Character)
            } else {
                then_tokens(
                    TokenView { ty, piece: input.subrange(pos, end) },
                    scan_from(input, end),
                )
            },
        }
    }
}

/// The tokens of a text.
pub open spec fn scan(input: Seq<char>) -> Result<Seq<TokenView>, ParseError> {
    scan_from(input, 0)
}

/// A run ends at or after the position at which it is asked for.
proof fn lemma_runs_end_later(input: Seq<char>, i: int)
    requires
        0 <= i <= input.len(),
    ensures
        i <= word_end(input, i) <= input.len(),
        i <= number_end(input, i) <= input.len(),
    decreases input.len() - i,
{
    if i < input.len() {
        lemma_runs_end_later(input, i + 1);
    }
}

/// The tokens read so far in front of the tokens that follow.
pub open spec fn after(acc: Seq<TokenView>, rest: Result<Seq<TokenView>, ParseError>) -> Result<
    Seq<TokenView>,
    ParseError,
> {
    match rest {
        Ok(r) => Ok(acc + r),
        Err(e) => Err(e),
    }
}

/// A lexer over a text.
pub struct Lexer {
    /// The text.
    pub chars: Vec<char>,
    /// The position of the next character to read.
    pub pos: usize,
}

impl Lexer {
    /// A lexer at the start of a text.
    pub fn new(input: &str) -> (l: Lexer)
        ensures
            l.chars@ == input@,
            l.pos == 0,
    {
        let chars = chars_of(input);
        Lexer { chars, pos: 0 }
    }

    /// The kind of the token that starts at `pos` and where it ends, or
    /// `None` if no token starts there.
    fn token_at(&self, pos: usize) -> (r: Option<(TokenKind, usize)>)
        requires
            pos < self.chars.len(),
        ensures
            match token_at(self.chars@, pos as int) {
                Some((k, end)) => r == Some((k, end as usize)) && pos < end <= self.chars.len(),
                None => r is None,
            },
    {
        let n = self.chars.len();
        let c = self.chars[pos];
        proof {
            lemma_runs_end_later(self.chars@, pos + 1);
        }
        if (c >= 'a' && c <= 'z') || (c >= 'A' && c <= 'Z') || c == '_' {
            let mut end: usize = pos + 1;
            while end < n && is_word_char(self.chars[end])
                invariant
                    pos < end <= n,
                    n == self.chars.len(),
                    word_end(self.chars@, pos + 1) == word_end(self.chars@, end as int),
                decreases n - end,
            {
                end += 1;
            }
            let name = text_of(&self.chars, pos, end);
            Some((keyword(&name), end))
        } else if c >= '0' && c <= '9' {
            let mut end: usize = pos + 1;
            while end < n && self.chars[end] >= '0' && self.chars[end] <= '9'
                invariant
                    pos < end <= n,
                    n == self.chars.len(),
                    number_end(self.chars@, pos + 1) == number_end(self.chars@, end as int),
                decreases n - end,
            {
                end += 1;
            }
            Some((TokenKind::IntConst, end))
        } else {
            let eq = pos + 1 < n && self.chars[pos + 1] == '=';
            let twice = pos + 1 < n && self.chars[pos + 1] == c;
            match punctuation(c, eq, twice) {
                Some((k, len)) => Some((k, pos + len)),
                None => None,
            }
        }
    }

    /// Reads the tokens from the current position to the end of the text.
    pub fn all(&mut self) -> (r: Result<Vec<Token>, ParseError>)
        requires
            old(self).pos <= old(self).chars.len(),
        ensures
            final(self).chars == old(self).chars,
            match scan_from(old(self).chars@, old(self).pos as int) {
                Ok(all) => r is Ok && tokens_view(r.unwrap()@) == all,
                Err(e) => r is Err && r->Err_0 == e,
            },
    {
        let ghost goal = scan_from(self.chars@, self.pos as int);
        let mut tokens: Vec<Token> = Vec::new();
        let n = self.chars.len();
        assert(tokens_view(tokens@) =~= Seq::<TokenView>::empty());
        proof {
            match goal {
                Ok(r) => {
                    assert(Seq::<TokenView>::empty() + r =~= r);
                },
                Err(_) => {},
            }
        }
        while self.pos < n
            invariant
                self.chars == old(self).chars,
                n == self.chars.len(),
                self.pos <= n,
                goal == scan_from(old(self).chars@, old(self).pos as int),
                goal == after(tokens_view(tokens@), scan_from(self.chars@, self.pos as int)),
            decreases n - self.pos,
        {
            let c = self.chars[self.pos];
            if c == ' ' || c == '\t' || c == '\n' || c == '\r' || c == '\x0b' || c == '\x0c' {
                self.pos += 1;
            } else {
                match self.token_at(self.pos) {
                    None => {
                        return Err(ParseError::Character);
                    },
                    Some((ty, end)) => {
                        let t = Token { ty, piece: text_of(&self.chars, self.pos, end) };
                        let ghost before = tokens@;
                        let ghost rest = scan_from(self.chars@, end as int);
                        tokens.push(t);
                        assert(tokens_view(tokens@) =~= tokens_view(before).push(t@));
                        proof {
                            match rest {
                                Ok(r) => {
                                    assert(tokens_view(before) + (seq![t@] + r) =~= tokens_view(
                                        tokens@,
                                    ) + r);
                                },
                                Err(_) => {},
                            }
                        }
                        self.pos = end;
                    },
                }
            }
        }
        assert(tokens_view(tokens@) + Seq::<TokenView>::empty() =~= tokens_view(tokens@));
        Ok(tokens)
    }
}

/// Tests whether a character continues a word.
fn is_word_char(c: char) -> (b: bool)
    ensures
        b == is_word(c),
{
    (c >= 'a' && c <= 'z') || (c >= 'A' && c <= 'Z') || c == '_' || (c >= '0' && c <= '9')
}

/// Tests whether a string is a given text.
fn is_text(s: &String, text: &str) -> (b: bool)
    ensures
        b == (s@ == text@),
{
    let t = String::from_str(text);
    *s == t
}

/// The kind of a word.
fn keyword(name: &String) -> (k: TokenKind)
    ensures
        k == word_kind(name@),
{
    if is_text(name, "int") {
        TokenKind::Int
    } else if is_text(name, "return") {
        TokenKind::Return
    } else if is_text(name, "if") {
        TokenKind::If
    } else if is_text(name, "else") {
        TokenKind::Else
    } else if is_text(name, "while") {
        TokenKind::While
    } else if is_text(name, "do") {
        TokenKind::Do
    } else if is_text(name, "for") {
        TokenKind::For
    } else if is_text(name, "break") {
        TokenKind::Break
    } else if is_text(name, "continue") {
        TokenKind::Continue
    } else {
        TokenKind::Id
    }
}

/// The kind and the length of the punctuation that starts with `c`.
fn punctuation(c: char, eq: bool, twice: bool) -> (r: Option<(TokenKind, usize)>)
    ensures
        match punct(c, eq, twice) {
            Some((k, n)) => r == Some((k, n as usize)) && 1 <= n <= 2 && (n == 2 ==> eq || twice),
            None => r is None,
        },
{
    if c == ';' {
        Some((TokenKind::Semi, 1))
    } else if c == '(' {
        Some((TokenKind::LPar, 1))
    } else if c == ')' {
        Some((TokenKind::RPar, 1))
    } else if c == '{' {
        Some((TokenKind::LBrc, 1))
    } else if c == '}' {
        Some((TokenKind::RBrc, 1))
    } else if c == '[' {
        Some((TokenKind::LBrk, 1))
    } else if c == ']' {
        Some((TokenKind::RBrk, 1))
    } else if c == ',' {
        Some((TokenKind::Comma, 1))
    } else if c == '+' {
        Some((TokenKind::Add, 1))
    } else if c == '-' {
        Some((TokenKind::Sub, 1))
    } else if c == '*' {
        Some((TokenKind::Mul, 1))
    } else if c == '/' {
        Some((TokenKind::Div, 1))
    } else if c == '%' {
        Some((TokenKind::Mod, 1))
    } else if c == '~' {
        Some((TokenKind::BNot, 1))
    } else if c == '?' {
        Some((TokenKind::Question, 1))
    } else if c == ':' {
        Some((TokenKind::Colon, 1))
    } else if c == '<' {
        if eq {
            Some((TokenKind::Le, 2))
        } else {
            Some((TokenKind::Lt, 1))
        }
    } else if c == '>' {
        if eq {
            Some((TokenKind::Ge, 2))
        } else {
            Some((TokenKind::Gt, 1))
        }
    } else if c == '=' {
        if eq {
            Some((TokenKind::Eq, 2))
        } else {
            Some((TokenKind::Assign, 1))
        }
    } else if c == '!' {
        if eq {
            Some((TokenKind::Ne, 2))
        } else {
            Some((TokenKind::LNot, 1))
        }
    } else if c == '&' {
        if twice {
            Some((TokenKind::And, 2))
        } else {
            Some((TokenKind::AddrOf, 1))
        }
    } else if c == '|' {
        if twice {
            Some((TokenKind::Or, 2))
        } else {
            None
        }
    } else {
        None
    }
}

/// How a function that reads one rule relates its result and the
/// position after it to what the rule reads.
pub open spec fn got<T: View>(
    r: Result<T, ParseError>,
    before: usize,
    after: usize,
    m: Result<Got<T::V>, ParseError>,
) -> bool {
    match m {
        Ok(g) => r is Ok && r.unwrap()@ == g.val && after == before + g.used,
        Err(e) => r is Err && r->Err_0 == e,
    }
}

/// The kind of the token at position `i`, if there is one.
fn peek(tokens: &Vec<Token>, i: usize) -> (r: Option<TokenKind>)
    ensures
        r == kind_at(tokens_view(tokens@), i as int),
{
    if i < tokens.len() {
        assert(tokens_view(tokens@)[i as int] == tokens@[i as int]@);
        Some(tokens[i].ty)
    } else {
        None
    }
}

/// Tests whether the token at position `i` has the kind `k`.
fn at(tokens: &Vec<Token>, i: usize, k: TokenKind) -> (b: bool)
    ensures
        b == is_at(tokens_view(tokens@), i as int, k),
        b ==> i < tokens.len(),
{
    match peek(tokens, i) {
        Some(found) => found == k,
        None => false,
    }
}

/// Steps over the token at `idx`, which has to be of the kind `k`.
fn expect(tokens: &Vec<Token>, idx: &mut usize, k: TokenKind) -> (r: Result<(), ParseError>)
    ensures
        is_at(tokens_view(tokens@), *old(idx) as int, k) ==> r is Ok && *final(idx) == *old(idx)
            + 1 && *final(idx) <= tokens.len(),
        !is_at(tokens_view(tokens@), *old(idx) as int, k) ==> r == Err::<(), ParseError>(
            ParseError::Syntax,
        ) && *final(idx) == *old(idx),
{
    if at(tokens, *idx, k) {
        *idx = *idx + 1;
        Ok(())
    } else {
        Err(ParseError::Syntax)
    }
}

/// The text of the token at position `i`.
fn text_at(tokens: &Vec<Token>, i: usize) -> (s: String)
    requires
        i < tokens.len(),
    ensures
        s@ == tokens_view(tokens@)[i as int].piece,
{
    assert(tokens_view(tokens@)[i as int] == tokens@[i as int]@);
    tokens[i].piece.clone()
}

/// `ty = "int" "*"*`
fn ty(tokens: &Vec<Token>, idx: &mut usize) -> (r: Result<Ty, ParseError>)
    requires
        *old(idx) <= tokens.len(),
    ensures
        match p_ty(tokens_view(tokens@), *old(idx) as int) {
            Ok(g) => r == Ok::<Ty, ParseError>(g.val) && *final(idx) == *old(idx) + g.used,
            Err(e) => r == Err::<Ty, ParseError>(e),
        },
        *final(idx) <= tokens.len(),
{
    let ghost tv = tokens_view(tokens@);
    let ghost start = *idx as int;
    if !at(tokens, *idx, TokenKind::Int) {
        return Err(ParseError::Syntax);
    }
    *idx = *idx + 1;
    let mut depth: u32 = 0;
    while at(tokens, *idx, TokenKind::Mul)
        invariant
            tv == tokens_view(tokens@),
            *idx <= tokens.len(),
            start == *old(idx),
            is_at(tv, start, TokenKind::Int),
            *idx == start + 1 + depth,
            stars(tv, start + 1) == depth + stars(tv, *idx as int),
        decreases tokens.len() - *idx,
    {
        assert(stars(tv, *idx as int) >= 1);
        if depth == u32::MAX {
            return Err(ParseError::NumberTooLarge);
        }
        depth = depth + 1;
        *idx = *idx + 1;
    }
    Ok(depth)
}

/// One more argument, spelled out.
proof fn lemma_args_step(t: Seq<TokenView>, i: int, acc: Seq<ExprView>)
    ensures
        is_at(t, i, TokenKind::Comma) ==> p_args_rest(t, i, acc) == match p_assign(t, i + 1) {
            Err(e) => Err::<Got<Seq<ExprView>>, ParseError>(e),
            Ok(a) => shift(p_args_rest(t, i + 1 + a.used, acc.push(a.val)), a.used + 1),
        },
        !is_at(t, i, TokenKind::Comma) ==> p_args_rest(t, i, acc) == Ok::<
            Got<Seq<ExprView>>,
            ParseError,
        >(Got { val: acc, used: 0 }),
{
    reveal_with_fuel(p_args_rest, 1);
    reveal_with_fuel(p_assign, 1);
}

/// Adds an expression to a list, and its content to the contents.
fn push_expr(args: &mut Vec<Expr>, x: Expr)
    ensures
        final(args)@ == old(args)@.push(x),
        exprs_view(final(args)@, final(args)@.len() as int) == exprs_view(
            old(args)@,
            old(args)@.len() as int,
        ).push(x@),
{
    let ghost before = args@;
    args.push(x);
    proof {
        lemma_exprs_view_prefix(before, args@, before.len() as int);
    }
}

/// The arguments after those in `args`: `("," expr)*`
fn args_rest(tokens: &Vec<Token>, idx: &mut usize, args: &mut Vec<Expr>) -> (r: Result<
    (),
    ParseError,
>)
    requires
        *old(idx) <= tokens.len(),
    ensures
        match p_args_rest(
            tokens_view(tokens@),
            *old(idx) as int,
            exprs_view(old(args)@, old(args)@.len() as int),
        ) {
            Ok(g) => r is Ok && exprs_view(final(args)@, final(args)@.len() as int) == g.val
                && *final(idx) == *old(idx) + g.used,
            Err(e) => r == Err::<(), ParseError>(e),
        },
        *final(idx) <= tokens.len(),
    decreases tokens.len() - *old(idx), 2nat,
{
    let ghost tv = tokens_view(tokens@);
    let ghost goal = p_args_rest(tv, *idx as int, exprs_view(args@, args@.len() as int));
    loop
        invariant
            tv == tokens_view(tokens@),
            *old(idx) <= *idx <= tokens.len(),
            goal == p_args_rest(
                tv,
                *old(idx) as int,
                exprs_view(old(args)@, old(args)@.len() as int),
            ),
            goal == shift(
                p_args_rest(tv, *idx as int, exprs_view(args@, args@.len() as int)),
                (*idx - *old(idx)) as nat,
            ),
        decreases tokens.len() - *idx,
    {
        proof {
            lemma_args_step(tv, *idx as int, exprs_view(args@, args@.len() as int));
        }
        if !at(tokens, *idx, TokenKind::Comma) {
            return Ok(());
        }
        *idx = *idx + 1;
        let x = assign(tokens, idx)?;
        push_expr(args, x);
    }
}

/// What a primary expression is, spelled out.
#[verifier::rlimit(40)]
proof fn lemma_primary_unfold(t: Seq<TokenView>, i: int)
    ensures
        p_primary(t, i) == match kind_at(t, i) {
            Some(TokenKind::IntConst) => match literal(t[i].piece, i32::MAX as int) {
                Err(e) => Err::<Got<ExprView>, ParseError>(e),
                Ok(v) => Ok(Got { val: ExprView::Int(v as i32), used: 1 }),
            },
            Some(TokenKind::Id) => if is_at(t, i + 1, TokenKind::LPar) {
                if is_at(t, i + 2, TokenKind::RPar) {
                    Ok(Got { val: ExprView::Call(t[i].piece, Seq::empty()), used: 3 })
                } else {
                    match p_assign(t, i + 2) {
                        Err(e) => Err(e),
                        Ok(a) => match p_args_rest(t, i + 2 + a.used, seq![a.val]) {
                            Err(e) => Err(e),
                            Ok(rest) => if is_at(
                                t,
                                i + 2 + a.used + rest.used,
                                TokenKind::RPar,
                            ) {
                                Ok(
                                    Got {
                                        val: ExprView::Call(t[i].piece, rest.val),
                                        used: a.used + rest.used + 3,
                                    },
                                )
                            } else {
                                Err(ParseError::Syntax)
                            },
                        },
                    }
                }
            } else {
                Ok(Got { val: ExprView::Var(t[i].piece), used: 1 })
            },
            Some(TokenKind::LPar) => match p_assign(t, i + 1) {
                Err(e) => Err(e),
                Ok(x) => if is_at(t, i + 1 + x.used, TokenKind::RPar) {
                    Ok(Got { val: x.val, used: x.used + 2 })
                } else {
                    Err(ParseError::Syntax)
                },
            },
            _ => Err(ParseError::Syntax),
        },
{
    reveal_with_fuel(p_primary, 1);
    reveal_with_fuel(p_assign, 1);
    reveal_with_fuel(p_args_rest, 1);
}

/// `primary = int | id | id "(" (expr ("," expr)*)? ")" | "(" expr ")"`
#[verifier::rlimit(40)]
fn primary(tokens: &Vec<Token>, idx: &mut usize) -> (r: Result<Expr, ParseError>)
    requires
        *old(idx) <= tokens.len(),
    ensures
        got(r, *old(idx), *final(idx), p_primary(tokens_view(tokens@), *old(idx) as int)),
        *final(idx) <= tokens.len(),
    decreases tokens.len() - *old(idx), 3nat,
{
    proof {
        lemma_primary_unfold(tokens_view(tokens@), *idx as int);
    }
    let i = *idx;
    match peek(tokens, i) {
        Some(TokenKind::IntConst) => {
            assert(tokens_view(tokens@)[i as int] == tokens@[i as int]@);
            let v = tokens[i].parse(0x7fff_ffff)?;
            *idx = i + 1;
            Ok(Expr::Int(v as i32))
        },
        Some(TokenKind::Id) => {
            let name = text_at(tokens, i);
            if at(tokens, i + 1, TokenKind::LPar) {
                let mut args: Vec<Expr> = Vec::new();
                if at(tokens, i + 2, TokenKind::RPar) {
                    *idx = i + 3;
                    assert(exprs_view(args@, args@.len() as int) =~= Seq::<ExprView>::empty());
                    return Ok(Expr::Call(name, args));
                }
                *idx = i + 2;
                let x = assign(tokens, idx)?;
                push_expr(&mut args, x);
                assert(exprs_view(args@, args@.len() as int) =~= seq![x@]);
                args_rest(tokens, idx, &mut args)?;
                expect(tokens, idx, TokenKind::RPar)?;
                Ok(Expr::Call(name, args))
            } else {
                *idx = i + 1;
                Ok(Expr::Var(name))
            }
        },
        Some(TokenKind::LPar) => {
            *idx = i + 1;
            let x = assign(tokens, idx)?;
            expect(tokens, idx, TokenKind::RPar)?;
            Ok(x)
        },
        _ => Err(ParseError::Syntax),
    }
}

/// One more indexing, spelled out.
proof fn lemma_index_step(t: Seq<TokenView>, i: int, x: ExprView)
    ensures
        is_at(t, i, TokenKind::LBrk) ==> p_index_rest(t, i, x) == match p_assign(t, i + 1) {
            Err(e) => Err::<Got<ExprView>, ParseError>(e),
            Ok(k) => if is_at(t, i + 1 + k.used, TokenKind::RBrk) {
                shift(
                    p_index_rest(
                        t,
                        i + 2 + k.used,
                        ExprView::Index(Box::new(x), Box::new(k.val)),
                    ),
                    k.used + 2,
                )
            } else {
                Err::<Got<ExprView>, ParseError>(ParseError::Syntax)
            },
        },
        !is_at(t, i, TokenKind::LBrk) ==> p_index_rest(t, i, x) == Ok::<
            Got<ExprView>,
            ParseError,
        >(Got { val: x, used: 0 }),
{
    reveal_with_fuel(p_index_rest, 1);
    reveal_with_fuel(p_assign, 1);
}

/// The indexings of `x`: `("[" expr "]")*`
fn index_rest(tokens: &Vec<Token>, idx: &mut usize, base: Expr) -> (r: Result<Expr, ParseError>)
    requires
        *old(idx) <= tokens.len(),
    ensures
        got(
            r,
            *old(idx),
            *final(idx),
            p_index_rest(tokens_view(tokens@), *old(idx) as int, base@),
        ),
        *final(idx) <= tokens.len(),
    decreases tokens.len() - *old(idx), 4nat,
{
    let ghost tv = tokens_view(tokens@);
    let ghost goal = p_index_rest(tv, *idx as int, base@);
    let ghost x0 = base@;
    let mut x = base;
    loop
        invariant
            tv == tokens_view(tokens@),
            *old(idx) <= *idx <= tokens.len(),
            x0 == base@,
            goal == p_index_rest(tv, *old(idx) as int, x0),
            goal == shift(p_index_rest(tv, *idx as int, x@), (*idx - *old(idx)) as nat),
        decreases tokens.len() - *idx,
    {
        proof {
            lemma_index_step(tv, *idx as int, x@);
        }
        if !at(tokens, *idx, TokenKind::LBrk) {
            return Ok(x);
        }
        *idx = *idx + 1;
        let k = assign(tokens, idx)?;
        expect(tokens, idx, TokenKind::RBrk)?;
        x = Expr::Index(Box::new(x), Box::new(k));
    }
}

/// The prefix operator of a token.
fn prefix_op(k: TokenKind) -> (r: Option<UnaryOp>)
    ensures
        r == prefix_operator(k),
{
    match k {
        TokenKind::Sub => Some(UnaryOp::Neg),
        TokenKind::BNot => Some(UnaryOp::BNot),
        TokenKind::LNot => Some(UnaryOp::LNot),
        _ => None,
    }
}

/// What an expression with prefixes is, spelled out.
#[verifier::rlimit(40)]
proof fn lemma_prefix_unfold(t: Seq<TokenView>, i: int)
    ensures
        kind_at(t, i) is None ==> p_prefix(t, i) == Err::<Got<ExprView>, ParseError>(
            ParseError::Syntax,
        ),
        kind_at(t, i) is Some && prefix_operator(kind_at(t, i).unwrap()) is Some ==> p_prefix(
            t,
            i,
        ) == match p_prefix(t, i + 1) {
            Ok(g) => Ok::<Got<ExprView>, ParseError>(
                Got {
                    val: ExprView::Unary(
                        prefix_operator(kind_at(t, i).unwrap()).unwrap(),
                        Box::new(g.val),
                    ),
                    used: g.used + 1,
                },
            ),
            Err(e) => Err(e),
        },
        is_at(t, i, TokenKind::Mul) ==> p_prefix(t, i) == match p_prefix(t, i + 1) {
            Ok(g) => Ok::<Got<ExprView>, ParseError>(
                Got { val: ExprView::Deref(Box::new(g.val)), used: g.used + 1 },
            ),
            Err(e) => Err(e),
        },
        is_at(t, i, TokenKind::AddrOf) ==> p_prefix(t, i) == match p_prefix(t, i + 1) {
            Ok(g) => Ok::<Got<ExprView>, ParseError>(
                Got { val: ExprView::AddrOf(Box::new(g.val)), used: g.used + 1 },
            ),
            Err(e) => Err(e),
        },
        is_at(t, i, TokenKind::LPar) && is_at(t, i + 1, TokenKind::Int) ==> p_prefix(t, i)
            == match p_ty(t, i + 1) {
            Err(e) => Err::<Got<ExprView>, ParseError>(e),
            Ok(ty) => if is_at(t, i + 1 + ty.used, TokenKind::RPar) {
                match p_prefix(t, i + 2 + ty.used) {
                    Ok(g) => Ok(
                        Got {
                            val: ExprView::Cast(ty.val, Box::new(g.val)),
                            used: g.used + ty.used + 2,
                        },
                    ),
                    Err(e) => Err(e),
                }
            } else {
                Err(ParseError::Syntax)
            },
        },
        kind_at(t, i) is Some && prefix_operator(kind_at(t, i).unwrap()) is None && !is_at(
            t,
            i,
            TokenKind::Mul,
        ) && !is_at(t, i, TokenKind::AddrOf) && !(is_at(t, i, TokenKind::LPar) && is_at(
            t,
            i + 1,
            TokenKind::Int,
        )) ==> p_prefix(t, i) == match p_primary(t, i) {
            Err(e) => Err::<Got<ExprView>, ParseError>(e),
            Ok(p) => shift(p_index_rest(t, i + p.used, p.val), p.used),
        },
{
    reveal_with_fuel(p_prefix, 1);
    reveal_with_fuel(p_primary, 1);
    reveal_with_fuel(p_index_rest, 1);
}

/// `prefix = ("-" | "~" | "!" | "*" | "&" | "(" ty ")") prefix | postfix`
fn prefix(tokens: &Vec<Token>, idx: &mut usize) -> (r: Result<Expr, ParseError>)
    requires
        *old(idx) <= tokens.len(),
    ensures
        got(r, *old(idx), *final(idx), p_prefix(tokens_view(tokens@), *old(idx) as int)),
        *final(idx) <= tokens.len(),
    decreases tokens.len() - *old(idx), 5nat,
{
    proof {
        lemma_prefix_unfold(tokens_view(tokens@), *idx as int);
    }
    let i = *idx;
    let k = match peek(tokens, i) {
        Some(k) => k,
        None => {
            return Err(ParseError::Syntax);
        },
    };
    match prefix_op(k) {
        Some(op) => {
            *idx = i + 1;
            let x = prefix(tokens, idx)?;
            return Ok(Expr::Unary(op, Box::new(x)));
        },
        None => {},
    }
    if k == TokenKind::Mul {
        *idx = i + 1;
        let x = prefix(tokens, idx)?;
        Ok(Expr::Deref(Box::new(x)))
    } else if k == TokenKind::AddrOf {
        *idx = i + 1;
        let x = prefix(tokens, idx)?;
        Ok(Expr::AddrOf(Box::new(x)))
    } else if k == TokenKind::LPar && at(tokens, i + 1, TokenKind::Int) {
        *idx = i + 1;
        let t = ty(tokens, idx)?;
        expect(tokens, idx, TokenKind::RPar)?;
        let x = prefix(tokens, idx)?;
        Ok(Expr::Cast(t, Box::new(x)))
    } else {
        let p = primary(tokens, idx)?;
        index_rest(tokens, idx, p)
    }
}

/// The binary operator at position `i`, if there is one of the level.
fn operator(tokens: &Vec<Token>, i: usize, level: u8) -> (r: Option<BinaryOp>)
    ensures
        r == operator_at(tokens_view(tokens@), i as int, level as nat),
        r is Some ==> i < tokens.len(),
{
    let k = match peek(tokens, i) {
        Some(k) => k,
        None => {
            return None;
        },
    };
    let (op, l): (BinaryOp, u8) = match k {
        TokenKind::Or => (BinaryOp::Or, 3),
        TokenKind::And => (BinaryOp::And, 4),
        TokenKind::Eq => (BinaryOp::Eq, 5),
        TokenKind::Ne => (BinaryOp::Ne, 5),
        TokenKind::Lt => (BinaryOp::Lt, 6),
        TokenKind::Le => (BinaryOp::Le, 6),
        TokenKind::Ge => (BinaryOp::Ge, 6),
        TokenKind::Gt => (BinaryOp::Gt, 6),
        TokenKind::Add => (BinaryOp::Add, 7),
        TokenKind::Sub => (BinaryOp::Sub, 7),
        TokenKind::Mul => (BinaryOp::Mul, 8),
        TokenKind::Div => (BinaryOp::Div, 8),
        TokenKind::Mod => (BinaryOp::Mod, 8),
        _ => {
            return None;
        },
    };
    if l == level {
        Some(op)
    } else {
        None
    }
}

/// One more operator of a level, spelled out.
proof fn lemma_binary_step(t: Seq<TokenView>, i: int, lhs: ExprView, level: nat)
    requires
        level < 9,
    ensures
        p_binary_rest(t, i, lhs, level) == match operator_at(t, i, level) {
            None => Ok::<Got<ExprView>, ParseError>(Got { val: lhs, used: 0 }),
            Some(op) => match p_binary(t, i + 1, level + 1) {
                Err(e) => Err::<Got<ExprView>, ParseError>(e),
                Ok(r) => shift(
                    p_binary_rest(
                        t,
                        i + 1 + r.used,
                        ExprView::Binary(op, Box::new(lhs), Box::new(r.val)),
                        level,
                    ),
                    r.used + 1,
                ),
            },
        },
{
    reveal_with_fuel(p_binary_rest, 1);
    reveal_with_fuel(p_binary, 1);
}

/// The binary expressions of a level are those of the next level, joined
/// by the operators of the level.
proof fn lemma_binary_unfold(t: Seq<TokenView>, i: int, level: nat)
    ensures
        level >= 9 ==> p_binary(t, i, level) == p_prefix(t, i),
        level < 9 ==> p_binary(t, i, level) == match p_binary(t, i, level + 1) {
            Err(e) => Err::<Got<ExprView>, ParseError>(e),
            Ok(l) => shift(p_binary_rest(t, i + l.used, l.val, level), l.used),
        },
{
    reveal_with_fuel(p_binary, 1);
    reveal_with_fuel(p_binary_rest, 1);
    reveal_with_fuel(p_prefix, 1);
}

/// The binary expressions of a level and the levels that bind tighter.
fn binary(tokens: &Vec<Token>, idx: &mut usize, level: u8) -> (r: Result<Expr, ParseError>)
    requires
        *old(idx) <= tokens.len(),
        3 <= level <= 9,
    ensures
        got(
            r,
            *old(idx),
            *final(idx),
            p_binary(tokens_view(tokens@), *old(idx) as int, level as nat),
        ),
        *final(idx) <= tokens.len(),
    decreases tokens.len() - *old(idx), binary_rank(level as nat),
{
    let ghost tv = tokens_view(tokens@);
    let ghost goal = p_binary(tv, *idx as int, level as nat);
    proof {
        lemma_binary_unfold(tv, *idx as int, level as nat);
    }
    if level >= 9 {
        return prefix(tokens, idx);
    }
    let mut lhs = binary(tokens, idx, level + 1)?;
    loop
        invariant
            tv == tokens_view(tokens@),
            level < 9,
            3 <= level,
            *old(idx) <= *idx <= tokens.len(),
            goal == p_binary(tv, *old(idx) as int, level as nat),
            goal == shift(
                p_binary_rest(tv, *idx as int, lhs@, level as nat),
                (*idx - *old(idx)) as nat,
            ),
        decreases tokens.len() - *idx,
    {
        proof {
            lemma_binary_step(tv, *idx as int, lhs@, level as nat);
        }
        let op = match operator(tokens, *idx, level) {
            Some(op) => op,
            None => {
                return Ok(lhs);
            },
        };
        *idx = *idx + 1;
        let rhs = binary(tokens, idx, level + 1)?;
        lhs = Expr::Binary(op, Box::new(lhs), Box::new(rhs));
    }
}

/// What a conditional expression is, spelled out.
proof fn lemma_ternary_unfold(t: Seq<TokenView>, i: int)
    ensures
        p_ternary(t, i) == match p_binary(t, i, 3) {
            Err(e) => Err::<Got<ExprView>, ParseError>(e),
            Ok(c) => if is_at(t, i + c.used, TokenKind::Question) {
                match p_assign(t, i + c.used + 1) {
                    Err(e) => Err(e),
                    Ok(a) => if is_at(t, i + c.used + 1 + a.used, TokenKind::Colon) {
                        match p_ternary(t, i + c.used + a.used + 2) {
                            Err(e) => Err(e),
                            Ok(b) => Ok(
                                Got {
                                    val: ExprView::Condition(
                                        Box::new(c.val),
                                        Box::new(a.val),
                                        Box::new(b.val),
                                    ),
                                    used: c.used + a.used + b.used + 2,
                                },
                            ),
                        }
                    } else {
                        Err(ParseError::Syntax)
                    },
                }
            } else {
                Ok(c)
            },
        },
{
    reveal_with_fuel(p_ternary, 1);
    reveal_with_fuel(p_binary, 1);
    reveal_with_fuel(p_assign, 1);
}

/// What an assignment is, spelled out.
proof fn lemma_assign_unfold(t: Seq<TokenView>, i: int)
    ensures
        p_assign(t, i) == match p_ternary(t, i) {
            Err(e) => Err::<Got<ExprView>, ParseError>(e),
            Ok(l) => if is_at(t, i + l.used, TokenKind::Assign) {
                match p_assign(t, i + l.used + 1) {
                    Err(e) => Err(e),
                    Ok(r) => Ok(
                        Got {
                            val: ExprView::Assign(Box::new(l.val), Box::new(r.val)),
                            used: l.used + r.used + 1,
                        },
                    ),
                }
            } else {
                Ok(l)
            },
        },
{
    reveal_with_fuel(p_assign, 1);
    reveal_with_fuel(p_ternary, 1);
}

/// `cond = binary ("?" expr ":" cond)?`
fn ternary(tokens: &Vec<Token>, idx: &mut usize) -> (r: Result<Expr, ParseError>)
    requires
        *old(idx) <= tokens.len(),
    ensures
        got(r, *old(idx), *final(idx), p_ternary(tokens_view(tokens@), *old(idx) as int)),
        *final(idx) <= tokens.len(),
    decreases tokens.len() - *old(idx), 29nat,
{
    proof {
        lemma_ternary_unfold(tokens_view(tokens@), *idx as int);
    }
    let c = binary(tokens, idx, 3)?;
    if at(tokens, *idx, TokenKind::Question) {
        *idx = *idx + 1;
        let a = assign(tokens, idx)?;
        expect(tokens, idx, TokenKind::Colon)?;
        let b = ternary(tokens, idx)?;
        Ok(Expr::Condition(Box::new(c), Box::new(a), Box::new(b)))
    } else {
        Ok(c)
    }
}

/// `expr = assign`, `assign = cond ("=" assign)?`
fn assign(tokens: &Vec<Token>, idx: &mut usize) -> (r: Result<Expr, ParseError>)
    requires
        *old(idx) <= tokens.len(),
    ensures
        got(r, *old(idx), *final(idx), p_assign(tokens_view(tokens@), *old(idx) as int)),
        *final(idx) <= tokens.len(),
    decreases tokens.len() - *old(idx), 30nat,
{
    proof {
        lemma_assign_unfold(tokens_view(tokens@), *idx as int);
    }
    let l = ternary(tokens, idx)?;
    if at(tokens, *idx, TokenKind::Assign) {
        *idx = *idx + 1;
        let r = assign(tokens, idx)?;
        Ok(Expr::Assign(Box::new(l), Box::new(r)))
    } else {
        Ok(l)
    }
}

/// One more dimension, spelled out.
proof fn lemma_dims_step(t: Seq<TokenView>, i: int, acc: Seq<u32>)
    ensures
        p_dims_rest(t, i, acc) == if is_at(t, i, TokenKind::LBrk) {
            if !is_at(t, i + 1, TokenKind::IntConst) {
                Err::<Got<Seq<u32>>, ParseError>(ParseError::Syntax)
            } else {
                match literal(t[i + 1].piece, u32::MAX as int) {
                    Err(e) => Err(e),
                    Ok(v) => if !is_at(t, i + 2, TokenKind::RBrk) {
                        Err(ParseError::Syntax)
                    } else {
                        shift(p_dims_rest(t, i + 3, acc.push(v as u32)), 3)
                    },
                }
            }
        } else {
            Ok(Got { val: acc, used: 0 })
        },
{
    reveal_with_fuel(p_dims_rest, 1);
}

/// The dimensions after those in `dims`: `("[" int "]")*`
fn dims_rest(tokens: &Vec<Token>, idx: &mut usize, dims: &mut Vec<u32>) -> (r: Result<
    (),
    ParseError,
>)
    requires
        *old(idx) <= tokens.len(),
    ensures
        match p_dims_rest(tokens_view(tokens@), *old(idx) as int, old(dims)@) {
            Ok(g) => r is Ok && final(dims)@ == g.val && *final(idx) == *old(idx) + g.used,
            Err(e) => r == Err::<(), ParseError>(e),
        },
        *final(idx) <= tokens.len(),
{
    let ghost tv = tokens_view(tokens@);
    let ghost goal = p_dims_rest(tv, *idx as int, dims@);
    loop
        invariant
            tv == tokens_view(tokens@),
            *old(idx) <= *idx <= tokens.len(),
            goal == p_dims_rest(tv, *old(idx) as int, old(dims)@),
            goal == shift(p_dims_rest(tv, *idx as int, dims@), (*idx - *old(idx)) as nat),
        decreases tokens.len() - *idx,
    {
        proof {
            lemma_dims_step(tv, *idx as int, dims@);
        }
        let i = *idx;
        if !at(tokens, i, TokenKind::LBrk) {
            return Ok(());
        }
        if !at(tokens, i + 1, TokenKind::IntConst) {
            return Err(ParseError::Syntax);
        }
        assert(tv[i + 1].piece == tokens@[i + 1]@.piece);
        let v = tokens[i + 1].parse(0xffff_ffff)?;
        if !at(tokens, i + 2, TokenKind::RBrk) {
            return Err(ParseError::Syntax);
        }
        dims.push(v);
        *idx = i + 3;
    }
}

/// `decl = ty id ("=" expr | ("[" int "]")+)?`
fn decl(tokens: &Vec<Token>, idx: &mut usize) -> (r: Result<Decl, ParseError>)
    requires
        *old(idx) <= tokens.len(),
    ensures
        got(r, *old(idx), *final(idx), p_decl(tokens_view(tokens@), *old(idx) as int)),
        *final(idx) <= tokens.len(),
{
    let t = ty(tokens, idx)?;
    if !at(tokens, *idx, TokenKind::Id) {
        return Err(ParseError::Syntax);
    }
    let name = text_at(tokens, *idx);
    *idx = *idx + 1;
    let mut dims: Vec<u32> = Vec::new();
    if at(tokens, *idx, TokenKind::Assign) {
        *idx = *idx + 1;
        let x = assign(tokens, idx)?;
        Ok(Decl { ty: t, name, dims, init: Some(x) })
    } else if at(tokens, *idx, TokenKind::LBrk) {
        dims_rest(tokens, idx, &mut dims)?;
        Ok(Decl { ty: t, name, dims, init: None })
    } else {
        Ok(Decl { ty: t, name, dims, init: None })
    }
}

/// An expression, or nothing before a `;` or a `)`.
fn maybe_expr(tokens: &Vec<Token>, idx: &mut usize) -> (r: Result<Option<Expr>, ParseError>)
    requires
        *old(idx) <= tokens.len(),
    ensures
        match p_maybe_expr(tokens_view(tokens@), *old(idx) as int) {
            Ok(g) => r is Ok && opt_expr_view(r.unwrap()) == g.val && *final(idx) == *old(idx)
                + g.used,
            Err(e) => r is Err && r->Err_0 == e,
        },
        *final(idx) <= tokens.len(),
{
    if at(tokens, *idx, TokenKind::Semi) || at(tokens, *idx, TokenKind::RPar) {
        Ok(None)
    } else {
        let x = assign(tokens, idx)?;
        Ok(Some(x))
    }
}

/// `"(" expr ")"`
fn paren(tokens: &Vec<Token>, idx: &mut usize) -> (r: Result<Expr, ParseError>)
    requires
        *old(idx) <= tokens.len(),
    ensures
        got(r, *old(idx), *final(idx), p_paren(tokens_view(tokens@), *old(idx) as int)),
        *final(idx) <= tokens.len(),
{
    expect(tokens, idx, TokenKind::LPar)?;
    let x = assign(tokens, idx)?;
    expect(tokens, idx, TokenKind::RPar)?;
    Ok(x)
}

/// An expression and the `;` after it.
fn expr_semi(tokens: &Vec<Token>, idx: &mut usize) -> (r: Result<Expr, ParseError>)
    requires
        *old(idx) <= tokens.len(),
    ensures
        got(r, *old(idx), *final(idx), p_expr_semi(tokens_view(tokens@), *old(idx) as int)),
        *final(idx) <= tokens.len(),
{
    let x = assign(tokens, idx)?;
    expect(tokens, idx, TokenKind::Semi)?;
    Ok(x)
}

/// The head of a `for` loop as the parser holds it.
pub struct Head {
    pub init: Stmt,
    pub cond: Option<Expr>,
    pub update: Option<Expr>,
}

impl View for Head {
    type V = ForHead;

    open spec fn view(&self) -> ForHead {
        ForHead {
            init: self.init@,
            cond: opt_expr_view(self.cond),
            update: opt_expr_view(self.update),
        }
    }
}

/// `(decl | expr?) ";" expr? ";" expr? ")"`
fn for_head(tokens: &Vec<Token>, idx: &mut usize) -> (r: Result<Head, ParseError>)
    requires
        *old(idx) <= tokens.len(),
    ensures
        got(r, *old(idx), *final(idx), p_for_head(tokens_view(tokens@), *old(idx) as int)),
        *final(idx) <= tokens.len(),
{
    let init = if at(tokens, *idx, TokenKind::Int) {
        Stmt::Decl(decl(tokens, idx)?)
    } else {
        match maybe_expr(tokens, idx)? {
            Some(e) => Stmt::Expr(e),
            None => Stmt::Empty,
        }
    };
    expect(tokens, idx, TokenKind::Semi)?;
    let cond = maybe_expr(tokens, idx)?;
    expect(tokens, idx, TokenKind::Semi)?;
    let update = maybe_expr(tokens, idx)?;
    expect(tokens, idx, TokenKind::RPar)?;
    Ok(Head { init, cond, update })
}

/// Adds a statement to a list, and its content to the contents.
fn push_stmt(stmts: &mut Vec<Stmt>, s: Stmt)
    ensures
        final(stmts)@ == old(stmts)@.push(s),
        stmts_view(final(stmts)@, final(stmts)@.len() as int) == stmts_view(
            old(stmts)@,
            old(stmts)@.len() as int,
        ).push(s@),
{
    let ghost before = stmts@;
    stmts.push(s);
    proof {
        lemma_stmts_view_prefix(before, stmts@, before.len() as int);
    }
}

/// The end of an `if` statement, spelled out.
proof fn lemma_else_unfold(t: Seq<TokenView>, i: int, c: ExprView, s: StmtView)
    ensures
        p_else(t, i, c, s) == if is_at(t, i, TokenKind::Else) {
            match p_stmt(t, i + 1) {
                Ok(g) => Ok::<Got<StmtView>, ParseError>(
                    Got {
                        val: StmtView::If(c, Box::new(s), Some(Box::new(g.val))),
                        used: g.used + 1,
                    },
                ),
                Err(e) => Err(e),
            }
        } else {
            Ok(Got { val: StmtView::If(c, Box::new(s), None), used: 0 })
        },
{
    reveal_with_fuel(p_else, 1);
    reveal_with_fuel(p_stmt, 1);
}

/// The `if` statement with the condition `c` and the branch `s`, with
/// the `else` branch if one follows.
fn else_part(tokens: &Vec<Token>, idx: &mut usize, c: Expr, s: Stmt) -> (r: Result<
    Stmt,
    ParseError,
>)
    requires
        *old(idx) <= tokens.len(),
    ensures
        got(
            r,
            *old(idx),
            *final(idx),
            p_else(tokens_view(tokens@), *old(idx) as int, c@, s@),
        ),
        *final(idx) <= tokens.len(),
    decreases tokens.len() - *old(idx), 0nat,
{
    proof {
        lemma_else_unfold(tokens_view(tokens@), *idx as int, c@, s@);
    }
    if at(tokens, *idx, TokenKind::Else) {
        *idx = *idx + 1;
        let f = stmt(tokens, idx)?;
        Ok(Stmt::If(c, Box::new(s), Some(Box::new(f))))
    } else {
        Ok(Stmt::If(c, Box::new(s), None))
    }
}

/// The end of a `do` loop with the given body, from the `while` on.
fn do_tail(tokens: &Vec<Token>, idx: &mut usize, body: Stmt) -> (r: Result<Stmt, ParseError>)
    requires
        *old(idx) <= tokens.len(),
    ensures
        got(
            r,
            *old(idx),
            *final(idx),
            p_do_tail(tokens_view(tokens@), *old(idx) as int, body@),
        ),
        *final(idx) <= tokens.len(),
{
    expect(tokens, idx, TokenKind::While)?;
    let c = paren(tokens, idx)?;
    expect(tokens, idx, TokenKind::Semi)?;
    Ok(Stmt::DoWhile(Box::new(body), c))
}

/// What a statement is, spelled out.
#[verifier::rlimit(40)]
proof fn lemma_stmt_unfold(t: Seq<TokenView>, i: int)
    ensures
        kind_at(t, i) is None ==> p_stmt(t, i) == Err::<Got<StmtView>, ParseError>(
            ParseError::Syntax,
        ),
        is_at(t, i, TokenKind::Semi) ==> p_stmt(t, i) == Ok::<Got<StmtView>, ParseError>(
            Got { val: StmtView::Empty, used: 1 },
        ),
        is_at(t, i, TokenKind::Return) ==> p_stmt(t, i) == match p_expr_semi(t, i + 1) {
            Ok(g) => Ok::<Got<StmtView>, ParseError>(
                Got { val: StmtView::Ret(g.val), used: g.used + 1 },
            ),
            Err(e) => Err(e),
        },
        is_at(t, i, TokenKind::If) ==> p_stmt(t, i) == match p_paren(t, i + 1) {
            Err(e) => Err::<Got<StmtView>, ParseError>(e),
            Ok(c) => match p_stmt(t, i + 1 + c.used) {
                Err(e) => Err(e),
                Ok(s) => shift(
                    p_else(t, i + 1 + c.used + s.used, c.val, s.val),
                    c.used + s.used + 1,
                ),
            },
        },
        is_at(t, i, TokenKind::LBrc) ==> p_stmt(t, i) == match p_stmts_rest(
            t,
            i + 1,
            Seq::empty(),
        ) {
            Err(e) => Err::<Got<StmtView>, ParseError>(e),
            Ok(ss) => if is_at(t, i + 1 + ss.used, TokenKind::RBrc) {
                Ok(Got { val: StmtView::Block(ss.val), used: ss.used + 2 })
            } else {
                Err(ParseError::Syntax)
            },
        },
        is_at(t, i, TokenKind::While) ==> p_stmt(t, i) == match p_paren(t, i + 1) {
            Err(e) => Err::<Got<StmtView>, ParseError>(e),
            Ok(c) => match p_stmt(t, i + 1 + c.used) {
                Ok(g) => Ok(
                    Got {
                        val: StmtView::For {
                            cond: Some(c.val),
                            update: None,
                            body: Box::new(g.val),
                        },
                        used: g.used + c.used + 1,
                    },
                ),
                Err(e) => Err(e),
            },
        },
        is_at(t, i, TokenKind::Do) ==> p_stmt(t, i) == match p_stmt(t, i + 1) {
            Err(e) => Err::<Got<StmtView>, ParseError>(e),
            Ok(body) => shift(p_do_tail(t, i + 1 + body.used, body.val), body.used + 1),
        },
        is_at(t, i, TokenKind::For) ==> p_stmt(t, i) == if !is_at(t, i + 1, TokenKind::LPar) {
            Err::<Got<StmtView>, ParseError>(ParseError::Syntax)
        } else {
            match p_for_head(t, i + 2) {
                Err(e) => Err(e),
                Ok(h) => match p_stmt(t, i + 2 + h.used) {
                    Ok(g) => Ok(
                        Got {
                            val: StmtView::Block(
                                seq![
                                    h.val.init,
                                    StmtView::For {
                                        cond: h.val.cond,
                                        update: h.val.update,
                                        body: Box::new(g.val),
                                    },
                                ],
                            ),
                            used: g.used + h.used + 2,
                        },
                    ),
                    Err(e) => Err(e),
                },
            }
        },
        is_at(t, i, TokenKind::Break) ==> p_stmt(t, i) == if is_at(t, i + 1, TokenKind::Semi) {
            Ok::<Got<StmtView>, ParseError>(Got { val: StmtView::Break, used: 2 })
        } else {
            Err(ParseError::Syntax)
        },
        is_at(t, i, TokenKind::Continue) ==> p_stmt(t, i) == if is_at(
            t,
            i + 1,
            TokenKind::Semi,
        ) {
            Ok::<Got<StmtView>, ParseError>(Got { val: StmtView::Continue, used: 2 })
        } else {
            Err(ParseError::Syntax)
        },
        kind_at(t, i) is Some && !starts_statement(kind_at(t, i).unwrap()) ==> p_stmt(t, i)
            == match p_expr_semi(t, i) {
            Ok(g) => Ok::<Got<StmtView>, ParseError>(
                Got { val: StmtView::Expr(g.val), used: g.used },
            ),
            Err(e) => Err(e),
        },
{
    reveal_with_fuel(p_stmt, 1);
    reveal_with_fuel(p_else, 1);
    reveal_with_fuel(p_stmts_rest, 1);
}

/// Whether a token of this kind starts a statement that is no expression
/// statement.
pub open spec fn starts_statement(k: TokenKind) -> bool {
    k == TokenKind::Semi || k == TokenKind::Return || k == TokenKind::If || k == TokenKind::LBrc
        || k == TokenKind::While || k == TokenKind::Do || k == TokenKind::For || k
        == TokenKind::Break || k == TokenKind::Continue
}

/// The block of two statements.
fn pair(a: Stmt, b: Stmt) -> (s: Stmt)
    ensures
        s@ == StmtView::Block(seq![a@, b@]),
{
    let mut v: Vec<Stmt> = Vec::new();
    assert(stmts_view(v@, 0) =~= Seq::<StmtView>::empty());
    push_stmt(&mut v, a);
    push_stmt(&mut v, b);
    assert(stmts_view(v@, 2) =~= seq![a@, b@]);
    Stmt::Block(v)
}

/// A statement.
#[verifier::rlimit(40)]
fn stmt(tokens: &Vec<Token>, idx: &mut usize) -> (r: Result<Stmt, ParseError>)
    requires
        *old(idx) <= tokens.len(),
    ensures
        got(r, *old(idx), *final(idx), p_stmt(tokens_view(tokens@), *old(idx) as int)),
        *final(idx) <= tokens.len(),
    decreases tokens.len() - *old(idx), 1nat,
{
    proof {
        lemma_stmt_unfold(tokens_view(tokens@), *idx as int);
    }
    let i = *idx;
    let k = match peek(tokens, i) {
        Some(k) => k,
        None => {
            return Err(ParseError::Syntax);
        },
    };
    match k {
        TokenKind::Semi => {
            *idx = i + 1;
            Ok(Stmt::Empty)
        },
        TokenKind::Return => {
            *idx = i + 1;
            let e = expr_semi(tokens, idx)?;
            Ok(Stmt::Ret(e))
        },
        TokenKind::If => {
            *idx = i + 1;
            let c = paren(tokens, idx)?;
            let s = stmt(tokens, idx)?;
            else_part(tokens, idx, c, s)
        },
        TokenKind::LBrc => {
            *idx = i + 1;
            let mut v: Vec<Stmt> = Vec::new();
            assert(stmts_view(v@, 0) =~= Seq::<StmtView>::empty());
            stmts_rest(tokens, idx, &mut v)?;
            expect(tokens, idx, TokenKind::RBrc)?;
            Ok(Stmt::Block(v))
        },
        TokenKind::While => {
            *idx = i + 1;
            let c = paren(tokens, idx)?;
            let body = stmt(tokens, idx)?;
            Ok(Stmt::For { cond: Some(c), update: None, body: Box::new(body) })
        },
        TokenKind::Do => {
            *idx = i + 1;
            let body = stmt(tokens, idx)?;
            do_tail(tokens, idx, body)
        },
        TokenKind::For => {
            *idx = i + 1;
            expect(tokens, idx, TokenKind::LPar)?;
            let h = for_head(tokens, idx)?;
            let body = stmt(tokens, idx)?;
            Ok(pair(h.init, Stmt::For { cond: h.cond, update: h.update, body: Box::new(body) }))
        },
        TokenKind::Break => {
            *idx = i + 1;
            expect(tokens, idx, TokenKind::Semi)?;
            Ok(Stmt::Break)
        },
        TokenKind::Continue => {
            *idx = i + 1;
            expect(tokens, idx, TokenKind::Semi)?;
            Ok(Stmt::Continue)
        },
        _ => {
            let e = expr_semi(tokens, idx)?;
            Ok(Stmt::Expr(e))
        },
    }
}

/// A statement or a declaration uses at least one token, and so does a
/// function or a global: lists of them are read to their end.
pub proof fn lemma_items_use_tokens(t: Seq<TokenView>, i: int)
    ensures
        p_item(t, i) matches Ok(s) ==> s.used > 0,
        p_top(t, i) matches Ok(top) ==> top.used > 0,
{
    lemma_stmt_unfold(t, i);
    reveal_with_fuel(p_stmt, 1);
}

/// The statement or the declaration at the position in a list of
/// statements.
fn item(tokens: &Vec<Token>, idx: &mut usize) -> (r: Result<Stmt, ParseError>)
    requires
        *old(idx) <= tokens.len(),
    ensures
        got(r, *old(idx), *final(idx), p_item(tokens_view(tokens@), *old(idx) as int)),
        *final(idx) <= tokens.len(),
    decreases tokens.len() - *old(idx), 2nat,
{
    proof {
        reveal_with_fuel(p_stmt, 1);
    }
    if at(tokens, *idx, TokenKind::Int) {
        let d = decl(tokens, idx)?;
        expect(tokens, idx, TokenKind::Semi)?;
        Ok(Stmt::Decl(d))
    } else {
        stmt(tokens, idx)
    }
}

/// One more statement of a list, spelled out.
proof fn lemma_stmts_step(t: Seq<TokenView>, i: int, acc: Seq<StmtView>)
    ensures
        p_stmts_rest(t, i, acc) == if is_at(t, i, TokenKind::RBrc) || kind_at(t, i) is None {
            Ok::<Got<Seq<StmtView>>, ParseError>(Got { val: acc, used: 0 })
        } else {
            match p_item(t, i) {
                Err(e) => Err(e),
                Ok(s) => if s.used == 0 {
                    Err(ParseError::Syntax)
                } else {
                    shift(p_stmts_rest(t, i + s.used, acc.push(s.val)), s.used)
                },
            }
        },
{
    reveal_with_fuel(p_stmts_rest, 1);
    reveal_with_fuel(p_stmt, 1);
}

/// The statements and declarations after those in `stmts`, up to a `}`
/// or the end of the tokens.
fn stmts_rest(tokens: &Vec<Token>, idx: &mut usize, stmts: &mut Vec<Stmt>) -> (r: Result<
    (),
    ParseError,
>)
    requires
        *old(idx) <= tokens.len(),
    ensures
        match p_stmts_rest(
            tokens_view(tokens@),
            *old(idx) as int,
            stmts_view(old(stmts)@, old(stmts)@.len() as int),
        ) {
            Ok(g) => r is Ok && stmts_view(final(stmts)@, final(stmts)@.len() as int) == g.val
                && *final(idx) == *old(idx) + g.used,
            Err(e) => r == Err::<(), ParseError>(e),
        },
        *final(idx) <= tokens.len(),
    decreases tokens.len() - *old(idx), 3nat,
{
    let ghost tv = tokens_view(tokens@);
    let ghost goal = p_stmts_rest(tv, *idx as int, stmts_view(stmts@, stmts@.len() as int));
    loop
        invariant
            tv == tokens_view(tokens@),
            *old(idx) <= *idx <= tokens.len(),
            goal == p_stmts_rest(
                tv,
                *old(idx) as int,
                stmts_view(old(stmts)@, old(stmts)@.len() as int),
            ),
            goal == shift(
                p_stmts_rest(tv, *idx as int, stmts_view(stmts@, stmts@.len() as int)),
                (*idx - *old(idx)) as nat,
            ),
        decreases tokens.len() - *idx,
    {
        proof {
            lemma_stmts_step(tv, *idx as int, stmts_view(stmts@, stmts@.len() as int));
        }
        let i = *idx;
        if i >= tokens.len() || at(tokens, i, TokenKind::RBrc) {
            return Ok(());
        }
        let s = item(tokens, idx)?;
        if *idx == i {
            return Err(ParseError::Syntax);
        }
        push_stmt(stmts, s);
    }
}

/// One more parameter, spelled out.
proof fn lemma_params_step(t: Seq<TokenView>, i: int, acc: Seq<DeclView>)
    ensures
        p_params_rest(t, i, acc) == if is_at(t, i, TokenKind::Comma) {
            match p_decl(t, i + 1) {
                Err(e) => Err::<Got<Seq<DeclView>>, ParseError>(e),
                Ok(d) => shift(p_params_rest(t, i + 1 + d.used, acc.push(d.val)), d.used + 1),
            }
        } else {
            Ok(Got { val: acc, used: 0 })
        },
{
    reveal_with_fuel(p_params_rest, 1);
}

/// Adds a declaration to a list, and its content to the contents.
fn push_decl(decls: &mut Vec<Decl>, d: Decl)
    ensures
        decls_view(final(decls)@) == decls_view(old(decls)@).push(d@),
{
    let ghost before = decls@;
    decls.push(d);
    assert(decls_view(decls@) =~= decls_view(before).push(d@));
}

/// The parameters after those in `ps`: `("," decl)*`
fn params_rest(tokens: &Vec<Token>, idx: &mut usize, ps: &mut Vec<Decl>) -> (r: Result<
    (),
    ParseError,
>)
    requires
        *old(idx) <= tokens.len(),
    ensures
        match p_params_rest(tokens_view(tokens@), *old(idx) as int, decls_view(old(ps)@)) {
            Ok(g) => r is Ok && decls_view(final(ps)@) == g.val && *final(idx) == *old(idx)
                + g.used,
            Err(e) => r == Err::<(), ParseError>(e),
        },
        *final(idx) <= tokens.len(),
{
    let ghost tv = tokens_view(tokens@);
    let ghost goal = p_params_rest(tv, *idx as int, decls_view(ps@));
    loop
        invariant
            tv == tokens_view(tokens@),
            *old(idx) <= *idx <= tokens.len(),
            goal == p_params_rest(tv, *old(idx) as int, decls_view(old(ps)@)),
            goal == shift(
                p_params_rest(tv, *idx as int, decls_view(ps@)),
                (*idx - *old(idx)) as nat,
            ),
        decreases tokens.len() - *idx,
    {
        proof {
            lemma_params_step(tv, *idx as int, decls_view(ps@));
        }
        if !at(tokens, *idx, TokenKind::Comma) {
            return Ok(());
        }
        *idx = *idx + 1;
        let d = decl(tokens, idx)?;
        push_decl(ps, d);
    }
}

/// `"(" (decl ("," decl)*)? ")"`
fn params(tokens: &Vec<Token>, idx: &mut usize) -> (r: Result<Vec<Decl>, ParseError>)
    requires
        *old(idx) <= tokens.len(),
    ensures
        match p_params(tokens_view(tokens@), *old(idx) as int) {
            Ok(g) => r is Ok && decls_view(r.unwrap()@) == g.val && *final(idx) == *old(idx)
                + g.used,
            Err(e) => r is Err && r->Err_0 == e,
        },
        *final(idx) <= tokens.len(),
{
    expect(tokens, idx, TokenKind::LPar)?;
    let mut ps: Vec<Decl> = Vec::new();
    assert(decls_view(ps@) =~= Seq::<DeclView>::empty());
    if at(tokens, *idx, TokenKind::RPar) {
        *idx = *idx + 1;
        return Ok(ps);
    }
    let d = decl(tokens, idx)?;
    push_decl(&mut ps, d);
    assert(decls_view(ps@) =~= seq![d@]);
    params_rest(tokens, idx, &mut ps)?;
    expect(tokens, idx, TokenKind::RPar)?;
    Ok(ps)
}

/// The contents of an optional list of statements.
pub open spec fn body_view(b: Option<Vec<Stmt>>) -> Option<Seq<StmtView>> {
    match b {
        None => None,
        Some(ss) => Some(stmts_view(ss@, ss@.len() as int)),
    }
}

/// The body of a function: `";"` for a prototype, or `"{" stmts "}"`.
fn body(tokens: &Vec<Token>, idx: &mut usize) -> (r: Result<Option<Vec<Stmt>>, ParseError>)
    requires
        *old(idx) <= tokens.len(),
    ensures
        match p_body(tokens_view(tokens@), *old(idx) as int) {
            Ok(g) => r is Ok && body_view(r.unwrap()) == g.val && *final(idx) == *old(idx)
                + g.used,
            Err(e) => r is Err && r->Err_0 == e,
        },
        *final(idx) <= tokens.len(),
{
    if at(tokens, *idx, TokenKind::Semi) {
        *idx = *idx + 1;
        Ok(None)
    } else if at(tokens, *idx, TokenKind::LBrc) {
        *idx = *idx + 1;
        let mut v: Vec<Stmt> = Vec::new();
        assert(stmts_view(v@, 0) =~= Seq::<StmtView>::empty());
        stmts_rest(tokens, idx, &mut v)?;
        expect(tokens, idx, TokenKind::RBrc)?;
        Ok(Some(v))
    } else {
        Err(ParseError::Syntax)
    }
}

/// A function or a global variable as the parser holds it.
pub enum Top {
    Func(Func),
    Glob(Decl),
}

impl View for Top {
    type V = TopView;

    open spec fn view(&self) -> TopView {
        match self {
            Top::Func(f) => TopView::Func(f@),
            Top::Glob(d) => TopView::Glob(d@),
        }
    }
}

/// `func | decl ";"`
fn top(tokens: &Vec<Token>, idx: &mut usize) -> (r: Result<Top, ParseError>)
    requires
        *old(idx) <= tokens.len(),
    ensures
        got(r, *old(idx), *final(idx), p_top(tokens_view(tokens@), *old(idx) as int)),
        *final(idx) <= tokens.len(),
{
    let start = *idx;
    let ret = ty(tokens, idx)?;
    if !at(tokens, *idx, TokenKind::Id) {
        return Err(ParseError::Syntax);
    }
    if at(tokens, *idx + 1, TokenKind::LPar) {
        let name = text_at(tokens, *idx);
        *idx = *idx + 1;
        let ps = params(tokens, idx)?;
        let stmts = body(tokens, idx)?;
        Ok(Top::Func(Func { ret, name, params: ps, stmts }))
    } else {
        *idx = start;
        let d = decl(tokens, idx)?;
        expect(tokens, idx, TokenKind::Semi)?;
        Ok(Top::Glob(d))
    }
}

/// One more function or global, spelled out.
proof fn lemma_prog_step(t: Seq<TokenView>, i: int, acc: ProgView)
    ensures
        p_prog_rest(t, i, acc) == if kind_at(t, i) is None {
            Ok::<ProgView, ParseError>(acc)
        } else {
            match p_top(t, i) {
                Err(e) => Err(e),
                Ok(top) => if top.used == 0 {
                    Err(ParseError::Syntax)
                } else {
                    p_prog_rest(t, i + top.used, with_top(acc, top.val))
                },
            }
        },
{
    reveal_with_fuel(p_prog_rest, 1);
}

/// The program that a text writes: that of its tokens.
pub open spec fn parse_text(input: Seq<char>) -> Result<ProgView, ParseError> {
    match scan(input) {
        Err(e) => Err(e),
        Ok(tokens) => p_prog(tokens),
    }
}

/// The program that a list of tokens writes.
pub fn parse_tokens(tokens: &Vec<Token>) -> (r: Result<Prog, ParseError>)
    ensures
        match p_prog(tokens_view(tokens@)) {
            Ok(p) => r is Ok && r.unwrap()@ == p,
            Err(e) => r is Err && r->Err_0 == e,
        },
{
    let ghost tv = tokens_view(tokens@);
    let mut prog = Prog { funcs: Vec::new(), globs: Vec::new() };
    let mut idx: usize = 0;
    assert(prog@.funcs =~= Seq::<crate::ast::FuncView>::empty());
    assert(prog@.globs =~= Seq::<DeclView>::empty());
    while idx < tokens.len()
        invariant
            tv == tokens_view(tokens@),
            idx <= tokens.len(),
            p_prog(tv) == p_prog_rest(tv, idx as int, prog@),
        decreases tokens.len() - idx,
    {
        proof {
            lemma_prog_step(tv, idx as int, prog@);
        }
        let i = idx;
        let t = top(tokens, &mut idx)?;
        if idx == i {
            return Err(ParseError::Syntax);
        }
        let ghost before = prog@;
        match t {
            Top::Func(f) => {
                prog.funcs.push(f);
                assert(prog@.funcs =~= before.funcs.push(f@));
                assert(prog@.globs =~= before.globs);
            },
            Top::Glob(d) => {
                prog.globs.push(d);
                assert(prog@.globs =~= before.globs.push(d@));
                assert(prog@.funcs =~= before.funcs);
            },
        }
    }
    proof {
        lemma_prog_step(tv, idx as int, prog@);
    }
    Ok(prog)
}

/// The parser of the language.
#[derive(Debug, Clone, Copy, Default)]
pub struct Parser {}

impl Parser {
    /// Reads the rest of the text of a lexer as a program.
    pub fn parse(&self, lexer: &mut Lexer) -> (r: Result<Prog, ParseError>)
        requires
            old(lexer).pos <= old(lexer).chars.len(),
        ensures
            match scan_from(old(lexer).chars@, old(lexer).pos as int) {
                Err(e) => r is Err && r->Err_0 == e,
                Ok(tokens) => match p_prog(tokens) {
                    Ok(p) => r is Ok && r.unwrap()@ == p,
                    Err(e) => r is Err && r->Err_0 == e,
                },
            },
    {
        let tokens = lexer.all()?;
        parse_tokens(&tokens)
    }
}

/// Reads a text as a program.
pub fn parse(input: &str) -> (r: Result<Prog, ParseError>)
    ensures
        match parse_text(input@) {
            Ok(p) => r is Ok && r.unwrap()@ == p,
            Err(e) => r is Err && r->Err_0 == e,
        },
{
    let mut lexer = Lexer::new(input);
    Parser {}.parse(&mut lexer)
}

} // verus!
