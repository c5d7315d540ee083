//! A tokenizer for a first subset of the language: integer literals,
//! identifiers, the keywords `int` and `return`, and six punctuation
//! marks.

use vstd::prelude::*;
use vstd::string::StringExecFns;
use crate::text::chars_of;

verus! {

/// The kind of a token, with its value where it has one.
#[derive(Debug, PartialEq, Clone)]
pub enum TokenType {
    /// Number literal
    Num(i32),
    /// Identifier
    Ident(String),
    /// `int`
    Int,
    /// `;`
    Semicolon,
    /// `(`
    LeftParen,
    /// `)`
    RightParen,
    /// `{`
    LeftBrace,
    /// `}`
    RightBrace,
    /// `=`
    Equal,
    /// `return`
    Return,
}

/// The mathematical content of a [`TokenType`].
pub enum TokenTypeView {
    Num(i32),
    Ident(Seq<char>),
    Int,
    Semicolon,
    LeftParen,
    RightParen,
    LeftBrace,
    RightBrace,
    Equal,
    Return,
}

impl View for TokenType {
    type V = TokenTypeView;

    open spec fn view(&self) -> TokenTypeView {
        match self {
            TokenType::Num(x) => TokenTypeView::Num(*x),
            TokenType::Ident(name) => TokenTypeView::Ident(name@),
            TokenType::Int => TokenTypeView::Int,
            TokenType::Semicolon => TokenTypeView::Semicolon,
            TokenType::LeftParen => TokenTypeView::LeftParen,
            TokenType::RightParen => TokenTypeView::RightParen,
            TokenType::LeftBrace => TokenTypeView::LeftBrace,
            TokenType::RightBrace => TokenTypeView::RightBrace,
            TokenType::Equal => TokenTypeView::Equal,
            TokenType::Return => TokenTypeView::Return,
        }
    }
}

/// The class of a character, as the tokenizer sees it.
#[derive(Debug, Clone, Copy, PartialEq, Eq, Structural)]
pub enum CharacterType {
    /// A blank or a tab
    Whitespace,
    /// A line feed
    NewLine,
    /// A letter or an underscore
    Alphabetic,
    /// A decimal digit
    Digit,
    /// Any other character
    NonAlphabetic(char),
    /// A character that cannot be read
    Unknown(char),
}

/// Why a text is no sequence of tokens.
#[derive(Debug, Clone, Copy, PartialEq, Eq, Structural)]
pub enum TokenizeError {
    /// A character that starts no token.
    UnknownCharacter,
    /// A number literal above the largest `i32`.
    NumberTooLarge,
}

/// The token that a punctuation mark is.
pub open spec fn single_letter(c: char) -> Option<TokenTypeView> {
    if c == ';' {
        Some(TokenTypeView::Semicolon)
    } else if c == '=' {
        Some(TokenTypeView::Equal)
    } else if c == '(' {
        Some(TokenTypeView::LeftParen)
    } else if c == ')' {
        Some(TokenTypeView::RightParen)
    } else if c == '{' {
        Some(TokenTypeView::LeftBrace)
    } else if c == '}' {
        Some(TokenTypeView::RightBrace)
    } else {
        None
    }
}

impl TokenType {
    /// The token of a punctuation mark, if the character is one.
    pub fn new_single_letter(c: char) -> (r: Option<TokenType>)
        ensures
            match single_letter(c) {
                Some(t) => r is Some && r.unwrap()@ == t,
                None => r is None,
            },
    {
        if c == ';' {
            Some(TokenType::Semicolon)
        } else if c == '=' {
            Some(TokenType::Equal)
        } else if c == '(' {
            Some(TokenType::LeftParen)
        } else if c == ')' {
            Some(TokenType::RightParen)
        } else if c == '{' {
            Some(TokenType::LeftBrace)
        } else if c == '}' {
            Some(TokenType::RightBrace)
        } else {
            None
        }
    }

    /// A copy of the token type.
    pub fn duplicate(&self) -> (r: TokenType)
        ensures
            r@ == self@,
    {
        match self {
            TokenType::Num(x) => TokenType::Num(*x),
            TokenType::Ident(name) => TokenType::Ident(name.clone()),
            TokenType::Int => TokenType::Int,
            TokenType::Semicolon => TokenType::Semicolon,
            TokenType::LeftParen => TokenType::LeftParen,
            TokenType::RightParen => TokenType::RightParen,
            TokenType::LeftBrace => TokenType::LeftBrace,
            TokenType::RightBrace => TokenType::RightBrace,
            TokenType::Equal => TokenType::Equal,
            TokenType::Return => TokenType::Return,
        }
    }
}

/// The types of the language.
#[derive(Debug, Clone, Copy, PartialEq, Eq, Structural)]
pub enum Ctype {
    Int,
}

impl Default for Ctype {
    fn default() -> (r: Ctype)
        ensures
            r == Ctype::Int,
    {
        Ctype::Int
    }
}

/// A type with its size and alignment in bytes.
#[derive(Debug, Clone, Copy, PartialEq, Eq, Structural)]
pub struct Type {
    pub ty: Ctype,
    pub size: usize,
    pub align: usize,
}

impl Default for Type {
    fn default() -> (r: Type)
        ensures
            r == (Type { ty: Ctype::Int, size: 4, align: 4 }),
    {
        Type { ty: Ctype::Int, size: 4, align: 4 }
    }
}

/// A token.
#[derive(Debug, Clone)]
pub struct Token {
    pub ty: TokenType,
}

impl View for Token {
    type V = TokenTypeView;

    open spec fn view(&self) -> TokenTypeView {
        self.ty@
    }
}

impl Default for Token {
    fn default() -> (r: Token)
        ensures
            r@ == TokenTypeView::Int,
    {
        Token { ty: TokenType::Int }
    }
}

impl Token {
    /// A token of the given type.
    pub fn new(ty: TokenType) -> (t: Token)
        ensures
            t.ty == ty,
    {
        Token { ty }
    }

    /// Tests whether the token is the identifier `s`.
    pub fn is_ident(&self, s: &str) -> (b: bool)
        ensures
            b == (self@ == TokenTypeView::Ident(s@)),
    {
        match &self.ty {
            TokenType::Ident(name) => {
                let other = String::from_str(s);
                *name == other
            },
            _ => false,
        }
    }
}

/// The views of a list of tokens.
pub open spec fn tokens_view(tokens: Seq<Token>) -> Seq<TokenTypeView> {
    tokens.map_values(|t: Token| t@)
}

/// Whether the character has the Unicode property `Alphabetic`.
pub uninterp spec fn is_alphabetic(c: char) -> bool;

/// `char::is_alphabetic` of the standard library. The contract gives its
/// result a name and claims no more than that the result depends on the
/// character alone.
#[verifier::external_body]
fn char_is_alphabetic(c: char) -> (b: bool)
    ensures
        b == is_alphabetic(c),
{
    c.is_alphabetic()
}

/// Whether the character is a decimal digit.
pub open spec fn is_digit(c: char) -> bool {
    '0' <= c && c <= '9'
}

/// The value of a decimal digit.
pub open spec fn digit_value(c: char) -> int {
    c as u32 - '0' as u32
}

/// Whether the character starts an identifier.
pub open spec fn starts_ident(c: char) -> bool {
    is_alphabetic(c) || c == '_'
}

/// Whether the character continues an identifier.
pub open spec fn continues_ident(c: char) -> bool {
    is_alphabetic(c) || is_digit(c) || c == '_'
}

/// The class of a character.
pub open spec fn classify(c: char) -> CharacterType {
    if c == '\n' {
        CharacterType::NewLine
    } else if c == ' ' || c == '\t' {
        CharacterType::Whitespace
    } else if starts_ident(c) {
        CharacterType::Alphabetic
    } else if is_digit(c) {
        CharacterType::Digit
    } else {
        CharacterType::NonAlphabetic(c)
    }
}

/// Where the run of identifier characters that holds position `i` ends.
pub open spec fn ident_end(input: Seq<char>, i: int) -> int
    decreases input.len() - i,
{
    if 0 <= i < input.len() && continues_ident(input[i]) {
        ident_end(input, i + 1)
    } else {
        i
    }
}

/// Where the run of digits that holds position `i` ends.
pub open spec fn digits_end(input: Seq<char>, i: int) -> int
    decreases input.len() - i,
{
    if 0 <= i < input.len() && is_digit(input[i]) {
        digits_end(input, i + 1)
    } else {
        i
    }
}

/// The number that the digits from `from` up to `to` write.
pub open spec fn digits_value(input: Seq<char>, from: int, to: int) -> int
    decreases to - from,
{
    if to <= from {
        0
    } else {
        digits_value(input, from, to - 1) * 10 + digit_value(input[to - 1])
    }
}

/// The keywords of the language by their spelling.
pub open spec fn keywords() -> Map<Seq<char>, TokenTypeView> {
    Map::<Seq<char>, TokenTypeView>::empty().insert("int"@, TokenTypeView::Int).insert(
        "return"@,
        TokenTypeView::Return,
    )
}

/// The token that a word is: a keyword if the table has it, else an
/// identifier.
pub open spec fn word(keywords: Map<Seq<char>, TokenTypeView>, name: Seq<char>) -> TokenTypeView {
    if keywords.contains_key(name) {
        keywords[name]
    } else {
        TokenTypeView::Ident(name)
    }
}

/// A token in front of the tokens that follow it, if there is no error
/// among those.
pub open spec fn then_tokens(
    first: Seq<TokenTypeView>,
    rest: Result<Seq<TokenTypeView>, TokenizeError>,
) -> Result<Seq<TokenTypeView>, TokenizeError> {
    match rest {
        Ok(r) => Ok(first + r),
        Err(e) => Err(e),
    }
}

/// The tokens of the text from position `pos` on. Blanks, tabs and line
/// feeds separate tokens. A word is the longest run of letters, digits and
/// underscores that starts with a letter or an underscore; a number is the
/// longest run of digits.
pub open spec fn tokens_from(keywords: Map<Seq<char>, TokenTypeView>, input: Seq<char>, pos: int)
    -> Result<Seq<TokenTypeView>, TokenizeError>
    decreases input.len() - pos,
{
    if pos < 0 || pos >= input.len() {
        Ok(Seq::empty())
    } else {
        match classify(input[pos]) {
            CharacterType::NewLine | CharacterType::Whitespace => tokens_from(
                keywords,
                input,
                pos + 1,
            ),
            CharacterType::Alphabetic => {
                let end = ident_end(input, pos + 1);
                if end <= pos || end > input.len() {
                    Ok(Seq::empty())
                } else {
                    then_tokens(
                        seq![word(keywords, input.subrange(pos, end))],
                        tokens_from(keywords, input, end),
                    )
                }
            },
            CharacterType::Digit => {
                let end = digits_end(input, pos + 1);
                if end <= pos || end > input.len() {
                    Ok(Seq::empty())
                } else if digits_value(input, pos, end) > i32::MAX {
                    Err(TokenizeError::NumberTooLarge)
                } else {
                    then_tokens(
                        seq![TokenTypeView::Num(digits_value(input, pos, end) as i32)],
                        tokens_from(keywords, input, end),
                    )
                }
            },
            CharacterType::NonAlphabetic(c) => match single_letter(c) {
                Some(t) => then_tokens(seq![t], tokens_from(keywords, input, pos + 1)),
                None => Err(TokenizeError::UnknownCharacter),
            },
            CharacterType::Unknown(_) => Err(TokenizeError::UnknownCharacter),
        }
    }
}

/// A run ends at or after the position at which it is asked for.
pub proof fn lemma_run_ends_later(input: Seq<char>, i: int)
    requires
        0 <= i <= input.len(),
    ensures
        i <= ident_end(input, i) <= input.len(),
        i <= digits_end(input, i) <= input.len(),
    decreases input.len() - i,
{
    if i < input.len() {
        lemma_run_ends_later(input, i + 1);
    }
}

/// The tokens of a text.
pub open spec fn tokens_of(input: Seq<char>) -> Result<Seq<TokenTypeView>, TokenizeError> {
    tokens_from(keywords(), input, 0)
}

/// One entry of a [`KeywordMap`].
#[derive(Debug)]
pub struct Keyword {
    pub name: String,
    pub ty: TokenType,
}

/// The mapping that a list of keywords denotes; a later entry replaces an
/// earlier one of the same spelling.
pub open spec fn keyword_bindings(entries: Seq<Keyword>) -> Map<Seq<char>, TokenTypeView>
    decreases entries.len(),
{
    if entries.len() == 0 {
        Map::empty()
    } else {
        keyword_bindings(entries.drop_last()).insert(entries.last().name@, entries.last().ty@)
    }
}

/// A table of keywords.
#[derive(Debug)]
pub struct KeywordMap {
    pub entries: Vec<Keyword>,
}

impl View for KeywordMap {
    type V = Map<Seq<char>, TokenTypeView>;

    open spec fn view(&self) -> Map<Seq<char>, TokenTypeView> {
        keyword_bindings(self.entries@)
    }
}

impl KeywordMap {
    /// An empty table.
    pub fn new() -> (m: KeywordMap)
        ensures
            m@ == Map::<Seq<char>, TokenTypeView>::empty(),
    {
        KeywordMap { entries: Vec::new() }
    }

    /// Enters a keyword.
    pub fn insert(&mut self, name: String, ty: TokenType)
        ensures
            final(self)@ == old(self)@.insert(name@, ty@),
    {
        let ghost before = self.entries@;
        self.entries.push(Keyword { name, ty });
        assert(self.entries@.drop_last() =~= before);
    }

    /// Looks a word up.
    pub fn get(&self, name: &String) -> (r: Option<&TokenType>)
        ensures
            r is Some == self@.contains_key(name@),
            r matches Some(ty) ==> ty@ == self@[name@],
    {
        let mut i: usize = self.entries.len();
        assert(self.entries@.take(i as int) =~= self.entries@);
        while i > 0
            invariant
                i <= self.entries.len(),
                self@.contains_key(name@) == keyword_bindings(
                    self.entries@.take(i as int),
                ).contains_key(name@),
                self@.contains_key(name@) ==> self@[name@] == keyword_bindings(
                    self.entries@.take(i as int),
                )[name@],
            decreases i,
        {
            i -= 1;
            assert(self.entries@.take(i + 1).drop_last() =~= self.entries@.take(i as int));
            if self.entries[i].name == *name {
                return Some(&self.entries[i].ty);
            }
        }
        None
    }
}

/// The keywords of the language.
pub fn keyword_map() -> (m: KeywordMap)
    ensures
        m@ == keywords(),
{
    let mut m = KeywordMap::new();
    m.insert(String::from_str("int"), TokenType::Int);
    m.insert(String::from_str("return"), TokenType::Return);
    m
}

/// A tokenizer over a text.
pub struct Tokenizer {
    /// The text.
    pub p: Vec<char>,
    /// The position of the next character to read.
    pub pos: usize,
    /// The tokens read so far.
    pub tokens: Vec<Token>,
}

impl Tokenizer {
    /// A tokenizer at the start of a text.
    pub fn new(input: &str) -> (t: Tokenizer)
        ensures
            t.p@ == input@,
            t.pos == 0,
            t.tokens@.len() == 0,
    {
        let p = chars_of(input);
        Tokenizer { p, pos: 0, tokens: Vec::new() }
    }

    /// A token of the given type.
    pub fn new_token(&self, ty: TokenType) -> (t: Token)
        ensures
            t.ty == ty,
    {
        Token::new(ty)
    }

    /// The class of the character `advance_from_pos` places after the
    /// current one, if the text reaches that far.
    pub fn get_character(&self, advance_from_pos: usize) -> (r: Option<CharacterType>)
        ensures
            r == if self.pos + advance_from_pos < self.p.len() {
                Some(classify(self.p@[self.pos + advance_from_pos]))
            } else {
                None::<CharacterType>
            },
    {
        if advance_from_pos >= self.p.len() || self.pos >= self.p.len() - advance_from_pos {
            return None;
        }
        let ch = self.p[self.pos + advance_from_pos];
        Some(
            if ch == '\n' {
                CharacterType::NewLine
            } else if ch == ' ' || ch == '\t' {
                CharacterType::Whitespace
            } else if char_is_alphabetic(ch) || ch == '_' {
                CharacterType::Alphabetic
            } else if ch >= '0' && ch <= '9' {
                CharacterType::Digit
            } else {
                CharacterType::NonAlphabetic(ch)
            },
        )
    }

    /// What is wrong with the character at the current position.
    pub fn bad_position(&self) -> (e: TokenizeError)
        ensures
            e == TokenizeError::UnknownCharacter,
    {
        TokenizeError::UnknownCharacter
    }

    /// Reads the word that starts at the current position.
    pub fn ident(&mut self, keywords: &KeywordMap)
        requires
            old(self).pos < old(self).p.len(),
        ensures
            final(self).p == old(self).p,
            final(self).pos == ident_end(old(self).p@, old(self).pos + 1),
            final(self).pos > old(self).pos,
            tokens_view(final(self).tokens@) == tokens_view(old(self).tokens@).push(
                word(
                    keywords@,
                    old(self).p@.subrange(old(self).pos as int, final(self).pos as int),
                ),
            ),
    {
        let start = self.pos;
        let mut end: usize = start + 1;
        let mut name = String::new();
        name.push(self.p[start]);
        assert(name@ =~= self.p@.subrange(start as int, end as int));
        while end < self.p.len() && (char_is_alphabetic(self.p[end]) || (self.p[end] >= '0'
            && self.p[end] <= '9') || self.p[end] == '_')
            invariant
                start < end <= self.p.len(),
                *self == *old(self),
                start == self.pos,
                name@ == self.p@.subrange(start as int, end as int),
                ident_end(self.p@, start + 1) == ident_end(self.p@, end as int),
            decreases self.p.len() - end,
        {
            name.push(self.p[end]);
            end += 1;
            assert(name@ =~= self.p@.subrange(start as int, end as int));
        }
        let ty = match keywords.get(&name) {
            Some(keyword) => keyword.duplicate(),
            None => TokenType::Ident(name),
        };
        let t = self.new_token(ty);
        self.pos = end;
        let ghost before = self.tokens@;
        self.tokens.push(t);
        assert(tokens_view(self.tokens@) =~= tokens_view(before).push(t@));
    }

    /// Reads the number that starts at the current position.
    pub fn number(&mut self) -> (r: Result<(), TokenizeError>)
        requires
            old(self).pos < old(self).p.len(),
            is_digit(old(self).p@[old(self).pos as int]),
        ensures
            final(self).p == old(self).p,
            match r {
                Ok(_) => {
                    &&& final(self).pos == digits_end(old(self).p@, old(self).pos + 1)
                    &&& final(self).pos > old(self).pos
                    &&& digits_value(old(self).p@, old(self).pos as int, final(self).pos as int)
                        <= i32::MAX
                    &&& tokens_view(final(self).tokens@) == tokens_view(old(self).tokens@).push(
                        TokenTypeView::Num(
                            digits_value(
                                old(self).p@,
                                old(self).pos as int,
                                final(self).pos as int,
                            ) as i32,
                        ),
                    )
                },
                Err(e) => e == TokenizeError::NumberTooLarge && digits_value(
                    old(self).p@,
                    old(self).pos as int,
                    digits_end(old(self).p@, old(self).pos + 1),
                ) > i32::MAX,
            },
    {
        let start = self.pos;
        let mut end: usize = start;
        let mut sum: i32 = 0;
        let mut overflow = false;
        while end < self.p.len() && self.p[end] >= '0' && self.p[end] <= '9'
            invariant
                start <= end <= self.p.len(),
                *self == *old(self),
                start == self.pos,
                is_digit(self.p@[start as int]),
                digits_end(self.p@, start as int) == digits_end(self.p@, end as int),
                0 <= sum,
                !overflow ==> sum == digits_value(self.p@, start as int, end as int),
                overflow ==> digits_value(self.p@, start as int, end as int) > i32::MAX,
                0 <= digits_value(self.p@, start as int, end as int),
            decreases self.p.len() - end,
        {
            let val = (self.p[end] as u32 - '0' as u32) as i32;
            if !overflow {
                if sum > (i32::MAX - val) / 10 {
                    overflow = true;
                } else {
                    sum = sum * 10 + val;
                }
            }
            end += 1;
        }
        if overflow {
            return Err(TokenizeError::NumberTooLarge);
        }
        let t = self.new_token(TokenType::Num(sum));
        self.pos = end;
        let ghost before = self.tokens@;
        self.tokens.push(t);
        assert(tokens_view(self.tokens@) =~= tokens_view(before).push(t@));
        Ok(())
    }

    /// Reads the tokens from the current position to the end of the text,
    /// and returns all tokens read.
    pub fn scan(&mut self, keywords: &KeywordMap) -> (r: Result<Vec<Token>, TokenizeError>)
        requires
            old(self).pos <= old(self).p.len(),
        ensures
            final(self).p == old(self).p,
            match then_tokens(
                tokens_view(old(self).tokens@),
                tokens_from(keywords@, old(self).p@, old(self).pos as int),
            ) {
                Ok(all) => r is Ok && tokens_view(r.unwrap()@) == all && tokens_view(
                    final(self).tokens@,
                ) == all,
                Err(e) => r is Err && r->Err_0 == e,
            },
    {
        let ghost goal = then_tokens(
            tokens_view(self.tokens@),
            tokens_from(keywords@, self.p@, self.pos as int),
        );
        loop
            invariant
                self.p == old(self).p,
                self.pos <= self.p.len(),
                goal == then_tokens(
                    tokens_view(old(self).tokens@),
                    tokens_from(keywords@, old(self).p@, old(self).pos as int),
                ),
                goal == then_tokens(
                    tokens_view(self.tokens@),
                    tokens_from(keywords@, self.p@, self.pos as int),
                ),
            ensures
                self.pos >= self.p.len(),
            decreases self.p.len() - self.pos,
        {
            let ghost acc = tokens_view(self.tokens@);
            let ghost here = self.pos as int;
            match self.get_character(0) {
                None => {
                    break;
                },
                Some(CharacterType::NewLine) => {
                    self.pos += 1;
                },
                Some(CharacterType::Whitespace) => {
                    self.pos += 1;
                },
                Some(CharacterType::Alphabetic) => {
                    proof {
                        lemma_run_ends_later(self.p@, here + 1);
                    }
                    self.ident(keywords);
                    let ghost first = seq![
                        word(keywords@, self.p@.subrange(here, self.pos as int)),
                    ];
                    assert(tokens_view(self.tokens@) =~= acc + first);
                    proof {
                        lemma_then_tokens(acc, first, tokens_from(keywords@, self.p@, self.pos as int));
                    }
                },
                Some(CharacterType::Digit) => {
                    proof {
                        lemma_run_ends_later(self.p@, here + 1);
                    }
                    self.number()?;
                    let ghost first = seq![
                        TokenTypeView::Num(digits_value(self.p@, here, self.pos as int) as i32),
                    ];
                    assert(tokens_view(self.tokens@) =~= acc + first);
                    proof {
                        lemma_then_tokens(acc, first, tokens_from(keywords@, self.p@, self.pos as int));
                    }
                },
                Some(CharacterType::NonAlphabetic(c)) => {
                    match TokenType::new_single_letter(c) {
                        Some(ty) => {
                            let t = self.new_token(ty);
                            self.pos += 1;
                            let ghost before = self.tokens@;
                            self.tokens.push(t);
                            assert(tokens_view(self.tokens@) =~= acc + seq![t@]);
                            proof {
                                lemma_then_tokens(
                                    acc,
                                    seq![t@],
                                    tokens_from(keywords@, self.p@, self.pos as int),
                                );
                            }
                        },
                        None => {
                            return Err(self.bad_position());
                        },
                    }
                },
                Some(CharacterType::Unknown(_)) => {
                    return Err(self.bad_position());
                },
            }
        }
        assert(tokens_view(self.tokens@) + Seq::<TokenTypeView>::empty() =~= tokens_view(
            self.tokens@,
        ));
        let mut out: Vec<Token> = Vec::new();
        let mut i: usize = 0;
        while i < self.tokens.len()
            invariant
                i <= self.tokens.len(),
                tokens_view(out@) == tokens_view(self.tokens@).take(i as int),
            decreases self.tokens.len() - i,
        {
            let t = Token::new(self.tokens[i].ty.duplicate());
            let ghost before = out@;
            out.push(t);
            assert(tokens_view(out@) =~= tokens_view(before).push(t@));
            assert(tokens_view(self.tokens@).take(i + 1) =~= tokens_view(self.tokens@).take(
                i as int,
            ).push(self.tokens@[i as int]@));
            i += 1;
        }
        assert(tokens_view(out@) =~= tokens_view(self.tokens@));
        Ok(out)
    }
}

/// Tokens in front of a token in front of more tokens are all of them in
/// a row.
proof fn lemma_then_tokens(
    acc: Seq<TokenTypeView>,
    first: Seq<TokenTypeView>,
    rest: Result<Seq<TokenTypeView>, TokenizeError>,
)
    ensures
        then_tokens(acc, then_tokens(first, rest)) == then_tokens(acc + first, rest),
{
    match rest {
        Ok(r) => {
            assert(acc + (first + r) =~= (acc + first) + r);
        },
        Err(_) => {},
    }
}

/// Splits a text into tokens, or tells why it is none.
pub fn tokenize(input: &str) -> (r: Result<Vec<Token>, TokenizeError>)
    ensures
        match tokens_of(input@) {
            Ok(all) => r is Ok && tokens_view(r.unwrap()@) == all,
            Err(e) => r is Err && r->Err_0 == e,
        },
{
    let mut tokenizer = Tokenizer::new(input);
    assert(tokens_view(tokenizer.tokens@) =~= Seq::<TokenTypeView>::empty());
    let keywords = keyword_map();
    let ghost all = tokens_from(keywords@, input@, 0);
    proof {
        match all {
            Ok(r) => {
                assert(Seq::<TokenTypeView>::empty() + r =~= r);
            },
            Err(_) => {},
        }
    }
    tokenizer.scan(&keywords)
}

} // verus!
