//! The grammar of the language, as functions from tokens to syntax trees.
//!
//! ```text
//! prog   = (func | decl ";")*
//! func   = ty id "(" (decl ("," decl)*)? ")" (";" | "{" stmts "}")
//! decl   = ty id ("=" expr | ("[" int "]")+)?
//! ty     = "int" "*"*
//! stmts  = (stmt | decl ";")*
//! stmt   = ";" | expr ";" | "return" expr ";" | "{" stmts "}"
//!        | "if" "(" expr ")" stmt ("else" stmt)?
//!        | "while" "(" expr ")" stmt | "do" stmt "while" "(" expr ")" ";"
//!        | "for" "(" (decl | expr?) ";" expr? ";" expr? ")" stmt
//!        | "break" ";" | "continue" ";"
//! expr   = assign
//! assign = cond ("=" assign)?
//! cond   = binary ("?" expr ":" cond)?
//! binary = the operators || && (== !=) (< <= >= >) (+ -) (* / %), each
//!          level binding tighter than the one before and to the left
//! prefix = ("-" | "~" | "!" | "*" | "&" | "(" ty ")") prefix | postfix
//! postfix = primary ("[" expr "]")*
//! primary = int | id | id "(" (expr ("," expr)*)? ")" | "(" expr ")"
//! ```
//!
//! Every function takes the tokens and a position and gives what the rule
//! reads from there and the number of tokens that it uses.

use vstd::prelude::*;
use crate::ast::{BinaryOp, DeclView, ExprView, FuncView, ProgView, StmtView, Ty, UnaryOp};
use crate::lexer::{digits_value, is_digit};

verus! {

/// The kinds of tokens.
#[derive(Debug, Clone, Copy, PartialEq, Eq, Structural)]
pub enum TokenKind {
    Int,
    Return,
    If,
    Else,
    While,
    Do,
    For,
    Break,
    Continue,
    Semi,
    LPar,
    RPar,
    LBrc,
    RBrc,
    LBrk,
    RBrk,
    Comma,
    Assign,
    Add,
    Sub,
    Mul,
    Div,
    Lt,
    Le,
    Ge,
    Gt,
    Eq,
    Ne,
    And,
    Or,
    Mod,
    BNot,
    LNot,
    Question,
    Colon,
    AddrOf,
    IntConst,
    Id,
}

/// The mathematical content of a token: its kind and its text.
pub struct TokenView {
    pub ty: TokenKind,
    pub piece: Seq<char>,
}

/// Why a text is no program.
#[derive(Debug, Clone, Copy, PartialEq, Eq, Structural)]
pub enum ParseError {
    /// A character that starts no token.
    Character,
    /// A token where the grammar allows no such token, or the end of the
    /// text where it allows none.
    Syntax,
    /// An integer literal above the largest value of its type.
    NumberTooLarge,
}

/// What a rule has read, and the number of tokens that it has used.
pub struct Got<T> {
    pub val: T,
    pub used: nat,
}

/// The number of tokens from position `i` on.
pub open spec fn left(t: Seq<TokenView>, i: int) -> nat {
    if i <= t.len() {
        (t.len() - i) as nat
    } else {
        0
    }
}

/// The kind of the token at position `i`, if there is one.
pub open spec fn kind_at(t: Seq<TokenView>, i: int) -> Option<TokenKind> {
    if 0 <= i < t.len() {
        Some(t[i].ty)
    } else {
        None
    }
}

/// Whether the token at position `i` has the kind `k`.
pub open spec fn is_at(t: Seq<TokenView>, i: int, k: TokenKind) -> bool {
    kind_at(t, i) == Some(k)
}

/// What was read, counted from `k` tokens earlier.
pub open spec fn shift<T>(r: Result<Got<T>, ParseError>, k: nat) -> Result<Got<T>, ParseError> {
    match r {
        Ok(g) => Ok(Got { val: g.val, used: g.used + k }),
        Err(e) => Err(e),
    }
}

/// Whether the first `n` characters of a text are digits.
pub open spec fn all_digits(piece: Seq<char>, n: int) -> bool
    decreases n,
{
    if n <= 0 || n > piece.len() {
        true
    } else {
        all_digits(piece, n - 1) && is_digit(piece[n - 1])
    }
}

/// The value that a text writes in decimal digits; `None` if the text
/// holds anything else.
pub open spec fn number(piece: Seq<char>) -> Option<int> {
    if all_digits(piece, piece.len() as int) {
        Some(digits_value(piece, 0, piece.len() as int))
    } else {
        None
    }
}

/// The integer literal of a text, at most `max`.
pub open spec fn literal(piece: Seq<char>, max: int) -> Result<int, ParseError> {
    match number(piece) {
        None => Err(ParseError::Syntax),
        Some(v) => if v > max {
            Err(ParseError::NumberTooLarge)
        } else {
            Ok(v)
        },
    }
}

/// The binary operator of a token and its level of precedence, from 3 for
/// `||` to 8 for `* / %`.
pub open spec fn binary_operator(k: TokenKind) -> Option<(BinaryOp, nat)> {
    match k {
        TokenKind::Or => Some((BinaryOp::Or, 3nat)),
        TokenKind::And => Some((BinaryOp::And, 4nat)),
        TokenKind::Eq => Some((BinaryOp::Eq, 5nat)),
        TokenKind::Ne => Some((BinaryOp::Ne, 5nat)),
        TokenKind::Lt => Some((BinaryOp::Lt, 6nat)),
        TokenKind::Le => Some((BinaryOp::Le, 6nat)),
        TokenKind::Ge => Some((BinaryOp::Ge, 6nat)),
        TokenKind::Gt => Some((BinaryOp::Gt, 6nat)),
        TokenKind::Add => Some((BinaryOp::Add, 7nat)),
        TokenKind::Sub => Some((BinaryOp::Sub, 7nat)),
        TokenKind::Mul => Some((BinaryOp::Mul, 8nat)),
        TokenKind::Div => Some((BinaryOp::Div, 8nat)),
        TokenKind::Mod => Some((BinaryOp::Mod, 8nat)),
        _ => None,
    }
}

/// The binary operator at position `i`, if there is one of the given
/// level.
pub open spec fn operator_at(t: Seq<TokenView>, i: int, level: nat) -> Option<BinaryOp> {
    match kind_at(t, i) {
        None => None,
        Some(k) => match binary_operator(k) {
            Some((op, l)) => if l == level {
                Some(op)
            } else {
                None
            },
            None => None,
        },
    }
}

/// The prefix operator of a token.
pub open spec fn prefix_operator(k: TokenKind) -> Option<UnaryOp> {
    match k {
        TokenKind::Sub => Some(UnaryOp::Neg),
        TokenKind::BNot => Some(UnaryOp::BNot),
        TokenKind::LNot => Some(UnaryOp::LNot),
        _ => None,
    }
}

/// The number of `*` tokens in a row from position `i` on.
pub open spec fn stars(t: Seq<TokenView>, i: int) -> nat
    decreases left(t, i),
{
    if is_at(t, i, TokenKind::Mul) {
        1 + stars(t, i + 1)
    } else {
        0
    }
}

/// `ty = "int" "*"*`: the type is the number of stars.
pub open spec fn p_ty(t: Seq<TokenView>, i: int) -> Result<Got<Ty>, ParseError> {
    if !is_at(t, i, TokenKind::Int) {
        Err(ParseError::Syntax)
    } else if stars(t, i + 1) > u32::MAX {
        Err(ParseError::NumberTooLarge)
    } else {
        Ok(Got { val: stars(t, i + 1) as u32, used: 1 + stars(t, i + 1) })
    }
}

/// `primary = int | id | id "(" (expr ("," expr)*)? ")" | "(" expr ")"`
#[verifier::opaque]
pub open spec fn p_primary(t: Seq<TokenView>, i: int) -> Result<Got<ExprView>, ParseError>
    decreases left(t, i), 3nat,
{
    match kind_at(t, i) {
        Some(TokenKind::IntConst) => match literal(t[i].piece, i32::MAX as int) {
            Err(e) => Err(e),
            Ok(v) => Ok(Got { val: ExprView::Int(v as i32), used: 1 }),
        },
        Some(TokenKind::Id) => if is_at(t, i + 1, TokenKind::LPar) {
            if is_at(t, i + 2, TokenKind::RPar) {
                Ok(Got { val: ExprView::Call(t[i].piece, Seq::empty()), used: 3 })
            } else {
                match p_assign(t, i + 2) {
                    Err(e) => Err(e),
                    Ok(a) => match p_args_rest(t, i + 2 + a.used, seq![a.val]) {
                        Err(e) => Err(e),
                        Ok(rest) => if is_at(t, i + 2 + a.used + rest.used, TokenKind::RPar) {
                            Ok(
                                Got {
                                    val: ExprView::Call(t[i].piece, rest.val),
                                    used: a.used + rest.used + 3,
                                },
                            )
                        } else {
                            Err(ParseError::Syntax)
                        },
                    },
                }
            }
        } else {
            Ok(Got { val: ExprView::Var(t[i].piece), used: 1 })
        },
        Some(TokenKind::LPar) => match p_assign(t, i + 1) {
            Err(e) => Err(e),
            Ok(x) => if is_at(t, i + 1 + x.used, TokenKind::RPar) {
                Ok(Got { val: x.val, used: x.used + 2 })
            } else {
                Err(ParseError::Syntax)
            },
        },
        _ => Err(ParseError::Syntax),
    }
}

/// The arguments after `acc`: `("," expr)*`
#[verifier::opaque]
pub open spec fn p_args_rest(t: Seq<TokenView>, i: int, acc: Seq<ExprView>) -> Result<
    Got<Seq<ExprView>>,
    ParseError,
>
    decreases left(t, i), 2nat,
{
    if is_at(t, i, TokenKind::Comma) {
        match p_assign(t, i + 1) {
            Err(e) => Err(e),
            Ok(a) => shift(p_args_rest(t, i + 1 + a.used, acc.push(a.val)), a.used + 1),
        }
    } else {
        Ok(Got { val: acc, used: 0 })
    }
}

/// The indexings of `x`: `("[" expr "]")*`
#[verifier::opaque]
pub open spec fn p_index_rest(t: Seq<TokenView>, i: int, x: ExprView) -> Result<
    Got<ExprView>,
    ParseError,
>
    decreases left(t, i), 4nat,
{
    if is_at(t, i, TokenKind::LBrk) {
        match p_assign(t, i + 1) {
            Err(e) => Err(e),
            Ok(k) => if is_at(t, i + 1 + k.used, TokenKind::RBrk) {
                shift(
                    p_index_rest(
                        t,
                        i + 2 + k.used,
                        ExprView::Index(Box::new(x), Box::new(k.val)),
                    ),
                    k.used + 2,
                )
            } else {
                Err(ParseError::Syntax)
            },
        }
    } else {
        Ok(Got { val: x, used: 0 })
    }
}

/// The expression that a prefix makes of its operand.
pub enum Prefix {
    Unary(UnaryOp),
    Deref,
    AddrOf,
    Cast(Ty),
}

/// The expression with a prefix of `k` tokens in front of what was read.
pub open spec fn under(r: Result<Got<ExprView>, ParseError>, k: nat, prefix: Prefix) -> Result<
    Got<ExprView>,
    ParseError,
> {
    match r {
        Ok(g) => Ok(
            Got {
                val: match prefix {
                    Prefix::Unary(op) => ExprView::Unary(op, Box::new(g.val)),
                    Prefix::Deref => ExprView::Deref(Box::new(g.val)),
                    Prefix::AddrOf => ExprView::AddrOf(Box::new(g.val)),
                    Prefix::Cast(ty) => ExprView::Cast(ty, Box::new(g.val)),
                },
                used: g.used + k,
            },
        ),
        Err(e) => Err(e),
    }
}

/// `prefix = ("-" | "~" | "!" | "*" | "&" | "(" ty ")") prefix | postfix`
#[verifier::opaque]
pub open spec fn p_prefix(t: Seq<TokenView>, i: int) -> Result<Got<ExprView>, ParseError>
    decreases left(t, i), 5nat,
{
    match kind_at(t, i) {
        None => Err(ParseError::Syntax),
        Some(k) => if prefix_operator(k) is Some {
            under(p_prefix(t, i + 1), 1, Prefix::Unary(prefix_operator(k).unwrap()))
        } else if k == TokenKind::Mul {
            under(p_prefix(t, i + 1), 1, Prefix::Deref)
        } else if k == TokenKind::AddrOf {
            under(p_prefix(t, i + 1), 1, Prefix::AddrOf)
        } else if k == TokenKind::LPar && is_at(t, i + 1, TokenKind::Int) {
            match p_ty(t, i + 1) {
                Err(e) => Err(e),
                Ok(ty) => if is_at(t, i + 1 + ty.used, TokenKind::RPar) {
                    under(p_prefix(t, i + 2 + ty.used), ty.used + 2, Prefix::Cast(ty.val))
                } else {
                    Err(ParseError::Syntax)
                },
            }
        } else {
            match p_primary(t, i) {
                Err(e) => Err(e),
                Ok(p) => shift(p_index_rest(t, i + p.used, p.val), p.used),
            }
        },
    }
}

/// The rank of the binary expressions of a level among the rules.
pub open spec fn binary_rank(level: nat) -> nat {
    if level >= 9 {
        10
    } else {
        (10 + 2 * (9 - level)) as nat
    }
}

/// The binary expressions of a level and the levels that bind tighter;
/// from level 9 on, the expressions with prefixes.
#[verifier::opaque]
pub open spec fn p_binary(t: Seq<TokenView>, i: int, level: nat) -> Result<
    Got<ExprView>,
    ParseError,
>
    decreases left(t, i), binary_rank(level),
{
    if level >= 9 {
        p_prefix(t, i)
    } else {
        match p_binary(t, i, level + 1) {
            Err(e) => Err(e),
            Ok(l) => shift(p_binary_rest(t, i + l.used, l.val, level), l.used),
        }
    }
}

/// The operators of a level after the left operand `lhs`, to the left.
#[verifier::opaque]
pub open spec fn p_binary_rest(t: Seq<TokenView>, i: int, lhs: ExprView, level: nat) -> Result<
    Got<ExprView>,
    ParseError,
>
    decreases left(t, i), (binary_rank(level) - 1) as nat,
{
    if level >= 9 {
        Ok(Got { val: lhs, used: 0 })
    } else {
        match operator_at(t, i, level) {
            None => Ok(Got { val: lhs, used: 0 }),
            Some(op) => match p_binary(t, i + 1, level + 1) {
                Err(e) => Err(e),
                Ok(r) => shift(
                    p_binary_rest(
                        t,
                        i + 1 + r.used,
                        ExprView::Binary(op, Box::new(lhs), Box::new(r.val)),
                        level,
                    ),
                    r.used + 1,
                ),
            },
        }
    }
}

/// `cond = binary ("?" expr ":" cond)?`
#[verifier::opaque]
pub open spec fn p_ternary(t: Seq<TokenView>, i: int) -> Result<Got<ExprView>, ParseError>
    decreases left(t, i), 29nat,
{
    match p_binary(t, i, 3) {
        Err(e) => Err(e),
        Ok(c) => if is_at(t, i + c.used, TokenKind::Question) {
            match p_assign(t, i + c.used + 1) {
                Err(e) => Err(e),
                Ok(a) => if is_at(t, i + c.used + 1 + a.used, TokenKind::Colon) {
                    match p_ternary(t, i + c.used + a.used + 2) {
                        Err(e) => Err(e),
                        Ok(b) => Ok(
                            Got {
                                val: ExprView::Condition(
                                    Box::new(c.val),
                                    Box::new(a.val),
                                    Box::new(b.val),
                                ),
                                used: c.used + a.used + b.used + 2,
                            },
                        ),
                    }
                } else {
                    Err(ParseError::Syntax)
                },
            }
        } else {
            Ok(c)
        },
    }
}

/// `expr = assign`, `assign = cond ("=" assign)?`
#[verifier::opaque]
pub open spec fn p_assign(t: Seq<TokenView>, i: int) -> Result<Got<ExprView>, ParseError>
    decreases left(t, i), 30nat,
{
    match p_ternary(t, i) {
        Err(e) => Err(e),
        Ok(l) => if is_at(t, i + l.used, TokenKind::Assign) {
            match p_assign(t, i + l.used + 1) {
                Err(e) => Err(e),
                Ok(r) => Ok(
                    Got {
                        val: ExprView::Assign(Box::new(l.val), Box::new(r.val)),
                        used: l.used + r.used + 1,
                    },
                ),
            }
        } else {
            Ok(l)
        },
    }
}

/// The dimensions after `acc`: `("[" int "]")*`
#[verifier::opaque]
pub open spec fn p_dims_rest(t: Seq<TokenView>, i: int, acc: Seq<u32>) -> Result<
    Got<Seq<u32>>,
    ParseError,
>
    decreases left(t, i),
{
    if is_at(t, i, TokenKind::LBrk) {
        if !is_at(t, i + 1, TokenKind::IntConst) {
            Err(ParseError::Syntax)
        } else {
            match literal(t[i + 1].piece, u32::MAX as int) {
                Err(e) => Err(e),
                Ok(v) => if !is_at(t, i + 2, TokenKind::RBrk) {
                    Err(ParseError::Syntax)
                } else {
                    shift(p_dims_rest(t, i + 3, acc.push(v as u32)), 3)
                },
            }
        }
    } else {
        Ok(Got { val: acc, used: 0 })
    }
}

/// `decl = ty id ("=" expr | ("[" int "]")+)?`
pub open spec fn p_decl(t: Seq<TokenView>, i: int) -> Result<Got<DeclView>, ParseError> {
    match p_ty(t, i) {
        Err(e) => Err(e),
        Ok(ty) => if !is_at(t, i + ty.used, TokenKind::Id) {
            Err(ParseError::Syntax)
        } else {
            let name = t[i + ty.used].piece;
            let j = i + ty.used + 1;
            if is_at(t, j, TokenKind::Assign) {
                match p_assign(t, j + 1) {
                    Err(e) => Err(e),
                    Ok(x) => Ok(
                        Got {
                            val: DeclView {
                                ty: ty.val,
                                name,
                                dims: Seq::empty(),
                                init: Some(x.val),
                            },
                            used: ty.used + x.used + 2,
                        },
                    ),
                }
            } else if is_at(t, j, TokenKind::LBrk) {
                match p_dims_rest(t, j, Seq::empty()) {
                    Err(e) => Err(e),
                    Ok(d) => Ok(
                        Got {
                            val: DeclView { ty: ty.val, name, dims: d.val, init: None },
                            used: ty.used + d.used + 1,
                        },
                    ),
                }
            } else {
                Ok(
                    Got {
                        val: DeclView { ty: ty.val, name, dims: Seq::empty(), init: None },
                        used: ty.used + 1,
                    },
                )
            }
        },
    }
}

/// An expression, or nothing before a `;` or a `)`.
pub open spec fn p_maybe_expr(t: Seq<TokenView>, i: int) -> Result<
    Got<Option<ExprView>>,
    ParseError,
> {
    if is_at(t, i, TokenKind::Semi) || is_at(t, i, TokenKind::RPar) {
        Ok(Got { val: None, used: 0 })
    } else {
        match p_assign(t, i) {
            Err(e) => Err(e),
            Ok(x) => Ok(Got { val: Some(x.val), used: x.used }),
        }
    }
}

/// `"(" expr ")"` from position `i` on.
pub open spec fn p_paren(t: Seq<TokenView>, i: int) -> Result<Got<ExprView>, ParseError> {
    if !is_at(t, i, TokenKind::LPar) {
        Err(ParseError::Syntax)
    } else {
        match p_assign(t, i + 1) {
            Err(e) => Err(e),
            Ok(x) => if is_at(t, i + 1 + x.used, TokenKind::RPar) {
                Ok(Got { val: x.val, used: x.used + 2 })
            } else {
                Err(ParseError::Syntax)
            },
        }
    }
}

/// The head of a `for` loop after `for (`, up to the `)`: what comes
/// first in the block that the loop is turned into, the condition and the
/// update.
pub struct ForHead {
    pub init: StmtView,
    pub cond: Option<ExprView>,
    pub update: Option<ExprView>,
}

/// `(decl | expr?) ";" expr? ";" expr? ")"`
pub open spec fn p_for_head(t: Seq<TokenView>, i: int) -> Result<Got<ForHead>, ParseError> {
    let first: Result<Got<StmtView>, ParseError> = if is_at(t, i, TokenKind::Int) {
        match p_decl(t, i) {
            Err(e) => Err(e),
            Ok(d) => Ok(Got { val: StmtView::Decl(d.val), used: d.used }),
        }
    } else {
        match p_maybe_expr(t, i) {
            Err(e) => Err(e),
            Ok(x) => Ok(
                Got {
                    val: match x.val {
                        Some(e) => StmtView::Expr(e),
                        None => StmtView::Empty,
                    },
                    used: x.used,
                },
            ),
        }
    };
    match first {
        Err(e) => Err(e),
        Ok(a) => if !is_at(t, i + a.used, TokenKind::Semi) {
            Err(ParseError::Syntax)
        } else {
            match p_maybe_expr(t, i + a.used + 1) {
                Err(e) => Err(e),
                Ok(c) => if !is_at(t, i + a.used + 1 + c.used, TokenKind::Semi) {
                    Err(ParseError::Syntax)
                } else {
                    match p_maybe_expr(t, i + a.used + c.used + 2) {
                        Err(e) => Err(e),
                        Ok(u) => if !is_at(t, i + a.used + c.used + u.used + 2, TokenKind::RPar) {
                            Err(ParseError::Syntax)
                        } else {
                            Ok(
                                Got {
                                    val: ForHead { init: a.val, cond: c.val, update: u.val },
                                    used: a.used + c.used + u.used + 3,
                                },
                            )
                        },
                    }
                },
            }
        },
    }
}

/// An expression and the `;` after it.
pub open spec fn p_expr_semi(t: Seq<TokenView>, i: int) -> Result<Got<ExprView>, ParseError> {
    match p_assign(t, i) {
        Err(e) => Err(e),
        Ok(x) => if is_at(t, i + x.used, TokenKind::Semi) {
            Ok(Got { val: x.val, used: x.used + 1 })
        } else {
            Err(ParseError::Syntax)
        },
    }
}

/// The statement that is made of a part that was read last.
pub enum Frame {
    /// `return` with the expression.
    Ret,
    /// The expression as a statement.
    Expr,
    /// The `else` branch of an `if` with this condition and branch.
    Else(ExprView, StmtView),
    /// The body of a `while` loop with this condition.
    While(ExprView),
    /// The body of a `for` loop with this head.
    For(ForHead),
}

/// The statement around an expression that was read, with `k` tokens
/// more.
pub open spec fn around_expr(r: Result<Got<ExprView>, ParseError>, k: nat, frame: Frame) -> Result<
    Got<StmtView>,
    ParseError,
> {
    match r {
        Ok(g) => Ok(
            Got {
                val: match frame {
                    Frame::Ret => StmtView::Ret(g.val),
                    _ => StmtView::Expr(g.val),
                },
                used: g.used + k,
            },
        ),
        Err(e) => Err(e),
    }
}

/// The statement around a statement that was read, with `k` tokens more.
pub open spec fn around_stmt(r: Result<Got<StmtView>, ParseError>, k: nat, frame: Frame) -> Result<
    Got<StmtView>,
    ParseError,
> {
    match r {
        Ok(g) => Ok(
            Got {
                val: match frame {
                    Frame::Else(c, s) => StmtView::If(c, Box::new(s), Some(Box::new(g.val))),
                    Frame::While(c) => StmtView::For {
                        cond: Some(c),
                        update: None,
                        body: Box::new(g.val),
                    },
                    Frame::For(h) => StmtView::Block(
                        seq![
                            h.init,
                            StmtView::For { cond: h.cond, update: h.update, body: Box::new(g.val) },
                        ],
                    ),
                    _ => g.val,
                },
                used: g.used + k,
            },
        ),
        Err(e) => Err(e),
    }
}

/// The statement that an `if` with the condition `c` and the branch `s`
/// is, with the `else` branch that may follow at position `i`.
#[verifier::opaque]
pub open spec fn p_else(t: Seq<TokenView>, i: int, c: ExprView, s: StmtView) -> Result<
    Got<StmtView>,
    ParseError,
>
    decreases left(t, i), 0nat,
{
    if is_at(t, i, TokenKind::Else) {
        around_stmt(p_stmt(t, i + 1), 1, Frame::Else(c, s))
    } else {
        Ok(Got { val: StmtView::If(c, Box::new(s), None), used: 0 })
    }
}

/// The end of a `do` loop with the body `body`, from the `while` on.
pub open spec fn p_do_tail(t: Seq<TokenView>, i: int, body: StmtView) -> Result<
    Got<StmtView>,
    ParseError,
> {
    if !is_at(t, i, TokenKind::While) {
        Err(ParseError::Syntax)
    } else {
        match p_paren(t, i + 1) {
            Err(e) => Err(e),
            Ok(c) => if is_at(t, i + 1 + c.used, TokenKind::Semi) {
                Ok(Got { val: StmtView::DoWhile(Box::new(body), c.val), used: c.used + 2 })
            } else {
                Err(ParseError::Syntax)
            },
        }
    }
}

/// A statement. `while` is a `for` loop without update, and a `for` loop
/// with an initialiser is a block of the initialiser and the loop.
#[verifier::opaque]
pub open spec fn p_stmt(t: Seq<TokenView>, i: int) -> Result<Got<StmtView>, ParseError>
    decreases left(t, i), 1nat,
{
    match kind_at(t, i) {
        None => Err(ParseError::Syntax),
        Some(TokenKind::Semi) => Ok(Got { val: StmtView::Empty, used: 1 }),
        Some(TokenKind::Return) => around_expr(p_expr_semi(t, i + 1), 1, Frame::Ret),
        Some(TokenKind::If) => match p_paren(t, i + 1) {
            Err(e) => Err(e),
            Ok(c) => match p_stmt(t, i + 1 + c.used) {
                Err(e) => Err(e),
                Ok(s) => shift(
                    p_else(t, i + 1 + c.used + s.used, c.val, s.val),
                    c.used + s.used + 1,
                ),
            },
        },
        Some(TokenKind::LBrc) => match p_stmts_rest(t, i + 1, Seq::empty()) {
            Err(e) => Err(e),
            Ok(ss) => if is_at(t, i + 1 + ss.used, TokenKind::RBrc) {
                Ok(Got { val: StmtView::Block(ss.val), used: ss.used + 2 })
            } else {
                Err(ParseError::Syntax)
            },
        },
        Some(TokenKind::While) => match p_paren(t, i + 1) {
            Err(e) => Err(e),
            Ok(c) => around_stmt(p_stmt(t, i + 1 + c.used), c.used + 1, Frame::While(c.val)),
        },
        Some(TokenKind::Do) => match p_stmt(t, i + 1) {
            Err(e) => Err(e),
            Ok(body) => shift(p_do_tail(t, i + 1 + body.used, body.val), body.used + 1),
        },
        Some(TokenKind::For) => if !is_at(t, i + 1, TokenKind::LPar) {
            Err(ParseError::Syntax)
        } else {
            match p_for_head(t, i + 2) {
                Err(e) => Err(e),
                Ok(h) => around_stmt(p_stmt(t, i + 2 + h.used), h.used + 2, Frame::For(h.val)),
            }
        },
        Some(TokenKind::Break) => if is_at(t, i + 1, TokenKind::Semi) {
            Ok(Got { val: StmtView::Break, used: 2 })
        } else {
            Err(ParseError::Syntax)
        },
        Some(TokenKind::Continue) => if is_at(t, i + 1, TokenKind::Semi) {
            Ok(Got { val: StmtView::Continue, used: 2 })
        } else {
            Err(ParseError::Syntax)
        },
        Some(_) => around_expr(p_expr_semi(t, i), 0, Frame::Expr),
    }
}

/// The statement or the declaration at position `i` in a list of
/// statements.
pub open spec fn p_item(t: Seq<TokenView>, i: int) -> Result<Got<StmtView>, ParseError>
    decreases left(t, i), 2nat,
{
    if is_at(t, i, TokenKind::Int) {
        match p_decl(t, i) {
            Err(e) => Err(e),
            Ok(d) => if is_at(t, i + d.used, TokenKind::Semi) {
                Ok(Got { val: StmtView::Decl(d.val), used: d.used + 1 })
            } else {
                Err(ParseError::Syntax)
            },
        }
    } else {
        p_stmt(t, i)
    }
}

/// The statements and declarations after `acc`, up to a `}` or the end
/// of the tokens.
#[verifier::opaque]
pub open spec fn p_stmts_rest(t: Seq<TokenView>, i: int, acc: Seq<StmtView>) -> Result<
    Got<Seq<StmtView>>,
    ParseError,
>
    decreases left(t, i), 3nat,
{
    if is_at(t, i, TokenKind::RBrc) || kind_at(t, i) is None {
        Ok(Got { val: acc, used: 0 })
    } else {
        match p_item(t, i) {
            Err(e) => Err(e),
            Ok(s) => if s.used == 0 {
                Err(ParseError::Syntax)
            } else {
                shift(p_stmts_rest(t, i + s.used, acc.push(s.val)), s.used)
            },
        }
    }
}

/// The parameters after `acc`: `("," decl)*`
#[verifier::opaque]
pub open spec fn p_params_rest(t: Seq<TokenView>, i: int, acc: Seq<DeclView>) -> Result<
    Got<Seq<DeclView>>,
    ParseError,
>
    decreases left(t, i),
{
    if is_at(t, i, TokenKind::Comma) {
        match p_decl(t, i + 1) {
            Err(e) => Err(e),
            Ok(d) => shift(p_params_rest(t, i + 1 + d.used, acc.push(d.val)), d.used + 1),
        }
    } else {
        Ok(Got { val: acc, used: 0 })
    }
}

/// `"(" (decl ("," decl)*)? ")"`
pub open spec fn p_params(t: Seq<TokenView>, i: int) -> Result<Got<Seq<DeclView>>, ParseError> {
    if !is_at(t, i, TokenKind::LPar) {
        Err(ParseError::Syntax)
    } else if is_at(t, i + 1, TokenKind::RPar) {
        Ok(Got { val: Seq::empty(), used: 2 })
    } else {
        match p_decl(t, i + 1) {
            Err(e) => Err(e),
            Ok(d) => match p_params_rest(t, i + 1 + d.used, seq![d.val]) {
                Err(e) => Err(e),
                Ok(ps) => if is_at(t, i + 1 + d.used + ps.used, TokenKind::RPar) {
                    Ok(Got { val: ps.val, used: d.used + ps.used + 2 })
                } else {
                    Err(ParseError::Syntax)
                },
            },
        }
    }
}

/// The body of a function: `";"` for a prototype, or `"{" stmts "}"`.
pub open spec fn p_body(t: Seq<TokenView>, i: int) -> Result<
    Got<Option<Seq<StmtView>>>,
    ParseError,
> {
    if is_at(t, i, TokenKind::Semi) {
        Ok(Got { val: None, used: 1 })
    } else if is_at(t, i, TokenKind::LBrc) {
        match p_stmts_rest(t, i + 1, Seq::empty()) {
            Err(e) => Err(e),
            Ok(ss) => if is_at(t, i + 1 + ss.used, TokenKind::RBrc) {
                Ok(Got { val: Some(ss.val), used: ss.used + 2 })
            } else {
                Err(ParseError::Syntax)
            },
        }
    } else {
        Err(ParseError::Syntax)
    }
}

/// A function or a global variable.
pub enum TopView {
    Func(FuncView),
    Glob(DeclView),
}

/// `func | decl ";"`: after the type and the name, a `(` tells a
/// function from a variable.
pub open spec fn p_top(t: Seq<TokenView>, i: int) -> Result<Got<TopView>, ParseError> {
    match p_ty(t, i) {
        Err(e) => Err(e),
        Ok(ty) => if !is_at(t, i + ty.used, TokenKind::Id) {
            Err(ParseError::Syntax)
        } else if is_at(t, i + ty.used + 1, TokenKind::LPar) {
            match p_params(t, i + ty.used + 1) {
                Err(e) => Err(e),
                Ok(ps) => match p_body(t, i + ty.used + 1 + ps.used) {
                    Err(e) => Err(e),
                    Ok(b) => Ok(
                        Got {
                            val: TopView::Func(
                                FuncView {
                                    ret: ty.val,
                                    name: t[i + ty.used].piece,
                                    params: ps.val,
                                    stmts: b.val,
                                },
                            ),
                            used: ty.used + ps.used + b.used + 1,
                        },
                    ),
                },
            }
        } else {
            match p_decl(t, i) {
                Err(e) => Err(e),
                Ok(d) => if is_at(t, i + d.used, TokenKind::Semi) {
                    Ok(Got { val: TopView::Glob(d.val), used: d.used + 1 })
                } else {
                    Err(ParseError::Syntax)
                },
            }
        },
    }
}

/// The program with one more function or global.
pub open spec fn with_top(p: ProgView, top: TopView) -> ProgView {
    match top {
        TopView::Func(f) => ProgView { funcs: p.funcs.push(f), globs: p.globs },
        TopView::Glob(d) => ProgView { funcs: p.funcs, globs: p.globs.push(d) },
    }
}

/// The program after `acc`, from position `i` to the end of the tokens.
#[verifier::opaque]
pub open spec fn p_prog_rest(t: Seq<TokenView>, i: int, acc: ProgView) -> Result<
    ProgView,
    ParseError,
>
    decreases left(t, i),
{
    if kind_at(t, i) is None {
        Ok(acc)
    } else {
        match p_top(t, i) {
            Err(e) => Err(e),
            Ok(top) => if top.used == 0 {
                Err(ParseError::Syntax)
            } else {
                p_prog_rest(t, i + top.used, with_top(acc, top.val))
            },
        }
    }
}

/// The program that the tokens write.
pub open spec fn p_prog(t: Seq<TokenView>) -> Result<ProgView, ParseError> {
    p_prog_rest(t, 0, ProgView { funcs: Seq::empty(), globs: Seq::empty() })
}

} // verus!
