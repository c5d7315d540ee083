//! Parsing tokens into syntax trees by recursive descent.
//!
//! ```text
//! program  = stmt*
//! stmt     = "return" expr ";" | expr ";"
//! expr     = assign
//! assign   = equality ("=" equality)?
//! equality = addsub (("==" | "!=" | "<" | "<=" | ">" | ">=") addsub)*
//! addsub   = term (("+" | "-") term)*
//! term     = unary (("*" | "/") unary)*
//! unary    = ("+" | "-")? factor
//! factor   = number | variable | "(" expr ")"
//! ```
//!
//! Operators of one level associate to the left. `a > b` is parsed as
//! `b < a`, `a >= b` as `b <= a`, and a sign as `0 + x` or `0 - x`.

use vstd::prelude::*;
use vstd::string::StringExecFns;
use crate::compiler::{Node, NodeKind, NodeView, Token, TokenKind, TokenView, tokens_view};

verus! {

/// Why tokens are no program.
#[derive(Debug, Clone, Copy, PartialEq, Eq, Structural)]
pub enum ParseError {
    /// An opening parenthesis whose expression no `)` follows.
    ExpectedClosingParenthesis,
}

/// What a rule of the grammar has read: the tree, if it found one, and
/// the number of tokens that it has used.
pub struct Parsed {
    pub node: Option<NodeView>,
    pub used: nat,
}

/// The number of tokens from position `idx` on.
pub open spec fn left(tokens: Seq<TokenView>, idx: int) -> nat {
    if idx <= tokens.len() {
        (tokens.len() - idx) as nat
    } else {
        0
    }
}

/// Whether the token at position `idx` has the text `target`.
pub open spec fn accepts(tokens: Seq<TokenView>, idx: int, target: Seq<char>) -> bool {
    0 <= idx < tokens.len() && tokens[idx].val == target
}

/// The content of an optional tree.
pub open spec fn tree_view(node: Option<Node>) -> Option<NodeView> {
    match node {
        None => None,
        Some(n) => Some(n@),
    }
}

/// An optional tree as a child.
pub open spec fn boxed(node: Option<NodeView>) -> Option<Box<NodeView>> {
    match node {
        None => None,
        Some(n) => Some(Box::new(n)),
    }
}

/// A node with the given children.
pub open spec fn make(val: Seq<char>, kind: NodeKind, l: Option<NodeView>, r: Option<NodeView>)
    -> Option<NodeView> {
    Some(NodeView { val, kind, left: boxed(l), right: boxed(r) })
}

/// What was read, counted from `k` tokens earlier.
pub open spec fn shift(r: Result<Parsed, ParseError>, k: nat) -> Result<Parsed, ParseError> {
    match r {
        Ok(p) => Ok(Parsed { node: p.node, used: p.used + k }),
        Err(e) => Err(e),
    }
}

/// `factor = number | variable | "(" expr ")"`
#[verifier::opaque]
pub open spec fn p_factor(tokens: Seq<TokenView>, idx: int) -> Result<Parsed, ParseError>
    decreases left(tokens, idx), 0nat,
{
    if idx < 0 || idx >= tokens.len() {
        Ok(Parsed { node: None, used: 0 })
    } else {
        match tokens[idx].kind {
            TokenKind::TkNum => Ok(
                Parsed { node: make(tokens[idx].val, NodeKind::NdNum, None, None), used: 1 },
            ),
            TokenKind::TkParenthesis => if tokens[idx].val == "("@ {
                match p_expr(tokens, idx + 1) {
                    Err(e) => Err(e),
                    Ok(r) => if accepts(tokens, idx + 1 + r.used, ")"@) {
                        Ok(Parsed { node: r.node, used: r.used + 2 })
                    } else {
                        Err(ParseError::ExpectedClosingParenthesis)
                    },
                }
            } else {
                Ok(Parsed { node: None, used: 0 })
            },
            TokenKind::TkVariable => Ok(
                Parsed { node: make(tokens[idx].val, NodeKind::NdVariable, None, None), used: 1 },
            ),
            _ => Ok(Parsed { node: None, used: 0 }),
        }
    }
}

/// The tree of a number that is written nowhere: the zero under a sign.
pub open spec fn zero() -> Option<NodeView> {
    make("0"@, NodeKind::NdNum, None, None)
}

/// `unary = ("+" | "-")? factor`
#[verifier::opaque]
pub open spec fn p_unary(tokens: Seq<TokenView>, idx: int) -> Result<Parsed, ParseError>
    decreases left(tokens, idx), 1nat,
{
    if accepts(tokens, idx, "+"@) {
        match p_factor(tokens, idx + 1) {
            Err(e) => Err(e),
            Ok(r) => Ok(
                Parsed {
                    node: make("+"@, NodeKind::NdOperator, zero(), r.node),
                    used: r.used + 1,
                },
            ),
        }
    } else if accepts(tokens, idx, "-"@) {
        match p_factor(tokens, idx + 1) {
            Err(e) => Err(e),
            Ok(r) => Ok(
                Parsed {
                    node: make("-"@, NodeKind::NdOperator, zero(), r.node),
                    used: r.used + 1,
                },
            ),
        }
    } else {
        p_factor(tokens, idx)
    }
}

/// The rest of a term after the tree `node`: `(("*" | "/") unary)*`
#[verifier::opaque]
pub open spec fn p_term_rest(tokens: Seq<TokenView>, node: Option<NodeView>, idx: int) -> Result<
    Parsed,
    ParseError,
>
    decreases left(tokens, idx), 2nat,
{
    if accepts(tokens, idx, "*"@) {
        match p_unary(tokens, idx + 1) {
            Err(e) => Err(e),
            Ok(r) => shift(
                p_term_rest(
                    tokens,
                    make("*"@, NodeKind::NdOperator, node, r.node),
                    idx + 1 + r.used,
                ),
                r.used + 1,
            ),
        }
    } else if accepts(tokens, idx, "/"@) {
        match p_unary(tokens, idx + 1) {
            Err(e) => Err(e),
            Ok(r) => shift(
                p_term_rest(
                    tokens,
                    make("/"@, NodeKind::NdOperator, node, r.node),
                    idx + 1 + r.used,
                ),
                r.used + 1,
            ),
        }
    } else {
        Ok(Parsed { node, used: 0 })
    }
}

/// `term = unary (("*" | "/") unary)*`
#[verifier::opaque]
pub open spec fn p_term(tokens: Seq<TokenView>, idx: int) -> Result<Parsed, ParseError>
    decreases left(tokens, idx), 3nat,
{
    match p_unary(tokens, idx) {
        Err(e) => Err(e),
        Ok(r) => shift(p_term_rest(tokens, r.node, idx + r.used), r.used),
    }
}

/// The rest of a sum after the tree `node`: `(("+" | "-") term)*`
#[verifier::opaque]
pub open spec fn p_addsub_rest(tokens: Seq<TokenView>, node: Option<NodeView>, idx: int)
    -> Result<Parsed, ParseError>
    decreases left(tokens, idx), 4nat,
{
    if accepts(tokens, idx, "+"@) {
        match p_term(tokens, idx + 1) {
            Err(e) => Err(e),
            Ok(r) => shift(
                p_addsub_rest(
                    tokens,
                    make("+"@, NodeKind::NdOperator, node, r.node),
                    idx + 1 + r.used,
                ),
                r.used + 1,
            ),
        }
    } else if accepts(tokens, idx, "-"@) {
        match p_term(tokens, idx + 1) {
            Err(e) => Err(e),
            Ok(r) => shift(
                p_addsub_rest(
                    tokens,
                    make("-"@, NodeKind::NdOperator, node, r.node),
                    idx + 1 + r.used,
                ),
                r.used + 1,
            ),
        }
    } else {
        Ok(Parsed { node, used: 0 })
    }
}

/// `addsub = term (("+" | "-") term)*`
#[verifier::opaque]
pub open spec fn p_addsub(tokens: Seq<TokenView>, idx: int) -> Result<Parsed, ParseError>
    decreases left(tokens, idx), 5nat,
{
    match p_term(tokens, idx) {
        Err(e) => Err(e),
        Ok(r) => shift(p_addsub_rest(tokens, r.node, idx + r.used), r.used),
    }
}

/// The tree of a comparison of `l` with `r`: `>` and `>=` are `<` and `<=`
/// with the sides exchanged. `None` if `op` is no comparison operator.
pub open spec fn comparison(op: Seq<char>, l: Option<NodeView>, r: Option<NodeView>) -> Option<
    Option<NodeView>,
> {
    if op == "=="@ {
        Some(make("=="@, NodeKind::NdComparisonOperator, l, r))
    } else if op == "!="@ {
        Some(make("!="@, NodeKind::NdComparisonOperator, l, r))
    } else if op == "<"@ {
        Some(make("<"@, NodeKind::NdComparisonOperator, l, r))
    } else if op == "<="@ {
        Some(make("<="@, NodeKind::NdComparisonOperator, l, r))
    } else if op == ">"@ {
        Some(make("<"@, NodeKind::NdComparisonOperator, r, l))
    } else if op == ">="@ {
        Some(make("<="@, NodeKind::NdComparisonOperator, r, l))
    } else {
        None
    }
}

/// The rest of a comparison after the tree `node`.
#[verifier::opaque]
pub open spec fn p_equality_rest(tokens: Seq<TokenView>, node: Option<NodeView>, idx: int)
    -> Result<Parsed, ParseError>
    decreases left(tokens, idx), 6nat,
{
    if 0 <= idx < tokens.len() && comparison(tokens[idx].val, None, None) is Some {
        match p_addsub(tokens, idx + 1) {
            Err(e) => Err(e),
            Ok(r) => shift(
                p_equality_rest(
                    tokens,
                    comparison(tokens[idx].val, node, r.node).unwrap(),
                    idx + 1 + r.used,
                ),
                r.used + 1,
            ),
        }
    } else {
        Ok(Parsed { node, used: 0 })
    }
}

/// `equality = addsub (("==" | "!=" | "<" | "<=" | ">" | ">=") addsub)*`
#[verifier::opaque]
pub open spec fn p_equality(tokens: Seq<TokenView>, idx: int) -> Result<Parsed, ParseError>
    decreases left(tokens, idx), 7nat,
{
    match p_addsub(tokens, idx) {
        Err(e) => Err(e),
        Ok(r) => shift(p_equality_rest(tokens, r.node, idx + r.used), r.used),
    }
}

/// `assign = equality ("=" equality)?`
#[verifier::opaque]
pub open spec fn p_assign(tokens: Seq<TokenView>, idx: int) -> Result<Parsed, ParseError>
    decreases left(tokens, idx), 8nat,
{
    match p_equality(tokens, idx) {
        Err(e) => Err(e),
        Ok(l) => if accepts(tokens, idx + l.used, "="@) {
            match p_equality(tokens, idx + l.used + 1) {
                Err(e) => Err(e),
                Ok(r) => Ok(
                    Parsed {
                        node: make("="@, NodeKind::NdAssignOperator, l.node, r.node),
                        used: l.used + 1 + r.used,
                    },
                ),
            }
        } else {
            Ok(l)
        },
    }
}

/// `expr = assign`
#[verifier::opaque]
pub open spec fn p_expr(tokens: Seq<TokenView>, idx: int) -> Result<Parsed, ParseError>
    decreases left(tokens, idx), 9nat,
{
    p_assign(tokens, idx)
}

/// `stmt = "return" expr ";" | expr ";"`. Without the semicolon there is
/// no statement, though the tokens of the expression are used up.
pub open spec fn p_stmt(tokens: Seq<TokenView>, idx: int) -> Result<Parsed, ParseError> {
    if accepts(tokens, idx, "return"@) {
        match p_expr(tokens, idx + 1) {
            Err(e) => Err(e),
            Ok(r) => if accepts(tokens, idx + 1 + r.used, ";"@) {
                Ok(
                    Parsed {
                        node: make("return"@, NodeKind::NdReturn, r.node, None),
                        used: r.used + 2,
                    },
                )
            } else {
                Ok(Parsed { node: None, used: r.used + 1 })
            },
        }
    } else {
        match p_expr(tokens, idx) {
            Err(e) => Err(e),
            Ok(r) => if accepts(tokens, idx + r.used, ";"@) {
                Ok(Parsed { node: r.node, used: r.used + 1 })
            } else {
                Ok(Parsed { node: None, used: r.used })
            },
        }
    }
}

/// `program = stmt*`: the statements up to the first place where there
/// is none, and `None` for that place.
pub open spec fn p_program(tokens: Seq<TokenView>, idx: int) -> Result<
    Seq<Option<NodeView>>,
    ParseError,
>
    decreases left(tokens, idx),
{
    match p_stmt(tokens, idx) {
        Err(e) => Err(e),
        Ok(r) => match r.node {
            None => Ok(seq![None]),
            Some(n) => if r.used == 0 || idx < 0 || idx + r.used > tokens.len() {
                Ok(seq![Some(n), None])
            } else {
                match p_program(tokens, idx + r.used) {
                    Err(e) => Err(e),
                    Ok(rest) => Ok(seq![Some(n)] + rest),
                }
            },
        },
    }
}

/// A rule never uses more tokens than there are.
pub proof fn lemma_used_within(tokens: Seq<TokenView>, idx: int, node: Option<NodeView>)
    requires
        0 <= idx <= tokens.len(),
    ensures
        p_factor(tokens, idx) matches Ok(r) ==> idx + r.used <= tokens.len(),
        p_unary(tokens, idx) matches Ok(r) ==> idx + r.used <= tokens.len(),
        p_term_rest(tokens, node, idx) matches Ok(r) ==> idx + r.used <= tokens.len(),
        p_term(tokens, idx) matches Ok(r) ==> idx + r.used <= tokens.len(),
        p_addsub_rest(tokens, node, idx) matches Ok(r) ==> idx + r.used <= tokens.len(),
        p_addsub(tokens, idx) matches Ok(r) ==> idx + r.used <= tokens.len(),
        p_equality_rest(tokens, node, idx) matches Ok(r) ==> idx + r.used <= tokens.len(),
        p_equality(tokens, idx) matches Ok(r) ==> idx + r.used <= tokens.len(),
        p_assign(tokens, idx) matches Ok(r) ==> idx + r.used <= tokens.len(),
        p_expr(tokens, idx) matches Ok(r) ==> idx + r.used <= tokens.len(),
        p_stmt(tokens, idx) matches Ok(r) ==> idx + r.used <= tokens.len(),
    decreases left(tokens, idx),
{
    reveal_with_fuel(p_expr, 1);
    reveal_with_fuel(p_assign, 1);
    lemma_factor_within(tokens, idx);
    lemma_unary_within(tokens, idx);
    lemma_term_rest_within(tokens, node, idx);
    lemma_term_within(tokens, idx);
    lemma_addsub_rest_within(tokens, node, idx);
    lemma_addsub_within(tokens, idx);
    lemma_equality_rest_within(tokens, node, idx);
    lemma_equality_within(tokens, idx);
    lemma_assign_within(tokens, idx);
    if accepts(tokens, idx, "return"@) {
        lemma_assign_within(tokens, idx + 1);
    }
}

proof fn lemma_factor_within(tokens: Seq<TokenView>, idx: int)
    requires
        0 <= idx <= tokens.len(),
    ensures
        p_factor(tokens, idx) matches Ok(r) ==> idx + r.used <= tokens.len(),
    decreases left(tokens, idx), 0nat,
{
    reveal_with_fuel(p_factor, 1);
    reveal_with_fuel(p_expr, 1);
    reveal_with_fuel(p_assign, 1);
    if idx < tokens.len() && tokens[idx].kind == TokenKind::TkParenthesis && tokens[idx].val
        == "("@ {
        lemma_assign_within(tokens, idx + 1);
    }
}

proof fn lemma_unary_within(tokens: Seq<TokenView>, idx: int)
    requires
        0 <= idx <= tokens.len(),
    ensures
        p_unary(tokens, idx) matches Ok(r) ==> idx + r.used <= tokens.len(),
    decreases left(tokens, idx), 1nat,
{
    reveal_with_fuel(p_unary, 1);
    reveal_with_fuel(p_factor, 1);
    if accepts(tokens, idx, "+"@) || accepts(tokens, idx, "-"@) {
        lemma_factor_within(tokens, idx + 1);
    } else {
        lemma_factor_within(tokens, idx);
    }
}

proof fn lemma_term_rest_within(tokens: Seq<TokenView>, node: Option<NodeView>, idx: int)
    requires
        0 <= idx <= tokens.len(),
    ensures
        p_term_rest(tokens, node, idx) matches Ok(r) ==> idx + r.used <= tokens.len(),
    decreases left(tokens, idx), 2nat,
{
    reveal_with_fuel(p_term_rest, 1);
    reveal_with_fuel(p_unary, 1);
    if accepts(tokens, idx, "*"@) || accepts(tokens, idx, "/"@) {
        lemma_unary_within(tokens, idx + 1);
        match p_unary(tokens, idx + 1) {
            Err(_) => {},
            Ok(r) => {
                let op = if accepts(tokens, idx, "*"@) {
                    "*"@
                } else {
                    "/"@
                };
                lemma_term_rest_within(
                    tokens,
                    make(op, NodeKind::NdOperator, node, r.node),
                    idx + 1 + r.used,
                );
            },
        }
    }
}

proof fn lemma_term_within(tokens: Seq<TokenView>, idx: int)
    requires
        0 <= idx <= tokens.len(),
    ensures
        p_term(tokens, idx) matches Ok(r) ==> idx + r.used <= tokens.len(),
    decreases left(tokens, idx), 3nat,
{
    reveal_with_fuel(p_term, 1);
    reveal_with_fuel(p_unary, 1);
    reveal_with_fuel(p_term_rest, 1);
    lemma_unary_within(tokens, idx);
    match p_unary(tokens, idx) {
        Err(_) => {},
        Ok(r) => {
            lemma_term_rest_within(tokens, r.node, idx + r.used);
        },
    }
}

proof fn lemma_addsub_rest_within(tokens: Seq<TokenView>, node: Option<NodeView>, idx: int)
    requires
        0 <= idx <= tokens.len(),
    ensures
        p_addsub_rest(tokens, node, idx) matches Ok(r) ==> idx + r.used <= tokens.len(),
    decreases left(tokens, idx), 4nat,
{
    reveal_with_fuel(p_addsub_rest, 1);
    reveal_with_fuel(p_term, 1);
    if accepts(tokens, idx, "+"@) || accepts(tokens, idx, "-"@) {
        lemma_term_within(tokens, idx + 1);
        match p_term(tokens, idx + 1) {
            Err(_) => {},
            Ok(r) => {
                let op = if accepts(tokens, idx, "+"@) {
                    "+"@
                } else {
                    "-"@
                };
                lemma_addsub_rest_within(
                    tokens,
                    make(op, NodeKind::NdOperator, node, r.node),
                    idx + 1 + r.used,
                );
            },
        }
    }
}

proof fn lemma_addsub_within(tokens: Seq<TokenView>, idx: int)
    requires
        0 <= idx <= tokens.len(),
    ensures
        p_addsub(tokens, idx) matches Ok(r) ==> idx + r.used <= tokens.len(),
    decreases left(tokens, idx), 5nat,
{
    reveal_with_fuel(p_addsub, 1);
    reveal_with_fuel(p_term, 1);
    reveal_with_fuel(p_addsub_rest, 1);
    lemma_term_within(tokens, idx);
    match p_term(tokens, idx) {
        Err(_) => {},
        Ok(r) => {
            lemma_addsub_rest_within(tokens, r.node, idx + r.used);
        },
    }
}

proof fn lemma_equality_rest_within(tokens: Seq<TokenView>, node: Option<NodeView>, idx: int)
    requires
        0 <= idx <= tokens.len(),
    ensures
        p_equality_rest(tokens, node, idx) matches Ok(r) ==> idx + r.used <= tokens.len(),
    decreases left(tokens, idx), 6nat,
{
    reveal_with_fuel(p_equality_rest, 1);
    reveal_with_fuel(p_addsub, 1);
    if idx < tokens.len() && comparison(tokens[idx].val, None, None) is Some {
        lemma_addsub_within(tokens, idx + 1);
        match p_addsub(tokens, idx + 1) {
            Err(_) => {},
            Ok(r) => {
                lemma_equality_rest_within(
                    tokens,
                    comparison(tokens[idx].val, node, r.node).unwrap(),
                    idx + 1 + r.used,
                );
            },
        }
    }
}

proof fn lemma_equality_within(tokens: Seq<TokenView>, idx: int)
    requires
        0 <= idx <= tokens.len(),
    ensures
        p_equality(tokens, idx) matches Ok(r) ==> idx + r.used <= tokens.len(),
    decreases left(tokens, idx), 7nat,
{
    reveal_with_fuel(p_equality, 1);
    reveal_with_fuel(p_addsub, 1);
    reveal_with_fuel(p_equality_rest, 1);
    lemma_addsub_within(tokens, idx);
    match p_addsub(tokens, idx) {
        Err(_) => {},
        Ok(r) => {
            lemma_equality_rest_within(tokens, r.node, idx + r.used);
        },
    }
}

proof fn lemma_assign_within(tokens: Seq<TokenView>, idx: int)
    requires
        0 <= idx <= tokens.len(),
    ensures
        p_assign(tokens, idx) matches Ok(r) ==> idx + r.used <= tokens.len(),
        p_expr(tokens, idx) matches Ok(r) ==> idx + r.used <= tokens.len(),
    decreases left(tokens, idx), 8nat,
{
    reveal_with_fuel(p_assign, 1);
    reveal_with_fuel(p_equality, 1);
    reveal_with_fuel(p_expr, 1);
    lemma_equality_within(tokens, idx);
    match p_equality(tokens, idx) {
        Err(_) => {},
        Ok(l) => {
            if accepts(tokens, idx + l.used, "="@) {
                lemma_equality_within(tokens, idx + l.used + 1);
            }
        },
    }
}

/// One round of the rest of a term, spelled out.
proof fn lemma_term_step(tokens: Seq<TokenView>, node: Option<NodeView>, idx: int)
    ensures
        accepts(tokens, idx, "*"@) ==> p_term_rest(tokens, node, idx) == match p_unary(
            tokens,
            idx + 1,
        ) {
            Err(e) => Err::<Parsed, ParseError>(e),
            Ok(r) => shift(
                p_term_rest(
                    tokens,
                    make("*"@, NodeKind::NdOperator, node, r.node),
                    idx + 1 + r.used,
                ),
                r.used + 1,
            ),
        },
        !accepts(tokens, idx, "*"@) && accepts(tokens, idx, "/"@) ==> p_term_rest(
            tokens,
            node,
            idx,
        ) == match p_unary(tokens, idx + 1) {
            Err(e) => Err::<Parsed, ParseError>(e),
            Ok(r) => shift(
                p_term_rest(
                    tokens,
                    make("/"@, NodeKind::NdOperator, node, r.node),
                    idx + 1 + r.used,
                ),
                r.used + 1,
            ),
        },
        !accepts(tokens, idx, "*"@) && !accepts(tokens, idx, "/"@) ==> p_term_rest(
            tokens,
            node,
            idx,
        ) == Ok::<Parsed, ParseError>(Parsed { node, used: 0 }),
{
    reveal_with_fuel(p_term_rest, 1);
    reveal_with_fuel(p_unary, 1);
}

/// One round of the rest of a sum, spelled out.
proof fn lemma_addsub_step(tokens: Seq<TokenView>, node: Option<NodeView>, idx: int)
    ensures
        accepts(tokens, idx, "+"@) ==> p_addsub_rest(tokens, node, idx) == match p_term(
            tokens,
            idx + 1,
        ) {
            Err(e) => Err::<Parsed, ParseError>(e),
            Ok(r) => shift(
                p_addsub_rest(
                    tokens,
                    make("+"@, NodeKind::NdOperator, node, r.node),
                    idx + 1 + r.used,
                ),
                r.used + 1,
            ),
        },
        !accepts(tokens, idx, "+"@) && accepts(tokens, idx, "-"@) ==> p_addsub_rest(
            tokens,
            node,
            idx,
        ) == match p_term(tokens, idx + 1) {
            Err(e) => Err::<Parsed, ParseError>(e),
            Ok(r) => shift(
                p_addsub_rest(
                    tokens,
                    make("-"@, NodeKind::NdOperator, node, r.node),
                    idx + 1 + r.used,
                ),
                r.used + 1,
            ),
        },
        !accepts(tokens, idx, "+"@) && !accepts(tokens, idx, "-"@) ==> p_addsub_rest(
            tokens,
            node,
            idx,
        ) == Ok::<Parsed, ParseError>(Parsed { node, used: 0 }),
{
    reveal_with_fuel(p_addsub_rest, 1);
    reveal_with_fuel(p_term, 1);
}

/// One round of the rest of a comparison, spelled out.
proof fn lemma_equality_step(tokens: Seq<TokenView>, node: Option<NodeView>, idx: int)
    ensures
        0 <= idx < tokens.len() && comparison(tokens[idx].val, None, None) is Some
            ==> p_equality_rest(tokens, node, idx) == match p_addsub(tokens, idx + 1) {
            Err(e) => Err::<Parsed, ParseError>(e),
            Ok(r) => shift(
                p_equality_rest(
                    tokens,
                    comparison(tokens[idx].val, node, r.node).unwrap(),
                    idx + 1 + r.used,
                ),
                r.used + 1,
            ),
        },
        !(0 <= idx < tokens.len() && comparison(tokens[idx].val, None, None) is Some)
            ==> p_equality_rest(tokens, node, idx) == Ok::<Parsed, ParseError>(
            Parsed { node, used: 0 },
        ),
{
    reveal_with_fuel(p_equality_rest, 1);
    reveal_with_fuel(p_addsub, 1);
}

/// How a function that reads one rule relates its result and the index
/// after it to what the rule reads.
pub open spec fn parsed_as(
    r: Result<Option<Node>, ParseError>,
    before: usize,
    after: usize,
    m: Result<Parsed, ParseError>,
) -> bool {
    match m {
        Ok(p) => r is Ok && tree_view(r.unwrap()) == p.node && after == before + p.used,
        Err(e) => r is Err && r->Err_0 == e,
    }
}

/// The contents of a list of optional trees.
pub open spec fn trees_view(trees: Seq<Option<Node>>) -> Seq<Option<NodeView>> {
    trees.map_values(|n: Option<Node>| tree_view(n))
}

/// A node with the given text, kind and children.
pub fn create_node(val: &str, kind: NodeKind, left: Option<Node>, right: Option<Node>) -> (r:
    Option<Node>)
    ensures
        tree_view(r) == make(val@, kind, tree_view(left), tree_view(right)),
{
    let l = match left {
        Some(n) => Some(Box::new(n)),
        None => None,
    };
    let r = match right {
        Some(n) => Some(Box::new(n)),
        None => None,
    };
    Some(Node { val: String::from_str(val), kind, left: l, right: r })
}

/// Steps over the token at `idx` if its text is `target_val`.
pub fn consume(tokens: &Vec<Token>, idx: &mut usize, target_val: &str) -> (b: bool)
    ensures
        b == accepts(tokens_view(tokens@), *old(idx) as int, target_val@),
        *final(idx) == if b {
            *old(idx) + 1
        } else {
            *old(idx) as int
        },
{
    let i = *idx;
    if tokens.len() <= i {
        return false;
    }
    let target = String::from_str(target_val);
    if tokens[i].val == target {
        *idx = i + 1;
        true
    } else {
        false
    }
}

/// Reads statements until there is none, and marks that place by `None`.
pub fn program(tokens: &Vec<Token>, idx: &mut usize) -> (r: Result<Vec<Option<Node>>, ParseError>)
    requires
        *old(idx) <= tokens.len(),
    ensures
        match p_program(tokens_view(tokens@), *old(idx) as int) {
            Ok(all) => r is Ok && trees_view(r.unwrap()@) == all,
            Err(e) => r is Err && r->Err_0 == e,
        },
{
    let ghost tv = tokens_view(tokens@);
    let ghost goal = p_program(tv, *idx as int);
    let mut vec: Vec<Option<Node>> = Vec::new();
    assert(trees_view(vec@) =~= Seq::<Option<NodeView>>::empty());
    loop
        invariant
            tv == tokens_view(tokens@),
            *idx <= tokens.len(),
            goal == p_program(tv, *old(idx) as int),
            match p_program(tv, *idx as int) {
                Ok(rest) => goal == Ok::<Seq<Option<NodeView>>, ParseError>(
                    trees_view(vec@) + rest,
                ),
                Err(e) => goal == Err::<Seq<Option<NodeView>>, ParseError>(e),
            },
        decreases tokens.len() - *idx,
    {
        let ghost here = *idx as int;
        let ghost before = vec@;
        proof {
            lemma_used_within(tv, here, None);
        }
        let node = stmt(tokens, idx)?;
        match node {
            Some(n) => {
                vec.push(Some(n));
                assert(trees_view(vec@) =~= trees_view(before).push(Some(n@)));
                proof {
                    match p_program(tv, *idx as int) {
                        Ok(rest) => {
                            assert(trees_view(before) + (seq![Some(n@)] + rest) =~= trees_view(
                                vec@,
                            ) + rest);
                        },
                        Err(_) => {},
                    }
                }
            },
            None => {
                vec.push(None);
                assert(trees_view(vec@) =~= trees_view(before) + seq![None::<NodeView>]);
                return Ok(vec);
            },
        }
    }
}

/// `stmt = "return" expr ";" | expr ";"`
pub fn stmt(tokens: &Vec<Token>, idx: &mut usize) -> (r: Result<Option<Node>, ParseError>)
    requires
        *old(idx) <= tokens.len(),
    ensures
        parsed_as(r, *old(idx), *final(idx), p_stmt(tokens_view(tokens@), *old(idx) as int)),
        *final(idx) <= tokens.len(),
{
    proof {
        reveal_with_fuel(p_expr, 1);
    }
    proof {
        lemma_used_within(tokens_view(tokens@), *idx as int, None);
    }
    if consume(tokens, idx, "return") {
        let node = expr(tokens, idx)?;
        if consume(tokens, idx, ";") {
            Ok(create_node("return", NodeKind::NdReturn, node, None))
        } else {
            Ok(None)
        }
    } else {
        let node = expr(tokens, idx)?;
        if consume(tokens, idx, ";") {
            Ok(node)
        } else {
            Ok(None)
        }
    }
}

/// `expr = assign`
pub fn expr(tokens: &Vec<Token>, idx: &mut usize) -> (r: Result<Option<Node>, ParseError>)
    requires
        *old(idx) <= tokens.len(),
    ensures
        parsed_as(r, *old(idx), *final(idx), p_expr(tokens_view(tokens@), *old(idx) as int)),
        *final(idx) <= tokens.len(),
    decreases tokens.len() - *old(idx), 9nat,
{
    proof {
        reveal_with_fuel(p_expr, 1);
        reveal_with_fuel(p_assign, 1);
    }
    assign(tokens, idx)
}

/// `assign = equality ("=" equality)?`
pub fn assign(tokens: &Vec<Token>, idx: &mut usize) -> (r: Result<Option<Node>, ParseError>)
    requires
        *old(idx) <= tokens.len(),
    ensures
        parsed_as(r, *old(idx), *final(idx), p_assign(tokens_view(tokens@), *old(idx) as int)),
        *final(idx) <= tokens.len(),
    decreases tokens.len() - *old(idx), 8nat,
{
    proof {
        reveal_with_fuel(p_assign, 1);
        reveal_with_fuel(p_equality, 1);
    }
    let node = equality(tokens, idx)?;
    if consume(tokens, idx, "=") {
        let rhs = equality(tokens, idx)?;
        Ok(create_node("=", NodeKind::NdAssignOperator, node, rhs))
    } else {
        Ok(node)
    }
}

/// Steps over a comparison operator at `idx` and tells which it is: 1 to
/// 6 for `==`, `!=`, `<`, `<=`, `>` and `>=`; 0 if there is none.
fn comparison_at(tokens: &Vec<Token>, idx: &mut usize) -> (op: u8)
    ensures
        op <= 6,
        op == 0 ==> *final(idx) == *old(idx) && !(*old(idx) < tokens.len() && comparison(
            tokens_view(tokens@)[*old(idx) as int].val,
            None,
            None,
        ) is Some),
        op != 0 ==> *old(idx) < tokens.len() && *final(idx) == *old(idx) + 1 && operator_is(
            op,
            tokens_view(tokens@)[*old(idx) as int].val,
        ),
{
    if consume(tokens, idx, "==") {
        1
    } else if consume(tokens, idx, "!=") {
        2
    } else if consume(tokens, idx, "<") {
        3
    } else if consume(tokens, idx, "<=") {
        4
    } else if consume(tokens, idx, ">") {
        5
    } else if consume(tokens, idx, ">=") {
        6
    } else {
        0
    }
}

/// Whether `val` is the comparison operator with the number `op`, and
/// none of those with a smaller number.
pub open spec fn operator_is(op: u8, val: Seq<char>) -> bool {
    &&& op == 1 <==> val == "=="@
    &&& op == 2 <==> val != "=="@ && val == "!="@
    &&& op == 3 <==> val != "=="@ && val != "!="@ && val == "<"@
    &&& op == 4 <==> val != "=="@ && val != "!="@ && val != "<"@ && val == "<="@
    &&& op == 5 <==> val != "=="@ && val != "!="@ && val != "<"@ && val != "<="@ && val == ">"@
    &&& op == 6 <==> val != "=="@ && val != "!="@ && val != "<"@ && val != "<="@ && val != ">"@
        && val == ">="@
}

/// The tree of the comparison with the number `op` and the text `val`.
fn compare(op: u8, Ghost(val): Ghost<Seq<char>>, l: Option<Node>, r: Option<Node>) -> (n: Option<
    Node,
>)
    requires
        1 <= op <= 6,
        operator_is(op, val),
    ensures
        comparison(val, tree_view(l), tree_view(r)) == Some(tree_view(n)),
{
    if op == 1 {
        create_node("==", NodeKind::NdComparisonOperator, l, r)
    } else if op == 2 {
        create_node("!=", NodeKind::NdComparisonOperator, l, r)
    } else if op == 3 {
        create_node("<", NodeKind::NdComparisonOperator, l, r)
    } else if op == 4 {
        create_node("<=", NodeKind::NdComparisonOperator, l, r)
    } else if op == 5 {
        create_node("<", NodeKind::NdComparisonOperator, r, l)
    } else {
        create_node("<=", NodeKind::NdComparisonOperator, r, l)
    }
}

/// `equality = addsub (("==" | "!=" | "<" | "<=" | ">" | ">=") addsub)*`
pub fn equality(tokens: &Vec<Token>, idx: &mut usize) -> (r: Result<Option<Node>, ParseError>)
    requires
        *old(idx) <= tokens.len(),
    ensures
        parsed_as(r, *old(idx), *final(idx), p_equality(tokens_view(tokens@), *old(idx) as int)),
        *final(idx) <= tokens.len(),
    decreases tokens.len() - *old(idx), 7nat,
{
    proof {
        reveal_with_fuel(p_equality, 1);
        reveal_with_fuel(p_addsub, 1);
        reveal_with_fuel(p_equality_rest, 1);
    }
    let ghost tv = tokens_view(tokens@);
    let ghost goal = p_equality(tv, *idx as int);
    let mut node = addsub(tokens, idx)?;
    loop
        invariant
            tv == tokens_view(tokens@),
            *old(idx) <= *idx <= tokens.len(),
            goal == p_equality(tv, *old(idx) as int),
            goal == shift(
                p_equality_rest(tv, tree_view(node), *idx as int),
                (*idx - *old(idx)) as nat,
            ),
        decreases tokens.len() - *idx,
    {
        let ghost here = *idx as int;
        let ghost lhs = tree_view(node);
        proof {
            lemma_equality_step(tv, lhs, here);
        }
        let op = comparison_at(tokens, idx);
        if op == 0 {
            return Ok(node);
        }
        let rhs = addsub(tokens, idx)?;
        node = compare(op, Ghost(tv[here].val), node, rhs);
    }
}

/// `addsub = term (("+" | "-") term)*`
pub fn addsub(tokens: &Vec<Token>, idx: &mut usize) -> (r: Result<Option<Node>, ParseError>)
    requires
        *old(idx) <= tokens.len(),
    ensures
        parsed_as(r, *old(idx), *final(idx), p_addsub(tokens_view(tokens@), *old(idx) as int)),
        *final(idx) <= tokens.len(),
    decreases tokens.len() - *old(idx), 5nat,
{
    proof {
        reveal_with_fuel(p_addsub, 1);
        reveal_with_fuel(p_term, 1);
        reveal_with_fuel(p_addsub_rest, 1);
    }
    let ghost tv = tokens_view(tokens@);
    let ghost goal = p_addsub(tv, *idx as int);
    let mut node = term(tokens, idx)?;
    loop
        invariant
            tv == tokens_view(tokens@),
            *old(idx) <= *idx <= tokens.len(),
            goal == p_addsub(tv, *old(idx) as int),
            goal == shift(
                p_addsub_rest(tv, tree_view(node), *idx as int),
                (*idx - *old(idx)) as nat,
            ),
        decreases tokens.len() - *idx,
    {
        proof {
            lemma_addsub_step(tv, tree_view(node), *idx as int);
        }
        if consume(tokens, idx, "+") {
            let rhs = term(tokens, idx)?;
            node = create_node("+", NodeKind::NdOperator, node, rhs);
        } else if consume(tokens, idx, "-") {
            let rhs = term(tokens, idx)?;
            node = create_node("-", NodeKind::NdOperator, node, rhs);
        } else {
            return Ok(node);
        }
    }
}

/// `term = unary (("*" | "/") unary)*`
pub fn term(tokens: &Vec<Token>, idx: &mut usize) -> (r: Result<Option<Node>, ParseError>)
    requires
        *old(idx) <= tokens.len(),
    ensures
        parsed_as(r, *old(idx), *final(idx), p_term(tokens_view(tokens@), *old(idx) as int)),
        *final(idx) <= tokens.len(),
    decreases tokens.len() - *old(idx), 3nat,
{
    proof {
        reveal_with_fuel(p_term, 1);
        reveal_with_fuel(p_unary, 1);
        reveal_with_fuel(p_term_rest, 1);
    }
    let ghost tv = tokens_view(tokens@);
    let ghost goal = p_term(tv, *idx as int);
    let mut node = unary(tokens, idx)?;
    loop
        invariant
            tv == tokens_view(tokens@),
            *old(idx) <= *idx <= tokens.len(),
            goal == p_term(tv, *old(idx) as int),
            goal == shift(
                p_term_rest(tv, tree_view(node), *idx as int),
                (*idx - *old(idx)) as nat,
            ),
        decreases tokens.len() - *idx,
    {
        proof {
            lemma_term_step(tv, tree_view(node), *idx as int);
        }
        if consume(tokens, idx, "*") {
            let rhs = unary(tokens, idx)?;
            node = create_node("*", NodeKind::NdOperator, node, rhs);
        } else if consume(tokens, idx, "/") {
            let rhs = unary(tokens, idx)?;
            node = create_node("/", NodeKind::NdOperator, node, rhs);
        } else {
            return Ok(node);
        }
    }
}

/// `unary = ("+" | "-")? factor`
pub fn unary(tokens: &Vec<Token>, idx: &mut usize) -> (r: Result<Option<Node>, ParseError>)
    requires
        *old(idx) <= tokens.len(),
    ensures
        parsed_as(r, *old(idx), *final(idx), p_unary(tokens_view(tokens@), *old(idx) as int)),
        *final(idx) <= tokens.len(),
    decreases tokens.len() - *old(idx), 1nat,
{
    proof {
        reveal_with_fuel(p_unary, 1);
        reveal_with_fuel(p_factor, 1);
    }
    if consume(tokens, idx, "+") {
        let node = create_node("0", NodeKind::NdNum, None, None);
        let rhs = factor(tokens, idx)?;
        Ok(create_node("+", NodeKind::NdOperator, node, rhs))
    } else if consume(tokens, idx, "-") {
        let node = create_node("0", NodeKind::NdNum, None, None);
        let rhs = factor(tokens, idx)?;
        Ok(create_node("-", NodeKind::NdOperator, node, rhs))
    } else {
        factor(tokens, idx)
    }
}

/// `factor = number | variable | "(" expr ")"`
pub fn factor(tokens: &Vec<Token>, idx: &mut usize) -> (r: Result<Option<Node>, ParseError>)
    requires
        *old(idx) <= tokens.len(),
    ensures
        parsed_as(r, *old(idx), *final(idx), p_factor(tokens_view(tokens@), *old(idx) as int)),
        *final(idx) <= tokens.len(),
    decreases tokens.len() - *old(idx), 0nat,
{
    proof {
        reveal_with_fuel(p_factor, 1);
        reveal_with_fuel(p_expr, 1);
    }
    let i = *idx;
    if tokens.len() <= i {
        return Ok(None);
    }
    assert(tokens_view(tokens@)[i as int] == tokens@[i as int]@);
    match tokens[i].kind {
        TokenKind::TkNum => {
            *idx = i + 1;
            Ok(create_node(tokens[i].val.as_str(), NodeKind::NdNum, None, None))
        },
        TokenKind::TkParenthesis => {
            if consume(tokens, idx, "(") {
                let node = expr(tokens, idx)?;
                if consume(tokens, idx, ")") {
                    Ok(node)
                } else {
                    Err(ParseError::ExpectedClosingParenthesis)
                }
            } else {
                Ok(None)
            }
        },
        TokenKind::TkVariable => {
            *idx = i + 1;
            Ok(create_node(tokens[i].val.as_str(), NodeKind::NdVariable, None, None))
        },
        _ => Ok(None),
    }
}

/// Parses the tokens of a program into the trees of its statements,
/// followed by `None` where the statements end.
pub fn parsing(tokens: &Vec<Token>) -> (r: Result<Vec<Option<Node>>, ParseError>)
    ensures
        match p_program(tokens_view(tokens@), 0) {
            Ok(all) => r is Ok && trees_view(r.unwrap()@) == all,
            Err(e) => r is Err && r->Err_0 == e,
        },
{
    let mut idx: usize = 0;
    program(tokens, &mut idx)
}

} // verus!
