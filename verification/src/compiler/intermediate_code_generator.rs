//! Turning syntax trees into commands of a stack machine.
//!
//! A tree is walked in postorder: the code of the children, then the
//! command of the node. An assignment stores the value of its right side
//! in the variable on its left.

use vstd::prelude::*;
use vstd::string::StringExecFns;
use crate::compiler::{child_view, Node, NodeKind, NodeView};
use crate::compiler::parser::{tree_view, trees_view};

verus! {

/// Why a tree has no code.
#[derive(Debug, Clone, Copy, PartialEq, Eq, Structural)]
pub enum GenError {
    /// The left side of an assignment is no variable.
    ExpectedVariable,
    /// An operator that the machine has no command for.
    UnexpectedOperator,
}

/// The command of an arithmetic operator.
pub open spec fn operator_command(val: Seq<char>) -> Option<Seq<char>> {
    if val == "+"@ {
        Some("ADD"@)
    } else if val == "-"@ {
        Some("SUB"@)
    } else if val == "*"@ {
        Some("MUL"@)
    } else if val == "/"@ {
        Some("DIV"@)
    } else {
        None
    }
}

/// The command of a comparison operator.
pub open spec fn comparison_command(val: Seq<char>) -> Option<Seq<char>> {
    if val == "=="@ {
        Some("EQUAL"@)
    } else if val == "!="@ {
        Some("NONEQUAL"@)
    } else if val == "<"@ {
        Some("LT"@)
    } else if val == "<="@ {
        Some("ELT"@)
    } else {
        None
    }
}

/// The command of a node by itself, after the code of its children. A
/// `return` has none: the value of its expression is what the program
/// leaves on the stack.
pub open spec fn own_command(node: NodeView) -> Result<Seq<Seq<char>>, GenError> {
    match node.kind {
        NodeKind::NdNum => Ok(seq!["PUSH "@ + node.val]),
        NodeKind::NdOperator => match operator_command(node.val) {
            Some(c) => Ok(seq![c]),
            None => Err(GenError::UnexpectedOperator),
        },
        NodeKind::NdComparisonOperator => match comparison_command(node.val) {
            Some(c) => Ok(seq![c]),
            None => Err(GenError::UnexpectedOperator),
        },
        NodeKind::NdAssignOperator => Ok(Seq::empty()),
        NodeKind::NdVariable => Ok(seq!["LOAD "@ + node.val]),
        NodeKind::NdReturn => Ok(Seq::empty()),
    }
}

/// The commands of an optional child.
pub open spec fn child_commands(child: Option<Box<NodeView>>) -> Result<Seq<Seq<char>>, GenError>
    decreases child,
{
    match child {
        None => Ok(Seq::empty()),
        Some(n) => commands(*n),
    }
}

/// Commands followed by more commands, unless either is an error.
pub open spec fn then_commands(
    a: Result<Seq<Seq<char>>, GenError>,
    b: Result<Seq<Seq<char>>, GenError>,
) -> Result<Seq<Seq<char>>, GenError> {
    match a {
        Err(e) => Err(e),
        Ok(x) => match b {
            Err(e) => Err(e),
            Ok(y) => Ok(x + y),
        },
    }
}

/// The name of the variable that an assignment stores into.
pub open spec fn assigned_variable(node: NodeView) -> Option<Seq<char>> {
    match node.left {
        Some(l) => if l.kind == NodeKind::NdVariable {
            Some(l.val)
        } else {
            None
        },
        None => None,
    }
}

/// The commands of a tree.
pub open spec fn commands(node: NodeView) -> Result<Seq<Seq<char>>, GenError>
    decreases node,
{
    if node.kind == NodeKind::NdAssignOperator {
        match assigned_variable(node) {
            None => Err(GenError::ExpectedVariable),
            Some(name) => then_commands(child_commands(node.right), Ok(seq!["STORE "@ + name])),
        }
    } else {
        then_commands(
            then_commands(child_commands(node.left), child_commands(node.right)),
            own_command(node),
        )
    }
}

/// The commands of the first `n` trees of a list; a place without a tree
/// has none.
pub open spec fn all_commands(trees: Seq<Option<NodeView>>, n: int) -> Result<
    Seq<Seq<char>>,
    GenError,
>
    decreases n,
{
    if n <= 0 || n > trees.len() {
        Ok(Seq::empty())
    } else {
        then_commands(
            all_commands(trees, n - 1),
            match trees[n - 1] {
                None => Ok(Seq::empty()),
                Some(t) => commands(t),
            },
        )
    }
}

/// An error among the first `i` trees is the error of every longer prefix.
pub proof fn lemma_commands_error_persists(trees: Seq<Option<NodeView>>, i: int, n: int)
    requires
        0 <= i <= n <= trees.len(),
        all_commands(trees, i) is Err,
    ensures
        all_commands(trees, n) == all_commands(trees, i),
    decreases n - i,
{
    if i < n {
        lemma_commands_error_persists(trees, i, n - 1);
    }
}

/// The texts of a list of strings.
pub open spec fn lines_view(lines: Seq<String>) -> Seq<Seq<char>> {
    lines.map_values(|s: String| s@)
}

/// What a call that appends the commands `m` leaves in `after`.
pub open spec fn appended(
    before: Seq<String>,
    after: Seq<String>,
    r: Result<(), GenError>,
    m: Result<Seq<Seq<char>>, GenError>,
) -> bool {
    match m {
        Ok(c) => r is Ok && lines_view(after) == lines_view(before) + c,
        Err(e) => r == Err::<(), GenError>(e),
    }
}

/// A text made of a head and a tail.
fn join(head: &str, tail: &str) -> (s: String)
    ensures
        s@ == head@ + tail@,
{
    let mut s = String::from_str(head);
    s.append(tail);
    s
}

/// Tests whether a string is a given text.
fn is_text(s: &String, text: &str) -> (b: bool)
    ensures
        b == (s@ == text@),
{
    let t = String::from_str(text);
    *s == t
}

/// Appends one command.
fn emit(mid_commands: &mut Vec<String>, command: String)
    ensures
        lines_view(final(mid_commands)@) == lines_view(old(mid_commands)@) + seq![command@],
{
    let ghost before = mid_commands@;
    mid_commands.push(command);
    assert(lines_view(mid_commands@) =~= lines_view(before) + seq![command@]);
}

/// Appends the command of a node by itself.
fn own(node: &Node, mid_commands: &mut Vec<String>) -> (r: Result<(), GenError>)
    ensures
        appended(old(mid_commands)@, final(mid_commands)@, r, own_command(node@)),
{
    let ghost before = mid_commands@;
    match node.kind {
        NodeKind::NdNum => {
            emit(mid_commands, join("PUSH ", node.val.as_str()));
        },
        NodeKind::NdOperator => {
            let command = if is_text(&node.val, "+") {
                "ADD"
            } else if is_text(&node.val, "-") {
                "SUB"
            } else if is_text(&node.val, "*") {
                "MUL"
            } else if is_text(&node.val, "/") {
                "DIV"
            } else {
                return Err(GenError::UnexpectedOperator);
            };
            emit(mid_commands, String::from_str(command));
        },
        NodeKind::NdComparisonOperator => {
            let command = if is_text(&node.val, "==") {
                "EQUAL"
            } else if is_text(&node.val, "!=") {
                "NONEQUAL"
            } else if is_text(&node.val, "<") {
                "LT"
            } else if is_text(&node.val, "<=") {
                "ELT"
            } else {
                return Err(GenError::UnexpectedOperator);
            };
            emit(mid_commands, String::from_str(command));
        },
        NodeKind::NdAssignOperator => {
            assert(lines_view(before) + Seq::<Seq<char>>::empty() =~= lines_view(before));
        },
        NodeKind::NdVariable => {
            emit(mid_commands, join("LOAD ", node.val.as_str()));
        },
        NodeKind::NdReturn => {
            assert(lines_view(before) + Seq::<Seq<char>>::empty() =~= lines_view(before));
        },
    }
    Ok(())
}

/// Appends the commands of an optional child.
fn child(node: &Option<Box<Node>>, mid_commands: &mut Vec<String>) -> (r: Result<(), GenError>)
    ensures
        appended(
            old(mid_commands)@,
            final(mid_commands)@,
            r,
            child_commands(child_view(*node)),
        ),
    decreases *node, 0nat,
{
    match node {
        Some(n) => traverse(n, mid_commands),
        None => {
            assert(lines_view(mid_commands@) + Seq::<Seq<char>>::empty() =~= lines_view(
                mid_commands@,
            ));
            Ok(())
        },
    }
}

/// Appends the commands of a tree.
pub fn traverse(node: &Node, mid_commands: &mut Vec<String>) -> (r: Result<(), GenError>)
    ensures
        appended(old(mid_commands)@, final(mid_commands)@, r, commands(node@)),
    decreases *node, 1nat,
{
    let ghost before = lines_view(mid_commands@);
    match node.kind {
        NodeKind::NdAssignOperator => {
            let name = match &node.left {
                Some(l) => match l.kind {
                    NodeKind::NdVariable => l.val.as_str(),
                    _ => {
                        return Err(GenError::ExpectedVariable);
                    },
                },
                None => {
                    return Err(GenError::ExpectedVariable);
                },
            };
            child(&node.right, mid_commands)?;
            let ghost mid = lines_view(mid_commands@);
            emit(mid_commands, join("STORE ", name));
            assert(lines_view(mid_commands@) =~= before + ((mid.subrange(
                before.len() as int,
                mid.len() as int,
            )) + seq!["STORE "@ + name@]));
            assert(mid.subrange(before.len() as int, mid.len() as int) =~= child_commands(
                child_view(node.right),
            ).unwrap());
            Ok(())
        },
        _ => {
            child(&node.left, mid_commands)?;
            let ghost l = child_commands(child_view(node.left)).unwrap();
            child(&node.right, mid_commands)?;
            let ghost r = child_commands(child_view(node.right)).unwrap();
            own(node, mid_commands)?;
            let ghost o = own_command(node@).unwrap();
            assert(lines_view(mid_commands@) =~= before + ((l + r) + o));
            Ok(())
        },
    }
}

/// Turns the trees of a program into commands.
pub fn generate_intermediate_code(ast: &Vec<Option<Node>>) -> (r: Result<Vec<String>, GenError>)
    ensures
        match all_commands(trees_view(ast@), ast@.len() as int) {
            Ok(c) => r is Ok && lines_view(r.unwrap()@) == c,
            Err(e) => r is Err && r->Err_0 == e,
        },
{
    let ghost trees = trees_view(ast@);
    let mut mid_commands: Vec<String> = Vec::new();
    let mut i: usize = 0;
    assert(lines_view(mid_commands@) =~= Seq::<Seq<char>>::empty());
    while i < ast.len()
        invariant
            i <= ast.len(),
            trees == trees_view(ast@),
            all_commands(trees, i as int) == Ok::<Seq<Seq<char>>, GenError>(
                lines_view(mid_commands@),
            ),
        decreases ast.len() - i,
    {
        proof {
            if all_commands(trees, i + 1) is Err {
                lemma_commands_error_persists(trees, i + 1, ast@.len() as int);
            }
        }
        assert(trees[i as int] == tree_view(ast@[i as int]));
        match &ast[i] {
            Some(node) => {
                traverse(node, &mut mid_commands)?;
            },
            None => {
                assert(lines_view(mid_commands@) + Seq::<Seq<char>>::empty() =~= lines_view(
                    mid_commands@,
                ));
            },
        }
        i += 1;
    }
    Ok(mid_commands)
}

} // verus!
