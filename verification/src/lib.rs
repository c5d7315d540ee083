//! A small compiler for a C-like language with integers and pointers.
//!
//! [`run`] compiles a text. The text is split into tokens and read as a
//! syntax tree ([`parser`], after the rules of [`grammar`]); the tree
//! ([`ast`]) is lowered to a stack-machine IR ([`ir`]) by [`ast2ir`], which
//! resolves names and checks types; and the IR is rendered as RISC-V
//! assembly text by [`codegen::write_asm`]. What lowering produces is
//! defined in [`lowering`]; [`stack`] defines the discipline of the
//! operand stack that all lowered code keeps, and [`machine`] what that
//! discipline is good for. [`laws`] states what holds of lowering.
//!
//! [`lexer`] and [`compiler`] are two smaller front ends of their own: a
//! tokenizer for a first subset of the language, and a compiler for
//! arithmetic formulas.

use vstd::prelude::*;

pub mod ast;
pub mod codegen;
pub mod compiler;
pub mod error;
pub mod grammar;
pub mod ir;
pub mod labels_proof;
pub mod laws;
pub mod lexer;
pub mod locals_proof;
pub mod lower;
pub mod lowering;
pub mod machine;
pub mod parser;
pub mod program_proof;
pub mod refs_proof;
pub mod stack;
pub mod stack_proof;
pub mod stack_shapes;
pub mod symtab;
pub mod text;
pub mod view_proof;

pub use crate::lower::ast2ir;

verus! {

/// The assembly text of a program, or the reason for which lowering
/// rejects it.
pub open spec fn assembly_of(p: ast::Prog) -> Result<Seq<char>, error::LowerError> {
    match lowering::lower_prog(p) {
        Ok(ir) => Ok(codegen::asm_text(ir)),
        Err(e) => Err(e),
    }
}

/// Whether `r` is what lowering `p` gives.
pub open spec fn is_lowering(p: ast::Prog, r: Result<ir::IrProg, error::LowerError>) -> bool {
    match lowering::lower_prog(p) {
        Ok(v) => r is Ok && r.unwrap()@ == v,
        Err(e) => r is Err && r->Err_0 == e,
    }
}

/// Whether `r` is what compiling `p` gives.
pub open spec fn is_compilation(p: ast::Prog, r: Result<String, error::LowerError>) -> bool {
    match assembly_of(p) {
        Ok(text) => r is Ok && r.unwrap()@ == text,
        Err(e) => r is Err && r->Err_0 == e,
    }
}

/// Compiles a syntax tree: lowers it to IR and renders the IR as
/// assembly text. A program that lowering rejects gives the error and no
/// text.
pub fn compile(p: &ast::Prog) -> (r: Result<String, error::LowerError>)
    ensures
        is_compilation(*p, r),
{
    let ir = ast2ir(p)?;
    let mut out = String::new();
    codegen::write_asm(&ir, &mut out);
    assert(out@ =~= codegen::asm_text(ir@));
    Ok(out)
}

/// Why a text does not compile.
#[derive(Debug, Clone, Copy, PartialEq, Eq, Structural)]
pub enum Error {
    /// The text is no program.
    Parse(grammar::ParseError),
    /// The program breaks a rule of names, types or control flow.
    Lower(error::LowerError),
}

/// A syntax tree with the given content.
pub open spec fn tree_of(content: ast::ProgView) -> ast::Prog {
    choose|p: ast::Prog| p@ == content
}

/// The assembly text of a program text, or the reason for which there is
/// none: the first error of the parser, or else of lowering.
pub open spec fn assembly_of_text(input: Seq<char>) -> Result<Seq<char>, Error> {
    match parser::parse_text(input) {
        Err(e) => Err(Error::Parse(e)),
        Ok(content) => match assembly_of(tree_of(content)) {
            Ok(text) => Ok(text),
            Err(e) => Err(Error::Lower(e)),
        },
    }
}

/// Compiles a program text to assembly text.
pub fn run(input: &str) -> (r: Result<String, Error>)
    ensures
        match assembly_of_text(input@) {
            Ok(text) => r is Ok && r.unwrap()@ == text,
            Err(e) => r is Err && r->Err_0 == e,
        },
{
    let p = match parser::parse(input) {
        Ok(p) => p,
        Err(e) => {
            return Err(Error::Parse(e));
        },
    };
    proof {
        view_proof::lemma_prog_by_view(p, tree_of(p@));
    }
    match compile(&p) {
        Ok(text) => Ok(text),
        Err(e) => Err(Error::Lower(e)),
    }
}

} // verus!
