//! From the text of a program to the text of its assembly file.

use crate::compiler::compile;
use crate::error::{CompileError, ParseError, SpecCompileError};
use crate::lowering::lower_program;
use crate::parser::{parse_program, parsed_program};
use crate::syntax::{read_sexp, sexp_parse, SpecTree, Tree};
use crate::utils::asm_text;
use vstd::prelude::*;

verus! {

/// Why a source text is not compiled.
#[derive(Debug, PartialEq, Eq)]
pub enum StaticError {
    /// The text is not a program.
    Parse(ParseError),
    /// The program cannot be lowered.
    Compile(CompileError),
}

/// The model of a static error.
pub enum SpecStaticError {
    Parse(ParseError),
    Compile(SpecCompileError),
}

impl View for StaticError {
    type V = SpecStaticError;

    open spec fn view(&self) -> SpecStaticError {
        match self {
            StaticError::Parse(e) => SpecStaticError::Parse(*e),
            StaticError::Compile(e) => SpecStaticError::Compile(e@),
        }
    }
}

impl SpecStaticError {
    /// The message of this error.
    pub open spec fn text(self) -> Seq<char> {
        match self {
            SpecStaticError::Parse(e) => e.text(),
            SpecStaticError::Compile(e) => e.text(),
        }
    }
}

impl StaticError {
    /// The message of this error.
    pub fn message(&self) -> (s: String)
        ensures
            s@ == self@.text(),
    {
        match self {
            StaticError::Parse(e) => e.message(),
            StaticError::Compile(e) => e.message(),
        }
    }
}

/// The head of every assembly file: the section, the symbols of the
/// runtime, the entry symbol, and the error trampoline, which restores the
/// alignment of the stack and hands the error code staged in `rdx` to
/// `snek_error`.
pub open spec fn prologue() -> Seq<char> {
    "\nsection .text\nextern snek_error\nextern snek_print\nglobal our_code_starts_here\nthrow_error_align:\n  sub rsp, 8\n  mov rdi, rdx\n  call snek_error\n  add rsp, 8\n"@
}

/// The text of an assembly file around the text of the functions and of
/// the main expression: the functions follow the trampoline, and the main
/// expression stands under the entry symbol and ends in `ret`.
pub open spec fn program_text(functions: Seq<char>, main: Seq<char>) -> Seq<char> {
    prologue() + functions + "\nour_code_starts_here:\n"@ + main + "\n  ret\n"@
}

/// Puts the text of the functions and of the main expression into the
/// frame of an assembly file.
pub fn assemble(functions: &str, main: &str) -> (r: String)
    ensures
        r@ == program_text(functions@, main@),
{
    let mut out = String::from_str(
        "\nsection .text\nextern snek_error\nextern snek_print\nglobal our_code_starts_here\nthrow_error_align:\n  sub rsp, 8\n  mov rdi, rdx\n  call snek_error\n  add rsp, 8\n",
    );
    out.append(functions);
    out.append("\nour_code_starts_here:\n");
    out.append(main);
    out.append("\n  ret\n");
    out
}

/// The assembly file of the program that a tree denotes, or why there is
/// none. Without a tree, the text was no s-expression.
pub open spec fn compiled(tree: Option<SpecTree>) -> Result<Seq<char>, SpecStaticError> {
    match tree {
        None => Err(SpecStaticError::Parse(ParseError::Invalid)),
        Some(t) => match parsed_program(t) {
            Err(e) => Err(SpecStaticError::Parse(e)),
            Ok(p) => match lower_program(p) {
                Err(e) => Err(SpecStaticError::Compile(e)),
                Ok(code) => Ok(program_text(asm_text(code.0), asm_text(code.1))),
            },
        },
    }
}

/// Whether `r` is the outcome `expected`: the same text, or the same error.
pub open spec fn delivers(
    r: Result<String, StaticError>,
    expected: Result<Seq<char>, SpecStaticError>,
) -> bool {
    match r {
        Ok(text) => expected == Ok::<Seq<char>, SpecStaticError>(text@),
        Err(e) => expected == Err::<Seq<char>, SpecStaticError>(e@),
    }
}

/// Compiles what the reader made of a source text to the text of an
/// assembly file.
pub fn compile_tree(tree: Option<Tree>) -> (r: Result<String, StaticError>)
    ensures
        delivers(
            r,
            compiled(
                match tree {
                    Some(t) => Some(t@),
                    None => None,
                },
            ),
        ),
{
    let tree = match tree {
        None => {
            return Err(StaticError::Parse(ParseError::Invalid));
        },
        Some(tree) => tree,
    };
    let prog = match parse_program(tree) {
        Err(e) => {
            return Err(StaticError::Parse(e));
        },
        Ok(prog) => prog,
    };
    let (functions, main) = match compile(&prog) {
        Err(e) => {
            return Err(StaticError::Compile(e));
        },
        Ok(texts) => texts,
    };
    Ok(assemble(functions.as_str(), main.as_str()))
}

/// The text that the reader is given for a source text: the source between
/// parentheses, so that the definitions and the main expression form one
/// list.
pub open spec fn wrapped(source: Seq<char>) -> Seq<char> {
    "("@ + source + ")"@
}

/// Compiles a source text to the text of an assembly file.
pub fn compile_source(source: &str) -> (r: Result<String, StaticError>)
    ensures
        delivers(r, compiled(sexp_parse(wrapped(source@)))),
{
    let mut text = String::from_str("(");
    text.append(source);
    text.append(")");
    compile_tree(read_sexp(text.as_str()))
}

} // verus!
