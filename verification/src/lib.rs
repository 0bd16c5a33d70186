//! A single-pass compiler from a small C-like language to x86-64 assembly
//! text.
//!
//! The source text passes through three stages:
//!
//! - [`tokenize`] splits it into tokens;
//! - [`parse`] reads the tokens into one syntax tree for each function, and
//!   gives every variable its slot in the frame of its function; what it
//!   accepts is the [`grammar`];
//! - [`codegen`] writes the assembly text of the trees: the instructions
//!   are the [`code`] of the trees, and [`emit`] spells them.
//!
//! [`compile`] runs the three in a row. The generated code is a stack
//! machine: an expression pushes its value, and a statement leaves the stack
//! as it found it.
//!
//! [`grammar_laws`] and [`code_laws`] hold what is proved of every tree that
//! the grammar gives and of all the code that trees have.

pub mod code;
pub mod code_laws;
pub mod codegen;
pub mod emit;
pub mod grammar;
pub mod grammar_laws;
pub mod parse;
pub mod text;
pub mod tokenize;

use crate::code::{program_code, CodegenError};
use crate::code_laws::{
    closes_routine, count, internal, labels_unique, lemma_parsed_program_generates,
    lemma_program_labels_unique, lemma_program_routines, opens_routine,
};
use crate::codegen::codegen;
use crate::emit::render;
use crate::grammar::{program_spec, ParseError};
use crate::parse::program;
use crate::tokenize::{scan, tokenize, LexError};
use vstd::prelude::*;

verus! {

/// Why a source text could not be compiled.
#[derive(Clone, Copy, Debug, PartialEq, Eq, Structural)]
pub enum CompileError {
    /// The scanner met a character that starts no token.
    Lex(LexError),
    /// The tokens are no program.
    Parse(ParseError),
    /// The program has no code.
    Codegen(CodegenError),
}

impl CompileError {
    /// The diagnostic for this error.
    pub open spec fn text(self) -> Seq<char> {
        match self {
            CompileError::Lex(e) => e.text(),
            CompileError::Parse(e) => e.text(),
            CompileError::Codegen(e) => e.text(),
        }
    }

    /// A diagnostic that names what stopped the compiler.
    pub fn message(&self) -> (text: String)
        ensures
            text@ == self.text(),
    {
        match self {
            CompileError::Lex(e) => e.message(),
            CompileError::Parse(e) => e.message(),
            CompileError::Codegen(e) => e.message(),
        }
    }
}

/// The line that opens the output: it fixes the order of operands,
/// destination first.
pub open spec fn syntax_directive() -> Seq<char> {
    ".intel_syntax noprefix\n"@
}

/// The assembly text of the source text `src`: the directive, then one
/// routine for each function; or the first error of the scanner, of the
/// parser or of the code generator, in that order.
pub open spec fn compile_spec(src: Seq<char>) -> Result<Seq<char>, CompileError> {
    match scan(src, 0) {
        Err(e) => Err(CompileError::Lex(e)),
        Ok(tokens) => match program_spec(tokens) {
            Err(e) => Err(CompileError::Parse(e)),
            Ok(funcs) => match program_code(funcs) {
                Err(e) => Err(CompileError::Codegen(e)),
                Ok(insts) => Ok(syntax_directive() + render(insts)),
            },
        },
    }
}

/// Whether `r` is what compiling `src` gives.
pub open spec fn compiled(src: Seq<char>, r: Result<String, CompileError>) -> bool {
    match compile_spec(src) {
        Ok(text) => r is Ok && r->Ok_0@ == text,
        Err(e) => r is Err && r->Err_0 == e,
    }
}

/// Compiles a source text: scans it, parses the tokens, and generates the
/// code of the program. No text is returned for a source with an error.
pub fn compile(chars: Vec<char>) -> (r: Result<String, CompileError>)
    ensures
        compiled(chars@, r),
{
    let mut tokens = match tokenize(chars) {
        Ok(tokens) => tokens,
        Err(e) => {
            return Err(CompileError::Lex(e));
        },
    };
    let funcs = match program(&mut tokens) {
        Ok(funcs) => funcs,
        Err(e) => {
            return Err(CompileError::Parse(e));
        },
    };
    let code = match codegen(funcs) {
        Ok(code) => code,
        Err(e) => {
            return Err(CompileError::Codegen(e));
        },
    };
    let mut text = String::from_str(".intel_syntax noprefix\n");
    text.append(code.as_str());
    Ok(text)
}

/// Compiling is a function of the source text alone: whatever two runs on
/// the same text return, they return the same, character for character.
pub proof fn lemma_compile_deterministic(
    src: Seq<char>,
    first: Result<String, CompileError>,
    second: Result<String, CompileError>,
)
    requires
        compiled(src, first),
        compiled(src, second),
    ensures
        first is Ok <==> second is Ok,
        first is Ok ==> first->Ok_0@ == second->Ok_0@,
        first is Err ==> first->Err_0 == second->Err_0,
{
}

/// What the assembly text of every source text is made of: the directive,
/// and then the instructions of a program in which every function has one
/// routine of its own and no numbered label is defined twice.
pub proof fn lemma_compiled_text(src: Seq<char>)
    requires
        compile_spec(src) is Ok,
    ensures
        ({
            let funcs = program_spec(scan(src, 0)->Ok_0)->Ok_0;
            let insts = program_code(funcs)->Ok_0;
            &&& compile_spec(src)->Ok_0 == syntax_directive() + render(insts)
            &&& count(insts, opens_routine()) == funcs.len()
            &&& count(insts, closes_routine()) == funcs.len()
            &&& labels_unique(insts)
        }),
{
    let funcs = program_spec(scan(src, 0)->Ok_0)->Ok_0;
    lemma_program_routines(funcs);
    lemma_program_labels_unique(funcs);
}

/// Where the code generator gives up on a source text, the reason lies in
/// the source: the trees that the parser hands over never break the
/// agreement between the two.
pub proof fn lemma_compile_errors(src: Seq<char>)
    ensures
        compile_spec(src) matches Err(CompileError::Codegen(e)) ==> !internal(e),
{
    if let Ok(tokens) = scan(src, 0) {
        if program_spec(tokens) is Ok {
            lemma_parsed_program_generates(tokens);
        }
    }
}

} // verus!
