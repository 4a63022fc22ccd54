//! The whole pipeline: source text to module bytes.
use vstd::prelude::*;
use crate::ast::AST;
use crate::emitter::{generate_wasm_binary, header, lemma_module_layout, module_bytes, MAX_FUNCTIONS};
use crate::generator::{generate_ir, lower_program_spec};
use crate::ir::{ir_functions_view, IRFunction};
use crate::lexer::{lex, tokenize, LexError};
use crate::parser::{parse_program, ParseError};

verus! {

/// Why a compilation stopped.
#[derive(Debug, Clone)]
pub enum CompileError {
    Lex(LexError),
    Parse(ParseError),
    /// More functions than a module can index.
    TooManyFunctions(usize),
}

/// Emits the module of a syntax tree: it fails exactly when the tree lowers
/// to more functions than a module can index.
pub fn compile_ast(ast: &AST) -> (r: Result<Vec<u8>, CompileError>)
    ensures
        (lower_program_spec(*ast).len() <= MAX_FUNCTIONS) <==> r is Ok,
        r matches Err(e) ==> (e matches CompileError::TooManyFunctions(n) && n > MAX_FUNCTIONS && n
            == lower_program_spec(*ast).len()),
        r matches Ok(bytes) ==> exists|fs: Seq<IRFunction>|
            ir_functions_view(fs) == lower_program_spec(*ast) && bytes@ == module_bytes(fs),
        r matches Ok(bytes) ==> bytes@.len() >= 8 && bytes@.subrange(0, 8) == header(),
{
    let module = generate_ir(ast);
    let n = module.functions.len();
    proof {
        assert(ir_functions_view(module.functions@).len() == module.functions@.len());
    }
    if n > MAX_FUNCTIONS {
        return Err(CompileError::TooManyFunctions(n));
    }
    let bytes = generate_wasm_binary(&module);
    proof {
        assert(ir_functions_view(module.functions@) == lower_program_spec(*ast) && bytes@ == module_bytes(
            module.functions@,
        ));
        lemma_module_layout(module.functions@);
        assert(header() =~= seq![0x00u8, 0x61u8, 0x73u8, 0x6du8, 0x01u8, 0x00u8, 0x00u8, 0x00u8]);
    }
    Ok(bytes)
}

/// Compiles source text to a binary module: lexing and parsing stop at the
/// first error; lowering and emission always succeed.
pub fn compile(source: &str) -> (r: Result<Vec<u8>, CompileError>)
    ensures
        lex(source@) matches Err(e) ==> r matches Err(CompileError::Lex(e2)) && e2 == e,
        r matches Ok(bytes) ==> lex(source@) is Ok && exists|ast: AST, fs: Seq<IRFunction>|
            ir_functions_view(fs) == lower_program_spec(ast) && bytes@ == module_bytes(fs),
        r matches Err(CompileError::TooManyFunctions(n)) ==> n > MAX_FUNCTIONS,
        r matches Ok(bytes) ==> bytes@.len() >= 8 && bytes@.subrange(0, 8) == header(),
{
    let tokens = match tokenize(source) {
        Ok(t) => t,
        Err(e) => {
            return Err(CompileError::Lex(e));
        },
    };
    let ast = match parse_program(&tokens) {
        Ok(a) => a,
        Err(e) => {
            return Err(CompileError::Parse(e));
        },
    };
    compile_ast(&ast)
}

} // verus!
