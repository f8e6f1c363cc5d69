//! A tiny source-to-source translator for a minimal C-like language.
//!
//! The pipeline has three stages, each verified against a functional
//! specification: lexical analysis ([`lexer`]), recursive-descent parsing
//! ([`parser`]) and tree-to-text code generation ([`code_gen`]). The laws
//! that relate the stages to one another are proved in [`laws`].

pub mod code_gen;
pub mod laws;
pub mod lexer;
pub mod parser;
pub mod text;

use vstd::prelude::*;

verus! {

/// The first fatal condition of any stage, which halts the whole pipeline:
/// no partial token sequence, tree or text is ever produced.
#[derive(Debug, Clone, PartialEq)]
pub enum TranslateError {
    Lex(crate::lexer::LexError),
    Parse(crate::parser::ParseError),
    CodeGen(crate::code_gen::CodeGenError),
}

/// The one composed entry point: source text in, target text out.
///
/// Lexing, parsing and code generation run in strict order; the first error
/// of any stage is returned unchanged.
pub fn translate(source: &str) -> (r: Result<String, TranslateError>)
    ensures
        match crate::lexer::spec_lex(source@) {
            Err(e) => r == Result::<String, TranslateError>::Err(TranslateError::Lex(e)),
            Ok(toks) => match crate::parser::spec_parse(toks) {
                Err(e) => r matches Err(te) && te matches TranslateError::Parse(pe) && pe@ == e,
                Ok(prog) => {
                    if crate::code_gen::all_supported(prog) {
                        r matches Ok(text) && text@ == crate::code_gen::gen_program(prog)
                    } else {
                        r == Result::<String, TranslateError>::Err(
                            TranslateError::CodeGen(
                                crate::code_gen::CodeGenError::UnsupportedPrintExpr,
                            ),
                        )
                    }
                },
            },
        },
{
    let tokens = match crate::lexer::lex(source) {
        Ok(ts) => ts,
        Err(e) => {
            return Err(TranslateError::Lex(e));
        },
    };
    let token_slice = tokens.as_slice();
    proof {
        assert(token_slice.deep_view() =~= tokens.deep_view());
    }
    let program = match crate::parser::parse(token_slice) {
        Ok(p) => p,
        Err(e) => {
            return Err(TranslateError::Parse(e));
        },
    };
    let program_slice = program.as_slice();
    proof {
        assert(program_slice.deep_view() =~= program.deep_view());
    }
    match crate::code_gen::generate_code(program_slice) {
        Ok(text) => Ok(text),
        Err(e) => Err(TranslateError::CodeGen(e)),
    }
}

} // verus!
