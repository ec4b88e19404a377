//! The whole conversion pipeline on source text: tokenize, parse,
//! validate. Reading the input file and writing the generated output are
//! the caller's business; this module is a pure function from text to a
//! validated tree.

use vstd::prelude::*;

use crate::ast::{spec_check_syntax, Ast, AstModel};
use crate::lexer::{lexical_analyzer, spec_tokenize, LexerError};
use crate::syntax::{spec_parse, SyntaxError, SyntaxErrorModel};

verus! {

/// Errors of the conversion pipeline: the lexical stage's or the
/// structural stage's.
#[derive(Debug)]
pub enum ConverterError {
    Parse(LexerError),
    Syntax(SyntaxError),
}

/// Mathematical model of a conversion error.
pub ghost enum ConverterErrorModel {
    Parse(LexerError),
    Syntax(SyntaxErrorModel),
}

impl View for ConverterError {
    type V = ConverterErrorModel;

    open spec fn view(&self) -> ConverterErrorModel {
        match self {
            ConverterError::Parse(e) => ConverterErrorModel::Parse(*e),
            ConverterError::Syntax(e) => ConverterErrorModel::Syntax(e@),
        }
    }
}

/// The validated tree of a source text, or the first error of the
/// pipeline: lexing, then parsing, then validation, which must accept the
/// parsed tree.
pub open spec fn spec_convert(text: Seq<char>) -> Result<AstModel, ConverterErrorModel> {
    match spec_tokenize(text) {
        Err(e) => Err(ConverterErrorModel::Parse(e)),
        Ok(ts) => match spec_parse(ts) {
            Err(e) => Err(ConverterErrorModel::Syntax(e)),
            Ok(m) => {
                if spec_check_syntax(m) {
                    Ok(m)
                } else {
                    Err(ConverterErrorModel::Syntax(SyntaxErrorModel::CorrectSyntax))
                }
            },
        },
    }
}

/// Executable conversion outcome `r` agrees with the specification's `s`.
pub open spec fn convert_matches(
    r: Result<Ast, ConverterError>,
    s: Result<AstModel, ConverterErrorModel>,
) -> bool {
    match (r, s) {
        (Ok(a), Ok(m)) => a@ == m,
        (Err(e), Err(em)) => e@ == em,
        _ => false,
    }
}

/// Converts one source text into its validated tree.
pub fn convert_content(content: String) -> (r: Result<Ast, ConverterError>)
    ensures
        convert_matches(r, spec_convert(content@)),
{
    let tokens = match lexical_analyzer(content) {
        Ok(tokens) => tokens,
        Err(e) => {
            return Err(ConverterError::Parse(e));
        },
    };
    let ast = match tokens.parse() {
        Ok(ast) => ast,
        Err(e) => {
            return Err(ConverterError::Syntax(e));
        },
    };
    if !ast.check_syntax() {
        return Err(ConverterError::Syntax(SyntaxError::CorrectSyntax));
    }
    Ok(ast)
}

} // verus!
