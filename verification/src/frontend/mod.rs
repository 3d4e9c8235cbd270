pub mod ast;
pub mod errors;
pub mod lexer;
pub mod typeast;
pub mod parser;
pub mod typecheck;

use vstd::prelude::*;

use crate::frontend::ast::{Program, TopLevel};
use crate::frontend::errors::FrontendError;
use crate::frontend::lexer::{skip_white, token_error_at, Lexer};
use crate::frontend::parser::{
    ends_after, lemma_ends_step, lemma_follow_step, struct_decl_tokens, tokens_follow, Parser,
};
use crate::frontend::typecheck::type_program;
use crate::frontend::typeast::TypeDef;

verus! {

/// Reads, parses and type-checks the source `input` of the file `filename`.
pub fn parse(input: String, filename: String) -> (r: Result<Program, FrontendError>)
    ensures
        r matches Ok(p) ==> forall|i: int| 0 <= i < p.items@.len() ==> match #[trigger] p.items@[i] {
            TopLevel::Function(f) => f.data.node_type == Some(TypeDef::Void),
            TopLevel::Var(v) => v.data.node_type == Some(TypeDef::Void),
            TopLevel::Structure(_) => true,
        },
        skip_white(input@, 0) >= input@.len() ==> (r matches Ok(p) && p.items@.len() == 0),
        tokens_follow(input@, 0, struct_decl_tokens()) && ends_after(input@, 0, 3) ==> (r matches Ok(p)
            && p.items@.len() == 1),
        ({
            let st = skip_white(input@, 0);
            st < input@.len() ==> (token_error_at(input@, st) matches Some(e) ==> r == Err::<Program, FrontendError>(
                FrontendError::Lexer(e),
            ))
        }),
{
    let lex = Lexer::new(filename, input);
    let mut parser = match Parser::new(lex) {
        Ok(p) => p,
        Err(e) => return Err(e),
    };
    proof {
        if tokens_follow(input@, 0, struct_decl_tokens()) && ends_after(input@, 0, 3) {
            lemma_follow_step(input@, 0, struct_decl_tokens(), parser.curr_tok.tok, parser.lexer.pos());
            lemma_ends_step(input@, 0, 3, parser.curr_tok.tok, parser.lexer.pos());
            assert(parser.at_tokens(struct_decl_tokens()));
        }
    }
    let mut program = match parser.parse() {
        Ok(p) => p,
        Err(e) => return Err(e),
    };
    match type_program(&mut program) {
        Ok(()) => Ok(program),
        Err(e) => Err(e),
    }
}

} // verus!
