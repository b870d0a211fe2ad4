//! Eä compiler core: lexical analysis, parsing, memory analysis, compilation caches and
//! dependency ordering, each function with a proved contract.

use vstd::prelude::*;
use crate::error::CompileError;
use crate::ast::Stmt;
use crate::lexer::{byte_len, lemma_tokens_end_with_eof, step_agrees, steps, tokens_agree, LexState, Lexer, Token};
use crate::parser::Parser;
use crate::parser::grammar::{program_count, program_end, program_tree, statement_well_bracketed};

pub mod ast;
pub mod dependency_order;
pub mod error;
pub mod execution_mode;
pub mod hashing;
pub mod incremental_compilation;
pub mod jit_cache;
pub mod lexer;
pub mod text;
pub mod memory;
pub mod memory_profiler;
pub mod package;
pub mod name_map;
pub mod parallel_compilation;
pub mod parser;
pub mod parser_optimization;

verus! {

/// Compiler version information
pub const VERSION: &'static str = "0.1.0";

/// The compiler's name.
pub const NAME: &'static str = "Eä Compiler";

/// The tokens of `source` from its start, the end-of-input token last; or the
/// first lexical error in it.
pub fn tokenize(source: &str) -> (r: Result<Vec<Token>, CompileError>)
    requires
        byte_len(source@) < usize::MAX,
    ensures
        tokens_agree(r, steps(source@, LexState { pos: 0, line: 1, column: 1 }), source@),
{
    let mut lexer = Lexer::new(source);
    lexer.tokenize_all()
}

/// Whether `ts` are the tokens of `source`: each agrees with its lexing step
/// (see [`steps`]), the lexing having met no error.
pub open spec fn lexed_as(ts: Seq<Token>, source: Seq<char>) -> bool {
    let ss = steps(source, LexState { pos: 0, line: 1, column: 1 });
    &&& !(ss.last() is Error)
    &&& ts.len() == ss.len()
    &&& forall|i: int| 0 <= i < ss.len() ==> step_agrees(Ok(#[trigger] ts[i]), ss[i], source)
}

/// Parses a program: its tokens, then its declarations (see
/// [`Parser::parse_program`]); the first lexical error if tokenizing fails. The
/// statements of a parsed program are well bracketed: every operation in them
/// follows the precedence table. Where the tokens of the source form
/// declarations up to the end (see [`program_end`]), at most a thousand, the
/// program is the declarations they give, in order (see [`program_tree`]).
pub fn parse(source: &str) -> (r: Result<Vec<Stmt>, CompileError>)
    requires
        byte_len(source@) < usize::MAX,
    ensures
        ({
            let ss = steps(source@, LexState { pos: 0, line: 1, column: 1 });
            &&& ss.last() is Error ==> (r matches Err(e) && step_agrees(Err(e), ss.last(), source@))
            &&& r matches Ok(statements) ==> {
                &&& !(ss.last() is Error)
                &&& statements@.len() <= 1000
                &&& forall|i: int|
                    0 <= i < statements@.len() ==> statement_well_bracketed(#[trigger] statements@[i])
            }
            &&& !(ss.last() is Error) ==> exists|ts: Seq<Token>| #[trigger]
                lexed_as(ts, source@) && (program_end(ts, 0) && program_count(ts, 0) <= 1000 ==> (
                r matches Ok(statements) && program_tree(ts, 0, statements@)))
        }),
{
    let tokens = tokenize(source)?;
    proof {
        lemma_tokens_end_with_eof(
            Ok(tokens),
            source@,
            LexState { pos: 0, line: 1, column: 1 },
        );
    }
    let ghost ts = tokens@;
    let mut parser = Parser::new(tokens);
    let r = parser.parse_program();
    proof {
        assert(lexed_as(ts, source@));
    }
    r
}

} // verus!
