//! Errors reported by the compiler.

use vstd::prelude::*;
use crate::lexer::Position;
use crate::text::{decimal_text, push_decimal, push_str, push_string};

verus! {

/// The errors that compilation can report.
#[derive(Debug, Clone)]
#[allow(inconsistent_fields)]
pub enum CompileError {
    /// Lexical analysis error
    LexError { message: String, position: Position },
    /// Parsing error
    ParseError { message: String, position: Position },
    /// Type checking error
    TypeError { message: String, position: Position },
    /// Code generation error
    CodeGenError { message: String, position: Option<Position> },
    /// Memory exhaustion error
    MemoryExhausted { phase: String, details: String },
}

impl CompileError {
    /// A copy of the error, equal to it.
    pub fn duplicate(&self) -> (e: Self)
        ensures
            e == *self,
    {
        match self {
            CompileError::LexError { message, position } => CompileError::LexError {
                message: message.clone(),
                position: *position,
            },
            CompileError::ParseError { message, position } => CompileError::ParseError {
                message: message.clone(),
                position: *position,
            },
            CompileError::TypeError { message, position } => CompileError::TypeError {
                message: message.clone(),
                position: *position,
            },
            CompileError::CodeGenError { message, position } => CompileError::CodeGenError {
                message: message.clone(),
                position: *position,
            },
            CompileError::MemoryExhausted { phase, details } => CompileError::MemoryExhausted {
                phase: phase.clone(),
                details: details.clone(),
            },
        }
    }

    /// Creates a lexical error.
    pub fn lex_error(message: String, position: Position) -> (e: Self)
        ensures
            e == (CompileError::LexError { message, position }),
    {
        CompileError::LexError { message, position }
    }

    /// Creates a parsing error.
    pub fn parse_error(message: String, position: Position) -> (e: Self)
        ensures
            e == (CompileError::ParseError { message, position }),
    {
        CompileError::ParseError { message, position }
    }

    /// Creates a type error.
    pub fn type_error(message: String, position: Position) -> (e: Self)
        ensures
            e == (CompileError::TypeError { message, position }),
    {
        CompileError::TypeError { message, position }
    }

    /// Creates a code generation error.
    pub fn codegen_error(message: String, position: Option<Position>) -> (e: Self)
        ensures
            e == (CompileError::CodeGenError { message, position }),
    {
        CompileError::CodeGenError { message, position }
    }

    /// Creates a memory exhaustion error.
    pub fn memory_exhausted(phase: String, details: String) -> (e: Self)
        ensures
            e == (CompileError::MemoryExhausted { phase, details }),
    {
        CompileError::MemoryExhausted { phase, details }
    }
}

/// Where an error is, as `line:column`.
pub open spec fn at_text(p: Position) -> Seq<char> {
    decimal_text(p.line as nat) + ":"@ + decimal_text(p.column as nat)
}

/// How an error is written out.
pub open spec fn error_text(e: CompileError) -> Seq<char> {
    match e {
        CompileError::LexError { message, position } => "Lexical error at "@ + at_text(position)
            + ": "@ + message@,
        CompileError::ParseError { message, position } => "Parse error at "@ + at_text(position)
            + ": "@ + message@,
        CompileError::TypeError { message, position } => "Type error at "@ + at_text(position)
            + ": "@ + message@,
        CompileError::CodeGenError { message, position } => match position {
            Some(p) => "Code generation error at "@ + at_text(p) + ": "@ + message@,
            None => "Code generation error: "@ + message@,
        },
        CompileError::MemoryExhausted { phase, details } => "Memory exhausted during "@ + phase@
            + ": "@ + details@,
    }
}

/// Appends `line:column`.
fn push_at(s: &mut String, p: &Position)
    ensures
        final(s)@ == old(s)@ + at_text(*p),
{
    push_decimal(s, p.line as u64);
    push_str(s, ":");
    push_decimal(s, p.column as u64);
    proof {
        reveal_strlit(":");
        assert(final(s)@ =~= old(s)@ + at_text(*p));
    }
}

impl CompileError {
    /// How the error is written out (see [`error_text`]).
    pub fn to_string(&self) -> (s: String)
        ensures
            s@ == error_text(*self),
    {
        let mut s = String::new();
        proof {
            reveal_strlit("Lexical error at ");
            reveal_strlit("Parse error at ");
            reveal_strlit("Type error at ");
            reveal_strlit("Code generation error at ");
            reveal_strlit("Code generation error: ");
            reveal_strlit("Memory exhausted during ");
            reveal_strlit(": ");
        }
        match self {
            CompileError::LexError { message, position } => {
                push_str(&mut s, "Lexical error at ");
                push_at(&mut s, position);
                push_str(&mut s, ": ");
                push_string(&mut s, message);
            },
            CompileError::ParseError { message, position } => {
                push_str(&mut s, "Parse error at ");
                push_at(&mut s, position);
                push_str(&mut s, ": ");
                push_string(&mut s, message);
            },
            CompileError::TypeError { message, position } => {
                push_str(&mut s, "Type error at ");
                push_at(&mut s, position);
                push_str(&mut s, ": ");
                push_string(&mut s, message);
            },
            CompileError::CodeGenError { message, position } => {
                match position {
                    Some(p) => {
                        push_str(&mut s, "Code generation error at ");
                        push_at(&mut s, p);
                        push_str(&mut s, ": ");
                        push_string(&mut s, message);
                    },
                    None => {
                        push_str(&mut s, "Code generation error: ");
                        push_string(&mut s, message);
                    },
                }
            },
            CompileError::MemoryExhausted { phase, details } => {
                push_str(&mut s, "Memory exhausted during ");
                push_string(&mut s, phase);
                push_str(&mut s, ": ");
                push_string(&mut s, details);
            },
        }
        s
    }
}

} // verus!
