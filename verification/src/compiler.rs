//! The front end: from source text to a chunk.

use crate::chunk::{Chunk, Op};
use crate::lexer::{Cursor, Token, Tokens};
use crate::vm::InterpretError;
use vstd::prelude::*;

verus! {

/// What a parser holds: where its tokenizer stands, whether an error was met,
/// and whether it is recovering from one.
pub struct ParserView {
    pub tokens: Cursor,
    pub had_error: bool,
    pub panicking: bool,
}

/// Reads tokens and keeps account of the errors met.
pub struct Parser<'source> {
    tokens: Tokens<'source>,
    had_error: bool,
    panicking: bool,
}

impl<'source> View for Parser<'source> {
    type V = ParserView;

    closed spec fn view(&self) -> ParserView {
        ParserView {
            tokens: self.tokens@,
            had_error: self.had_error,
            panicking: self.panicking,
        }
    }
}

/// Compiles `source`. Every token of the source is read and handed to
/// `expression`; no source is accepted as a program, so the result is always a
/// compile error.
pub fn compile(source: &str) -> (result: Result<Chunk, InterpretError>)
    ensures
        result is Err,
        result->Err_0 == InterpretError::Compile,
{
    let mut tokens = Tokens::from(source);
    loop
        invariant
            tokens@.text == source@,
            0 <= tokens@.current <= source@.len(),
        decreases source@.len() - tokens@.current,
    {
        match tokens.next() {
            Some(token) => {
                expression(token);
            },
            None => {
                break ;
            },
        }
    }
    Err(InterpretError::Compile)
}

/// Takes one token of an expression. It emits no instruction.
pub fn expression(token: Token) {
}

impl<'source> Parser<'source> {
    /// A parser that reads from `tokens`, with no error met.
    pub fn new(tokens: Tokens<'source>) -> (parser: Parser<'source>)
        ensures
            parser@ == (ParserView { tokens: tokens@, had_error: false, panicking: false }),
    {
        Parser { tokens, had_error: false, panicking: false }
    }

    /// Notes an error, and tells whether it is to be reported: an error met while
    /// the parser recovers from an earlier one is not.
    pub fn error(&mut self) -> (report: bool)
        ensures
            final(self)@ == (ParserView { had_error: true, ..old(self)@ }),
            report == !old(self)@.panicking,
    {
        self.had_error = true;
        !self.panicking
    }

    /// The next instruction of the program: always a `Return`.
    pub fn next(&mut self) -> (op: Option<Op>)
        ensures
            final(self)@ == old(self)@,
            op == Some(Op::Return),
    {
        Some(Op::Return)
    }
}

} // verus!
