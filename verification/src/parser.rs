//! The building blocks of generated parsers: a context that tracks a position
//! and names the parsed value's type, components that map a context to a value,
//! and parsers that produce the value.

pub mod stream;

use vstd::prelude::*;
use core::marker::PhantomData;

verus! {

/// Why parsing failed.
#[derive(Debug, PartialEq, Eq, Structural, Clone, Copy)]
pub enum ParserError {
    /// The input ended before the value was complete.
    UnexpectedEnd,
    /// The input does not describe a value of the expected kind.
    Malformed,
}

/// What a parser works on: a position in its input, and the type of the value
/// it parses.
pub trait Context {
    type Output;

    /// The current position in the input.
    fn pos(&self) -> usize;
}

/// A step of a parser: reads a value from the context, moving it on.
pub trait ParserComponents<C: Context> {
    fn map<R>(&self, context: &mut C) -> Result<R, ParserError>;
}

/// A parser of the context's value.
pub trait Parser<C: Context> {
    fn parse(&self) -> Result<C::Output, ParserError>;
}

/// A parser of binary input.
pub trait BinaryParser<C: Context>: Parser<C> {}

/// A builder of binary parsers for values of type `T`.
pub struct BinaryParserBuilder<T> {
    pub marker: PhantomData<T>,
}

} // verus!
