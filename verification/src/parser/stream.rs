//! Parsers over a stream of data: the stream's state is its position and
//! length.

use vstd::prelude::*;
use crate::parser::ParserError;

verus! {

/// The state of the data read: the current position.
pub trait DataState {
    fn pos(&self) -> usize;
}

/// The sizes of the values read from the input.
pub trait IO {
    /// The size in bytes of a value of type `T`.
    fn size<T>() -> (n: usize)
        ensures
            n as nat == vstd::layout::size_of::<T>(),
    {
        core::mem::size_of::<T>()
    }
}

/// Input of a known length at a position.
pub trait Context: DataState + IO {
    fn len(&self) -> usize;
}

/// A step of a parser: reads a value from the context, moving it on.
pub trait ParserComponents<C: Context> {
    fn map<R>(&self, context: &mut C) -> Result<R, ParserError>;
}

/// A parser.
pub trait Parser {}

} // verus!
