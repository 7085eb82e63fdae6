//! What can go wrong when a rune is looked for.

use vstd::prelude::*;

verus! {

/// A failure to find a rune, with the buffer it was looked for in.
#[derive(Debug, PartialEq, Eq)]
pub enum Error<'g> {
    /// The index lies beyond the end of the buffer.
    InvalidIndex(usize, &'g [u8]),
    /// The byte at the index is a continuation byte: the byte, the index,
    /// and the nearest boundaries before and after it, where there are any.
    UnexpectedContinuationByte(u8, usize, Option<usize>, Option<usize>, &'g [u8]),
    /// The bytes at the index do not decode.
    Utf8Error(usize, &'g [u8], String),
}

impl<'g> Clone for Error<'g> {
    fn clone(&self) -> (error: Error<'g>)
        ensures
            error == *self,
    {
        match self {
            Error::InvalidIndex(index, buffer) => Error::InvalidIndex(*index, buffer),
            Error::UnexpectedContinuationByte(byte, index, previous, next, buffer) => {
                Error::UnexpectedContinuationByte(*byte, *index, *previous, *next, buffer)
            },
            Error::Utf8Error(index, buffer, message) => Error::Utf8Error(
                *index,
                buffer,
                message.clone(),
            ),
        }
    }
}

impl<'g> Error<'g> {
    /// The nearest boundary before the failure, where the error holds one.
    pub open spec fn spec_previous_valid_cutoff(self) -> Option<usize> {
        match self {
            Error::UnexpectedContinuationByte(_, _, previous, _, _) => previous,
            _ => None,
        }
    }

    /// The nearest boundary after the failure, where the error holds one.
    pub open spec fn spec_next_valid_cutoff(self) -> Option<usize> {
        match self {
            Error::UnexpectedContinuationByte(_, _, _, next, _) => next,
            _ => None,
        }
    }

    /// The nearest boundary before the failure, where the error holds one.
    pub fn previous_valid_cutoff(&self) -> (previous: Option<usize>)
        ensures
            previous == self.spec_previous_valid_cutoff(),
    {
        match self {
            Error::InvalidIndex(_, _) => None,
            Error::UnexpectedContinuationByte(_, _, previous, _, _) => *previous,
            Error::Utf8Error(_, _, _) => None,
        }
    }

    /// The nearest boundary after the failure, where the error holds one.
    pub fn next_valid_cutoff(&self) -> (next: Option<usize>)
        ensures
            next == self.spec_next_valid_cutoff(),
    {
        match self {
            Error::InvalidIndex(_, _) => None,
            Error::UnexpectedContinuationByte(_, _, _, next, _) => *next,
            Error::Utf8Error(_, _, _) => None,
        }
    }
}

} // verus!
