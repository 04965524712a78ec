//! The transports of a job server, and the ways in which naming one can fail.

use vstd::prelude::*;

verus! {

/// How a job server hands out its tokens.
#[derive(Debug, PartialEq)]
pub enum JobServerStyle<'a> {
    /// A named pipe at this path, opened for reading and for writing.
    Fifo(&'a str),
    /// Two inherited file descriptors: the first to read tokens from, the
    /// second to write them back to. A negative descriptor is one that cannot
    /// be used.
    Pipe(i32, i32),
    /// A named semaphore. No token is ever exchanged over this transport.
    Sem,
}

/// The mathematical model of a [`JobServerStyle`].
pub enum Transport {
    NamedPipe(Seq<char>),
    DescriptorPair(int, int),
    Semaphore,
}

impl<'a> View for JobServerStyle<'a> {
    type V = Transport;

    open spec fn view(&self) -> Transport {
        match *self {
            JobServerStyle::Fifo(path) => Transport::NamedPipe(path@),
            JobServerStyle::Pipe(read, write) => Transport::DescriptorPair(
                read as int,
                write as int,
            ),
            JobServerStyle::Sem => Transport::Semaphore,
        }
    }
}

/// Why a coordination string names no transport.
#[derive(Debug, PartialEq)]
pub enum ParseJobserverAuthError {
    /// The string, kept whole, holds no transport that is recognised.
    InvalidJobServerAuth(String),
    /// The string announces two descriptors, but what follows is not two
    /// integers with one comma between them.
    InvalidPipeDescriptors,
}

/// The mathematical model of a [`ParseJobserverAuthError`].
pub enum ParseFailure {
    InvalidJobServerAuth(Seq<char>),
    InvalidPipeDescriptors,
}

impl View for ParseJobserverAuthError {
    type V = ParseFailure;

    open spec fn view(&self) -> ParseFailure {
        match self {
            ParseJobserverAuthError::InvalidJobServerAuth(text) => ParseFailure::InvalidJobServerAuth(
                text@,
            ),
            ParseJobserverAuthError::InvalidPipeDescriptors => ParseFailure::InvalidPipeDescriptors,
        }
    }
}

} // verus!
