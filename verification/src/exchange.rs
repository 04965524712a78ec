//! One exchange of a token with the job server.
//!
//! A client takes one token and gives it straight back. Reading and writing
//! are the caller's work; what is decided here is whether there is anything
//! to exchange, how many bytes make a token, whether a read delivered one,
//! what is written back, and whether the write returned it.
//!
//! The order is fixed by the types. [`begin`] yields an [`Endpoint`] only for
//! a transport that can be used. [`Endpoint::acquired`] yields a [`Token`]
//! only for a read that delivered a whole token, and [`Token::released`] takes
//! that token away again. So nothing is written back unless it was read
//! before, and what is written back is what was read.
//!
//! A token on a named pipe is two bytes, so that servers that hand out one
//! byte and servers that hand out two are both served. A token on a pair of
//! descriptors is one byte.

use crate::style::{JobServerStyle, Transport};
use vstd::prelude::*;

verus! {

/// Why an exchange came to nothing.
#[derive(Debug, Clone, Copy, PartialEq, Eq, Structural)]
pub enum ExchangeError {
    /// The transport is a semaphore, which this client does not speak.
    Unimplemented,
    /// The read failed or delivered fewer bytes than a token has.
    AcquireFailed,
    /// The write failed or took fewer bytes than the token has.
    ReleaseFailed,
}

/// Where tokens are read from and written back to.
#[derive(Debug, Clone, Copy, PartialEq)]
pub enum Endpoint<'a> {
    /// The pipe at this path. It is there already, and is opened for reading
    /// and writing without being created.
    NamedPipe(&'a str),
    /// Two open descriptors: tokens are read from the first and written back
    /// to the second.
    Descriptors(i32, i32),
}

impl<'a> View for Endpoint<'a> {
    type V = Transport;

    open spec fn view(&self) -> Transport {
        match *self {
            Endpoint::NamedPipe(path) => Transport::NamedPipe(path@),
            Endpoint::Descriptors(read, write) => Transport::DescriptorPair(
                read as int,
                write as int,
            ),
        }
    }
}

/// The number of bytes that make a token on `transport`: two on a named pipe,
/// one on a pair of descriptors, none on a semaphore.
pub open spec fn token_unit(transport: Transport) -> nat {
    match transport {
        Transport::NamedPipe(_) => 2,
        Transport::DescriptorPair(_, _) => 1,
        Transport::Semaphore => 0,
    }
}

/// Whether tokens can be exchanged over `transport`: always over a named
/// pipe, over two descriptors if neither is negative, never over a semaphore.
pub open spec fn usable(transport: Transport) -> bool {
    match transport {
        Transport::NamedPipe(_) => true,
        Transport::DescriptorPair(read, write) => read >= 0 && write >= 0,
        Transport::Semaphore => false,
    }
}

/// How an exchange over `transport` begins: with an error for a semaphore,
/// with nothing to do where the transport cannot be used, else at the
/// transport itself.
pub open spec fn opening(transport: Transport) -> Result<Option<Transport>, ExchangeError> {
    if transport is Semaphore {
        Err(ExchangeError::Unimplemented)
    } else if usable(transport) {
        Ok(Some(transport))
    } else {
        Ok(None)
    }
}

/// The token that a read on `transport` yields. `read` is `None` for a read
/// that failed, else the bytes that it delivered: they are the token if they
/// are as many as a token has.
pub open spec fn acquisition(transport: Transport, read: Option<Seq<u8>>) -> Result<
    Seq<u8>,
    ExchangeError,
> {
    match read {
        Some(bytes) => if bytes.len() == token_unit(transport) {
            Ok(bytes)
        } else {
            Err(ExchangeError::AcquireFailed)
        },
        None => Err(ExchangeError::AcquireFailed),
    }
}

/// What writing `token` back comes to. `written` is `None` for a write that
/// failed, else the number of bytes that it took: the token is returned if
/// that is all of them.
pub open spec fn release(token: Seq<u8>, written: Option<usize>) -> Result<Seq<u8>, ExchangeError> {
    match written {
        Some(n) => if n == token.len() {
            Ok(token)
        } else {
            Err(ExchangeError::ReleaseFailed)
        },
        None => Err(ExchangeError::ReleaseFailed),
    }
}

/// The bytes that a read delivered, as a sequence.
pub open spec fn delivered(read: Option<Vec<u8>>) -> Option<Seq<u8>> {
    match read {
        Some(bytes) => Some(bytes@),
        None => None,
    }
}

/// Two descriptors of which either is negative are skipped: nothing is
/// exchanged, and that is no error.
pub proof fn law_negative_descriptor_skips(read: int, write: int)
    requires
        read < 0 || write < 0,
    ensures
        opening(Transport::DescriptorPair(read, write)) == Ok::<Option<Transport>, ExchangeError>(
            None,
        ),
{
}

/// What is written back is what was read, unchanged: a read that delivers a
/// whole token makes exactly those bytes the token, and a write that takes
/// all of them returns exactly those bytes.
pub proof fn law_round_trip(transport: Transport, bytes: Seq<u8>)
    requires
        bytes.len() == token_unit(transport),
    ensures
        acquisition(transport, Some(bytes)) == Ok::<Seq<u8>, ExchangeError>(bytes),
        release(bytes, Some(bytes.len() as usize)) == Ok::<Seq<u8>, ExchangeError>(bytes),
{
}

/// A read that failed or fell short leaves nothing to write back.
pub proof fn law_no_release_without_token(transport: Transport, read: Option<Seq<u8>>)
    requires
        read matches Some(bytes) ==> bytes.len() != token_unit(transport),
    ensures
        acquisition(transport, read) == Err::<Seq<u8>, ExchangeError>(ExchangeError::AcquireFailed),
{
}

/// Decides how an exchange over `style` begins.
///
/// A semaphore is refused. Two descriptors of which one is negative mean that
/// the job server cannot be used: that is no error, there is just nothing to
/// exchange, and the result is `Ok(None)`. Every other transport yields the
/// endpoint to read from.
pub fn begin<'a>(style: &JobServerStyle<'a>) -> (r: Result<Option<Endpoint<'a>>, ExchangeError>)
    ensures
        match r {
            Ok(Some(endpoint)) => opening(style@) == Ok::<Option<Transport>, ExchangeError>(
                Some(endpoint@),
            ),
            Ok(None) => opening(style@) == Ok::<Option<Transport>, ExchangeError>(None),
            Err(error) => opening(style@) == Err::<Option<Transport>, ExchangeError>(error),
        },
        style@ matches Transport::DescriptorPair(read, write) && (read < 0 || write < 0) ==> r
            == Ok::<Option<Endpoint<'a>>, ExchangeError>(None),
{
    match *style {
        JobServerStyle::Fifo(path) => Ok(Some(Endpoint::NamedPipe(path))),
        JobServerStyle::Pipe(read, write) => {
            if read < 0 || write < 0 {
                Ok(None)
            } else {
                Ok(Some(Endpoint::Descriptors(read, write)))
            }
        },
        JobServerStyle::Sem => Err(ExchangeError::Unimplemented),
    }
}

/// A token that was read and is not yet written back.
#[derive(Debug, PartialEq)]
pub struct Token {
    bytes: Vec<u8>,
}

impl View for Token {
    type V = Seq<u8>;

    closed spec fn view(&self) -> Seq<u8> {
        self.bytes@
    }
}

impl<'a> Endpoint<'a> {
    /// The number of bytes to read for one token.
    pub fn token_len(&self) -> (n: usize)
        ensures
            n == token_unit(self@),
    {
        match self {
            Endpoint::NamedPipe(_) => 2,
            Endpoint::Descriptors(_, _) => 1,
        }
    }

    /// Takes what the read delivered: `None` if it failed, else the bytes
    /// that it read. Exactly the bytes of one token make a token; anything
    /// else fails the acquire, and nothing is there to write back.
    pub fn acquired(&self, read: Option<Vec<u8>>) -> (r: Result<Token, ExchangeError>)
        ensures
            match r {
                Ok(token) => acquisition(self@, delivered(read)) == Ok::<Seq<u8>, ExchangeError>(
                    token@,
                ),
                Err(error) => acquisition(self@, delivered(read)) == Err::<Seq<u8>, ExchangeError>(
                    error,
                ),
            },
    {
        match read {
            Some(bytes) => {
                if bytes.len() == self.token_len() {
                    Ok(Token { bytes })
                } else {
                    Err(ExchangeError::AcquireFailed)
                }
            },
            None => Err(ExchangeError::AcquireFailed),
        }
    }
}

impl Token {
    /// The bytes to write back: those that were read, unchanged.
    pub fn bytes(&self) -> (bytes: &[u8])
        ensures
            bytes@ == self@,
    {
        self.bytes.as_slice()
    }

    /// The token's bytes as characters, byte by byte, for showing them.
    pub fn display(&self) -> (shown: Vec<char>)
        ensures
            shown@ == self@.map_values(|byte: u8| byte as char),
    {
        let mut shown: Vec<char> = Vec::new();
        let mut i: usize = 0;
        while i < self.bytes.len()
            invariant
                i <= self.bytes@.len(),
                shown@ == self.bytes@.take(i as int).map_values(|byte: u8| byte as char),
            decreases self.bytes@.len() - i,
        {
            shown.push(self.bytes[i] as char);
            i += 1;
        }
        assert(self.bytes@.take(i as int) == self.bytes@);
        shown
    }

    /// Takes what the write returned: `None` if it failed, else the number
    /// of bytes that it wrote. The token is given back if all of it was
    /// written; then the result is the bytes that were exchanged.
    pub fn released(self, written: Option<usize>) -> (r: Result<Vec<u8>, ExchangeError>)
        ensures
            match r {
                Ok(bytes) => release(self@, written) == Ok::<Seq<u8>, ExchangeError>(bytes@),
                Err(error) => release(self@, written) == Err::<Seq<u8>, ExchangeError>(error),
            },
    {
        match written {
            Some(n) => {
                if n == self.bytes.len() {
                    Ok(self.bytes)
                } else {
                    Err(ExchangeError::ReleaseFailed)
                }
            },
            None => Err(ExchangeError::ReleaseFailed),
        }
    }
}

} // verus!
