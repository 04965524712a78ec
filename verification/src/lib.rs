//! The client's side of the GNU make job server.
//!
//! A job server hands out tokens to the processes of one build, so that all
//! of them together run no more jobs than the build was given. It announces
//! itself in a coordination string, the value of `MAKEFLAGS`.
//!
//! [`resolver`] finds in that string the transport over which tokens travel,
//! and [`exchange`] decides the steps of taking one token and giving it back.
//! [`text`] and [`decimal`] hold the searching and the number parsing that the
//! resolver is built from, and [`style`] the transports and errors.

pub mod decimal;
pub mod exchange;
pub mod resolver;
pub mod style;
pub mod text;

pub use exchange::{begin, Endpoint, ExchangeError, Token};
pub use resolver::{names_jobserver, parse_jobserver_auth};
pub use style::{JobServerStyle, ParseJobserverAuthError};
