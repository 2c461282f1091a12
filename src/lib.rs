//! An in-memory key-value server core: a streaming decoder for a
//! length-delimited request protocol, a lazily expiring store, and the
//! per-connection session logic that ties them together.

pub mod client_input;
pub mod command;
pub mod decimal;
pub mod parser;
pub mod response_helper;
pub mod round_trip;
pub mod store;

use vstd::prelude::*;

use crate::parser::{ParseError, RespValue};
use crate::response_helper::{encode_value, send_error_response};

verus! {

/// What ends or interrupts the handling of one read from a connection.
#[derive(Debug, PartialEq)]
pub enum AppError {
    ConnectionClosed(String),
    ParseError(String),
    IncompleteInput(String),
    Error(String),
}

/// `a` is how the connection reports the decode failure `e`: running out of
/// bytes, mid-value or mid-line, means waiting for more; the rest is a
/// malformed frame.
pub open spec fn reports(a: AppError, e: ParseError) -> bool {
    match e {
        ParseError::InvalidInput => a matches AppError::ParseError(m) && m@ == "Invalid input"@,
        ParseError::UnrecognisedSymbol => a matches AppError::ParseError(m) && m@
            == "Unrecognised symbol"@,
        ParseError::CRLFNotFound => a matches AppError::IncompleteInput(m) && m@
            == "CRLF is not found"@,
        ParseError::IncompleteInput => a matches AppError::IncompleteInput(m) && m@
            == "Incomplete input"@,
    }
}

impl AppError {
    /// The connection-level report of a decode failure.
    pub fn from(e: ParseError) -> (r: AppError)
        ensures
            reports(r, e),
    {
        match e {
            ParseError::InvalidInput => AppError::ParseError(String::from_str("Invalid input")),
            ParseError::CRLFNotFound => AppError::IncompleteInput(
                String::from_str("CRLF is not found"),
            ),
            ParseError::UnrecognisedSymbol => AppError::ParseError(
                String::from_str("Unrecognised symbol"),
            ),
            ParseError::IncompleteInput => AppError::IncompleteInput(
                String::from_str("Incomplete input"),
            ),
        }
    }
}

/// What a connection does after a read that did not complete a request.
#[derive(Debug, PartialEq)]
pub enum ConnectionStep {
    /// Keep the buffered bytes and wait for the next read.
    WaitForMore,
    /// Send these bytes, on a best-effort basis, then close.
    ReplyAndClose(Vec<u8>),
    /// Close without a reply.
    Close,
}

impl AppError {
    /// The step a connection takes on this error: an unfinished frame waits
    /// for more bytes, a malformed one is answered with an error reply before
    /// closing, and a closed or failed transport is left without a reply.
    pub fn next_step(&self) -> (r: ConnectionStep)
        ensures
            match self {
                AppError::IncompleteInput(_) => r == ConnectionStep::WaitForMore,
                AppError::ParseError(m) => r matches ConnectionStep::ReplyAndClose(b) && b@
                    == encode_value(RespValue::Error(m@)),
                AppError::ConnectionClosed(_) => r == ConnectionStep::Close,
                AppError::Error(_) => r == ConnectionStep::Close,
            },
    {
        match self {
            AppError::IncompleteInput(_) => ConnectionStep::WaitForMore,
            AppError::ParseError(m) => ConnectionStep::ReplyAndClose(
                send_error_response(m.as_str()),
            ),
            AppError::ConnectionClosed(_) => ConnectionStep::Close,
            AppError::Error(_) => ConnectionStep::Close,
        }
    }
}

} // verus!
