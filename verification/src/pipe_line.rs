//! A one-shot line exchange with a named pipe: connect once, write one line, read
//! until the server closes the pipe. Its failures carry less detail than those of
//! [`crate::namedpipe::NamedPipeError`]: a failed step is not named.
use vstd::prelude::*;

use crate::namedpipe::PipeRequest;

verus! {

/// Why a one-shot line exchange failed.
#[derive(Debug)]
pub enum NamedPipeError {
    /// The pipe at this address could not be opened.
    NoConnection(String),
    /// Writing, flushing or reading failed.
    CommunicationError,
    /// No connection could be made in time.
    Timeout,
}

/// The text of an error of the one-shot exchange.
pub open spec fn line_error_text(e: NamedPipeError) -> Seq<char> {
    match e {
        NamedPipeError::NoConnection(a) => "NoConnection '"@ + a@ + "'"@,
        NamedPipeError::CommunicationError => "NoConnectionErr"@,
        NamedPipeError::Timeout => "Timeout"@,
    }
}

impl NamedPipeError {
    /// The text of the error, as it is shown to the user.
    pub fn message(&self) -> (r: String)
        ensures
            r@ == line_error_text(*self),
    {
        let mut r = String::new();
        match self {
            NamedPipeError::NoConnection(a) => {
                r.append("NoConnection '");
                r.append(a.as_str());
                r.append("'");
            },
            NamedPipeError::CommunicationError => {
                r.append("NoConnectionErr");
            },
            NamedPipeError::Timeout => {
                r.append("Timeout");
            },
        }
        r
    }
}

/// The steps of a one-shot exchange that can fail.
#[derive(Debug, Clone, Copy, PartialEq, Eq, Structural)]
pub enum LineStep {
    Connect,
    Write,
    Flush,
    Read,
}

/// The error a failed step reports: a failed connection names the pipe's address,
/// any other failed step is a communication error.
pub open spec fn step_error(step: LineStep, address: Seq<char>) -> Seq<char> {
    match step {
        LineStep::Connect => "NoConnection '"@ + address + "'"@,
        _ => "NoConnectionErr"@,
    }
}

/// The error that a failed step of the exchange for `req` reports.
pub fn failure(req: &PipeRequest, step: LineStep) -> (e: NamedPipeError)
    ensures
        line_error_text(e) == step_error(step, req.address@),
        step == LineStep::Connect ==> e == NamedPipeError::NoConnection(req.address),
        step != LineStep::Connect ==> e == NamedPipeError::CommunicationError,
{
    match step {
        LineStep::Connect => NamedPipeError::NoConnection(req.address.clone()),
        _ => NamedPipeError::CommunicationError,
    }
}

} // verus!
