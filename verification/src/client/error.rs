//! Errors of the client.

use vstd::prelude::*;
use vstd::string::*;

use crate::text::{append_decimal, decimal};

verus! {

/// What can go wrong with a request.
#[derive(Debug, Clone, PartialEq, Eq)]
pub enum ClientError {
    Transport(String),
    /// The server answered with a status that is no success.
    Server { status: u16, body: String },
    /// The response is not the JSON that was expected.
    Parse(String),
    Cancelled,
    Runtime(String),
    InvalidUrl(String),
}

impl ClientError {
    /// The text of the error.
    pub open spec fn text(self) -> Seq<char> {
        match self {
            ClientError::Transport(e) => "HTTP transport error: "@ + e@,
            ClientError::Server { status, body } => "server returned HTTP "@ + decimal(
                status as nat,
            ) + ": "@ + body@,
            ClientError::Parse(e) => "failed to parse response JSON: "@ + e@,
            ClientError::Cancelled => "request was cancelled"@,
            ClientError::Runtime(e) => "runtime error: "@ + e@,
            ClientError::InvalidUrl(e) => "invalid URL: "@ + e@,
        }
    }

    /// The error as text.
    pub fn message(&self) -> (s: String)
        ensures
            s@ == self.text(),
    {
        let mut s: String = String::new();
        match self {
            ClientError::Transport(e) => {
                s = String::from_str("HTTP transport error: ");
                s.append(e.as_str());
            },
            ClientError::Server { status, body } => {
                s = String::from_str("server returned HTTP ");
                append_decimal(&mut s, *status as u128);
                s.append(": ");
                s.append(body.as_str());
            },
            ClientError::Parse(e) => {
                s = String::from_str("failed to parse response JSON: ");
                s.append(e.as_str());
            },
            ClientError::Cancelled => {
                s = String::from_str("request was cancelled");
            },
            ClientError::Runtime(e) => {
                s = String::from_str("runtime error: ");
                s.append(e.as_str());
            },
            ClientError::InvalidUrl(e) => {
                s = String::from_str("invalid URL: ");
                s.append(e.as_str());
            },
        }
        s
    }
}

} // verus!
