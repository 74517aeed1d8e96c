//! Errors of the relay.

use vstd::prelude::*;
use crate::ids::{hyphenated, id_to_text};
use crate::text::{decimal, joined, push_decimal};

verus! {

/// What can go wrong on a stream or a session.
#[derive(Debug)]
pub enum QueLayError {
    /// The transport failed; the text says how.
    Transport(String),
    /// The remote side reset the stream.
    StreamReset { code: u64 },
    /// The stream was finished before.
    AlreadyFinished,
    /// The session is closed.
    SessionClosed,
    /// No stream of that identity is known.
    StreamNotFound(u128),
    /// An I/O operation failed; the text says how.
    Io(String),
}

impl QueLayError {
    /// The message shown for the error.
    pub open spec fn text(self) -> Seq<char> {
        match self {
            QueLayError::Transport(t) => "transport error: "@ + t@,
            QueLayError::StreamReset { code } => "stream reset by remote (code "@ + decimal(
                code as nat,
            ) + ")"@,
            QueLayError::AlreadyFinished => "stream already finished"@,
            QueLayError::SessionClosed => "session closed"@,
            QueLayError::StreamNotFound(id) => "stream not found: "@ + hyphenated(id),
            QueLayError::Io(t) => "io error: "@ + t@,
        }
    }

    /// The message shown for the error.
    pub fn message(&self) -> (r: String)
        ensures
            r@ == self.text(),
    {
        match self {
            QueLayError::Transport(t) => joined("transport error: ", t.as_str()),
            QueLayError::StreamReset { code } => {
                let mut s: String = "stream reset by remote (code ".to_owned();
                push_decimal(&mut s, *code);
                s.append(")");
                s
            },
            QueLayError::AlreadyFinished => "stream already finished".to_owned(),
            QueLayError::SessionClosed => "session closed".to_owned(),
            QueLayError::StreamNotFound(id) => joined("stream not found: ", id_to_text(*id).as_str()),
            QueLayError::Io(t) => joined("io error: ", t.as_str()),
        }
    }
}

} // verus!
