//! What an error of the QUIC transport means for the streams above it.

use vstd::prelude::*;

use crate::error::QueLayError;
use crate::text::joined;

verus! {

/// Longest time without traffic before a connection counts as lost, in milliseconds.
pub const MAX_IDLE_TIMEOUT_MS: u64 = 300_000;

/// Congestion control of a connection.
#[derive(Debug, Clone, Copy, PartialEq, Eq, Structural)]
pub enum CongestionAlgo {
    /// Loss based.
    NewReno,
    /// Bandwidth and round-trip time based.
    Bbr,
    /// Loss based with cubic growth.
    Cubic,
}

impl Default for CongestionAlgo {
    fn default() -> (r: Self)
        ensures
            r == CongestionAlgo::NewReno,
    {
        CongestionAlgo::NewReno
    }
}

/// Why a write or a read of a stream failed.
#[derive(Debug, Clone, Copy, PartialEq, Eq, Structural)]
pub enum StreamFault {
    /// The connection is gone.
    ConnectionLost,
    /// The other side wants no more data, or gives up sending; with its code.
    Aborted(u64),
    /// The stream was closed on this side before.
    ClosedStream,
}

/// An error of the QUIC transport.
#[derive(Debug)]
pub enum QuicError {
    /// The endpoint could not be set up.
    Endpoint(String),
    /// No connection could be established.
    ConnectFailed(String),
    /// The connection was lost between stream operations.
    ConnectionLost(String),
    /// A write failed.
    WriteFailed(StreamFault, String),
    /// A read failed.
    ReadFailed(StreamFault, String),
    /// The stream was finished before.
    AlreadyFinished,
}

/// What is done about an error.
#[derive(Debug, Clone, Copy, PartialEq, Eq, Structural)]
pub enum Recovery {
    /// Go back to the first unacknowledged byte and reconnect.
    RewindAndReconnect,
    /// Reconnect.
    Reconnect,
    /// Give up the stream and tell the client; the connection stays.
    AbortStream,
    /// Try again after a delay.
    RetryWithBackoff,
    /// Give up.
    Fatal,
    /// Should not occur.
    LogicError,
}

impl QuicError {
    /// What is done about the error.
    pub open spec fn remedy(self) -> Recovery {
        match self {
            QuicError::Endpoint(_) => Recovery::Fatal,
            QuicError::ConnectFailed(_) => Recovery::RetryWithBackoff,
            QuicError::ConnectionLost(_) => Recovery::Reconnect,
            QuicError::WriteFailed(f, _) => match f {
                StreamFault::ConnectionLost => Recovery::RewindAndReconnect,
                StreamFault::Aborted(_) => Recovery::AbortStream,
                StreamFault::ClosedStream => Recovery::LogicError,
            },
            QuicError::ReadFailed(f, _) => match f {
                StreamFault::ConnectionLost => Recovery::Reconnect,
                StreamFault::Aborted(_) => Recovery::AbortStream,
                StreamFault::ClosedStream => Recovery::LogicError,
            },
            QuicError::AlreadyFinished => Recovery::LogicError,
        }
    }

    /// Whether the connection is alive, where the error says anything about it.
    pub open spec fn alive(self) -> Option<bool> {
        match self.remedy() {
            Recovery::RewindAndReconnect => Some(false),
            Recovery::Reconnect => Some(false),
            Recovery::AbortStream => Some(true),
            Recovery::RetryWithBackoff => None,
            Recovery::Fatal => None,
            Recovery::LogicError => Some(true),
        }
    }

    /// The message shown for the error.
    pub open spec fn text(self) -> Seq<char> {
        match self {
            QuicError::Endpoint(t) => "QUIC endpoint error: "@ + t@,
            QuicError::ConnectFailed(t) => "QUIC connect failed: "@ + t@,
            QuicError::ConnectionLost(t) => "QUIC connection lost: "@ + t@,
            QuicError::WriteFailed(_, t) => "QUIC write failed: "@ + t@,
            QuicError::ReadFailed(_, t) => "QUIC read failed: "@ + t@,
            QuicError::AlreadyFinished => "stream already finished"@,
        }
    }

    /// What is done about the error.
    pub fn recovery(&self) -> (r: Recovery)
        ensures
            r == self.remedy(),
    {
        match self {
            QuicError::Endpoint(_) => Recovery::Fatal,
            QuicError::ConnectFailed(_) => Recovery::RetryWithBackoff,
            QuicError::ConnectionLost(_) => Recovery::Reconnect,
            QuicError::WriteFailed(f, _) => match f {
                StreamFault::ConnectionLost => Recovery::RewindAndReconnect,
                StreamFault::Aborted(_) => Recovery::AbortStream,
                StreamFault::ClosedStream => Recovery::LogicError,
            },
            QuicError::ReadFailed(f, _) => match f {
                StreamFault::ConnectionLost => Recovery::Reconnect,
                StreamFault::Aborted(_) => Recovery::AbortStream,
                StreamFault::ClosedStream => Recovery::LogicError,
            },
            QuicError::AlreadyFinished => Recovery::LogicError,
        }
    }

    /// Whether the connection is alive, where the error says anything about it.
    pub fn connection_alive(&self) -> (r: Option<bool>)
        ensures
            r == self.alive(),
    {
        match self.recovery() {
            Recovery::RewindAndReconnect => Some(false),
            Recovery::Reconnect => Some(false),
            Recovery::AbortStream => Some(true),
            Recovery::RetryWithBackoff => None,
            Recovery::Fatal => None,
            Recovery::LogicError => Some(true),
        }
    }

    /// The message shown for the error.
    pub fn message(&self) -> (r: String)
        ensures
            r@ == self.text(),
    {
        match self {
            QuicError::Endpoint(t) => joined("QUIC endpoint error: ", t.as_str()),
            QuicError::ConnectFailed(t) => joined("QUIC connect failed: ", t.as_str()),
            QuicError::ConnectionLost(t) => joined("QUIC connection lost: ", t.as_str()),
            QuicError::WriteFailed(_, t) => joined("QUIC write failed: ", t.as_str()),
            QuicError::ReadFailed(_, t) => joined("QUIC read failed: ", t.as_str()),
            QuicError::AlreadyFinished => "stream already finished".to_owned(),
        }
    }

    /// The error as the layers above see it.
    pub fn into_relay_error(&self) -> (r: QueLayError)
        ensures
            r matches QueLayError::Transport(t) && t@ == self.text(),
    {
        QueLayError::Transport(self.message())
    }
}

/// The text of an attempt to connect from the listening side.
pub open spec fn not_a_client_text() -> Seq<char> {
    "connect() called on server-side transport"@
}

/// The name to connect with: only a transport of the connecting side has one.
pub fn connect_name(server_name: Option<String>) -> (r: Result<String, QueLayError>)
    ensures
        match server_name {
            Some(n) => r == Ok::<String, QueLayError>(n),
            None => r matches Err(QueLayError::Transport(t)) && t@ == not_a_client_text(),
        },
{
    match server_name {
        Some(n) => Ok(n),
        None => Err(
            QueLayError::Transport("connect() called on server-side transport".to_owned()),
        ),
    }
}

/// A self-signed certificate and its private key, in DER form. The connecting side
/// trusts exactly this certificate.
#[derive(Debug)]
pub struct CertBundle {
    pub cert_der: Vec<u8>,
    pub key_der: Vec<u8>,
}

/// All characters are ASCII characters.
pub open spec fn all_ascii(s: Seq<char>) -> bool {
    forall|i: int| 0 <= i < s.len() ==> (#[trigger] s[i]) as u32 <= 127
}

/// No IP address is written like this: a character occurs that none has, or neither a
/// dot nor a colon does.
pub open spec fn no_address(name: Seq<char>) -> bool {
    ||| exists|i: int|
        0 <= i < name.len() && !('0' <= #[trigger] name[i] <= '9' || 'a' <= name[i] <= 'f' || 'A'
            <= name[i] <= 'F' || name[i] == '.' || name[i] == ':')
    ||| !name.contains('.') && !name.contains(':')
}

/// A number in as few bytes as it takes, the highest first.
pub open spec fn big_endian(n: nat) -> Seq<u8>
    decreases n,
{
    if n == 0 {
        Seq::empty()
    } else {
        big_endian(n / 256).push((n % 256) as u8)
    }
}

/// A length in DER: one byte, or from 128 on the number of its bytes and then these.
pub open spec fn der_length(n: nat) -> Seq<u8> {
    if n < 128 {
        seq![n as u8]
    } else {
        seq![(128 + big_endian(n).len()) as u8] + big_endian(n)
    }
}

/// A value in DER: its tag, its length and its content.
pub open spec fn der_value(tag: u8, content: Seq<u8>) -> Seq<u8> {
    seq![tag] + der_length(content.len()) + content
}

/// The extension of a certificate that makes it valid for one DNS name: the identifier
/// of subject alternative names, and a list that holds this name alone.
pub open spec fn alternative_name(name: Seq<char>) -> Seq<u8> {
    let dns_name = der_value(0x82, name.map_values(|c: char| c as u8));
    der_value(0x06, seq![0x55u8, 0x1d, 0x11]) + der_value(0x04, der_value(0x30, dns_name))
}

/// The certificate holds the extension that makes it valid for a DNS name.
pub open spec fn certifies(cert: Seq<u8>, name: Seq<char>) -> bool {
    let e = alternative_name(name);
    exists|i: int|
        0 <= i && i + e.len() <= cert.len() && (#[trigger] cert.skip(i)).take(e.len() as int) == e
}

/// A certificate and a key as they are made for a name: neither is empty, and unless the
/// name could be an IP address the certificate is valid for it as a DNS name.
pub open spec fn issued_for(cert: Seq<u8>, key: Seq<u8>, name: Seq<char>) -> bool {
    &&& cert.len() > 0
    &&& key.len() > 0
    &&& all_ascii(name)
    &&& no_address(name) ==> certifies(cert, name)
}

/// Calls `rcgen::generate_simple_self_signed` for one name: the certificate and the
/// private key, or the text of its error. A name that holds anything but ASCII
/// characters is refused. What the certificate holds of the name is said for names
/// that cannot be IP addresses. The rest of the certificate and the key are random, and
/// making them may fail, so that success is not promised.
#[verifier::external_body]
fn self_signed(server_name: &str) -> (r: Result<(Vec<u8>, Vec<u8>), String>)
    ensures
        r matches Ok(g) ==> issued_for(g.0@, g.1@, server_name@),
{
    match rcgen::generate_simple_self_signed(vec![server_name.to_string()]) {
        Ok(c) => Ok((c.cert.der().to_vec(), c.key_pair.serialize_der())),
        Err(e) => Err(e.to_string()),
    }
}

impl CertBundle {
    /// The bundle of a generated certificate; a failure keeps the endpoint from
    /// starting.
    pub fn from_generated(generated: Result<(Vec<u8>, Vec<u8>), String>) -> (r: Result<
        Self,
        QuicError,
    >)
        ensures
            match generated {
                Ok(g) => r == Ok::<CertBundle, QuicError>(
                    (CertBundle { cert_der: g.0, key_der: g.1 }),
                ),
                Err(e) => r == Err::<CertBundle, QuicError>(QuicError::Endpoint(e)),
            },
    {
        match generated {
            Ok(g) => Ok(CertBundle { cert_der: g.0, key_der: g.1 }),
            Err(e) => Err(QuicError::Endpoint(e)),
        }
    }

    /// A fresh certificate for a name, which consists of ASCII characters, and its key.
    pub fn generate(server_name: &str) -> (r: Result<Self, QuicError>)
        ensures
            match r {
                Ok(b) => issued_for(b.cert_der@, b.key_der@, server_name@),
                Err(e) => e is Endpoint,
            },
    {
        CertBundle::from_generated(self_signed(server_name))
    }
}

/// A connection that is gone is never answered by going on with the stream, and a
/// connection that is alive is never given up.
pub proof fn law_recovery_fits_connection(e: QuicError)
    ensures
        e.alive() == Some(false) <==> e.remedy() == Recovery::RewindAndReconnect || e.remedy()
            == Recovery::Reconnect,
        e.alive() == Some(true) ==> e.remedy() == Recovery::AbortStream || e.remedy()
            == Recovery::LogicError,
{
}

/// A connection counts as lost exactly when the error says so; then a writer goes back to
/// the first unacknowledged byte, and a reader does not. A stream is given up exactly when
/// the other side gave it up; and only a connection that could not be established is tried
/// again with a delay.
pub proof fn law_error_decides_the_recovery(e: QuicError)
    ensures
        e.remedy() == Recovery::RewindAndReconnect <==> (e matches QuicError::WriteFailed(f, _) && f
            == StreamFault::ConnectionLost),
        e.remedy() == Recovery::Reconnect <==> e is ConnectionLost || (e matches
            QuicError::ReadFailed(f, _) && f == StreamFault::ConnectionLost),
        e.remedy() == Recovery::AbortStream <==> (e matches QuicError::WriteFailed(f, _) && f
            is Aborted) || (e matches QuicError::ReadFailed(f, _) && f is Aborted),
        e.remedy() == Recovery::RetryWithBackoff <==> e is ConnectFailed,
        e.remedy() == Recovery::Fatal <==> e is Endpoint,
        e.alive() is None <==> e is ConnectFailed || e is Endpoint,
{
}

} // verus!
