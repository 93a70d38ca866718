//! Why a tunnel can fail.

use vstd::prelude::*;
use vstd::string::*;
use crate::text::push_dec;

verus! {

/// An error of the client, the server or the signalling between them.
#[derive(Debug, PartialEq, Eq)]
pub enum VpnError {
    /// The configuration cannot be used.
    Config(String),
    /// The peers did not understand each other.
    Signaling(String),
    /// The server turned the client away.
    AuthenticationFailed(String),
    /// No address was left for a client.
    IpAssignment(String),
    /// The tunnel device failed.
    TunDevice(String),
    /// The network failed.
    Network(String),
    /// The connection broke.
    ConnectionLost(String),
    /// The server's parameters changed while the tunnel was down.
    ServerConfigChanged(String),
    /// Reconnecting was given up after this many attempts.
    MaxReconnectAttemptsExceeded(u32),
}

/// The kinds of [`VpnError`].
#[derive(Debug, Clone, Copy, PartialEq, Eq, Structural)]
pub enum ErrorKind {
    Config,
    Signaling,
    AuthenticationFailed,
    IpAssignment,
    TunDevice,
    Network,
    ConnectionLost,
    ServerConfigChanged,
    MaxReconnectAttemptsExceeded,
}

impl VpnError {
    /// The kind of the error.
    pub open spec fn kind(self) -> ErrorKind {
        match self {
            VpnError::Config(_) => ErrorKind::Config,
            VpnError::Signaling(_) => ErrorKind::Signaling,
            VpnError::AuthenticationFailed(_) => ErrorKind::AuthenticationFailed,
            VpnError::IpAssignment(_) => ErrorKind::IpAssignment,
            VpnError::TunDevice(_) => ErrorKind::TunDevice,
            VpnError::Network(_) => ErrorKind::Network,
            VpnError::ConnectionLost(_) => ErrorKind::ConnectionLost,
            VpnError::ServerConfigChanged(_) => ErrorKind::ServerConfigChanged,
            VpnError::MaxReconnectAttemptsExceeded(_) => ErrorKind::MaxReconnectAttemptsExceeded,
        }
    }

    /// The text that reports the error.
    pub open spec fn text(self) -> Seq<char> {
        match self {
            VpnError::Config(m) => m@,
            VpnError::Signaling(m) => m@,
            VpnError::AuthenticationFailed(m) => m@,
            VpnError::IpAssignment(m) => m@,
            VpnError::TunDevice(m) => m@,
            VpnError::Network(m) => m@,
            VpnError::ConnectionLost(m) => m@,
            VpnError::ServerConfigChanged(m) => m@,
            VpnError::MaxReconnectAttemptsExceeded(n) => "gave up after "@ + crate::text::dec(
                n as nat,
            ) + " reconnect attempts"@,
        }
    }

    /// Whether trying again can help: after a lost connection, a network failure, or a
    /// failed exchange with the server.
    pub open spec fn recoverable(self) -> bool {
        self is ConnectionLost || self is Network || self is Signaling
    }

    /// Writes the text that reports the error.
    pub fn message(&self) -> (s: String)
        ensures
            s@ == self.text(),
    {
        match self {
            VpnError::Config(m) => m.clone(),
            VpnError::Signaling(m) => m.clone(),
            VpnError::AuthenticationFailed(m) => m.clone(),
            VpnError::IpAssignment(m) => m.clone(),
            VpnError::TunDevice(m) => m.clone(),
            VpnError::Network(m) => m.clone(),
            VpnError::ConnectionLost(m) => m.clone(),
            VpnError::ServerConfigChanged(m) => m.clone(),
            VpnError::MaxReconnectAttemptsExceeded(n) => {
                let mut s = "gave up after ".to_owned();
                push_dec(&mut s, *n as u64);
                s.append(" reconnect attempts");
                s
            },
        }
    }

    /// Whether trying again can help.
    pub fn is_recoverable(&self) -> (r: bool)
        ensures
            r == self.recoverable(),
    {
        match self {
            VpnError::ConnectionLost(_) => true,
            VpnError::Network(_) => true,
            VpnError::Signaling(_) => true,
            _ => false,
        }
    }
}

/// The failure half of a contract: the result is an error of this kind and text.
pub open spec fn fails<T>(r: Result<T, VpnError>, kind: ErrorKind, text: Seq<char>) -> bool {
    r is Err && r->Err_0.kind() == kind && r->Err_0.text() == text
}

/// What fails says what kind of error it is and, word for word, why.
pub proof fn law_failures_say_why<T>(r: Result<T, VpnError>, kind: ErrorKind, text: Seq<char>)
    ensures
        fails(r, kind, text) <==> r is Err && r->Err_0.kind() == kind && r->Err_0.text() == text,
{
}

/// Errors say what they were made with, and only those of the connection can be recovered from.
pub proof fn law_errors_keep_their_message(m: String)
    ensures
        VpnError::Config(m).text() == m@,
        VpnError::Signaling(m).text() == m@,
        VpnError::AuthenticationFailed(m).text() == m@,
        VpnError::IpAssignment(m).text() == m@,
        VpnError::TunDevice(m).text() == m@,
        VpnError::Network(m).text() == m@,
        VpnError::ConnectionLost(m).text() == m@,
        VpnError::ServerConfigChanged(m).text() == m@,
        VpnError::Signaling(m).recoverable(),
        VpnError::Network(m).recoverable(),
        VpnError::ConnectionLost(m).recoverable(),
        !VpnError::Config(m).recoverable(),
        !VpnError::AuthenticationFailed(m).recoverable(),
        !VpnError::IpAssignment(m).recoverable(),
        !VpnError::TunDevice(m).recoverable(),
        !VpnError::ServerConfigChanged(m).recoverable(),
{
}

} // verus!
