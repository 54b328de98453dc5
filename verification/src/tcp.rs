//! The decisions of a CONNECT: which target address may be reached, and what
//! the client is told and the log records when none may or the connection fails.

use vstd::prelude::*;

use crate::acceptor::{Socks5Acceptor, REPLY_NOT_ALLOWED};
use crate::config::AccessState;
use crate::error::Error;
use crate::event::{opt_view, FailureReason, LogRecord, RecordView, SessionEvent};
use crate::net::{IpAddress, SocketAddress};

verus! {

/// A TCP stream of `tokio`, carried through as it is.
#[verifier::external_type_specification]
#[verifier::external_body]
pub struct ExTcpStream(tokio::net::TcpStream);

/// An open connection to a CONNECT request's target.
pub struct Socks5TcpConnector(pub tokio::net::TcpStream);

/// Whether the access rules in force, if any, deny `ip`.
pub open spec fn spec_is_denied(ip: IpAddress, access: Option<&AccessState>) -> bool {
    match access {
        Some(a) => a@.denies(ip),
        None => false,
    }
}

impl Socks5TcpConnector {
    /// Whether the access rules in force deny `ip`; without rules nothing is denied.
    pub fn is_denied(ip: IpAddress, access: Option<&AccessState>) -> (r: bool)
        ensures
            r == spec_is_denied(ip, access),
    {
        match access {
            Some(a) => a.is_denied(ip),
            None => false,
        }
    }

    /// Refuses a target address that the access rules deny.
    pub fn ensure_allowed(ip: IpAddress, access: Option<&AccessState>) -> (r: Result<(), Error>)
        ensures
            r is Ok <==> !spec_is_denied(ip, access),
            r is Err ==> r == Err::<(), Error>(Error::TargetBlocked),
    {
        if Self::is_denied(ip, access) {
            return Err(Error::TargetBlocked);
        }
        Ok(())
    }

    /// Of the addresses that a domain name resolved to, the first that the
    /// access rules allow; refused when they deny them all.
    pub fn first_allowed(addrs: &Vec<SocketAddress>, access: Option<&AccessState>) -> (r: Result<
        SocketAddress,
        Error,
    >)
        ensures
            match r {
                Ok(a) => exists|i: int|
                    0 <= i < addrs@.len() && addrs@[i] == a && !spec_is_denied(a.ip, access)
                        && forall|j: int| 0 <= j < i ==> spec_is_denied(#[trigger] addrs@[j].ip, access),
                Err(e) => e == Error::TargetBlocked && forall|j: int|
                    0 <= j < addrs@.len() ==> spec_is_denied(#[trigger] addrs@[j].ip, access),
            },
    {
        let n = addrs.len();
        for i in 0..n
            invariant
                n == addrs@.len(),
                forall|j: int| 0 <= j < i ==> spec_is_denied(#[trigger] addrs@[j].ip, access),
        {
            let a = addrs[i];
            if !Self::is_denied(a.ip, access) {
                return Ok(a);
            }
        }
        Err(Error::TargetBlocked)
    }
}

/// Why a CONNECT could not reach its target.
pub enum ConnectError {
    /// The access rules deny the target.
    Blocked,
    /// Resolving or connecting failed; the words say why.
    Io(String),
}

/// What the client is told and the log records when a CONNECT fails.
pub struct ConnectRefusal {
    pub reply: Vec<u8>,
    pub record: LogRecord,
}

impl Socks5Acceptor {
    /// A denied target is answered "connection not allowed by ruleset" and
    /// logged as such; another failure is logged with its cause and not answered.
    pub fn connect_failed(&self, err: &ConnectError, target: &str) -> (r: ConnectRefusal)
        requires
            self.buf@.len() >= 3,
        ensures
            match err {
                ConnectError::Blocked => {
                    &&& r.reply@ == seq![5u8, REPLY_NOT_ALLOWED, 0u8] + self.buf@.subrange(
                        3,
                        self.buf@.len() as int,
                    )
                    &&& r.record@ == RecordView {
                        event: SessionEvent::AccessDenied,
                        username: opt_view(self.username),
                        target: Some(target@),
                        reason: Some("blocked_target_ip"@),
                    }
                },
                ConnectError::Io(cause) => {
                    &&& r.reply@.len() == 0
                    &&& r.record@ == RecordView {
                        event: SessionEvent::ConnectFailed,
                        username: opt_view(self.username),
                        target: Some(target@),
                        reason: Some(cause@),
                    }
                },
            },
    {
        let username = match &self.username {
            Some(u) => Some(u.clone()),
            None => None,
        };
        match err {
            ConnectError::Blocked => ConnectRefusal {
                reply: self.closed(REPLY_NOT_ALLOWED),
                record: LogRecord {
                    event: SessionEvent::AccessDenied,
                    username,
                    target: Some(String::from_str(target)),
                    reason: Some(FailureReason::BlockedTargetIp),
                },
            },
            ConnectError::Io(cause) => ConnectRefusal {
                reply: Vec::new(),
                record: LogRecord {
                    event: SessionEvent::ConnectFailed,
                    username,
                    target: Some(String::from_str(target)),
                    reason: Some(FailureReason::Text(cause.clone())),
                },
            },
        }
    }
}

} // verus!
