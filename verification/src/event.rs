//! What a session reports to the log: the event, the account, the target and
//! the reason of a failure.

use vstd::prelude::*;

verus! {

/// An event that the proxy logs.
#[derive(Clone, Copy, Debug, PartialEq, Eq, Structural)]
pub enum SessionEvent {
    ServerStarted,
    ServerStopped,
    AuthSucceeded,
    AuthFailed,
    AccessDenied,
    ConnectFailed,
    ConnectionClosed,
    SessionError,
}

impl SessionEvent {
    /// The event's name in the log.
    pub open spec fn spec_name(&self) -> Seq<char> {
        match self {
            SessionEvent::ServerStarted => "server_started"@,
            SessionEvent::ServerStopped => "server_stopped"@,
            SessionEvent::AuthSucceeded => "auth_succeeded"@,
            SessionEvent::AuthFailed => "auth_failed"@,
            SessionEvent::AccessDenied => "access_denied"@,
            SessionEvent::ConnectFailed => "connect_failed"@,
            SessionEvent::ConnectionClosed => "connection_closed"@,
            SessionEvent::SessionError => "session_error"@,
        }
    }

    /// The event's name in the log.
    pub fn name(&self) -> (r: &'static str)
        ensures
            r@ == self.spec_name(),
    {
        match self {
            SessionEvent::ServerStarted => "server_started",
            SessionEvent::ServerStopped => "server_stopped",
            SessionEvent::AuthSucceeded => "auth_succeeded",
            SessionEvent::AuthFailed => "auth_failed",
            SessionEvent::AccessDenied => "access_denied",
            SessionEvent::ConnectFailed => "connect_failed",
            SessionEvent::ConnectionClosed => "connection_closed",
            SessionEvent::SessionError => "session_error",
        }
    }
}

/// Why a failure was logged.
pub enum FailureReason {
    NotSocks5Request,
    NoSupportedAuthMethod,
    InvalidUserpassAuthVersion,
    InvalidUsernameOrPassword,
    BlockedTargetIp,
    /// Any other reason, in words.
    Text(String),
}

impl View for FailureReason {
    type V = Seq<char>;

    /// The reason as the log writes it.
    open spec fn view(&self) -> Seq<char> {
        match self {
            FailureReason::NotSocks5Request => "not_socks5_request"@,
            FailureReason::NoSupportedAuthMethod => "no_supported_auth_method"@,
            FailureReason::InvalidUserpassAuthVersion => "invalid_userpass_auth_version"@,
            FailureReason::InvalidUsernameOrPassword => "invalid_username_or_password"@,
            FailureReason::BlockedTargetIp => "blocked_target_ip"@,
            FailureReason::Text(s) => s@,
        }
    }
}

impl FailureReason {
    /// The reason as the log writes it.
    pub fn text(&self) -> (r: String)
        ensures
            r@ == self@,
    {
        match self {
            FailureReason::NotSocks5Request => String::from_str("not_socks5_request"),
            FailureReason::NoSupportedAuthMethod => String::from_str("no_supported_auth_method"),
            FailureReason::InvalidUserpassAuthVersion => String::from_str(
                "invalid_userpass_auth_version",
            ),
            FailureReason::InvalidUsernameOrPassword => String::from_str(
                "invalid_username_or_password",
            ),
            FailureReason::BlockedTargetIp => String::from_str("blocked_target_ip"),
            FailureReason::Text(s) => s.clone(),
        }
    }
}

/// A record for the log: an event, the account it concerns, its target and,
/// for a failure, the reason.
pub struct LogRecord {
    pub event: SessionEvent,
    pub username: Option<String>,
    pub target: Option<String>,
    pub reason: Option<FailureReason>,
}

/// A log record as the contracts speak of it.
pub struct RecordView {
    pub event: SessionEvent,
    pub username: Option<Seq<char>>,
    pub target: Option<Seq<char>>,
    pub reason: Option<Seq<char>>,
}

/// The view of an optional string.
pub open spec fn opt_view(s: Option<String>) -> Option<Seq<char>> {
    match s {
        Some(x) => Some(x@),
        None => None,
    }
}

impl View for LogRecord {
    type V = RecordView;

    open spec fn view(&self) -> RecordView {
        RecordView {
            event: self.event,
            username: opt_view(self.username),
            target: opt_view(self.target),
            reason: match self.reason {
                Some(r) => Some(r@),
                None => None,
            },
        }
    }
}

} // verus!
