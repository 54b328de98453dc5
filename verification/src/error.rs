//! The ways a SOCKS5 session can fail.

use vstd::prelude::*;

verus! {

/// Why a session was refused or ended.
#[derive(Clone, Copy, Debug, PartialEq, Eq, Structural)]
pub enum Error {
    /// The greeting does not start with protocol version 5.
    NotSocks5Request,
    /// The client offers no authentication method that the server accepts.
    NoSupportedAuthMethod,
    /// The username/password sub-negotiation does not start with version 1.
    InvalidUserPassVersion,
    /// The username is not valid UTF-8.
    InvalidUtf8Username,
    /// The password is not valid UTF-8.
    InvalidUtf8Password,
    /// The username/password pair is not an accepted credential.
    UserPassAuthFailed,
    /// The request does not start with version 5 and a zero reserved byte.
    InvalidRequest,
    /// The request's address type is none of IPv4, domain name and IPv6.
    AddressTypeNotSupported,
    /// The request's command is neither CONNECT nor UDP ASSOCIATE.
    UnsupportedCommand,
    /// The request's address bytes do not form a target (a domain name that is not UTF-8).
    InvalidTarget,
    /// The access rules deny the target.
    TargetBlocked,
}

impl Error {
    /// The message that describes the error.
    pub fn message(&self) -> (r: &'static str)
        ensures
            r@ == self.spec_message(),
    {
        match self {
            Error::NotSocks5Request => "Not socks5 request!",
            Error::NoSupportedAuthMethod => "No supported authentication method!",
            Error::InvalidUserPassVersion => "Invalid username/password auth version!",
            Error::InvalidUtf8Username => "Invalid UTF-8 username!",
            Error::InvalidUtf8Password => "Invalid UTF-8 password!",
            Error::UserPassAuthFailed => "Username/password authentication failed!",
            Error::InvalidRequest => "Invalid request!",
            Error::AddressTypeNotSupported => "Address type not supported!",
            Error::UnsupportedCommand => "Unsupported request command!",
            Error::InvalidTarget => "Invalid target address!",
            Error::TargetBlocked => "Target address blocked by ruleset!",
        }
    }

    /// The message of each error.
    pub open spec fn spec_message(&self) -> Seq<char> {
        match self {
            Error::NotSocks5Request => "Not socks5 request!"@,
            Error::NoSupportedAuthMethod => "No supported authentication method!"@,
            Error::InvalidUserPassVersion => "Invalid username/password auth version!"@,
            Error::InvalidUtf8Username => "Invalid UTF-8 username!"@,
            Error::InvalidUtf8Password => "Invalid UTF-8 password!"@,
            Error::UserPassAuthFailed => "Username/password authentication failed!"@,
            Error::InvalidRequest => "Invalid request!"@,
            Error::AddressTypeNotSupported => "Address type not supported!"@,
            Error::UnsupportedCommand => "Unsupported request command!"@,
            Error::InvalidTarget => "Invalid target address!"@,
            Error::TargetBlocked => "Target address blocked by ruleset!"@,
        }
    }
}

} // verus!
