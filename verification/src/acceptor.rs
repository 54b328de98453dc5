//! The server side of a SOCKS5 handshake (RFC 1928, with the username and
//! password method of RFC 1929) as a state machine: fed the bytes that it
//! asked for, it answers with the reply to send, the record to log and what
//! to read next, until the request is complete or the session fails.

use vstd::prelude::*;

use crate::config::{AccessState, AuthState, Credential};
use crate::error::Error;
use crate::event::{opt_view, FailureReason, LogRecord, RecordView, SessionEvent};
use crate::net::SocketAddress;
use crate::target::{put_socks5_addr, spec_encode_addr, spec_parse_target, spec_target_len, utf8_to_string, HostView, Socks5Target};

verus! {

/// The protocol version of SOCKS5.
pub const SOCKS_VERSION: u8 = 5;

/// The version of the username/password sub-negotiation.
pub const USERPASS_VERSION: u8 = 1;

/// The method "no authentication required".
pub const METHOD_NO_AUTH: u8 = 0;

/// The method "username/password".
pub const METHOD_USERPASS: u8 = 2;

/// The reply "no acceptable methods".
pub const METHOD_NONE_ACCEPTABLE: u8 = 0xff;

/// The command CONNECT.
pub const CMD_CONNECT: u8 = 1;

/// The command UDP ASSOCIATE.
pub const CMD_UDP_ASSOCIATE: u8 = 3;

/// The reply code "connection not allowed by ruleset".
pub const REPLY_NOT_ALLOWED: u8 = 2;

/// The reply code "command not supported".
pub const REPLY_COMMAND_NOT_SUPPORTED: u8 = 7;

/// The reply code "address type not supported".
pub const REPLY_ADDRESS_TYPE_NOT_SUPPORTED: u8 = 8;

/// Where a handshake stands.
#[derive(Clone, Copy, Debug, PartialEq, Eq, Structural)]
pub enum Phase {
    /// Awaiting the version and the number of methods.
    Greeting,
    /// Awaiting the methods that the client offers.
    Methods,
    /// Awaiting the sub-negotiation version and the username's length.
    UserPassHeader,
    /// Awaiting the username and the password's length.
    UserPassUsername,
    /// Awaiting the password.
    UserPassPassword,
    /// Awaiting version, command, reserved byte, address type and the first address byte.
    Request,
    /// Awaiting the rest of the request's address and the port.
    RequestRest,
    /// The request is complete.
    Done,
    /// The session failed.
    Failed,
}

/// What the driver of the handshake does next.
#[derive(Clone, Copy, Debug, PartialEq, Eq, Structural)]
pub enum Next {
    /// Read exactly this many bytes and feed them to `step`.
    Read(usize),
    /// The request is complete: see `accept`.
    Done,
    /// End the session with this error.
    Fail(Error),
}

/// The outcome of one step: a reply to send first (possibly empty), a
/// record to log, and what to do next.
pub struct Step {
    pub reply: Vec<u8>,
    pub record: Option<LogRecord>,
    pub next: Next,
}

/// A step as the contracts speak of it.
pub struct StepView {
    pub reply: Seq<u8>,
    pub record: Option<RecordView>,
    pub next: Next,
}

impl View for Step {
    type V = StepView;

    open spec fn view(&self) -> StepView {
        StepView {
            reply: self.reply@,
            record: match self.record {
                Some(r) => Some(r@),
                None => None,
            },
            next: self.next,
        }
    }
}

/// The state of the server side of one SOCKS5 session.
pub struct Socks5Acceptor {
    /// The bytes of the message being read: the greeting, the
    /// sub-negotiation, then the request.
    pub buf: Vec<u8>,
    /// The credentials that the server accepts; none: no authentication.
    pub auth: Option<AuthState>,
    /// The access rules in force; none: no restriction.
    pub access: Option<AccessState>,
    /// The account that authenticated, once one has.
    pub username: Option<String>,
    pub phase: Phase,
}

/// The state of a handshake as the contracts speak of it.
pub struct AcceptorView {
    pub phase: Phase,
    pub buf: Seq<u8>,
    pub auth: Option<Set<Credential>>,
    pub username: Option<Seq<char>>,
}

impl View for Socks5Acceptor {
    type V = AcceptorView;

    open spec fn view(&self) -> AcceptorView {
        AcceptorView {
            phase: self.phase,
            buf: self.buf@,
            auth: match self.auth {
                Some(a) => Some(a@),
                None => None,
            },
            username: opt_view(self.username),
        }
    }
}

/// What the buffer holds in each phase.
pub open spec fn spec_wf(s: AcceptorView) -> bool {
    match s.phase {
        Phase::Methods => s.buf.len() == 2,
        Phase::UserPassHeader => s.auth is Some,
        Phase::UserPassUsername => s.buf.len() == 2 && s.auth is Some,
        Phase::UserPassPassword => s.buf.len() == s.buf[1] + 3 && s.auth is Some,
        Phase::RequestRest => s.buf.len() == 5 && spec_target_len(s.buf[3], s.buf[4]) is Some,
        Phase::Done => {
            &&& s.buf.len() >= 5
            &&& (s.buf[1] == CMD_CONNECT || s.buf[1] == CMD_UDP_ASSOCIATE)
            &&& spec_target_len(s.buf[3], s.buf[4]) matches Some(t)
            &&& s.buf.len() == t + 3
        },
        _ => true,
    }
}

/// How many bytes the handshake awaits; none once it is complete or failed.
pub open spec fn spec_expected(s: AcceptorView) -> Option<nat> {
    match s.phase {
        Phase::Greeting => Some(2),
        Phase::Methods => Some(s.buf[1] as nat),
        Phase::UserPassHeader => Some(2),
        Phase::UserPassUsername => Some((s.buf[1] + 1) as nat),
        Phase::UserPassPassword => Some(s.buf.last() as nat),
        Phase::Request => Some(5),
        Phase::RequestRest => match spec_target_len(s.buf[3], s.buf[4]) {
            Some(t) => Some((t + 3 - 5) as nat),
            None => None,
        },
        _ => None,
    }
}

/// A record of an authentication failure.
pub open spec fn auth_failed_record(username: Option<Seq<char>>, reason: Seq<char>) -> Option<RecordView> {
    Some(RecordView { event: SessionEvent::AuthFailed, username, target: None, reason: Some(reason) })
}

/// A record of a successful authentication.
pub open spec fn auth_succeeded_record(username: Option<Seq<char>>) -> Option<RecordView> {
    Some(RecordView { event: SessionEvent::AuthSucceeded, username, target: None, reason: None })
}

/// The session fails: the state keeps `buf`, the step sends `reply`, logs
/// `record` and ends with `e`.
pub open spec fn spec_fail(
    s: AcceptorView,
    buf: Seq<u8>,
    reply: Seq<u8>,
    record: Option<RecordView>,
    e: Error,
) -> (AcceptorView, StepView) {
    (
        AcceptorView { phase: Phase::Failed, buf, ..s },
        StepView { reply, record, next: Next::Fail(e) },
    )
}

/// The handshake goes on in `phase`, awaiting `n` bytes.
pub open spec fn spec_go(
    s: AcceptorView,
    phase: Phase,
    buf: Seq<u8>,
    reply: Seq<u8>,
    record: Option<RecordView>,
    n: nat,
) -> (AcceptorView, StepView) {
    (AcceptorView { phase, buf, ..s }, StepView { reply, record, next: Next::Read(n as usize) })
}

/// The username that a username/password sub-negotiation `b` carries.
pub open spec fn spec_username_bytes(b: Seq<u8>) -> Seq<u8> {
    b.subrange(2, 2 + b[1])
}

/// The password that a username/password sub-negotiation `b` carries.
pub open spec fn spec_password_bytes(b: Seq<u8>) -> Seq<u8> {
    b.subrange(3 + b[1], b.len() as int)
}

/// One step of the handshake: the state after `input` and what to do.
pub open spec fn spec_step(s: AcceptorView, input: Seq<u8>) -> (AcceptorView, StepView) {
    match s.phase {
        Phase::Greeting => if input[0] != SOCKS_VERSION {
            spec_fail(
                s,
                input,
                seq![],
                auth_failed_record(s.username, "not_socks5_request"@),
                Error::NotSocks5Request,
            )
        } else {
            spec_go(s, Phase::Methods, input, seq![], None, input[1] as nat)
        },
        Phase::Methods => {
            let buf = s.buf + input;
            let method = if s.auth is Some {
                METHOD_USERPASS
            } else {
                METHOD_NO_AUTH
            };
            if !input.contains(method) {
                spec_fail(
                    s,
                    buf,
                    seq![SOCKS_VERSION, METHOD_NONE_ACCEPTABLE],
                    auth_failed_record(s.username, "no_supported_auth_method"@),
                    Error::NoSupportedAuthMethod,
                )
            } else if s.auth is Some {
                spec_go(s, Phase::UserPassHeader, buf, seq![SOCKS_VERSION, METHOD_USERPASS], None, 2)
            } else {
                spec_go(
                    s,
                    Phase::Request,
                    buf,
                    seq![SOCKS_VERSION, METHOD_NO_AUTH],
                    auth_succeeded_record(s.username),
                    5,
                )
            }
        },
        Phase::UserPassHeader => if input[0] != USERPASS_VERSION {
            spec_fail(
                s,
                input,
                seq![USERPASS_VERSION, 1u8],
                auth_failed_record(s.username, "invalid_userpass_auth_version"@),
                Error::InvalidUserPassVersion,
            )
        } else {
            spec_go(s, Phase::UserPassUsername, input, seq![], None, (input[1] + 1) as nat)
        },
        Phase::UserPassUsername => {
            let buf = s.buf + input;
            spec_go(s, Phase::UserPassPassword, buf, seq![], None, buf.last() as nat)
        },
        Phase::UserPassPassword => {
            let buf = s.buf + input;
            let user = spec_username_bytes(buf);
            let pass = spec_password_bytes(buf);
            if !vstd::utf8::valid_utf8(user) {
                spec_fail(s, buf, seq![], None, Error::InvalidUtf8Username)
            } else if !vstd::utf8::valid_utf8(pass) {
                spec_fail(s, buf, seq![], None, Error::InvalidUtf8Password)
            } else {
                let name = vstd::utf8::decode_utf8(user);
                let word = vstd::utf8::decode_utf8(pass);
                if s.auth matches Some(creds) && creds.contains((name, word)) {
                    (
                        AcceptorView { phase: Phase::Request, buf, username: Some(name), ..s },
                        StepView {
                            reply: seq![USERPASS_VERSION, 0u8],
                            record: auth_succeeded_record(Some(name)),
                            next: Next::Read(5),
                        },
                    )
                } else {
                    spec_fail(
                        s,
                        buf,
                        seq![USERPASS_VERSION, 1u8],
                        auth_failed_record(Some(name), "invalid_username_or_password"@),
                        Error::UserPassAuthFailed,
                    )
                }
            }
        },
        Phase::Request => if input[0] != SOCKS_VERSION || input[2] != 0 {
            spec_fail(s, input, seq![], None, Error::InvalidRequest)
        } else {
            match spec_target_len(input[3], input[4]) {
                None => spec_fail(
                    s,
                    input,
                    seq![SOCKS_VERSION, REPLY_ADDRESS_TYPE_NOT_SUPPORTED],
                    None,
                    Error::AddressTypeNotSupported,
                ),
                Some(t) => spec_go(s, Phase::RequestRest, input, seq![], None, (t + 3 - 5) as nat),
            }
        },
        Phase::RequestRest => {
            let buf = s.buf + input;
            if buf[1] != CMD_CONNECT && buf[1] != CMD_UDP_ASSOCIATE {
                spec_fail(
                    s,
                    buf,
                    seq![SOCKS_VERSION, REPLY_COMMAND_NOT_SUPPORTED],
                    None,
                    Error::UnsupportedCommand,
                )
            } else {
                (
                    AcceptorView { phase: Phase::Done, buf, ..s },
                    StepView { reply: seq![], record: None, next: Next::Done },
                )
            }
        },
        _ => (s, StepView { reply: seq![], record: None, next: Next::Done }),
    }
}

/// A copy of an optional string.
fn clone_opt(s: &Option<String>) -> (r: Option<String>)
    ensures
        opt_view(r) == opt_view(*s),
{
    match s {
        Some(x) => Some(x.clone()),
        None => None,
    }
}

/// The bytes of `a` followed by those of `b`.
fn concat_bytes(a: &Vec<u8>, b: &[u8]) -> (r: Vec<u8>)
    ensures
        r@ == a@ + b@,
{
    let mut r: Vec<u8> = Vec::new();
    let n = a.len();
    for i in 0..n
        invariant
            n == a@.len(),
            r@ == a@.subrange(0, i as int),
    {
        r.push(a[i]);
        proof {
            assert(r@ =~= a@.subrange(0, i + 1));
        }
    }
    let m = b.len();
    for j in 0..m
        invariant
            n == a@.len(),
            m == b@.len(),
            r@ == a@ + b@.subrange(0, j as int),
    {
        r.push(b[j]);
        proof {
            assert(r@ =~= a@ + b@.subrange(0, j + 1));
        }
    }
    proof {
        assert(a@.subrange(0, n as int) =~= a@);
        assert(b@.subrange(0, m as int) =~= b@);
    }
    r
}

/// Whether `bytes` holds `x`.
fn contains_byte(bytes: &[u8], x: u8) -> (r: bool)
    ensures
        r == bytes@.contains(x),
{
    let n = bytes.len();
    for i in 0..n
        invariant
            n == bytes@.len(),
            forall|k: int| 0 <= k < i ==> bytes@[k] != x,
    {
        if bytes[i] == x {
            return true;
        }
    }
    false
}

impl Step {
    fn fail(reply: Vec<u8>, record: Option<LogRecord>, e: Error) -> (r: Step)
        ensures
            r.reply == reply,
            r.record == record,
            r.next == Next::Fail(e),
    {
        Step { reply, record, next: Next::Fail(e) }
    }
}

impl Socks5Acceptor {
    /// A handshake that has not started, under the given credentials and rules.
    pub fn new(auth: Option<AuthState>, access: Option<AccessState>) -> (r: Self)
        ensures
            r.phase == Phase::Greeting,
            r.buf@.len() == 0,
            r.username is None,
            r.auth == auth,
            r.access == access,
    {
        Socks5Acceptor { buf: Vec::new(), auth, access, username: None, phase: Phase::Greeting }
    }

    /// The state is consistent with its phase.
    pub open spec fn wf(&self) -> bool {
        spec_wf(self@)
    }

    /// How many bytes the handshake awaits; none once it is complete or failed.
    pub fn expected_len(&self) -> (r: Option<usize>)
        requires
            self.wf(),
        ensures
            match spec_expected(self@) {
                Some(n) => r == Some(n as usize),
                None => r is None,
            },
    {
        match self.phase {
            Phase::Greeting => Some(2),
            Phase::Methods => Some(self.buf[1] as usize),
            Phase::UserPassHeader => Some(2),
            Phase::UserPassUsername => Some(self.buf[1] as usize + 1),
            Phase::UserPassPassword => Some(self.buf[self.buf.len() - 1] as usize),
            Phase::Request => Some(5),
            Phase::RequestRest => match Socks5Target::target_len(
                vstd::slice::slice_subrange(self.buf.as_slice(), 3, 5),
            ) {
                Ok(t) => Some(t + 3 - 5),
                Err(_) => None,
            },
            _ => None,
        }
    }

    /// Whether a target given by a domain name may be forwarded: only under
    /// access rules that allow it.
    pub fn allow_domains(&self) -> (r: bool)
        ensures
            r == (self.access matches Some(a) && a@.allow_domains),
    {
        match &self.access {
            Some(a) => a.allow_domains(),
            None => false,
        }
    }

    /// Feeds the bytes that the handshake awaited.
    pub fn step(&mut self, input: &[u8]) -> (r: Step)
        requires
            old(self).wf(),
            spec_expected(old(self)@) == Some(input@.len()),
        ensures
            (final(self)@, r@) == spec_step(old(self)@, input@),
            final(self).wf(),
            final(self).auth == old(self).auth,
            final(self).access == old(self).access,
    {
        match self.phase {
            Phase::Greeting | Phase::Methods => self.authenticate(input),
            Phase::UserPassHeader | Phase::UserPassUsername | Phase::UserPassPassword => self.authenticate_userpass(input),
            _ => self.accept_command(input),
        }
    }

    /// The method negotiation: checks the version, then answers with the
    /// method that the server requires (username/password when credentials
    /// are configured, else none) or refuses when the client does not offer it.
    pub fn authenticate(&mut self, input: &[u8]) -> (r: Step)
        requires
            old(self).wf(),
            old(self).phase == Phase::Greeting || old(self).phase == Phase::Methods,
            spec_expected(old(self)@) == Some(input@.len()),
        ensures
            (final(self)@, r@) == spec_step(old(self)@, input@),
            final(self).wf(),
            final(self).auth == old(self).auth,
            final(self).access == old(self).access,
    {
        if self.phase == Phase::Greeting {
            self.buf = vstd::slice::slice_to_vec(input);
            if input[0] != SOCKS_VERSION {
                self.phase = Phase::Failed;
                let record = LogRecord {
                    event: SessionEvent::AuthFailed,
                    username: clone_opt(&self.username),
                    target: None,
                    reason: Some(FailureReason::NotSocks5Request),
                };
                return Step::fail(Vec::new(), Some(record), Error::NotSocks5Request);
            }
            self.phase = Phase::Methods;
            let r = Step { reply: Vec::new(), record: None, next: Next::Read(input[1] as usize) };
            proof {
                assert(r.reply@ =~= seq![]);
            }
            return r;
        }
        self.buf = concat_bytes(&self.buf, input);
        let required = self.auth.is_some();
        let method = if required {
            METHOD_USERPASS
        } else {
            METHOD_NO_AUTH
        };
        if !contains_byte(input, method) {
            self.phase = Phase::Failed;
            let record = LogRecord {
                event: SessionEvent::AuthFailed,
                username: clone_opt(&self.username),
                target: None,
                reason: Some(FailureReason::NoSupportedAuthMethod),
            };
            let r = Step::fail(vec![SOCKS_VERSION, METHOD_NONE_ACCEPTABLE], Some(record), Error::NoSupportedAuthMethod);
            proof {
                assert(r.reply@ =~= seq![SOCKS_VERSION, METHOD_NONE_ACCEPTABLE]);
            }
            return r;
        }
        if required {
            self.phase = Phase::UserPassHeader;
            let r = Step { reply: vec![SOCKS_VERSION, METHOD_USERPASS], record: None, next: Next::Read(2) };
            proof {
                assert(r.reply@ =~= seq![SOCKS_VERSION, METHOD_USERPASS]);
            }
            r
        } else {
            self.phase = Phase::Request;
            let record = LogRecord {
                event: SessionEvent::AuthSucceeded,
                username: clone_opt(&self.username),
                target: None,
                reason: None,
            };
            let r = Step { reply: vec![SOCKS_VERSION, METHOD_NO_AUTH], record: Some(record), next: Next::Read(5) };
            proof {
                assert(r.reply@ =~= seq![SOCKS_VERSION, METHOD_NO_AUTH]);
            }
            r
        }
    }

    /// The username/password sub-negotiation: checks its version, reads the
    /// username and the password, and accepts them only when they form one
    /// of the configured credentials.
    pub fn authenticate_userpass(&mut self, input: &[u8]) -> (r: Step)
        requires
            old(self).wf(),
            old(self).phase == Phase::UserPassHeader || old(self).phase == Phase::UserPassUsername
                || old(self).phase == Phase::UserPassPassword,
            spec_expected(old(self)@) == Some(input@.len()),
        ensures
            (final(self)@, r@) == spec_step(old(self)@, input@),
            final(self).wf(),
            final(self).auth == old(self).auth,
            final(self).access == old(self).access,
    {
        if self.phase == Phase::UserPassHeader {
            self.buf = vstd::slice::slice_to_vec(input);
            if input[0] != USERPASS_VERSION {
                self.phase = Phase::Failed;
                let record = LogRecord {
                    event: SessionEvent::AuthFailed,
                    username: clone_opt(&self.username),
                    target: None,
                    reason: Some(FailureReason::InvalidUserpassAuthVersion),
                };
                let r = Step::fail(vec![USERPASS_VERSION, 1u8], Some(record), Error::InvalidUserPassVersion);
                proof {
                    assert(r.reply@ =~= seq![USERPASS_VERSION, 1u8]);
                }
                return r;
            }
            self.phase = Phase::UserPassUsername;
            let r = Step { reply: Vec::new(), record: None, next: Next::Read(input[1] as usize + 1) };
            proof {
                assert(r.reply@ =~= seq![]);
            }
            return r;
        }
        if self.phase == Phase::UserPassUsername {
            self.buf = concat_bytes(&self.buf, input);
            self.phase = Phase::UserPassPassword;
            let plen = self.buf[self.buf.len() - 1];
            let r = Step { reply: Vec::new(), record: None, next: Next::Read(plen as usize) };
            proof {
                assert(r.reply@ =~= seq![]);
            }
            return r;
        }
        self.buf = concat_bytes(&self.buf, input);
        let ulen = self.buf[1] as usize;
        let total = self.buf.len();
        let username = match utf8_to_string(vstd::slice::slice_subrange(self.buf.as_slice(), 2, 2 + ulen)) {
            Some(u) => u,
            None => {
                self.phase = Phase::Failed;
                let r = Step::fail(Vec::new(), None, Error::InvalidUtf8Username);
                proof {
                    assert(r.reply@ =~= seq![]);
                }
                return r;
            },
        };
        let password = match utf8_to_string(vstd::slice::slice_subrange(self.buf.as_slice(), 3 + ulen, total)) {
            Some(p) => p,
            None => {
                self.phase = Phase::Failed;
                let r = Step::fail(Vec::new(), None, Error::InvalidUtf8Password);
                proof {
                    assert(r.reply@ =~= seq![]);
                }
                return r;
            },
        };
        let ok = match &self.auth {
            Some(a) => a.verify(username.as_str(), password.as_str()),
            None => false,
        };
        if ok {
            self.username = Some(username.clone());
            self.phase = Phase::Request;
            let record = LogRecord {
                event: SessionEvent::AuthSucceeded,
                username: Some(username),
                target: None,
                reason: None,
            };
            let r = Step { reply: vec![USERPASS_VERSION, 0u8], record: Some(record), next: Next::Read(5) };
            proof {
                assert(r.reply@ =~= seq![USERPASS_VERSION, 0u8]);
            }
            r
        } else {
            self.phase = Phase::Failed;
            let record = LogRecord {
                event: SessionEvent::AuthFailed,
                username: Some(username),
                target: None,
                reason: Some(FailureReason::InvalidUsernameOrPassword),
            };
            let r = Step::fail(vec![USERPASS_VERSION, 1u8], Some(record), Error::UserPassAuthFailed);
            proof {
                assert(r.reply@ =~= seq![USERPASS_VERSION, 1u8]);
            }
            r
        }
    }

    /// The request: checks version and reserved byte, refuses an unknown
    /// address type, reads the rest of the address, and refuses a command
    /// other than CONNECT and UDP ASSOCIATE.
    pub fn accept_command(&mut self, input: &[u8]) -> (r: Step)
        requires
            old(self).wf(),
            old(self).phase == Phase::Request || old(self).phase == Phase::RequestRest,
            spec_expected(old(self)@) == Some(input@.len()),
        ensures
            (final(self)@, r@) == spec_step(old(self)@, input@),
            final(self).wf(),
            final(self).auth == old(self).auth,
            final(self).access == old(self).access,
    {
        if self.phase == Phase::Request {
            self.buf = vstd::slice::slice_to_vec(input);
            if input[0] != SOCKS_VERSION || input[2] != 0 {
                self.phase = Phase::Failed;
                let r = Step::fail(Vec::new(), None, Error::InvalidRequest);
                proof {
                    assert(r.reply@ =~= seq![]);
                }
                return r;
            }
            let len = match Socks5Target::target_len(vstd::slice::slice_subrange(input, 3, 5)) {
                Ok(t) => t + 3,
                Err(e) => {
                    self.phase = Phase::Failed;
                    let r = Step::fail(vec![SOCKS_VERSION, REPLY_ADDRESS_TYPE_NOT_SUPPORTED], None, e);
                    proof {
                        assert(r.reply@ =~= seq![SOCKS_VERSION, REPLY_ADDRESS_TYPE_NOT_SUPPORTED]);
                    }
                    return r;
                },
            };
            self.phase = Phase::RequestRest;
            let r = Step { reply: Vec::new(), record: None, next: Next::Read(len - 5) };
            proof {
                assert(r.reply@ =~= seq![]);
            }
            return r;
        }
        self.buf = concat_bytes(&self.buf, input);
        if self.buf[1] != CMD_CONNECT && self.buf[1] != CMD_UDP_ASSOCIATE {
            self.phase = Phase::Failed;
            let r = Step::fail(vec![SOCKS_VERSION, REPLY_COMMAND_NOT_SUPPORTED], None, Error::UnsupportedCommand);
            proof {
                assert(r.reply@ =~= seq![SOCKS_VERSION, REPLY_COMMAND_NOT_SUPPORTED]);
            }
            return r;
        }
        self.phase = Phase::Done;
        let r = Step { reply: Vec::new(), record: None, next: Next::Done };
        proof {
            assert(r.reply@ =~= seq![]);
        }
        r
    }
}

impl Socks5Acceptor {
    /// The request once it is complete: its command and its decoded target.
    pub fn accept(&self) -> (r: Result<(u8, Socks5Target), Error>)
        requires
            self.wf(),
            self.phase == Phase::Done,
        ensures
            match spec_parse_target(self.buf@.subrange(3, self.buf@.len() as int)) {
                Ok(t) => r matches Ok((c, x)) && c == self.buf@[1] && x@ == t,
                Err(e) => r == Err::<(u8, Socks5Target), Error>(e),
            },
    {
        let n = self.buf.len();
        match Socks5Target::try_from_bytes(vstd::slice::slice_subrange(self.buf.as_slice(), 3, n)) {
            Ok(t) => Ok((self.buf[1], t)),
            Err(e) => Err(e),
        }
    }

    /// The reply that ends a request with reply code `resp`, echoing the
    /// request's address.
    pub fn closed(&self, resp: u8) -> (r: Vec<u8>)
        requires
            self.buf@.len() >= 3,
        ensures
            r@ == seq![SOCKS_VERSION, resp, 0u8] + self.buf@.subrange(3, self.buf@.len() as int),
    {
        let n = self.buf.len();
        let head: Vec<u8> = vec![SOCKS_VERSION, resp, 0u8];
        let r = concat_bytes(&head, vstd::slice::slice_subrange(self.buf.as_slice(), 3, n));
        proof {
            assert(head@ =~= seq![SOCKS_VERSION, resp, 0u8]);
        }
        r
    }

    /// The reply that grants a CONNECT request: success and the local
    /// address of the connection to the target.
    pub fn connected(&self, local_addr: SocketAddress) -> (r: Vec<u8>)
        ensures
            r@ == seq![SOCKS_VERSION, 0u8, 0u8] + spec_encode_addr(local_addr),
    {
        let mut reply: Vec<u8> = vec![SOCKS_VERSION, 0u8, 0u8];
        proof {
            assert(reply@ =~= seq![SOCKS_VERSION, 0u8, 0u8]);
        }
        put_socks5_addr(&mut reply, local_addr);
        reply
    }
}

/// The state in which a session starts.
pub open spec fn spec_initial(auth: Option<Set<Credential>>) -> AcceptorView {
    AcceptorView { phase: Phase::Greeting, buf: seq![], auth, username: None }
}

/// The state after feeding `inputs` one after the other from `s`; an input
/// of another length than the one awaited is not taken.
pub open spec fn spec_run(s: AcceptorView, inputs: Seq<Seq<u8>>) -> AcceptorView
    decreases inputs.len(),
{
    if inputs.len() == 0 {
        s
    } else {
        let before = spec_run(s, inputs.drop_last());
        if spec_expected(before) == Some(inputs.last().len()) {
            spec_step(before, inputs.last()).0
        } else {
            before
        }
    }
}

/// The phases in which the client may send its request.
pub open spec fn spec_past_authentication(p: Phase) -> bool {
    p == Phase::Request || p == Phase::RequestRest || p == Phase::Done
}

/// Under credentials, a session past authentication names an account whose
/// credential was accepted.
pub open spec fn spec_authenticated(s: AcceptorView) -> bool {
    match s.auth {
        Some(creds) => spec_past_authentication(s.phase) ==> match s.username {
            Some(u) => exists|p: Seq<char>| creds.contains((u, p)),
            None => false,
        },
        None => true,
    }
}

/// The credential that a complete username/password sub-negotiation carries,
/// when both parts are valid UTF-8.
pub open spec fn spec_offered_credential(buf: Seq<u8>) -> Option<Credential> {
    if vstd::utf8::valid_utf8(spec_username_bytes(buf)) && vstd::utf8::valid_utf8(
        spec_password_bytes(buf),
    ) {
        Some(
            (
                vstd::utf8::decode_utf8(spec_username_bytes(buf)),
                vstd::utf8::decode_utf8(spec_password_bytes(buf)),
            ),
        )
    } else {
        None
    }
}

/// A step moves a session past authentication only from the method
/// negotiation, when no credentials are configured and the client offers
/// "no authentication", or from the username/password sub-negotiation, when
/// the username and password it carries are an accepted credential; and it
/// keeps a session that is past authentication there or ends it.
pub proof fn law_no_request_without_authentication(s: AcceptorView, input: Seq<u8>)
    requires
        spec_wf(s),
        spec_expected(s) == Some(input.len()),
        !spec_past_authentication(s.phase),
        spec_past_authentication(spec_step(s, input).0.phase),
    ensures
        match s.auth {
            None => s.phase == Phase::Methods && input.contains(METHOD_NO_AUTH),
            Some(creds) => s.phase == Phase::UserPassPassword && match spec_offered_credential(
                s.buf + input,
            ) {
                Some(c) => creds.contains(c),
                None => false,
            },
        },
{
}

proof fn lemma_step_keeps_authenticated(s: AcceptorView, input: Seq<u8>)
    requires
        spec_authenticated(s),
    ensures
        spec_authenticated(spec_step(s, input).0),
{
    let t = spec_step(s, input).0;
    if s.phase == Phase::UserPassPassword && t.phase == Phase::Request {
        let buf = s.buf + input;
        let word = vstd::utf8::decode_utf8(spec_password_bytes(buf));
        assert(t.auth->0.contains((t.username->0, word)));
    }
    if s.auth is Some && spec_past_authentication(s.phase) && spec_past_authentication(t.phase) {
        assert(t.username == s.username);
    }
}

/// Under credentials, whatever bytes a client sends, a session that reaches
/// its request names an account, and that account's credential is one that
/// the server accepts.
pub proof fn law_request_needs_accepted_credential(creds: Set<Credential>, inputs: Seq<Seq<u8>>)
    ensures
        spec_authenticated(spec_run(spec_initial(Some(creds)), inputs)),
    decreases inputs.len(),
{
    if inputs.len() > 0 {
        law_request_needs_accepted_credential(creds, inputs.drop_last());
        let before = spec_run(spec_initial(Some(creds)), inputs.drop_last());
        lemma_step_keeps_authenticated(before, inputs.last());
    }
}

/// Method negotiation looks at every offered method: when the method the
/// server needs (0x00 without credentials, 0x02 with them) stands anywhere
/// in the client's list, the server replies with version 5 and that method
/// and goes on, to the request (awaiting 5 bytes) without credentials and to
/// the username/password sub-negotiation (awaiting 2 bytes) with them; when
/// it stands nowhere, the server replies that no method is acceptable and
/// the session ends.
pub proof fn law_offered_method_is_selected(s: AcceptorView, input: Seq<u8>)
    requires
        s.phase == Phase::Methods,
    ensures
        ({
            let needed: u8 = if s.auth is Some {
                2u8
            } else {
                0u8
            };
            let (t, r) = spec_step(s, input);
            &&& (exists|k: int| 0 <= k < input.len() && input[k] == needed) ==> {
                &&& r.reply == seq![5u8, needed]
                &&& !(r.next is Fail)
                &&& r.next == Next::Read(if s.auth is Some { 2usize } else { 5usize })
                &&& t.phase == (if s.auth is Some { Phase::UserPassHeader } else { Phase::Request })
            }
            &&& (forall|k: int| 0 <= k < input.len() ==> input[k] != needed) ==> {
                &&& r.reply == seq![5u8, 0xffu8]
                &&& r.next == Next::Fail(Error::NoSupportedAuthMethod)
            }
        }),
{
    let needed: u8 = if s.auth is Some {
        2u8
    } else {
        0u8
    };
    if exists|k: int| 0 <= k < input.len() && input[k] == needed {
        let k = choose|k: int| 0 <= k < input.len() && input[k] == needed;
        assert(input.contains(needed));
    }
}

} // verus!
