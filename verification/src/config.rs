//! The proxy's configuration and the rule sets built from it: the credentials
//! that username/password authentication accepts and the access rules that
//! decide which target addresses a client may reach.

use vstd::prelude::*;

use crate::net::{IpAddress, IpNetwork, SocketAddress};

verus! {

/// The whole configuration of a server.
pub struct AppConfig {
    pub listen: SocketAddress,
    pub auth: AuthConfig,
    pub access: AccessConfig,
    pub log: LogConfig,
}

/// The accounts that may use the proxy; none means no authentication.
pub struct AuthConfig {
    pub users: Vec<UserEntry>,
}

/// One account.
pub struct UserEntry {
    pub username: String,
    pub password: String,
}

/// Where logs go and how long and how large they grow.
pub struct LogConfig {
    pub dir: String,
    pub retention_days: u64,
    pub max_file_size_mb: u64,
}

/// The access rules as configured.
pub struct AccessConfig {
    pub mode: AccessMode,
    pub allow_domains: bool,
    pub ips: Vec<IpAddress>,
    pub cidrs: Vec<IpNetwork>,
}

/// Whether the listed targets are the denied ones or the only allowed ones.
#[derive(Clone, Copy, Debug, PartialEq, Eq, Structural)]
pub enum AccessMode {
    Blacklist,
    Whitelist,
}

/// The credentials that username/password authentication accepts.
pub struct AuthState {
    users: Vec<UserEntry>,
}

/// The access rules in force.
pub struct AccessState {
    mode: AccessMode,
    allow_domains: bool,
    ips: Vec<IpAddress>,
    cidrs: Vec<IpNetwork>,
}

/// A credential as the contracts speak of it: username and password.
pub type Credential = (Seq<char>, Seq<char>);

/// The access rules as the contracts speak of them.
pub struct AccessRules {
    pub mode: AccessMode,
    pub allow_domains: bool,
    pub ips: Set<IpAddress>,
    pub cidrs: Seq<IpNetwork>,
}

impl View for UserEntry {
    type V = Credential;

    open spec fn view(&self) -> Credential {
        (self.username@, self.password@)
    }
}

/// The credentials of a list of accounts.
pub open spec fn credentials(users: Seq<UserEntry>) -> Set<Credential> {
    users.map_values(|u: UserEntry| u@).to_set()
}

/// An IP address is matched by the rules when it is listed or lies in a listed network.
pub open spec fn spec_matched(ips: Set<IpAddress>, cidrs: Seq<IpNetwork>, ip: IpAddress) -> bool {
    ips.contains(ip) || exists|i: int| 0 <= i < cidrs.len() && #[trigger] cidrs[i].spec_contains(ip)
}

/// A blacklist denies the matched addresses; a whitelist denies all others.
pub open spec fn spec_denied_by(mode: AccessMode, matched: bool) -> bool {
    match mode {
        AccessMode::Blacklist => matched,
        AccessMode::Whitelist => !matched,
    }
}

impl AccessRules {
    /// Whether these rules deny `ip`.
    pub open spec fn denies(&self, ip: IpAddress) -> bool {
        spec_denied_by(self.mode, spec_matched(self.ips, self.cidrs, ip))
    }
}

/// The value that `LogConfig::dir` takes when the configuration leaves it out.
pub fn default_log_dir() -> (r: String)
    ensures
        r@ == "logs"@,
{
    String::from_str("logs")
}

/// The value that `LogConfig::retention_days` takes when the configuration leaves it out.
pub fn default_retention_days() -> (r: u64)
    ensures
        r == 7,
{
    7
}

/// The value that `LogConfig::max_file_size_mb` takes when the configuration leaves it out.
pub fn default_max_file_size_mb() -> (r: u64)
    ensures
        r == 100,
{
    100
}

impl Default for LogConfig {
    fn default() -> (r: Self)
        ensures
            r.dir@ == "logs"@,
            r.retention_days == 7,
            r.max_file_size_mb == 100,
    {
        LogConfig {
            dir: default_log_dir(),
            retention_days: default_retention_days(),
            max_file_size_mb: default_max_file_size_mb(),
        }
    }
}

impl Default for AccessMode {
    fn default() -> (r: Self)
        ensures
            r == AccessMode::Blacklist,
    {
        AccessMode::Blacklist
    }
}

impl Default for AuthConfig {
    fn default() -> (r: Self)
        ensures
            r.users@.len() == 0,
    {
        AuthConfig { users: Vec::new() }
    }
}

impl Default for AccessConfig {
    fn default() -> (r: Self)
        ensures
            r.mode == AccessMode::Blacklist,
            !r.allow_domains,
            r.ips@.len() == 0,
            r.cidrs@.len() == 0,
    {
        AccessConfig { mode: AccessMode::Blacklist, allow_domains: false, ips: Vec::new(), cidrs: Vec::new() }
    }
}

impl Clone for UserEntry {
    fn clone(&self) -> (r: Self)
        ensures
            r@ == self@,
    {
        UserEntry { username: self.username.clone(), password: self.password.clone() }
    }
}

impl AuthConfig {
    /// The credentials of the configured accounts.
    pub open spec fn spec_credentials(&self) -> Set<Credential> {
        credentials(self.users@)
    }

    /// The credential check in force: none when no account is configured,
    /// else one that accepts exactly the configured credentials.
    pub fn to_state(&self) -> (r: Option<AuthState>)
        ensures
            r is None <==> self.users@.len() == 0,
            r matches Some(s) ==> s@ == self.spec_credentials(),
    {
        if self.users.len() == 0 {
            return None;
        }
        let mut users: Vec<UserEntry> = Vec::new();
        let n = self.users.len();
        for i in 0..n
            invariant
                n == self.users@.len(),
                no_duplicate_credentials(users@),
                credentials(users@) == credentials(self.users@.subrange(0, i as int)),
        {
            let ghost before = users@;
            let u = &self.users[i];
            if !has_credential(&users, u.username.as_str(), u.password.as_str()) {
                users.push(u.clone());
                proof {
                    lemma_credentials_push(before, users@[users@.len() - 1]);
                    assert forall|j: int| 0 <= j < before.len() implies before[j]@ != u@ by {
                        lemma_credential_member(before, j);
                    }
                }
            }
            proof {
                lemma_credentials_push(self.users@.subrange(0, i as int), self.users@[i as int]);
                assert(self.users@.subrange(0, i + 1) =~= self.users@.subrange(0, i as int).push(
                    self.users@[i as int],
                ));
            }
        }
        proof {
            assert(self.users@.subrange(0, n as int) =~= self.users@);
            lemma_credentials_nonempty(self.users@);
            lemma_credential_member(self.users@, 0);
            if users@.len() == 0 {
                assert(users@.map_values(|x: UserEntry| x@) =~= Seq::<Credential>::empty());
            }
        }
        Some(AuthState { users })
    }
}

/// No two accounts carry the same credential.
pub open spec fn no_duplicate_credentials(users: Seq<UserEntry>) -> bool {
    forall|i: int, j: int| 0 <= i < j < users.len() ==> #[trigger] users[i]@ != #[trigger] users[j]@
}

proof fn lemma_credentials_push(users: Seq<UserEntry>, u: UserEntry)
    ensures
        credentials(users.push(u)) == credentials(users).insert(u@),
{
    let f = |x: UserEntry| x@;
    assert(users.push(u).map_values(f) =~= users.map_values(f).push(u@));
    assert(users.map_values(f).push(u@).to_set() =~= users.map_values(f).to_set().insert(u@)) by {
        let s = users.map_values(f);
        assert forall|c: Credential| s.push(u@).to_set().contains(c) <==> s.to_set().insert(u@).contains(c) by {
            if s.push(u@).contains(c) {
                let k = choose|k: int| 0 <= k < s.push(u@).len() && s.push(u@)[k] == c;
                if k < s.len() {
                    assert(s[k] == c);
                }
            }
            if s.contains(c) {
                let k = choose|k: int| 0 <= k < s.len() && s[k] == c;
                assert(s.push(u@)[k] == c);
            }
            if c == u@ {
                assert(s.push(u@)[s.len() as int] == c);
            }
        }
    }
}

proof fn lemma_credential_member(users: Seq<UserEntry>, j: int)
    requires
        0 <= j < users.len(),
    ensures
        credentials(users).contains(users[j]@),
{
    let s = users.map_values(|x: UserEntry| x@);
    assert(s[j] == users[j]@);
}

proof fn lemma_credentials_nonempty(users: Seq<UserEntry>)
    requires
        users.len() > 0,
    ensures
        credentials(users).len() > 0,
        credentials(users).finite(),
{
    let s = users.map_values(|x: UserEntry| x@);
    assert(s[0] == users[0]@);
    assert(s.to_set().contains(users[0]@));
    vstd::seq_lib::seq_to_set_is_finite(s);
    vstd::set_lib::lemma_set_empty_equivalency_len(s.to_set());
    if s.to_set().len() == 0 {
        assert(!Set::<Credential>::empty().contains(users[0]@));
    }
}

/// Whether one of `users` carries the credential (`username`, `password`).
fn has_credential(users: &Vec<UserEntry>, username: &str, password: &str) -> (r: bool)
    ensures
        r == credentials(users@).contains((username@, password@)),
{
    let name = String::from_str(username);
    let pass = String::from_str(password);
    let n = users.len();
    for i in 0..n
        invariant
            n == users@.len(),
            name@ == username@,
            pass@ == password@,
            forall|k: int| 0 <= k < i ==> #[trigger] users@[k]@ != (username@, password@),
    {
        if users[i].username == name && users[i].password == pass {
            proof {
                let s = users@.map_values(|x: UserEntry| x@);
                assert(s[i as int] == (username@, password@));
            }
            return true;
        }
    }
    proof {
        let s = users@.map_values(|x: UserEntry| x@);
        if s.to_set().contains((username@, password@)) {
            let k = choose|k: int| 0 <= k < s.len() && s[k] == (username@, password@);
            assert(users@[k]@ == s[k]);
        }
    }
    false
}

impl View for AuthState {
    type V = Set<Credential>;

    closed spec fn view(&self) -> Set<Credential> {
        credentials(self.users@)
    }
}

impl AuthState {
    #[verifier::type_invariant]
    closed spec fn inv(&self) -> bool {
        &&& self.users@.len() > 0
        &&& no_duplicate_credentials(self.users@)
    }

    /// Whether (`username`, `password`) is one of the accepted credentials.
    pub fn verify(&self, username: &str, password: &str) -> (r: bool)
        ensures
            r == self@.contains((username@, password@)),
    {
        has_credential(&self.users, username, password)
    }
}

impl Clone for AuthState {
    fn clone(&self) -> (r: Self)
        ensures
            r@ == self@,
    {
        proof {
            use_type_invariant(self);
        }
        let mut users: Vec<UserEntry> = Vec::new();
        let n = self.users.len();
        for i in 0..n
            invariant
                n == self.users@.len(),
                users@.len() == i,
                forall|k: int| 0 <= k < i ==> #[trigger] users@[k]@ == self.users@[k]@,
        {
            users.push(self.users[i].clone());
        }
        proof {
            let f = |x: UserEntry| x@;
            assert(users@.map_values(f) =~= self.users@.map_values(f));
        }
        AuthState { users }
    }
}

impl AccessConfig {
    /// Every configured network has a prefix length that fits its family.
    pub open spec fn wf(&self) -> bool {
        forall|i: int| 0 <= i < self.cidrs@.len() ==> #[trigger] self.cidrs@[i].wf()
    }

    /// The rules that this configuration describes.
    pub open spec fn spec_rules(&self) -> AccessRules {
        AccessRules {
            mode: self.mode,
            allow_domains: self.allow_domains,
            ips: self.ips@.to_set(),
            cidrs: self.cidrs@,
        }
    }

    /// Whether this configuration restricts nothing: an empty blacklist that
    /// does not forward domain names either way.
    pub open spec fn spec_unrestricted(&self) -> bool {
        &&& self.ips@.len() == 0
        &&& self.cidrs@.len() == 0
        &&& !self.allow_domains
        &&& self.mode == AccessMode::Blacklist
    }

    /// The access rules in force: none for an empty blacklist without domain
    /// forwarding, else the configured rules.
    pub fn to_state(&self) -> (r: Option<AccessState>)
        requires
            self.wf(),
        ensures
            r is None <==> self.spec_unrestricted(),
            r matches Some(s) ==> s@ == self.spec_rules(),
    {
        if self.ips.len() == 0 && self.cidrs.len() == 0 && !self.allow_domains && self.mode
            == AccessMode::Blacklist {
            return None;
        }
        let mut ips: Vec<IpAddress> = Vec::new();
        let n = self.ips.len();
        for i in 0..n
            invariant
                n == self.ips@.len(),
                ips@.no_duplicates(),
                ips@.to_set() == self.ips@.subrange(0, i as int).to_set(),
        {
            let ip = self.ips[i];
            let ghost before = ips@;
            if !contains_ip(&ips, &ip) {
                ips.push(ip);
                proof {
                    before.lemma_push_to_set_commute(ip);
                }
            }
            proof {
                let prefix = self.ips@.subrange(0, i as int);
                assert(self.ips@.subrange(0, i + 1) =~= prefix.push(ip));
                prefix.lemma_push_to_set_commute(ip);
                assert(ips@.to_set() =~= before.to_set().insert(ip));
            }
        }
        let mut cidrs: Vec<IpNetwork> = Vec::new();
        let m = self.cidrs.len();
        for j in 0..m
            invariant
                m == self.cidrs@.len(),
                cidrs@ == self.cidrs@.subrange(0, j as int),
        {
            cidrs.push(self.cidrs[j]);
            proof {
                assert(cidrs@ =~= self.cidrs@.subrange(0, j + 1));
            }
        }
        proof {
            assert(self.ips@.subrange(0, n as int) =~= self.ips@);
            assert(self.cidrs@.subrange(0, m as int) =~= self.cidrs@);
        }
        Some(AccessState { mode: self.mode, allow_domains: self.allow_domains, ips, cidrs })
    }
}

/// Whether `ips` holds `ip`.
fn contains_ip(ips: &Vec<IpAddress>, ip: &IpAddress) -> (r: bool)
    ensures
        r == ips@.contains(*ip),
{
    let n = ips.len();
    for i in 0..n
        invariant
            n == ips@.len(),
            forall|k: int| 0 <= k < i ==> ips@[k] != *ip,
    {
        if ips[i] == *ip {
            return true;
        }
    }
    false
}

impl View for AccessState {
    type V = AccessRules;

    closed spec fn view(&self) -> AccessRules {
        AccessRules {
            mode: self.mode,
            allow_domains: self.allow_domains,
            ips: self.ips@.to_set(),
            cidrs: self.cidrs@,
        }
    }
}

impl AccessState {
    #[verifier::type_invariant]
    closed spec fn inv(&self) -> bool {
        &&& self.ips@.no_duplicates()
        &&& forall|i: int| 0 <= i < self.cidrs@.len() ==> #[trigger] self.cidrs@[i].wf()
    }

    /// The networks of these rules all have a prefix length that fits their family.
    pub open spec fn spec_networks_wf(rules: AccessRules) -> bool {
        forall|i: int| 0 <= i < rules.cidrs.len() ==> #[trigger] rules.cidrs[i].wf()
    }

    /// Whether a target given by a domain name may be forwarded.
    pub fn allow_domains(&self) -> (r: bool)
        ensures
            r == self@.allow_domains,
    {
        self.allow_domains
    }

    /// Whether the rules deny a connection to `ip`: a blacklist denies the
    /// listed addresses and networks, a whitelist everything else.
    pub fn is_denied(&self, ip: IpAddress) -> (r: bool)
        ensures
            r == self@.denies(ip),
    {
        proof {
            use_type_invariant(self);
        }
        let matched = contains_ip(&self.ips, &ip) || self.any_network_contains(&ip);
        match self.mode {
            AccessMode::Blacklist => matched,
            AccessMode::Whitelist => !matched,
        }
    }

    fn any_network_contains(&self, ip: &IpAddress) -> (r: bool)
        requires
            forall|i: int| 0 <= i < self.cidrs@.len() ==> #[trigger] self.cidrs@[i].wf(),
        ensures
            r == exists|i: int| 0 <= i < self.cidrs@.len() && #[trigger] self.cidrs@[i].spec_contains(*ip),
    {
        let n = self.cidrs.len();
        for i in 0..n
            invariant
                n == self.cidrs@.len(),
                forall|i: int| 0 <= i < self.cidrs@.len() ==> #[trigger] self.cidrs@[i].wf(),
                forall|k: int| 0 <= k < i ==> !(#[trigger] self.cidrs@[k]).spec_contains(*ip),
        {
            if self.cidrs[i].contains(ip) {
                return true;
            }
        }
        false
    }
}

impl Clone for AccessState {
    fn clone(&self) -> (r: Self)
        ensures
            r@ == self@,
    {
        proof {
            use_type_invariant(self);
        }
        let mut ips: Vec<IpAddress> = Vec::new();
        let n = self.ips.len();
        for i in 0..n
            invariant
                n == self.ips@.len(),
                ips@ == self.ips@.subrange(0, i as int),
        {
            ips.push(self.ips[i]);
            proof {
                assert(ips@ =~= self.ips@.subrange(0, i + 1));
            }
        }
        let mut cidrs: Vec<IpNetwork> = Vec::new();
        let m = self.cidrs.len();
        for j in 0..m
            invariant
                m == self.cidrs@.len(),
                cidrs@ == self.cidrs@.subrange(0, j as int),
        {
            cidrs.push(self.cidrs[j]);
            proof {
                assert(cidrs@ =~= self.cidrs@.subrange(0, j + 1));
            }
        }
        proof {
            assert(ips@ =~= self.ips@);
            assert(cidrs@ =~= self.cidrs@);
        }
        AccessState { mode: self.mode, allow_domains: self.allow_domains, ips, cidrs }
    }
}

/// A configuration for which `AccessConfig::to_state` builds no rules (an
/// empty blacklist without domain forwarding) would deny no address anyway, so
/// leaving the rules out changes no decision.
pub proof fn law_unrestricted_access_denies_nothing(config: AccessConfig, ip: IpAddress)
    requires
        config.spec_unrestricted(),
    ensures
        !config.spec_rules().denies(ip),
{
    assert(config.ips@.to_set() =~= Set::<IpAddress>::empty());
}

/// With the same lists, a whitelist denies exactly the addresses that a
/// blacklist allows.
pub proof fn law_whitelist_denies_what_blacklist_allows(
    allow_domains: bool,
    ips: Set<IpAddress>,
    cidrs: Seq<IpNetwork>,
    ip: IpAddress,
)
    ensures
        (AccessRules { mode: AccessMode::Whitelist, allow_domains, ips, cidrs }).denies(ip) == !(
        AccessRules { mode: AccessMode::Blacklist, allow_domains, ips, cidrs }).denies(ip),
{
}

/// A whitelist that lists nothing denies every address.
pub proof fn law_empty_whitelist_denies_everything(allow_domains: bool, ip: IpAddress)
    ensures
        (AccessRules {
            mode: AccessMode::Whitelist,
            allow_domains,
            ips: Set::empty(),
            cidrs: Seq::empty(),
        }).denies(ip),
{
}

/// The credential check built from a configuration accepts a username and
/// password exactly when some configured account has both.
pub proof fn law_configured_accounts_are_accepted(config: AuthConfig, username: Seq<char>, password: Seq<char>)
    ensures
        config.spec_credentials().contains((username, password)) <==> exists|i: int|
            0 <= i < config.users@.len() && (#[trigger] config.users@[i]).username@ == username
                && config.users@[i].password@ == password,
{
    let s = config.users@.map_values(|x: UserEntry| x@);
    if config.spec_credentials().contains((username, password)) {
        let k = choose|k: int| 0 <= k < s.len() && s[k] == (username, password);
        assert(config.users@[k]@ == s[k]);
    }
    if exists|i: int|
        0 <= i < config.users@.len() && (#[trigger] config.users@[i]).username@ == username
            && config.users@[i].password@ == password {
        let i = choose|i: int|
            0 <= i < config.users@.len() && (#[trigger] config.users@[i]).username@ == username
                && config.users@[i].password@ == password;
        assert(s[i] == (username, password));
    }
}

/// Every listed address is matched, of either family: a blacklist denies
/// each address on its list and a whitelist allows each address on its
/// list, whatever the networks.
pub proof fn law_listed_address_is_matched(rules: AccessRules, ip: IpAddress)
    requires
        rules.ips.contains(ip),
    ensures
        rules.mode == AccessMode::Blacklist ==> rules.denies(ip),
        rules.mode == AccessMode::Whitelist ==> !rules.denies(ip),
{
}

/// The rules built from a configuration deny a listed address under a
/// blacklist and allow it under a whitelist.
pub proof fn law_configured_address_decides(config: AccessConfig, ip: IpAddress)
    requires
        config.ips@.contains(ip),
    ensures
        config.mode == AccessMode::Blacklist ==> config.spec_rules().denies(ip),
        config.mode == AccessMode::Whitelist ==> !config.spec_rules().denies(ip),
{
    assert(config.spec_rules().ips.contains(ip));
}

} // verus!
