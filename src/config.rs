use vstd::prelude::*;

verus! {

/// The detect timeout, in milliseconds, when a server gives no protocol hint.
pub const DEFAULT_DETECT_TIMEOUT_MS: u64 = 5000;

/// How the proxy treats the traffic of a port.
#[derive(Clone, Copy, Debug, PartialEq, Eq, Structural)]
pub enum ProxyProtocol {
    Detect { timeout_ms: u64 },
    Http1,
    Http2,
    Grpc,
    Opaque,
    Tls,
}

/// The protocol hint that a Server resource may carry.
#[derive(Clone, Copy, Debug, PartialEq, Eq, Structural)]
pub enum ProxyProtocolHint {
    Unknown,
    Http1,
    Http2,
    Grpc,
    Opaque,
    Tls,
}

/// The protocol that a server's hint asks for.
pub open spec fn spec_protocol(p: Option<ProxyProtocolHint>) -> ProxyProtocol {
    match p {
        None | Some(ProxyProtocolHint::Unknown) => ProxyProtocol::Detect {
            timeout_ms: DEFAULT_DETECT_TIMEOUT_MS,
        },
        Some(ProxyProtocolHint::Http1) => ProxyProtocol::Http1,
        Some(ProxyProtocolHint::Http2) => ProxyProtocol::Http2,
        Some(ProxyProtocolHint::Grpc) => ProxyProtocol::Grpc,
        Some(ProxyProtocolHint::Opaque) => ProxyProtocol::Opaque,
        Some(ProxyProtocolHint::Tls) => ProxyProtocol::Tls,
    }
}

/// The protocol of a server's config: an absent or unknown hint detects with
/// the default timeout.
pub fn mk_protocol(p: Option<&ProxyProtocolHint>) -> (r: ProxyProtocol)
    ensures
        r == spec_protocol(
            match p {
                Some(h) => Some(*h),
                None => None,
            },
        ),
{
    match p {
        None | Some(ProxyProtocolHint::Unknown) => ProxyProtocol::Detect {
            timeout_ms: DEFAULT_DETECT_TIMEOUT_MS,
        },
        Some(ProxyProtocolHint::Http1) => ProxyProtocol::Http1,
        Some(ProxyProtocolHint::Http2) => ProxyProtocol::Http2,
        Some(ProxyProtocolHint::Grpc) => ProxyProtocol::Grpc,
        Some(ProxyProtocolHint::Opaque) => ProxyProtocol::Opaque,
        Some(ProxyProtocolHint::Tls) => ProxyProtocol::Tls,
    }
}

/// A service account, resolved to its namespace.
pub struct ServiceAccount {
    pub ns: String,
    pub name: String,
}

/// Which clients an authorization admits.
pub enum Clients {
    /// Any client from one of these networks (CIDR strings).
    Unauthenticated(Vec<String>),
    /// Clients with a TLS identity that names one of the service accounts, is
    /// one of the identities, or ends in one of the DNS suffixes.
    Authenticated {
        service_accounts: Vec<ServiceAccount>,
        identities: Vec<String>,
        suffixes: Vec<String>,
    },
}

/// One authorization of a server's config: its name and its clients.
pub struct AuthzConfig {
    pub name: String,
    pub clients: Clients,
}

/// The policy that the proxy applies to one inbound port.
pub struct InboundServerConfig {
    pub protocol: ProxyProtocol,
    pub authorizations: Vec<AuthzConfig>,
    /// Set when two or more servers claim the port.
    pub conflict: bool,
}

pub ghost enum ClientsView {
    Unauthenticated(Seq<Seq<char>>),
    Authenticated {
        service_accounts: Seq<(Seq<char>, Seq<char>)>,
        identities: Seq<Seq<char>>,
        suffixes: Seq<Seq<char>>,
    },
}

pub ghost struct ConfigView {
    pub protocol: ProxyProtocol,
    pub authorizations: Seq<(Seq<char>, ClientsView)>,
    pub conflict: bool,
}

/// The characters of each string.
pub open spec fn strs(s: Seq<String>) -> Seq<Seq<char>> {
    s.map_values(|x: String| x@)
}

/// Each service account as (namespace, name).
pub open spec fn accounts(s: Seq<ServiceAccount>) -> Seq<(Seq<char>, Seq<char>)> {
    s.map_values(|a: ServiceAccount| (a.ns@, a.name@))
}

impl View for Clients {
    type V = ClientsView;

    open spec fn view(&self) -> ClientsView {
        match self {
            Clients::Unauthenticated(nets) => ClientsView::Unauthenticated(strs(nets@)),
            Clients::Authenticated { service_accounts, identities, suffixes } =>
                ClientsView::Authenticated {
                service_accounts: accounts(service_accounts@),
                identities: strs(identities@),
                suffixes: strs(suffixes@),
            },
        }
    }
}

impl View for AuthzConfig {
    type V = (Seq<char>, ClientsView);

    open spec fn view(&self) -> (Seq<char>, ClientsView) {
        (self.name@, self.clients@)
    }
}

/// Each authorization as (name, clients).
pub open spec fn authz_views(s: Seq<AuthzConfig>) -> Seq<(Seq<char>, ClientsView)> {
    s.map_values(|a: AuthzConfig| a@)
}

impl View for InboundServerConfig {
    type V = ConfigView;

    open spec fn view(&self) -> ConfigView {
        ConfigView {
            protocol: self.protocol,
            authorizations: authz_views(self.authorizations@),
            conflict: self.conflict,
        }
    }
}

/// A copy of a list of strings.
pub fn copy_strs(v: &Vec<String>) -> (r: Vec<String>)
    ensures
        strs(r@) == strs(v@),
{
    let mut r: Vec<String> = Vec::new();
    let mut i: usize = 0;
    while i < v.len()
        invariant
            0 <= i <= v.len(),
            r@.len() == i,
            forall|m: int| 0 <= m < i ==> r@[m]@ == v@[m]@,
        decreases v.len() - i,
    {
        r.push(v[i].clone());
        i += 1;
    }
    assert(strs(r@) =~= strs(v@));
    r
}

/// Whether two lists of strings are equal.
pub fn eq_strs(a: &Vec<String>, b: &Vec<String>) -> (r: bool)
    ensures
        r == (strs(a@) == strs(b@)),
{
    if a.len() != b.len() {
        assert(strs(a@).len() != strs(b@).len());
        return false;
    }
    let mut i: usize = 0;
    while i < a.len()
        invariant
            0 <= i <= a.len(),
            a.len() == b.len(),
            forall|m: int| 0 <= m < i ==> a@[m]@ == b@[m]@,
        decreases a.len() - i,
    {
        if a[i] != b[i] {
            assert(strs(a@)[i as int] != strs(b@)[i as int]);
            return false;
        }
        i += 1;
    }
    assert(strs(a@) =~= strs(b@));
    true
}

impl ServiceAccount {
    /// A copy of the account.
    pub fn copy(&self) -> (r: ServiceAccount)
        ensures
            r.ns@ == self.ns@,
            r.name@ == self.name@,
    {
        ServiceAccount { ns: self.ns.clone(), name: self.name.clone() }
    }
}

/// A copy of a list of service accounts.
pub fn copy_accounts(v: &Vec<ServiceAccount>) -> (r: Vec<ServiceAccount>)
    ensures
        accounts(r@) == accounts(v@),
{
    let mut r: Vec<ServiceAccount> = Vec::new();
    let mut i: usize = 0;
    while i < v.len()
        invariant
            0 <= i <= v.len(),
            r@.len() == i,
            forall|m: int| 0 <= m < i ==> r@[m].ns@ == v@[m].ns@ && r@[m].name@ == v@[m].name@,
        decreases v.len() - i,
    {
        r.push(v[i].copy());
        i += 1;
    }
    assert(accounts(r@) =~= accounts(v@));
    r
}

/// Whether two lists of service accounts are equal.
pub fn eq_accounts(a: &Vec<ServiceAccount>, b: &Vec<ServiceAccount>) -> (r: bool)
    ensures
        r == (accounts(a@) == accounts(b@)),
{
    if a.len() != b.len() {
        assert(accounts(a@).len() != accounts(b@).len());
        return false;
    }
    let mut i: usize = 0;
    while i < a.len()
        invariant
            0 <= i <= a.len(),
            a.len() == b.len(),
            forall|m: int| 0 <= m < i ==> a@[m].ns@ == b@[m].ns@ && a@[m].name@ == b@[m].name@,
        decreases a.len() - i,
    {
        if a[i].ns != b[i].ns || a[i].name != b[i].name {
            assert(accounts(a@)[i as int] != accounts(b@)[i as int]);
            return false;
        }
        i += 1;
    }
    assert(accounts(a@) =~= accounts(b@));
    true
}

impl Clients {
    /// A copy of the client spec.
    pub fn copy(&self) -> (r: Clients)
        ensures
            r@ == self@,
    {
        match self {
            Clients::Unauthenticated(nets) => Clients::Unauthenticated(copy_strs(nets)),
            Clients::Authenticated { service_accounts, identities, suffixes } =>
                Clients::Authenticated {
                service_accounts: copy_accounts(service_accounts),
                identities: copy_strs(identities),
                suffixes: copy_strs(suffixes),
            },
        }
    }

    /// Structural equality of two client specs.
    pub fn same(&self, other: &Clients) -> (r: bool)
        ensures
            r == (self@ == other@),
    {
        match (self, other) {
            (Clients::Unauthenticated(a), Clients::Unauthenticated(b)) => eq_strs(a, b),
            (
                Clients::Authenticated { service_accounts: sa, identities: ia, suffixes: xa },
                Clients::Authenticated { service_accounts: sb, identities: ib, suffixes: xb },
            ) => eq_accounts(sa, sb) && eq_strs(ia, ib) && eq_strs(xa, xb),
            _ => false,
        }
    }
}

impl AuthzConfig {
    /// A copy of the authorization.
    pub fn copy(&self) -> (r: AuthzConfig)
        ensures
            r@ == self@,
    {
        AuthzConfig { name: self.name.clone(), clients: self.clients.copy() }
    }
}

impl InboundServerConfig {
    /// Structural equality of two configs.
    pub fn same(&self, other: &InboundServerConfig) -> (r: bool)
        ensures
            r == (self@ == other@),
    {
        if self.protocol != other.protocol || self.conflict != other.conflict {
            return false;
        }
        let a = &self.authorizations;
        let b = &other.authorizations;
        if a.len() != b.len() {
            assert(authz_views(a@).len() != authz_views(b@).len());
            return false;
        }
        let mut i: usize = 0;
        while i < a.len()
            invariant
                0 <= i <= a.len(),
                a.len() == b.len(),
                a@ == self.authorizations@,
                b@ == other.authorizations@,
                forall|m: int| 0 <= m < i ==> a@[m]@ == b@[m]@,
            decreases a.len() - i,
        {
            if a[i].name != b[i].name || !a[i].clients.same(&b[i].clients) {
                assert(authz_views(a@)[i as int] != authz_views(b@)[i as int]);
                return false;
            }
            i += 1;
        }
        assert(authz_views(a@) =~= authz_views(b@));
        true
    }

    /// A copy of the config.
    pub fn copy(&self) -> (r: InboundServerConfig)
        ensures
            r@ == self@,
    {
        let mut auths: Vec<AuthzConfig> = Vec::new();
        let mut i: usize = 0;
        while i < self.authorizations.len()
            invariant
                0 <= i <= self.authorizations.len(),
                auths@.len() == i,
                forall|m: int| 0 <= m < i ==> auths@[m]@ == self.authorizations@[m]@,
            decreases self.authorizations.len() - i,
        {
            auths.push(self.authorizations[i].copy());
            i += 1;
        }
        assert(authz_views(auths@) =~= authz_views(self.authorizations@));
        InboundServerConfig { protocol: self.protocol, authorizations: auths, conflict: self.conflict }
    }
}

} // verus!
