use crate::config::{copy_strs, strs, Clients, ClientsView, ServiceAccount};
use crate::index::{Authz, ServerSelector};
use crate::labels::Selector;
use vstd::prelude::*;

verus! {

/// The name of an Authorization.
pub struct Name(pub String);

/// An Authorization resource: its namespace, its name and its spec.
pub struct Authorization {
    pub ns: String,
    pub name: String,
    pub spec: AuthorizationSpec,
}

/// Authorizes clients to connect to a Server.
pub struct AuthorizationSpec {
    pub server: Server,
    pub client: Client,
}

/// The servers an authorization targets: by name, or by label selector.
pub struct Server {
    pub name: Option<String>,
    pub selector: Option<Selector>,
}

/// Describes the clients that an authorization admits.
pub struct Client {
    pub cidrs: Option<Vec<String>>,
    pub unauthenticated: Option<bool>,
    /// Identities that are authorized to access a server.
    pub identities: Option<Vec<String>>,
    /// Service accounts authorized to access a server.
    pub service_accounts: Option<Vec<ServiceAccountRef>>,
}

/// References a service account; without a namespace, the authorization's
/// own namespace is meant.
pub struct ServiceAccountRef {
    pub namespace: Option<String>,
    pub name: String,
}

/// Why an Authorization resource cannot be indexed.
#[derive(Clone, Copy, Debug, PartialEq, Eq, Structural)]
pub enum SchemaError {
    /// The resource names no target server and gives no selector.
    NoServerTarget,
    /// The resource gives both a server name and a selector.
    AmbiguousServerTarget,
}

impl Name {
    /// The name of an Authorization resource.
    pub fn from_resource(a: &Authorization) -> (r: Name)
        ensures
            r.0@ == a.name@,
    {
        Name(a.name.clone())
    }

    /// The name as a string.
    pub fn to_string(&self) -> (r: String)
        ensures
            r@ == self.0@,
    {
        self.0.clone()
    }
}

/// The referenced accounts, as (namespace, name), in namespace `ns`.
pub open spec fn resolved_accounts(refs: Seq<ServiceAccountRef>, ns: Seq<char>) -> Seq<
    (Seq<char>, Seq<char>),
> {
    refs.map_values(
        |r: ServiceAccountRef|
            (
                match r.namespace {
                    Some(n) => n@,
                    None => ns,
                },
                r.name@,
            ),
    )
}

/// The networks an unauthenticated client spec without CIDRs admits: all of them.
pub open spec fn all_networks() -> Seq<Seq<char>> {
    seq!["0.0.0.0/0"@, "::/0"@]
}

/// The clients that a client spec of namespace `ns` admits.
pub open spec fn clients_of(c: Client, ns: Seq<char>) -> ClientsView {
    if c.unauthenticated == Some(true) {
        ClientsView::Unauthenticated(
            match c.cidrs {
                Some(v) => strs(v@),
                None => all_networks(),
            },
        )
    } else {
        ClientsView::Authenticated {
            service_accounts: match c.service_accounts {
                Some(v) => resolved_accounts(v@, ns),
                None => Seq::empty(),
            },
            identities: match c.identities {
                Some(v) => strs(v@),
                None => Seq::empty(),
            },
            suffixes: Seq::empty(),
        }
    }
}

/// The service accounts of the references, resolved against namespace `ns`.
pub fn resolve_accounts(refs: &Vec<ServiceAccountRef>, ns: &String) -> (r: Vec<ServiceAccount>)
    ensures
        crate::config::accounts(r@) == resolved_accounts(refs@, ns@),
{
    let mut r: Vec<ServiceAccount> = Vec::new();
    let mut i: usize = 0;
    while i < refs.len()
        invariant
            0 <= i <= refs.len(),
            r@.len() == i,
            forall|m: int|
                0 <= m < i ==> (#[trigger] r@[m]).ns@ == (match refs@[m].namespace {
                    Some(n) => n@,
                    None => ns@,
                }) && r@[m].name@ == refs@[m].name@,
        decreases refs.len() - i,
    {
        let account_ns = match &refs[i].namespace {
            Some(n) => n.clone(),
            None => ns.clone(),
        };
        r.push(ServiceAccount { ns: account_ns, name: refs[i].name.clone() });
        i += 1;
    }
    assert(crate::config::accounts(r@) =~= resolved_accounts(refs@, ns@));
    r
}

impl Client {
    /// The clients this spec admits, in namespace `ns`.
    pub fn to_clients(&self, ns: &String) -> (r: Clients)
        ensures
            r@ == clients_of(*self, ns@),
    {
        if self.unauthenticated == Some(true) {
            let nets = match &self.cidrs {
                Some(v) => copy_strs(v),
                None => {
                    let mut all: Vec<String> = Vec::new();
                    all.push(String::from_str("0.0.0.0/0"));
                    all.push(String::from_str("::/0"));
                    assert(strs(all@) =~= all_networks());
                    all
                },
            };
            Clients::Unauthenticated(nets)
        } else {
            let service_accounts = match &self.service_accounts {
                Some(v) => resolve_accounts(v, ns),
                None => {
                    let e: Vec<ServiceAccount> = Vec::new();
                    assert(crate::config::accounts(e@) =~= Seq::empty());
                    e
                },
            };
            let identities = match &self.identities {
                Some(v) => copy_strs(v),
                None => {
                    let e: Vec<String> = Vec::new();
                    assert(strs(e@) =~= Seq::empty());
                    e
                },
            };
            let suffixes: Vec<String> = Vec::new();
            assert(strs(suffixes@) =~= Seq::empty());
            Clients::Authenticated { service_accounts, identities, suffixes }
        }
    }
}

impl Authorization {
    /// The authorization that the index keeps of this resource: its target is
    /// the server name or the selector, whichever of the two is given.
    pub fn to_authz(self) -> (r: Result<Authz, SchemaError>)
        ensures
            self.spec.server.name is None && self.spec.server.selector is None ==> r == Err::<
                Authz,
                SchemaError,
            >(SchemaError::NoServerTarget),
            self.spec.server.name is Some && self.spec.server.selector is Some ==> r == Err::<
                Authz,
                SchemaError,
            >(SchemaError::AmbiguousServerTarget),
            self.spec.server.name is Some != self.spec.server.selector is Some ==> r is Ok,
            r is Ok ==> ({
                let a = r->Ok_0;
                &&& a.ns@ == self.ns@
                &&& a.name@ == self.name@
                &&& a.clients@ == clients_of(self.spec.client, self.ns@)
                &&& match self.spec.server.name {
                    Some(n) => a.target is Name && a.target->Name_0@ == n@,
                    None => a.target is Selector && a.target->Selector_0 == self.spec.server.selector->0,
                }
            }),
    {
        let clients = self.spec.client.to_clients(&self.ns);
        let target = match (self.spec.server.name, self.spec.server.selector) {
            (None, None) => {
                return Err(SchemaError::NoServerTarget);
            },
            (Some(_), Some(_)) => {
                return Err(SchemaError::AmbiguousServerTarget);
            },
            (Some(n), None) => ServerSelector::Name(n),
            (None, Some(sel)) => ServerSelector::Selector(sel),
        };
        Ok(Authz { ns: self.ns, name: self.name, target, clients })
    }
}

} // verus!
