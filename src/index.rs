use crate::config::{
    authz_views, strs, AuthzConfig, Clients, ClientsView, ConfigView, InboundServerConfig,
    ProxyProtocol, DEFAULT_DETECT_TIMEOUT_MS, copy_strs, spec_protocol, mk_protocol,
    ProxyProtocolHint,
};
use crate::labels::{selector_matches, Label, Selector};
use crate::table::{table_of, Entity, Key, Table};
use vstd::prelude::*;

verus! {

/// A port that a pod's containers declare.
pub struct ContainerPort {
    pub name: Option<String>,
    pub number: u16,
}

/// A pod as the index holds it.
pub struct Pod {
    pub ns: String,
    pub name: String,
    pub labels: Vec<Label>,
    pub ports: Vec<ContainerPort>,
    /// The networks from which the node's kubelet reaches the pod.
    pub kubelet_ips: Vec<String>,
}

/// The port a server selects: a number, or the name of a container port.
pub enum Port {
    Number(u16),
    Name(String),
}

/// What the index keeps of a Server resource.
pub struct ServerMeta {
    pub labels: Vec<Label>,
    pub port: Port,
    pub pod_selector: Selector,
    pub protocol: ProxyProtocol,
}

/// A Server resource: it selects pod ports and gives their protocol.
pub struct ServerResource {
    pub ns: String,
    pub name: String,
    pub labels: Vec<Label>,
    pub port: Port,
    pub pod_selector: Selector,
    pub proxy_protocol: Option<ProxyProtocolHint>,
}

/// A server as the index holds it.
pub struct Srv {
    pub ns: String,
    pub name: String,
    pub meta: ServerMeta,
}

/// The servers that an authorization applies to.
pub enum ServerSelector {
    Name(String),
    Selector(Selector),
}

/// An authorization as the index holds it.
pub struct Authz {
    pub ns: String,
    pub name: String,
    pub target: ServerSelector,
    pub clients: Clients,
}

/// The policy of a port that no server selects.
#[derive(Clone, Copy, Debug, PartialEq, Eq, Structural)]
pub enum DefaultMode {
    AllowAll,
    DenyAll,
    AuthenticatedOnly,
    ClusterOnly,
}

impl Entity for Pod {
    open spec fn key(&self) -> Key {
        (self.ns@, self.name@)
    }

    fn ns(&self) -> (r: &String) {
        &self.ns
    }

    fn name(&self) -> (r: &String) {
        &self.name
    }
}

impl Entity for Srv {
    open spec fn key(&self) -> Key {
        (self.ns@, self.name@)
    }

    fn ns(&self) -> (r: &String) {
        &self.ns
    }

    fn name(&self) -> (r: &String) {
        &self.name
    }
}

impl Entity for Authz {
    open spec fn key(&self) -> Key {
        (self.ns@, self.name@)
    }

    fn ns(&self) -> (r: &String) {
        &self.ns
    }

    fn name(&self) -> (r: &String) {
        &self.name
    }
}

/// The server that the index builds from a Server resource.
pub open spec fn srv_of(r: ServerResource) -> Srv {
    Srv {
        ns: r.ns,
        name: r.name,
        meta: ServerMeta {
            labels: r.labels,
            port: r.port,
            pod_selector: r.pod_selector,
            protocol: spec_protocol(r.proxy_protocol),
        },
    }
}

/// The pod declares port `n`.
pub open spec fn declares(p: Pod, n: u16) -> bool {
    exists|i: int| 0 <= i < p.ports.len() && #[trigger] p.ports@[i].number == n
}

/// The server's port is `n` on pod `p`: by number, or by a container port's name.
pub open spec fn port_selects(port: Port, p: Pod, n: u16) -> bool {
    match port {
        Port::Number(m) => m == n,
        Port::Name(nm) => exists|i: int| 0 <= i < p.ports.len() && #[trigger] named_port(p, i, n, nm@),
    }
}

/// The pod's container port at position `i` has number `n` and name `nm`.
pub open spec fn named_port(p: Pod, i: int, n: u16, nm: Seq<char>) -> bool {
    &&& p.ports@[i].number == n
    &&& p.ports@[i].name is Some
    &&& p.ports@[i].name->0@ == nm
}

/// The server claims port `n` of pod `p`.
pub open spec fn selects(s: Srv, p: Pod, n: u16) -> bool {
    &&& s.ns@ == p.ns@
    &&& selector_matches(s.meta.pod_selector, p.labels@)
    &&& port_selects(s.meta.port, p, n)
}

/// How many of the servers claim port `n` of pod `p`.
pub open spec fn sel_count(s: Seq<Srv>, p: Pod, n: u16) -> nat
    decreases s.len(),
{
    if s.len() == 0 {
        0
    } else {
        sel_count(s.drop_last(), p, n) + if selects(s.last(), p, n) {
            1nat
        } else {
            0nat
        }
    }
}

/// The position of the last of the servers that claims port `n` of pod `p`.
pub open spec fn sel_last(s: Seq<Srv>, p: Pod, n: u16) -> int
    decreases s.len(),
{
    if s.len() == 0 {
        -1
    } else if selects(s.last(), p, n) {
        s.len() - 1
    } else {
        sel_last(s.drop_last(), p, n)
    }
}

/// The authorization applies to the server: same namespace, and its target
/// names the server or its selector matches the server's labels.
pub open spec fn attached(a: Authz, s: Srv) -> bool {
    &&& a.ns@ == s.ns@
    &&& match a.target {
        ServerSelector::Name(n) => n@ == s.name@,
        ServerSelector::Selector(sel) => selector_matches(sel, s.meta.labels@),
    }
}

/// `a` sorts before `b`: by character, then the shorter first.
pub open spec fn name_lt(a: Seq<char>, b: Seq<char>) -> bool
    decreases a.len(),
{
    if b.len() == 0 {
        false
    } else if a.len() == 0 {
        true
    } else if a[0] != b[0] {
        (a[0] as int) < (b[0] as int)
    } else {
        name_lt(a.skip(1), b.skip(1))
    }
}

/// Where an entry named `name` goes in `s`: after the last entry whose name
/// does not sort after it.
pub open spec fn insert_pos(s: Seq<(Seq<char>, ClientsView)>, name: Seq<char>) -> int
    decreases s.len(),
{
    if s.len() == 0 {
        0
    } else if name_lt(name, s.last().0) {
        insert_pos(s.drop_last(), name)
    } else {
        s.len() as int
    }
}

/// An insertion position lies within the sequence or just past it.
pub proof fn lemma_insert_pos_range(s: Seq<(Seq<char>, ClientsView)>, name: Seq<char>)
    ensures
        0 <= insert_pos(s, name) <= s.len(),
    decreases s.len(),
{
    if s.len() > 0 {
        lemma_insert_pos_range(s.drop_last(), name);
    }
}

/// The authorizations of the table that apply to the server, ordered by name;
/// of two with one name, the earlier in the table comes first.
pub open spec fn attached_authzs(az: Seq<Authz>, s: Srv) -> Seq<(Seq<char>, ClientsView)>
    decreases az.len(),
{
    if az.len() == 0 {
        Seq::empty()
    } else {
        let rest = attached_authzs(az.drop_last(), s);
        if attached(az.last(), s) {
            rest.insert(insert_pos(rest, az.last().name@), (az.last().name@, az.last().clients@))
        } else {
            rest
        }
    }
}

/// The config of a port that server `s` governs.
pub open spec fn server_config(az: Seq<Authz>, s: Srv) -> ConfigView {
    ConfigView { protocol: s.meta.protocol, authorizations: attached_authzs(az, s), conflict: false }
}

/// Protocol detection with the default timeout.
pub open spec fn detect_default() -> ProxyProtocol {
    ProxyProtocol::Detect { timeout_ms: DEFAULT_DETECT_TIMEOUT_MS }
}

/// The name that a synthesised default authorization carries.
pub open spec fn default_authz_name() -> Seq<char> {
    "default"@
}

/// The config of a port that no server selects, under the namespace's mode.
pub open spec fn default_config(mode: DefaultMode, cluster_nets: Seq<Seq<char>>) -> ConfigView {
    ConfigView {
        protocol: detect_default(),
        authorizations: match mode {
            DefaultMode::AllowAll => seq![
                (
                    default_authz_name(),
                    ClientsView::Unauthenticated(seq!["0.0.0.0/0"@, "::/0"@]),
                ),
            ],
            DefaultMode::DenyAll => Seq::empty(),
            DefaultMode::AuthenticatedOnly => seq![
                (
                    default_authz_name(),
                    ClientsView::Authenticated {
                        service_accounts: Seq::empty(),
                        identities: Seq::empty(),
                        suffixes: seq!["*"@],
                    },
                ),
            ],
            DefaultMode::ClusterOnly => seq![
                (default_authz_name(), ClientsView::Unauthenticated(cluster_nets)),
            ],
        },
        conflict: false,
    }
}

/// The config of a port that two or more servers claim: nothing is admitted.
pub open spec fn conflict_config() -> ConfigView {
    ConfigView { protocol: detect_default(), authorizations: Seq::empty(), conflict: true }
}

/// The config of port `n` of pod `p`.
pub open spec fn port_config(
    srvs: Seq<Srv>,
    az: Seq<Authz>,
    mode: DefaultMode,
    cluster_nets: Seq<Seq<char>>,
    p: Pod,
    n: u16,
) -> ConfigView {
    let c = sel_count(srvs, p, n);
    if c == 0 {
        default_config(mode, cluster_nets)
    } else if c == 1 {
        server_config(az, srvs[sel_last(srvs, p, n)])
    } else {
        conflict_config()
    }
}

/// `sel_last` names a claiming server exactly when some server claims the port.
pub proof fn lemma_sel_last(s: Seq<Srv>, p: Pod, n: u16)
    ensures
        sel_count(s, p, n) == 0 <==> sel_last(s, p, n) == -1,
        sel_count(s, p, n) > 0 ==> 0 <= sel_last(s, p, n) < s.len() && selects(
            s[sel_last(s, p, n)],
            p,
            n,
        ),
    decreases s.len(),
{
    if s.len() > 0 {
        lemma_sel_last(s.drop_last(), p, n);
    }
}

/// Whether pod `p` declares port `n`.
pub fn pod_declares(p: &Pod, n: u16) -> (r: bool)
    ensures
        r == declares(*p, n),
{
    let mut i: usize = 0;
    while i < p.ports.len()
        invariant
            0 <= i <= p.ports.len(),
            forall|m: int| 0 <= m < i ==> #[trigger] p.ports@[m].number != n,
        decreases p.ports.len() - i,
    {
        if p.ports[i].number == n {
            return true;
        }
        i += 1;
    }
    false
}

impl Port {
    /// Whether this port is port `n` of pod `p`.
    pub fn resolves(&self, p: &Pod, n: u16) -> (r: bool)
        ensures
            r == port_selects(*self, *p, n),
    {
        match self {
            Port::Number(m) => *m == n,
            Port::Name(nm) => has_named_port(p, n, nm),
        }
    }
}

/// Whether pod `p` has a container port numbered `n` and named `nm`.
pub fn has_named_port(p: &Pod, n: u16, nm: &String) -> (r: bool)
    ensures
        r == exists|i: int| 0 <= i < p.ports.len() && #[trigger] named_port(*p, i, n, nm@),
{
    let mut i: usize = 0;
    while i < p.ports.len()
        invariant
            0 <= i <= p.ports.len(),
            forall|m: int| 0 <= m < i ==> !#[trigger] named_port(*p, m, n, nm@),
        decreases p.ports.len() - i,
    {
        if p.ports[i].number == n {
            match &p.ports[i].name {
                Some(pn) => {
                    if *pn == *nm {
                        assert(named_port(*p, i as int, n, nm@));
                        return true;
                    }
                },
                None => {},
            }
        }
        i += 1;
    }
    false
}

impl Srv {
    /// Whether this server claims port `n` of pod `p`.
    pub fn selects(&self, p: &Pod, n: u16) -> (r: bool)
        ensures
            r == selects(*self, *p, n),
    {
        self.ns == p.ns && self.meta.pod_selector.matches(&p.labels) && self.meta.port.resolves(
            p,
            n,
        )
    }
}

impl Authz {
    /// Whether this authorization applies to the server.
    pub fn applies_to(&self, s: &Srv) -> (r: bool)
        ensures
            r == attached(*self, *s),
    {
        if self.ns != s.ns {
            return false;
        }
        match &self.target {
            ServerSelector::Name(n) => *n == s.name,
            ServerSelector::Selector(sel) => sel.matches(&s.meta.labels),
        }
    }
}

/// Which servers govern a pod port.
pub enum Resolution {
    /// No server claims the port.
    Default,
    /// Exactly one server claims it: the one at this position.
    Governed(usize),
    /// Two or more servers claim it.
    Conflict,
}

/// The servers of the index.
pub struct SrvIndex {
    pub index: Table<Srv>,
}

impl SrvIndex {
    /// Which servers claim port `n` of pod `p`.
    pub fn resolve(&self, p: &Pod, n: u16) -> (r: Resolution)
        ensures
            match r {
                Resolution::Default => sel_count(self.index.items@, *p, n) == 0,
                Resolution::Governed(i) => sel_count(self.index.items@, *p, n) == 1 && i
                    == sel_last(self.index.items@, *p, n),
                Resolution::Conflict => sel_count(self.index.items@, *p, n) >= 2,
            },
    {
        let items = &self.index.items;
        let mut count: usize = 0;
        let mut last: usize = 0;
        let mut i: usize = 0;
        while i < items.len()
            invariant
                0 <= i <= items.len(),
                count <= 2,
                count == (if sel_count(items@.subrange(0, i as int), *p, n) >= 2 {
                    2
                } else {
                    sel_count(items@.subrange(0, i as int), *p, n)
                }),
                count > 0 ==> last == sel_last(items@.subrange(0, i as int), *p, n),
            decreases items.len() - i,
        {
            let ghost pre = items@.subrange(0, i as int);
            let ghost next = items@.subrange(0, i + 1);
            assert(next.drop_last() =~= pre);
            proof {
                lemma_sel_last(pre, *p, n);
            }
            if items[i].selects(p, n) {
                if count < 2 {
                    count += 1;
                }
                last = i;
            }
            i += 1;
        }
        assert(items@.subrange(0, items@.len() as int) =~= items@);
        if count == 0 {
            Resolution::Default
        } else if count == 1 {
            Resolution::Governed(last)
        } else {
            Resolution::Conflict
        }
    }

    /// The names of the servers of namespace `ns` whose pod selector matches
    /// the labels, in table order.
    pub fn iter_matching(&self, ns: &String, labels: &Vec<Label>) -> (r: Vec<String>)
        ensures
            strs(r@) == matching_names(self.index.items@, ns@, labels@),
    {
        let items = &self.index.items;
        let mut r: Vec<String> = Vec::new();
        let mut i: usize = 0;
        while i < items.len()
            invariant
                0 <= i <= items.len(),
                strs(r@) == matching_names(items@.subrange(0, i as int), ns@, labels@),
            decreases items.len() - i,
        {
            let ghost pre = items@.subrange(0, i as int);
            assert(items@.subrange(0, i + 1).drop_last() =~= pre);
            if items[i].ns == *ns && items[i].meta.pod_selector.matches(labels) {
                let ghost before = r@;
                r.push(items[i].name.clone());
                assert(strs(r@) =~= strs(before).push(items@[i as int].name@));
            }
            i += 1;
        }
        assert(items@.subrange(0, items@.len() as int) =~= items@);
        r
    }
}

/// The names of the servers of namespace `ns` whose pod selector matches the labels.
pub open spec fn matching_names(s: Seq<Srv>, ns: Seq<char>, labels: Seq<Label>) -> Seq<Seq<char>>
    decreases s.len(),
{
    if s.len() == 0 {
        Seq::empty()
    } else {
        let rest = matching_names(s.drop_last(), ns, labels);
        if s.last().ns@ == ns && selector_matches(s.last().meta.pod_selector, labels) {
            rest.push(s.last().name@)
        } else {
            rest
        }
    }
}

/// The config of a server: its protocol and the authorizations that apply to it.
pub fn mk_server_config(authzs: &Vec<Authz>, s: &Srv) -> (r: InboundServerConfig)
    ensures
        r@ == server_config(authzs@, *s),
{
    let mut auths: Vec<AuthzConfig> = Vec::new();
    let mut i: usize = 0;
    while i < authzs.len()
        invariant
            0 <= i <= authzs.len(),
            authz_views(auths@) == attached_authzs(authzs@.subrange(0, i as int), *s),
        decreases authzs.len() - i,
    {
        let ghost pre = authzs@.subrange(0, i as int);
        assert(authzs@.subrange(0, i + 1).drop_last() =~= pre);
        if authzs[i].applies_to(s) {
            let ghost before = auths@;
            let pos = sorted_position(&auths, &authzs[i].name);
            proof {
                lemma_insert_pos_range(authz_views(before), authzs@[i as int].name@);
            }
            let a = AuthzConfig { name: authzs[i].name.clone(), clients: authzs[i].clients.copy() };
            auths.insert(pos, a);
            assert(authz_views(auths@) =~= authz_views(before).insert(
                pos as int,
                (authzs@[i as int].name@, authzs@[i as int].clients@),
            ));
        }
        i += 1;
    }
    assert(authzs@.subrange(0, authzs@.len() as int) =~= authzs@);
    InboundServerConfig { protocol: s.meta.protocol, authorizations: auths, conflict: false }
}

/// Whether `a` sorts before `b`.
pub fn str_lt(a: &String, b: &String) -> (r: bool)
    ensures
        r == name_lt(a@, b@),
{
    let sa = a.as_str();
    let sb = b.as_str();
    let la = sa.unicode_len();
    let lb = sb.unicode_len();
    let mut i: usize = 0;
    assert(a@.skip(0) =~= a@);
    assert(b@.skip(0) =~= b@);
    while i < la && i < lb
        invariant
            sa@ == a@,
            sb@ == b@,
            la == a@.len(),
            lb == b@.len(),
            i <= la,
            i <= lb,
            name_lt(a@, b@) == name_lt(a@.skip(i as int), b@.skip(i as int)),
        decreases la - i,
    {
        let ca = sa.get_char(i);
        let cb = sb.get_char(i);
        assert(a@.skip(i as int)[0] == ca);
        assert(b@.skip(i as int)[0] == cb);
        if ca != cb {
            return (ca as u32) < (cb as u32);
        }
        assert(a@.skip(i as int).skip(1) =~= a@.skip(i + 1));
        assert(b@.skip(i as int).skip(1) =~= b@.skip(i + 1));
        i += 1;
    }
    i < lb
}

/// Where an authorization named `name` goes among `auths`.
pub fn sorted_position(auths: &Vec<AuthzConfig>, name: &String) -> (r: usize)
    ensures
        r as int == insert_pos(authz_views(auths@), name@),
{
    let ghost v = authz_views(auths@);
    let mut j: usize = auths.len();
    assert(v.subrange(0, auths@.len() as int) =~= v);
    while j > 0 && str_lt(name, &auths[j - 1].name)
        invariant
            j <= auths.len(),
            v == authz_views(auths@),
            insert_pos(v, name@) == insert_pos(v.subrange(0, j as int), name@),
        decreases j,
    {
        assert(v.subrange(0, j as int).drop_last() =~= v.subrange(0, j - 1));
        j -= 1;
    }
    j
}

/// The config of a port that no server selects.
pub fn mk_default_config(mode: DefaultMode, cluster_nets: &Vec<String>) -> (r: InboundServerConfig)
    ensures
        r@ == default_config(mode, strs(cluster_nets@)),
{
    let protocol = ProxyProtocol::Detect { timeout_ms: DEFAULT_DETECT_TIMEOUT_MS };
    let mut auths: Vec<AuthzConfig> = Vec::new();
    match mode {
        DefaultMode::AllowAll => {
            let mut nets: Vec<String> = Vec::new();
            nets.push(String::from_str("0.0.0.0/0"));
            nets.push(String::from_str("::/0"));
            let ghost nv = strs(nets@);
            assert(nv =~= seq!["0.0.0.0/0"@, "::/0"@]);
            auths.push(
                AuthzConfig { name: String::from_str("default"), clients: Clients::Unauthenticated(nets) },
            );
        },
        DefaultMode::DenyAll => {},
        DefaultMode::AuthenticatedOnly => {
            let mut suffixes: Vec<String> = Vec::new();
            suffixes.push(String::from_str("*"));
            let ghost sv = strs(suffixes@);
            assert(sv =~= seq!["*"@]);
            let clients = Clients::Authenticated {
                service_accounts: Vec::new(),
                identities: Vec::new(),
                suffixes,
            };
            assert(clients@ == ClientsView::Authenticated {
                service_accounts: Seq::empty(),
                identities: Seq::empty(),
                suffixes: seq!["*"@],
            }) by {
                assert(crate::config::accounts(Seq::empty()) =~= Seq::empty());
                assert(strs(Seq::empty()) =~= Seq::empty());
            }
            auths.push(AuthzConfig { name: String::from_str("default"), clients });
        },
        DefaultMode::ClusterOnly => {
            auths.push(
                AuthzConfig {
                    name: String::from_str("default"),
                    clients: Clients::Unauthenticated(copy_strs(cluster_nets)),
                },
            );
        },
    }
    let r = InboundServerConfig { protocol, authorizations: auths, conflict: false };
    assert(r@.authorizations =~= default_config(mode, strs(cluster_nets@)).authorizations);
    r
}

/// The config of a port that two or more servers claim.
pub fn mk_conflict_config() -> (r: InboundServerConfig)
    ensures
        r@ == conflict_config(),
{
    let r = InboundServerConfig {
        protocol: ProxyProtocol::Detect { timeout_ms: DEFAULT_DETECT_TIMEOUT_MS },
        authorizations: Vec::new(),
        conflict: true,
    };
    assert(r@.authorizations =~= Seq::empty());
    r
}

} // verus!

verus! {

/// The published config of one pod port.
pub struct Cell {
    pub ns: String,
    pub pod: String,
    pub port: u16,
    pub value: InboundServerConfig,
}

/// A change to publish: a port's new config, or `None` when its cell is torn down.
pub struct Update {
    pub ns: String,
    pub pod: String,
    pub port: u16,
    pub value: Option<InboundServerConfig>,
}

/// What a lookup of a pod port finds.
pub struct Lookup {
    pub kubelet_ips: Vec<String>,
    pub config: InboundServerConfig,
}

/// Why an index operation failed.
#[derive(Clone, Copy, Debug, PartialEq, Eq, Structural)]
pub enum IndexError {
    /// The server to remove is not in the index.
    UnknownServer,
    /// The pod to remove is not in the index.
    UnknownPod,
    /// The authorization to remove is not in the index.
    UnknownAuthz,
}

pub type CellKey = (Seq<char>, Seq<char>, u16);

/// The pod port that a cell is for.
pub open spec fn cell_key(c: Cell) -> CellKey {
    (c.ns@, c.pod@, c.port)
}

/// The pod port that an update is for.
pub open spec fn update_key(u: Update) -> CellKey {
    (u.ns@, u.pod@, u.port)
}

/// Some cell is for pod port `k`.
pub open spec fn has_cell(cells: Seq<Cell>, k: CellKey) -> bool {
    exists|ci: int| 0 <= ci < cells.len() && #[trigger] cell_key(cells[ci]) == k
}

/// Some cell for pod port `k` holds `v`.
pub open spec fn has_cell_with(cells: Seq<Cell>, k: CellKey, v: ConfigView) -> bool {
    exists|ci: int| 0 <= ci < cells.len() && #[trigger] cell_key(cells[ci]) == k && cells[ci].value@ == v
}

/// Some update gives pod port `k` the value `v`.
pub open spec fn has_update(ups: Seq<Update>, k: CellKey, v: ConfigView) -> bool {
    exists|ui: int|
        0 <= ui < ups.len() && #[trigger] update_key(ups[ui]) == k && ups[ui].value is Some
            && ups[ui].value->0@ == v
}

/// Some update tears down the cell of pod port `k`.
pub open spec fn has_teardown(ups: Seq<Update>, k: CellKey) -> bool {
    exists|ui: int| 0 <= ui < ups.len() && #[trigger] update_key(ups[ui]) == k && ups[ui].value is None
}

/// The updates take subscribers from the old cells to the new ones: each new
/// value differs from the old value of its cell, every cell whose value changed
/// gets its new value, and every cell that went away is torn down.
pub open spec fn published(old_cells: Seq<Cell>, new_cells: Seq<Cell>, ups: Seq<Update>) -> bool {
    &&& forall|ui: int|
        0 <= ui < ups.len() && (#[trigger] ups[ui]).value is Some ==> has_cell_with(
            new_cells,
            update_key(ups[ui]),
            ups[ui].value->0@,
        ) && !has_cell_with(old_cells, update_key(ups[ui]), ups[ui].value->0@)
    &&& forall|ui: int|
        0 <= ui < ups.len() && (#[trigger] ups[ui]).value is None ==> has_cell(
            old_cells,
            update_key(ups[ui]),
        ) && !has_cell(new_cells, update_key(ups[ui]))
    &&& forall|ci: int|
        0 <= ci < new_cells.len() ==> has_cell_with(
            old_cells,
            cell_key(#[trigger] new_cells[ci]),
            new_cells[ci].value@,
        ) || has_update(ups, cell_key(new_cells[ci]), new_cells[ci].value@)
    &&& forall|oi: int|
        0 <= oi < old_cells.len() ==> has_cell(new_cells, cell_key(#[trigger] old_cells[oi]))
            || has_teardown(ups, cell_key(old_cells[oi]))
}

/// The pods, servers and authorizations of the cluster, joined into the
/// config of every pod port.
pub struct Index {
    pub pods: Table<Pod>,
    pub servers: SrvIndex,
    pub authzs: Table<Authz>,
    /// The mode of a namespace that chose none.
    pub default_mode: DefaultMode,
    /// The modes that namespaces chose; the later of two for one namespace holds.
    pub ns_modes: Vec<NsMode>,
    pub cluster_networks: Vec<String>,
    pub cells: Vec<Cell>,
}

/// The default mode that a namespace chose.
pub struct NsMode {
    pub ns: String,
    pub mode: DefaultMode,
}

/// The default mode of namespace `ns`: the last it chose, else `fallback`.
pub open spec fn mode_of(modes: Seq<NsMode>, ns: Seq<char>, fallback: DefaultMode) -> DefaultMode
    decreases modes.len(),
{
    if modes.len() == 0 {
        fallback
    } else if modes.last().ns@ == ns {
        modes.last().mode
    } else {
        mode_of(modes.drop_last(), ns, fallback)
    }
}

/// The default mode of namespace `ns`.
pub fn find_mode(modes: &Vec<NsMode>, ns: &String, fallback: DefaultMode) -> (r: DefaultMode)
    ensures
        r == mode_of(modes@, ns@, fallback),
{
    let mut found = fallback;
    let mut i: usize = 0;
    while i < modes.len()
        invariant
            0 <= i <= modes.len(),
            found == mode_of(modes@.subrange(0, i as int), ns@, fallback),
        decreases modes.len() - i,
    {
        assert(modes@.subrange(0, i + 1).drop_last() =~= modes@.subrange(0, i as int));
        if modes[i].ns == *ns {
            found = modes[i].mode;
        }
        i += 1;
    }
    assert(modes@.subrange(0, modes@.len() as int) =~= modes@);
    found
}

impl Index {
    /// The config of port `n` of pod `p` under the current servers and authorizations.
    pub open spec fn config_of(&self, p: Pod, n: u16) -> ConfigView {
        port_config(
            self.servers.index.items@,
            self.authzs.items@,
            mode_of(self.ns_modes@, p.ns@, self.default_mode),
            strs(self.cluster_networks@),
            p,
            n,
        )
    }

    /// The cell belongs to a pod port of the index and holds its current config.
    pub open spec fn cell_current(&self, c: Cell) -> bool {
        let k = (c.ns@, c.pod@);
        &&& self.pods@.contains_key(k)
        &&& declares(self.pods@[k], c.port)
        &&& c.value@ == self.config_of(self.pods@[k], c.port)
    }

    /// Each table holds at most one object per key.
    pub open spec fn tables_wf(&self) -> bool {
        &&& self.pods.wf()
        &&& self.servers.index.wf()
        &&& self.authzs.wf()
    }

    /// The tables are well formed, every cell holds its port's current
    /// config, and every declared port of every pod has a cell.
    pub open spec fn wf(&self) -> bool {
        &&& self.tables_wf()
        &&& forall|ci: int| 0 <= ci < self.cells.len() ==> self.cell_current(#[trigger] self.cells@[ci])
        &&& forall|k: Key, n: u16|
            self.pods@.contains_key(k) && #[trigger] declares(self.pods@[k], n) ==> has_cell(
                self.cells@,
                (k.0, k.1, n),
            )
    }

    /// Everything but the pods is as it was.
    pub open spec fn same_but_pods(&self, o: &Index) -> bool {
        &&& self.servers.index.items@ == o.servers.index.items@
        &&& self.authzs.items@ == o.authzs.items@
        &&& self.default_mode == o.default_mode
        &&& self.ns_modes@ == o.ns_modes@
        &&& self.cluster_networks@ == o.cluster_networks@
    }

    /// Everything but the servers is as it was.
    pub open spec fn same_but_servers(&self, o: &Index) -> bool {
        &&& self.pods@ == o.pods@
        &&& self.authzs.items@ == o.authzs.items@
        &&& self.default_mode == o.default_mode
        &&& self.ns_modes@ == o.ns_modes@
        &&& self.cluster_networks@ == o.cluster_networks@
    }

    /// Everything but the authorizations is as it was.
    pub open spec fn same_but_authzs(&self, o: &Index) -> bool {
        &&& self.pods@ == o.pods@
        &&& self.servers.index.items@ == o.servers.index.items@
        &&& self.default_mode == o.default_mode
        &&& self.ns_modes@ == o.ns_modes@
        &&& self.cluster_networks@ == o.cluster_networks@
    }

    /// An empty index with the cluster's default mode and networks.
    pub fn new(default_mode: DefaultMode, cluster_networks: Vec<String>) -> (r: Index)
        ensures
            r.wf(),
            r.pods@ == Map::<Key, Pod>::empty(),
            r.servers.index@ == Map::<Key, Srv>::empty(),
            r.authzs@ == Map::<Key, Authz>::empty(),
            r.default_mode == default_mode,
            r.ns_modes@.len() == 0,
            r.cluster_networks@ == cluster_networks@,
            r.cells@.len() == 0,
    {
        Index {
            pods: Table::new(),
            servers: SrvIndex { index: Table::new() },
            authzs: Table::new(),
            default_mode,
            ns_modes: Vec::new(),
            cluster_networks,
            cells: Vec::new(),
        }
    }

    /// The config of port `n` of pod `p`.
    pub fn config_for(&self, p: &Pod, n: u16) -> (r: InboundServerConfig)
        ensures
            r@ == self.config_of(*p, n),
    {
        match self.servers.resolve(p, n) {
            Resolution::Default => mk_default_config(
                find_mode(&self.ns_modes, &p.ns, self.default_mode),
                &self.cluster_networks,
            ),
            Resolution::Governed(i) => {
                proof {
                    lemma_sel_last(self.servers.index.items@, *p, n);
                }
                mk_server_config(&self.authzs.items, &self.servers.index.items[i])
            },
            Resolution::Conflict => mk_conflict_config(),
        }
    }

    /// The kubelet networks of pod `ns/pod` and the config of its port, if the
    /// index holds the pod and the pod declares the port.
    pub fn lookup(&self, ns: &String, pod: &String, port: u16) -> (r: Option<Lookup>)
        requires
            self.wf(),
        ensures
            r is Some <==> self.pods@.contains_key((ns@, pod@)) && declares(
                self.pods@[(ns@, pod@)],
                port,
            ),
            r is Some ==> strs(r->0.kubelet_ips@) == strs(self.pods@[(ns@, pod@)].kubelet_ips@)
                && r->0.config@ == self.config_of(self.pods@[(ns@, pod@)], port),
    {
        match self.pods.find(ns, pod) {
            None => None,
            Some(i) => {
                let p = &self.pods.items[i];
                if !pod_declares(p, port) {
                    return None;
                }
                Some(Lookup { kubelet_ips: copy_strs(&p.kubelet_ips), config: self.config_for(p, port) })
            },
        }
    }
}

/// Whether a cell of `cells` has this key and a value equal to `v`.
pub fn has_same_cell(cells: &Vec<Cell>, ns: &String, pod: &String, port: u16, v: &InboundServerConfig) -> (r: bool)
    ensures
        r == has_cell_with(cells@, (ns@, pod@, port), v@),
{
    let mut i: usize = 0;
    while i < cells.len()
        invariant
            0 <= i <= cells.len(),
            forall|m: int|
                0 <= m < i ==> !(#[trigger] cell_key(cells@[m]) == (ns@, pod@, port) && cells@[m].value@
                    == v@),
        decreases cells.len() - i,
    {
        let c = &cells[i];
        if c.port == port && c.ns == *ns && c.pod == *pod && c.value.same(v) {
            assert(cell_key(cells@[i as int]) == (ns@, pod@, port));
            return true;
        }
        assert(!(cell_key(cells@[i as int]) == (ns@, pod@, port) && cells@[i as int].value@ == v@));
        i += 1;
    }
    false
}

/// Whether a cell of `cells` has this key.
pub fn has_key_cell(cells: &Vec<Cell>, ns: &String, pod: &String, port: u16) -> (r: bool)
    ensures
        r == has_cell(cells@, (ns@, pod@, port)),
{
    let mut i: usize = 0;
    while i < cells.len()
        invariant
            0 <= i <= cells.len(),
            forall|m: int| 0 <= m < i ==> #[trigger] cell_key(cells@[m]) != (ns@, pod@, port),
        decreases cells.len() - i,
    {
        let c = &cells[i];
        if c.port == port && c.ns == *ns && c.pod == *pod {
            assert(cell_key(cells@[i as int]) == (ns@, pod@, port));
            return true;
        }
        assert(cell_key(cells@[i as int]) != (ns@, pod@, port));
        i += 1;
    }
    false
}

} // verus!

verus! {

impl Index {
    /// Recomputes the config of every pod port, replaces the cells, and
    /// returns what changed.
    pub fn publish(&mut self) -> (ups: Vec<Update>)
        requires
            old(self).tables_wf(),
        ensures
            final(self).wf(),
            final(self).pods == old(self).pods,
            final(self).servers == old(self).servers,
            final(self).authzs == old(self).authzs,
            final(self).default_mode == old(self).default_mode,
            final(self).ns_modes == old(self).ns_modes,
            final(self).cluster_networks == old(self).cluster_networks,
            published(old(self).cells@, final(self).cells@, ups@),
    {
        let mut new_cells: Vec<Cell> = Vec::new();
        let mut ups: Vec<Update> = Vec::new();
        let mut i: usize = 0;
        while i < self.pods.items.len()
            invariant
                self.tables_wf(),
                0 <= i <= self.pods.items.len(),
                forall|ci: int| 0 <= ci < new_cells.len() ==> self.cell_current(#[trigger] new_cells@[ci]),
                forall|pi: int, pj: int|
                    0 <= pi < i && 0 <= pj < self.pods.items@[pi].ports.len() ==> has_cell(
                        new_cells@,
                        (
                            self.pods.items@[pi].ns@,
                            self.pods.items@[pi].name@,
                            #[trigger] self.pods.items@[pi].ports@[pj].number,
                        ),
                    ),
                forall|ui: int|
                    0 <= ui < ups.len() ==> (#[trigger] ups@[ui]).value is Some && has_cell_with(
                        new_cells@,
                        update_key(ups@[ui]),
                        ups@[ui].value->0@,
                    ) && !has_cell_with(self.cells@, update_key(ups@[ui]), ups@[ui].value->0@),
                forall|ci: int|
                    0 <= ci < new_cells.len() ==> has_cell_with(
                        self.cells@,
                        cell_key(#[trigger] new_cells@[ci]),
                        new_cells@[ci].value@,
                    ) || has_update(ups@, cell_key(new_cells@[ci]), new_cells@[ci].value@),
            decreases self.pods.items.len() - i,
        {
            let p = &self.pods.items[i];
            proof {
                self.pods.lemma_view_at(i as int);
            }
            let mut j: usize = 0;
            while j < p.ports.len()
                invariant
                    self.tables_wf(),
                    0 <= i < self.pods.items.len(),
                    *p == self.pods.items@[i as int],
                    self.pods@.contains_key(p.key()) && self.pods@[p.key()] == *p,
                    0 <= j <= p.ports.len(),
                    forall|ci: int|
                        0 <= ci < new_cells.len() ==> self.cell_current(#[trigger] new_cells@[ci]),
                    forall|pi: int, pj: int|
                        0 <= pi < i && 0 <= pj < self.pods.items@[pi].ports.len() ==> has_cell(
                            new_cells@,
                            (
                                self.pods.items@[pi].ns@,
                                self.pods.items@[pi].name@,
                                #[trigger] self.pods.items@[pi].ports@[pj].number,
                            ),
                        ),
                    forall|pj: int|
                        0 <= pj < j ==> has_cell(
                            new_cells@,
                            (p.ns@, p.name@, #[trigger] p.ports@[pj].number),
                        ),
                    forall|ui: int|
                        0 <= ui < ups.len() ==> (#[trigger] ups@[ui]).value is Some && has_cell_with(
                            new_cells@,
                            update_key(ups@[ui]),
                            ups@[ui].value->0@,
                        ) && !has_cell_with(self.cells@, update_key(ups@[ui]), ups@[ui].value->0@),
                    forall|ci: int|
                        0 <= ci < new_cells.len() ==> has_cell_with(
                            self.cells@,
                            cell_key(#[trigger] new_cells@[ci]),
                            new_cells@[ci].value@,
                        ) || has_update(ups@, cell_key(new_cells@[ci]), new_cells@[ci].value@),
                decreases p.ports.len() - j,
            {
                let n = p.ports[j].number;
                let cfg = self.config_for(p, n);
                let ghost k = (p.ns@, p.name@, n);
                let ghost old_cells = new_cells@;
                let ghost old_ups = ups@;
                let cell = Cell { ns: p.ns.clone(), pod: p.name.clone(), port: n, value: cfg };
                let ghost cl = cell;
                assert(cell_key(cl) == k);
                if !has_same_cell(&self.cells, &p.ns, &p.name, n, &cell.value) {
                    let u = Update {
                        ns: p.ns.clone(),
                        pod: p.name.clone(),
                        port: n,
                        value: Some(cell.value.copy()),
                    };
                    ups.push(u);
                    assert(update_key(ups@[old_ups.len() as int]) == k);
                }
                new_cells.push(cell);
                assert(cell_key(new_cells@[old_cells.len() as int]) == k);
                assert(declares(*p, n)) by {
                    assert(p.ports@[j as int].number == n);
                }
                assert forall|ci: int| 0 <= ci < new_cells.len() implies self.cell_current(
                    #[trigger] new_cells@[ci],
                ) by {
                    if ci < old_cells.len() {
                        assert(new_cells@[ci] == old_cells[ci]);
                    }
                }
                assert forall|ui: int|
                    0 <= ui < ups.len() implies (#[trigger] ups@[ui]).value is Some && has_cell_with(
                    new_cells@,
                    update_key(ups@[ui]),
                    ups@[ui].value->0@,
                ) && !has_cell_with(self.cells@, update_key(ups@[ui]), ups@[ui].value->0@) by {
                    if ui < old_ups.len() {
                        assert(ups@[ui] == old_ups[ui]);
                        let ci = choose|ci: int|
                            0 <= ci < old_cells.len() && #[trigger] cell_key(old_cells[ci])
                                == update_key(ups@[ui]) && old_cells[ci].value@ == ups@[ui].value->0@;
                        assert(new_cells@[ci] == old_cells[ci]);
                    } else {
                        assert(new_cells@[old_cells.len() as int] == cl);
                    }
                }
                assert forall|ci: int|
                    0 <= ci < new_cells.len() implies has_cell_with(
                    self.cells@,
                    cell_key(#[trigger] new_cells@[ci]),
                    new_cells@[ci].value@,
                ) || has_update(ups@, cell_key(new_cells@[ci]), new_cells@[ci].value@) by {
                    if ci < old_cells.len() {
                        assert(new_cells@[ci] == old_cells[ci]);
                        if has_update(old_ups, cell_key(old_cells[ci]), old_cells[ci].value@) {
                            let ui = choose|ui: int|
                                0 <= ui < old_ups.len() && #[trigger] update_key(old_ups[ui])
                                    == cell_key(old_cells[ci]) && old_ups[ui].value is Some
                                    && old_ups[ui].value->0@ == old_cells[ci].value@;
                            assert(ups@[ui] == old_ups[ui]);
                        }
                    } else {
                        if ups@.len() > old_ups.len() {
                            assert(update_key(ups@[old_ups.len() as int]) == k);
                        }
                    }
                }
                assert forall|pi: int, pj: int|
                    0 <= pi < i && 0 <= pj < self.pods.items@[pi].ports.len() implies has_cell(
                    new_cells@,
                    (
                        self.pods.items@[pi].ns@,
                        self.pods.items@[pi].name@,
                        #[trigger] self.pods.items@[pi].ports@[pj].number,
                    ),
                ) by {
                    let kk = (
                        self.pods.items@[pi].ns@,
                        self.pods.items@[pi].name@,
                        self.pods.items@[pi].ports@[pj].number,
                    );
                    assert(has_cell(old_cells, kk));
                    let ci = choose|ci: int| 0 <= ci < old_cells.len() && #[trigger] cell_key(old_cells[ci]) == kk;
                    assert(new_cells@[ci] == old_cells[ci]);
                }
                assert forall|pj: int| 0 <= pj < j + 1 implies has_cell(
                    new_cells@,
                    (p.ns@, p.name@, #[trigger] p.ports@[pj].number),
                ) by {
                    if pj < j {
                        let kk = (p.ns@, p.name@, p.ports@[pj].number);
                        assert(has_cell(old_cells, kk));
                        let ci = choose|ci: int| 0 <= ci < old_cells.len() && #[trigger] cell_key(old_cells[ci]) == kk;
                        assert(new_cells@[ci] == old_cells[ci]);
                    }
                }
                j += 1;
            }
            i += 1;
        }
        let ghost first_ups = ups@;
        let mut m: usize = 0;
        while m < self.cells.len()
            invariant
                0 <= m <= self.cells.len(),
                self.tables_wf(),
                forall|ci: int| 0 <= ci < new_cells.len() ==> self.cell_current(#[trigger] new_cells@[ci]),
                forall|pi: int, pj: int|
                    0 <= pi < self.pods.items.len() && 0 <= pj < self.pods.items@[pi].ports.len() ==> has_cell(
                        new_cells@,
                        (
                            self.pods.items@[pi].ns@,
                            self.pods.items@[pi].name@,
                            #[trigger] self.pods.items@[pi].ports@[pj].number,
                        ),
                    ),
                forall|ui: int|
                    0 <= ui < first_ups.len() ==> (#[trigger] first_ups[ui]).value is Some && has_cell_with(
                        new_cells@,
                        update_key(first_ups[ui]),
                        first_ups[ui].value->0@,
                    ) && !has_cell_with(self.cells@, update_key(first_ups[ui]), first_ups[ui].value->0@),
                forall|ci: int|
                    0 <= ci < new_cells.len() ==> has_cell_with(
                        self.cells@,
                        cell_key(#[trigger] new_cells@[ci]),
                        new_cells@[ci].value@,
                    ) || has_update(first_ups, cell_key(new_cells@[ci]), new_cells@[ci].value@),
                first_ups.len() <= ups.len(),
                forall|ui: int| 0 <= ui < first_ups.len() ==> ups@[ui] == first_ups[ui],
                forall|ui: int|
                    first_ups.len() <= ui < ups.len() ==> (#[trigger] ups@[ui]).value is None && has_cell(
                        self.cells@,
                        update_key(ups@[ui]),
                    ) && !has_cell(new_cells@, update_key(ups@[ui])),
                forall|oi: int|
                    0 <= oi < m ==> has_cell(new_cells@, cell_key(#[trigger] self.cells@[oi]))
                        || has_teardown(ups@, cell_key(self.cells@[oi])),
            decreases self.cells.len() - m,
        {
            let c = &self.cells[m];
            let ghost before = ups@;
            if !has_key_cell(&new_cells, &c.ns, &c.pod, c.port) {
                ups.push(Update { ns: c.ns.clone(), pod: c.pod.clone(), port: c.port, value: None });
                assert(update_key(ups@[before.len() as int]) == cell_key(self.cells@[m as int]));
            }
            assert forall|oi: int|
                0 <= oi < m + 1 implies has_cell(new_cells@, cell_key(#[trigger] self.cells@[oi]))
                || has_teardown(ups@, cell_key(self.cells@[oi])) by {
                if oi < m && has_teardown(before, cell_key(self.cells@[oi])) {
                    let ui = choose|ui: int|
                        0 <= ui < before.len() && #[trigger] update_key(before[ui]) == cell_key(
                            self.cells@[oi],
                        ) && before[ui].value is None;
                    assert(ups@[ui] == before[ui]);
                }
            }
            m += 1;
        }
        proof {
            assert forall|ui: int|
                0 <= ui < ups.len() && (#[trigger] ups@[ui]).value is Some implies has_cell_with(
                new_cells@,
                update_key(ups@[ui]),
                ups@[ui].value->0@,
            ) && !has_cell_with(self.cells@, update_key(ups@[ui]), ups@[ui].value->0@) by {
                if ui < first_ups.len() {
                    assert(ups@[ui] == first_ups[ui]);
                }
            }
            assert forall|ui: int|
                0 <= ui < ups.len() && (#[trigger] ups@[ui]).value is None implies has_cell(
                self.cells@,
                update_key(ups@[ui]),
            ) && !has_cell(new_cells@, update_key(ups@[ui])) by {
                if ui < first_ups.len() {
                    assert(ups@[ui] == first_ups[ui]);
                }
            }
            assert forall|ci: int|
                0 <= ci < new_cells.len() implies has_cell_with(
                self.cells@,
                cell_key(#[trigger] new_cells@[ci]),
                new_cells@[ci].value@,
            ) || has_update(ups@, cell_key(new_cells@[ci]), new_cells@[ci].value@) by {
                if !has_cell_with(self.cells@, cell_key(new_cells@[ci]), new_cells@[ci].value@) {
                    let ui = choose|ui: int|
                        0 <= ui < first_ups.len() && #[trigger] update_key(first_ups[ui]) == cell_key(
                            new_cells@[ci],
                        ) && first_ups[ui].value is Some && first_ups[ui].value->0@
                            == new_cells@[ci].value@;
                    assert(ups@[ui] == first_ups[ui]);
                }
            }
            assert forall|k: Key, n: u16|
                self.pods@.contains_key(k) && #[trigger] declares(self.pods@[k], n) implies has_cell(
                new_cells@,
                (k.0, k.1, n),
            ) by {
                self.pods.lemma_view_key(k);
                let pi = self.pods.index_of(k);
                let pj = choose|pj: int|
                    0 <= pj < self.pods@[k].ports.len() && #[trigger] self.pods@[k].ports@[pj].number == n;
                assert(self.pods.items@[pi].ports@[pj].number == n);
            }
        }
        self.cells = new_cells;
        ups
    }
}

} // verus!

verus! {

/// The servers that a list of Server resources describes.
pub open spec fn srvs_of(s: Seq<ServerResource>) -> Seq<Srv> {
    s.map_values(|r: ServerResource| srv_of(r))
}

/// The server that the index keeps of a Server resource.
pub fn mk_srv(res: ServerResource) -> (r: Srv)
    ensures
        r == srv_of(res),
{
    let protocol = match &res.proxy_protocol {
        Some(h) => mk_protocol(Some(h)),
        None => mk_protocol(None),
    };
    Srv {
        ns: res.ns,
        name: res.name,
        meta: ServerMeta {
            labels: res.labels,
            port: res.port,
            pod_selector: res.pod_selector,
            protocol,
        },
    }
}

impl Index {
    /// A pod was created or changed.
    pub fn apply_pod(&mut self, pod: Pod) -> (ups: Vec<Update>)
        requires
            old(self).wf(),
        ensures
            final(self).wf(),
            final(self).pods@ == old(self).pods@.insert(pod.key(), pod),
            final(self).same_but_pods(old(self)),
            published(old(self).cells@, final(self).cells@, ups@),
    {
        self.pods.upsert(pod);
        self.publish()
    }

    /// A pod was deleted: its cells are torn down.
    pub fn delete_pod(&mut self, ns: &String, name: &String) -> (r: Result<Vec<Update>, IndexError>)
        requires
            old(self).wf(),
        ensures
            final(self).wf(),
            r is Err <==> !old(self).pods@.contains_key((ns@, name@)),
            r is Err ==> r == Err::<Vec<Update>, IndexError>(IndexError::UnknownPod) && *final(self)
                == *old(self),
            final(self).pods@ == old(self).pods@.remove((ns@, name@)),
            final(self).same_but_pods(old(self)),
            r is Ok ==> published(old(self).cells@, final(self).cells@, r->Ok_0@),
    {
        match self.pods.remove(ns, name) {
            None => {
                assert(self.pods@ =~= old(self).pods@.remove((ns@, name@)));
                Err(IndexError::UnknownPod)
            },
            Some(_) => Ok(self.publish()),
        }
    }

    /// A full list of the pods replaces the index's pods.
    pub fn reset_pods(&mut self, pods: Vec<Pod>) -> (ups: Vec<Update>)
        requires
            old(self).wf(),
        ensures
            final(self).wf(),
            final(self).pods@ == table_of(pods@),
            final(self).same_but_pods(old(self)),
            published(old(self).cells@, final(self).cells@, ups@),
    {
        self.pods = Table::from_vec(pods);
        self.publish()
    }

    /// A Server was created or changed.
    pub fn apply_server(&mut self, srv: ServerResource) -> (ups: Vec<Update>)
        requires
            old(self).wf(),
        ensures
            final(self).wf(),
            final(self).servers.index@ == old(self).servers.index@.insert(
                (srv.ns@, srv.name@),
                srv_of(srv),
            ),
            final(self).same_but_servers(old(self)),
            published(old(self).cells@, final(self).cells@, ups@),
    {
        let s = mk_srv(srv);
        self.servers.index.upsert(s);
        self.publish()
    }

    /// A Server was deleted.
    pub fn delete_server(&mut self, srv: &ServerResource) -> (r: Result<Vec<Update>, IndexError>)
        requires
            old(self).wf(),
        ensures
            final(self).wf(),
            r is Err <==> !old(self).servers.index@.contains_key((srv.ns@, srv.name@)),
            r is Err ==> r == Err::<Vec<Update>, IndexError>(IndexError::UnknownServer)
                && *final(self) == *old(self),
            final(self).servers.index@ == old(self).servers.index@.remove((srv.ns@, srv.name@)),
            final(self).same_but_servers(old(self)),
            r is Ok ==> published(old(self).cells@, final(self).cells@, r->Ok_0@),
    {
        self.rm_server(&srv.ns, &srv.name)
    }

    /// Removes the server `ns/name`; the ports it governed fall back to
    /// another server, or to the default policy.
    pub fn rm_server(&mut self, ns: &String, name: &String) -> (r: Result<Vec<Update>, IndexError>)
        requires
            old(self).wf(),
        ensures
            final(self).wf(),
            r is Err <==> !old(self).servers.index@.contains_key((ns@, name@)),
            r is Err ==> r == Err::<Vec<Update>, IndexError>(IndexError::UnknownServer)
                && *final(self) == *old(self),
            final(self).servers.index@ == old(self).servers.index@.remove((ns@, name@)),
            final(self).same_but_servers(old(self)),
            r is Ok ==> published(old(self).cells@, final(self).cells@, r->Ok_0@),
    {
        match self.servers.index.remove(ns, name) {
            None => {
                assert(self.servers.index@ =~= old(self).servers.index@.remove((ns@, name@)));
                Err(IndexError::UnknownServer)
            },
            Some(_) => Ok(self.publish()),
        }
    }

    /// A full list of the Servers replaces the index's servers: those not in
    /// the list are gone, and subscribers see only the end result.
    pub fn reset_servers(&mut self, srvs: Vec<ServerResource>) -> (ups: Vec<Update>)
        requires
            old(self).wf(),
        ensures
            final(self).wf(),
            final(self).servers.index@ == table_of(srvs_of(srvs@)),
            final(self).same_but_servers(old(self)),
            published(old(self).cells@, final(self).cells@, ups@),
    {
        let ghost orig = srvs@;
        let len = srvs.len();
        let mut srvs = srvs;
        let mut built: Vec<Srv> = Vec::new();
        while srvs.len() > 0
            invariant
                built@.len() <= orig.len(),
                orig.len() == len,
                srvs@ == orig.subrange(built@.len() as int, orig.len() as int),
                built@ == srvs_of(orig.subrange(0, built@.len() as int)),
            decreases srvs.len(),
        {
            let ghost b = built@.len() as int;
            let res = srvs.remove(0);
            built.push(mk_srv(res));
            assert(srvs_of(orig.subrange(0, b + 1)) =~= srvs_of(orig.subrange(0, b)).push(
                srv_of(orig[b]),
            ));
            assert(orig.subrange(b + 1, orig.len() as int) =~= srvs@);
        }
        assert(orig.subrange(0, orig.len() as int) =~= orig);
        self.servers.index = Table::from_vec(built);
        self.publish()
    }

    /// An Authorization was created or changed.
    pub fn apply_authz(&mut self, authz: Authz) -> (ups: Vec<Update>)
        requires
            old(self).wf(),
        ensures
            final(self).wf(),
            final(self).authzs@ == old(self).authzs@.insert(authz.key(), authz),
            final(self).same_but_authzs(old(self)),
            published(old(self).cells@, final(self).cells@, ups@),
    {
        self.authzs.upsert(authz);
        self.publish()
    }

    /// An Authorization was deleted.
    pub fn delete_authz(&mut self, ns: &String, name: &String) -> (r: Result<Vec<Update>, IndexError>)
        requires
            old(self).wf(),
        ensures
            final(self).wf(),
            r is Err <==> !old(self).authzs@.contains_key((ns@, name@)),
            r is Err ==> r == Err::<Vec<Update>, IndexError>(IndexError::UnknownAuthz)
                && *final(self) == *old(self),
            final(self).authzs@ == old(self).authzs@.remove((ns@, name@)),
            final(self).same_but_authzs(old(self)),
            r is Ok ==> published(old(self).cells@, final(self).cells@, r->Ok_0@),
    {
        match self.authzs.remove(ns, name) {
            None => {
                assert(self.authzs@ =~= old(self).authzs@.remove((ns@, name@)));
                Err(IndexError::UnknownAuthz)
            },
            Some(_) => Ok(self.publish()),
        }
    }

    /// A namespace chose a default mode, or dropped its choice (`None`) and
    /// falls back to the cluster's.
    pub fn set_namespace_mode(&mut self, ns: String, mode: Option<DefaultMode>) -> (ups: Vec<Update>)
        requires
            old(self).wf(),
        ensures
            final(self).wf(),
            forall|n: Seq<char>|
                mode_of(final(self).ns_modes@, n, final(self).default_mode) == if n == ns@ {
                    match mode {
                        Some(m) => m,
                        None => old(self).default_mode,
                    }
                } else {
                    mode_of(old(self).ns_modes@, n, old(self).default_mode)
                },
            final(self).pods@ == old(self).pods@,
            final(self).servers.index.items@ == old(self).servers.index.items@,
            final(self).authzs.items@ == old(self).authzs.items@,
            final(self).default_mode == old(self).default_mode,
            final(self).cluster_networks@ == old(self).cluster_networks@,
            published(old(self).cells@, final(self).cells@, ups@),
    {
        let m = match mode {
            Some(m) => m,
            None => self.default_mode,
        };
        let ghost before = self.ns_modes@;
        self.ns_modes.push(NsMode { ns, mode: m });
        assert(self.ns_modes@.drop_last() =~= before);
        self.publish()
    }

    /// A full list of the Authorizations replaces the index's authorizations.
    pub fn reset_authzs(&mut self, authzs: Vec<Authz>) -> (ups: Vec<Update>)
        requires
            old(self).wf(),
        ensures
            final(self).wf(),
            final(self).authzs@ == table_of(authzs@),
            final(self).same_but_authzs(old(self)),
            published(old(self).cells@, final(self).cells@, ups@),
    {
        self.authzs = Table::from_vec(authzs);
        self.publish()
    }
}

} // verus!
