use crate::config::{
    accounts, strs, ClientsView, Clients, ConfigView, ProxyProtocol, copy_strs,
};
use crate::labels::Label;
use vstd::prelude::*;

verus! {

/// The protocol as the proxy's wire message carries it.
#[derive(Clone, Copy, Debug, PartialEq, Eq, Structural)]
pub enum WireProtocol {
    Detect { timeout_ms: u64 },
    Http,
    Grpc,
    Opaque,
}

/// The identities a TLS client may present.
pub struct IdMatch {
    pub identities: Vec<String>,
    /// Each suffix as its DNS labels, the rightmost first.
    pub suffixes: Vec<Vec<String>>,
}

/// One authorization of the wire message.
pub struct WireAuthz {
    pub networks: Vec<String>,
    pub tls: Option<IdMatch>,
    pub labels: Vec<Label>,
}

/// The config as it is sent to a proxy.
pub struct ProxyConfig {
    pub authorizations: Vec<WireAuthz>,
    pub protocol: WireProtocol,
}

pub ghost struct IdMatchView {
    pub identities: Seq<Seq<char>>,
    pub suffixes: Seq<Seq<Seq<char>>>,
}

pub ghost struct WireAuthzView {
    pub networks: Seq<Seq<char>>,
    pub tls: Option<IdMatchView>,
    pub labels: Seq<(Seq<char>, Seq<char>)>,
}

pub ghost struct ProxyConfigView {
    pub authorizations: Seq<WireAuthzView>,
    pub protocol: WireProtocol,
}

/// Each label as (key, value).
pub open spec fn label_pairs(s: Seq<Label>) -> Seq<(Seq<char>, Seq<char>)> {
    s.map_values(|l: Label| (l.key@, l.value@))
}

/// The characters of each part of each suffix.
pub open spec fn suffix_views(s: Seq<Vec<String>>) -> Seq<Seq<Seq<char>>> {
    s.map_values(|v: Vec<String>| strs(v@))
}

impl View for IdMatch {
    type V = IdMatchView;

    open spec fn view(&self) -> IdMatchView {
        IdMatchView { identities: strs(self.identities@), suffixes: suffix_views(self.suffixes@) }
    }
}

impl View for WireAuthz {
    type V = WireAuthzView;

    open spec fn view(&self) -> WireAuthzView {
        WireAuthzView {
            networks: strs(self.networks@),
            tls: match self.tls {
                Some(t) => Some(t@),
                None => None,
            },
            labels: label_pairs(self.labels@),
        }
    }
}

/// Each wire authorization's view.
pub open spec fn wire_authz_views(s: Seq<WireAuthz>) -> Seq<WireAuthzView> {
    s.map_values(|a: WireAuthz| a@)
}

impl View for ProxyConfig {
    type V = ProxyConfigView;

    open spec fn view(&self) -> ProxyConfigView {
        ProxyConfigView { authorizations: wire_authz_views(self.authorizations@), protocol: self.protocol }
    }
}

/// HTTP/1 and HTTP/2 both travel as HTTP; TLS has no wire form of its own
/// and travels as opaque.
pub open spec fn wire_protocol(p: ProxyProtocol) -> WireProtocol {
    match p {
        ProxyProtocol::Detect { timeout_ms } => WireProtocol::Detect { timeout_ms },
        ProxyProtocol::Http1 | ProxyProtocol::Http2 => WireProtocol::Http,
        ProxyProtocol::Grpc => WireProtocol::Grpc,
        ProxyProtocol::Opaque | ProxyProtocol::Tls => WireProtocol::Opaque,
    }
}

/// The TLS identity of service account `(ns, name)` in the identity domain.
pub open spec fn identity_of(sa: (Seq<char>, Seq<char>), domain: Seq<char>) -> Seq<char> {
    sa.1 + "."@ + sa.0 + ".serviceaccount.identity.linkerd."@ + domain
}

/// The dot-separated labels of a name, left to right.
pub open spec fn dns_labels(s: Seq<char>) -> Seq<Seq<char>>
    decreases s.len(),
{
    if s.len() == 0 {
        seq![Seq::empty()]
    } else {
        let r = dns_labels(s.drop_last());
        if s.last() == '.' {
            r.push(Seq::empty())
        } else {
            r.update(r.len() - 1, r.last().push(s.last()))
        }
    }
}

pub proof fn lemma_dns_labels_nonempty(s: Seq<char>)
    ensures
        dns_labels(s).len() >= 1,
    decreases s.len(),
{
    if s.len() > 0 {
        lemma_dns_labels_nonempty(s.drop_last());
    }
}

/// The parts of a DNS suffix: its labels, the rightmost first.
pub open spec fn suffix_parts(s: Seq<char>) -> Seq<Seq<char>> {
    dns_labels(s).reverse()
}

/// The labels of a wire authorization.
pub open spec fn labels_of(authn: Seq<char>, name: Seq<char>) -> Seq<(Seq<char>, Seq<char>)> {
    seq![("authn"@, authn), ("name"@, name)]
}

/// The wire form of authorization `name` admitting `c`.
pub open spec fn wire_authz(name: Seq<char>, c: ClientsView, domain: Seq<char>) -> WireAuthzView {
    match c {
        ClientsView::Unauthenticated(nets) => WireAuthzView {
            networks: nets,
            tls: None,
            labels: labels_of("false"@, name),
        },
        ClientsView::Authenticated { service_accounts, identities, suffixes } => WireAuthzView {
            networks: seq!["0.0.0.0/0"@, "::/0"@],
            tls: Some(
                IdMatchView {
                    identities: identities + service_accounts.map_values(
                        |sa: (Seq<char>, Seq<char>)| identity_of(sa, domain),
                    ),
                    suffixes: suffixes.map_values(|s: Seq<char>| suffix_parts(s)),
                },
            ),
            labels: labels_of("true"@, name),
        },
    }
}

/// The implicit authorization of the pod's kubelet networks.
pub open spec fn kubelet_authz(kubelet_ips: Seq<Seq<char>>) -> WireAuthzView {
    WireAuthzView { networks: kubelet_ips, tls: None, labels: labels_of("false"@, "_kubelet"@) }
}

/// The wire form of a config: the kubelet's authorization first, then the
/// config's own, in order.
pub open spec fn wire_config(kubelet: WireAuthzView, cfg: ConfigView, domain: Seq<char>) -> ProxyConfigView {
    ProxyConfigView {
        authorizations: seq![kubelet] + cfg.authorizations.map_values(
            |a: (Seq<char>, ClientsView)| wire_authz(a.0, a.1, domain),
        ),
        protocol: wire_protocol(cfg.protocol),
    }
}

/// The wire form of a protocol.
pub fn to_protocol(p: ProxyProtocol) -> (r: WireProtocol)
    ensures
        r == wire_protocol(p),
{
    match p {
        ProxyProtocol::Detect { timeout_ms } => WireProtocol::Detect { timeout_ms },
        ProxyProtocol::Http1 | ProxyProtocol::Http2 => WireProtocol::Http,
        ProxyProtocol::Grpc => WireProtocol::Grpc,
        ProxyProtocol::Opaque | ProxyProtocol::Tls => WireProtocol::Opaque,
    }
}

/// The TLS identity of service account `ns/name`.
pub fn to_identity(ns: &String, name: &String, domain: &String) -> (r: String)
    ensures
        r@ == identity_of((ns@, name@), domain@),
{
    let r = name.clone();
    let r = r.concat(".");
    let r = r.concat(ns.as_str());
    let r = r.concat(".serviceaccount.identity.linkerd.");
    let r = r.concat(domain.as_str());
    r
}

/// The labels of a DNS suffix, the rightmost first.
pub fn to_suffix_parts(s: &String) -> (r: Vec<String>)
    ensures
        strs(r@) == suffix_parts(s@),
{
    let st = s.as_str();
    let len = st.unicode_len();
    let mut parts: Vec<String> = Vec::new();
    let mut start: usize = 0;
    let mut i: usize = 0;
    assert(s@.subrange(0, 0) =~= Seq::<char>::empty());
    assert(strs(parts@).push(s@.subrange(0, 0)) =~= seq![Seq::<char>::empty()]);
    while i < len
        invariant
            st@ == s@,
            len == s@.len(),
            0 <= start <= i <= len,
            dns_labels(s@.subrange(0, i as int)) == strs(parts@).push(s@.subrange(start as int, i as int)),
        decreases len - i,
    {
        let c = st.get_char(i);
        let ghost pre = s@.subrange(0, i as int);
        assert(s@.subrange(0, i + 1).drop_last() =~= pre);
        if c == '.' {
            let seg = st.substring_char(start, i).to_owned();
            parts.push(seg);
            assert(strs(parts@) =~= strs(parts@.drop_last()).push(seg@));
            start = i + 1;
            assert(s@.subrange(start as int, start as int) =~= Seq::<char>::empty());
        } else {
            assert(s@.subrange(start as int, i + 1) =~= s@.subrange(start as int, i as int).push(c));
            proof {
                lemma_dns_labels_nonempty(pre);
            }
        }
        i += 1;
    }
    let last = st.substring_char(start, len).to_owned();
    parts.push(last);
    assert(s@.subrange(0, len as int) =~= s@);
    let ghost fwd = strs(parts@);
    assert(fwd =~= dns_labels(s@));
    let mut r: Vec<String> = Vec::new();
    let mut k: usize = parts.len();
    while k > 0
        invariant
            k <= parts.len(),
            strs(parts@) == fwd,
            strs(r@) =~= fwd.subrange(k as int, fwd.len() as int).reverse(),
        decreases k,
    {
        k -= 1;
        let ghost before = strs(r@);
        r.push(parts[k].clone());
        assert(strs(r@) =~= before.push(fwd[k as int]));
        assert(fwd.subrange(k as int, fwd.len() as int).reverse() =~= fwd.subrange(
            k + 1,
            fwd.len() as int,
        ).reverse().push(fwd[k as int]));
    }
    assert(fwd.subrange(0, fwd.len() as int) =~= fwd);
    r
}

/// The labels `authn` and `name` of a wire authorization.
pub fn mk_labels(authn: &str, name: &String) -> (r: Vec<Label>)
    ensures
        label_pairs(r@) == labels_of(authn@, name@),
{
    let mut r: Vec<Label> = Vec::new();
    r.push(Label { key: String::from_str("authn"), value: authn.to_owned() });
    r.push(Label { key: String::from_str("name"), value: name.clone() });
    assert(label_pairs(r@) =~= labels_of(authn@, name@));
    r
}

/// The wire form of authorization `name` admitting `clients`.
pub fn to_authz(name: &String, clients: &Clients, domain: &String) -> (r: WireAuthz)
    ensures
        r@ == wire_authz(name@, clients@, domain@),
{
    match clients {
        Clients::Unauthenticated(nets) => {
            WireAuthz { networks: copy_strs(nets), tls: None, labels: mk_labels("false", name) }
        },
        Clients::Authenticated { service_accounts, identities, suffixes } => {
            let mut networks: Vec<String> = Vec::new();
            networks.push(String::from_str("0.0.0.0/0"));
            networks.push(String::from_str("::/0"));
            assert(strs(networks@) =~= seq!["0.0.0.0/0"@, "::/0"@]);
            let mut ids = copy_strs(identities);
            let ghost base = strs(ids@);
            let mut i: usize = 0;
            while i < service_accounts.len()
                invariant
                    0 <= i <= service_accounts.len(),
                    base == strs(identities@),
                    strs(ids@) =~= base + accounts(service_accounts@).subrange(0, i as int).map_values(
                        |sa: (Seq<char>, Seq<char>)| identity_of(sa, domain@),
                    ),
                decreases service_accounts.len() - i,
            {
                let ghost before = strs(ids@);
                let id = to_identity(&service_accounts[i].ns, &service_accounts[i].name, domain);
                ids.push(id);
                assert(strs(ids@) =~= before.push(id@));
                assert(accounts(service_accounts@).subrange(0, i + 1) =~= accounts(
                    service_accounts@,
                ).subrange(0, i as int).push(accounts(service_accounts@)[i as int]));
                i += 1;
            }
            assert(accounts(service_accounts@).subrange(0, service_accounts@.len() as int)
                =~= accounts(service_accounts@));
            let mut sfx: Vec<Vec<String>> = Vec::new();
            let mut j: usize = 0;
            while j < suffixes.len()
                invariant
                    0 <= j <= suffixes.len(),
                    suffix_views(sfx@) =~= strs(suffixes@).subrange(0, j as int).map_values(
                        |s: Seq<char>| suffix_parts(s),
                    ),
                decreases suffixes.len() - j,
            {
                let ghost before = suffix_views(sfx@);
                let parts = to_suffix_parts(&suffixes[j]);
                sfx.push(parts);
                assert(suffix_views(sfx@) =~= before.push(strs(parts@)));
                assert(strs(suffixes@).subrange(0, j + 1) =~= strs(suffixes@).subrange(0, j as int).push(
                    suffixes@[j as int]@,
                ));
                j += 1;
            }
            assert(strs(suffixes@).subrange(0, suffixes@.len() as int) =~= strs(suffixes@));
            WireAuthz {
                networks,
                tls: Some(IdMatch { identities: ids, suffixes: sfx }),
                labels: mk_labels("true", name),
            }
        },
    }
}

/// The implicit authorization of a pod's kubelet networks.
pub fn mk_kubelet_authz(kubelet_ips: &Vec<String>) -> (r: WireAuthz)
    ensures
        r@ == kubelet_authz(strs(kubelet_ips@)),
{
    let name = String::from_str("_kubelet");
    WireAuthz { networks: copy_strs(kubelet_ips), tls: None, labels: mk_labels("false", &name) }
}

} // verus!
