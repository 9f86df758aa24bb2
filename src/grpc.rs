use crate::config::{strs, eq_strs, InboundServerConfig};
use crate::index::{declares, Index};
use crate::labels::Label;
use crate::wire::{
    kubelet_authz, label_pairs, mk_kubelet_authz, suffix_views, to_authz, to_protocol, wire_authz_views,
    wire_config, IdMatch, ProxyConfig, ProxyConfigView, WireAuthz,
};
use vstd::prelude::*;

verus! {

/// Why a watch request is refused.
#[derive(Clone, Copy, Debug, PartialEq, Eq, Structural)]
pub enum WatchError {
    /// The workload is not of the form `<namespace>:<pod>`.
    InvalidWorkload,
    /// The port is 0 or above 65535.
    InvalidPort,
    /// The index holds no such pod, or the pod does not declare the port.
    NotFound,
}

/// `i` is the position of the first `:` of `s`.
pub open spec fn first_colon(s: Seq<char>, i: int) -> bool {
    &&& 0 <= i < s.len()
    &&& s[i] == ':'
    &&& forall|j: int| 0 <= j < i ==> s[j] != ':'
}

/// `s` holds a `:`.
pub open spec fn has_colon(s: Seq<char>) -> bool {
    exists|i: int| 0 <= i < s.len() && s[i] == ':'
}

/// Splits a workload `<namespace>:<pod>` at its first `:`.
pub fn parse_workload(workload: &String) -> (r: Option<(String, String)>)
    ensures
        r is None <==> !has_colon(workload@),
        r is Some ==> exists|i: int|
            first_colon(workload@, i) && (r->0).0@ == workload@.subrange(0, i) && (r->0).1@
                == workload@.subrange(i + 1, workload@.len() as int),
{
    let st = workload.as_str();
    let len = st.unicode_len();
    let mut i: usize = 0;
    while i < len
        invariant
            st@ == workload@,
            len == workload@.len(),
            0 <= i <= len,
            forall|j: int| 0 <= j < i ==> workload@[j] != ':',
        decreases len - i,
    {
        if st.get_char(i) == ':' {
            let ns = st.substring_char(0, i).to_owned();
            let pod = st.substring_char(i + 1, len).to_owned();
            assert(first_colon(workload@, i as int));
            return Some((ns, pod));
        }
        i += 1;
    }
    None
}

/// A port of a watch request, if it is one: 1 to 65535.
pub fn validate_port(port: u32) -> (r: Option<u16>)
    ensures
        r is Some <==> 1 <= port <= 65535,
        r is Some ==> r->0 == port,
{
    if port == 0 || port > 65535 {
        None
    } else {
        Some(port as u16)
    }
}

/// The wire form of a config, after the kubelet's authorization.
pub fn to_config(kubelet: &WireAuthz, cfg: &InboundServerConfig, identity_domain: &String) -> (r: ProxyConfig)
    ensures
        r@ == wire_config(kubelet@, cfg@, identity_domain@),
{
    let mut auths: Vec<WireAuthz> = Vec::new();
    auths.push(copy_wire_authz(kubelet));
    let ghost target = wire_config(kubelet@, cfg@, identity_domain@).authorizations;
    let mut i: usize = 0;
    while i < cfg.authorizations.len()
        invariant
            0 <= i <= cfg.authorizations.len(),
            target == wire_config(kubelet@, cfg@, identity_domain@).authorizations,
            auths@.len() == i + 1,
            forall|m: int| 0 <= m < i + 1 ==> (#[trigger] auths@[m])@ == target[m],
        decreases cfg.authorizations.len() - i,
    {
        let a = to_authz(&cfg.authorizations[i].name, &cfg.authorizations[i].clients, identity_domain);
        auths.push(a);
        i += 1;
    }
    assert(wire_authz_views(auths@) =~= target);
    ProxyConfig { authorizations: auths, protocol: to_protocol(cfg.protocol) }
}

/// A copy of a list of labels.
pub fn copy_labels(v: &Vec<Label>) -> (r: Vec<Label>)
    ensures
        label_pairs(r@) == label_pairs(v@),
{
    let mut r: Vec<Label> = Vec::new();
    let mut i: usize = 0;
    while i < v.len()
        invariant
            0 <= i <= v.len(),
            r@.len() == i,
            forall|m: int| 0 <= m < i ==> r@[m].key@ == v@[m].key@ && r@[m].value@ == v@[m].value@,
        decreases v.len() - i,
    {
        r.push(Label { key: v[i].key.clone(), value: v[i].value.clone() });
        i += 1;
    }
    assert(label_pairs(r@) =~= label_pairs(v@));
    r
}

/// A copy of a wire authorization.
pub fn copy_wire_authz(a: &WireAuthz) -> (r: WireAuthz)
    ensures
        r@ == a@,
{
    let tls = match &a.tls {
        None => None,
        Some(t) => {
            let mut sfx: Vec<Vec<String>> = Vec::new();
            let mut i: usize = 0;
            while i < t.suffixes.len()
                invariant
                    0 <= i <= t.suffixes.len(),
                    sfx@.len() == i,
                    forall|m: int| 0 <= m < i ==> strs(sfx@[m]@) == strs(t.suffixes@[m]@),
                decreases t.suffixes.len() - i,
            {
                sfx.push(crate::config::copy_strs(&t.suffixes[i]));
                i += 1;
            }
            assert(suffix_views(sfx@) =~= suffix_views(t.suffixes@));
            Some(IdMatch { identities: crate::config::copy_strs(&t.identities), suffixes: sfx })
        },
    };
    WireAuthz { networks: crate::config::copy_strs(&a.networks), tls, labels: copy_labels(&a.labels) }
}

/// Whether two lists of labels are equal.
pub fn eq_labels(a: &Vec<Label>, b: &Vec<Label>) -> (r: bool)
    ensures
        r == (label_pairs(a@) == label_pairs(b@)),
{
    if a.len() != b.len() {
        assert(label_pairs(a@).len() != label_pairs(b@).len());
        return false;
    }
    let mut i: usize = 0;
    while i < a.len()
        invariant
            0 <= i <= a.len(),
            a.len() == b.len(),
            forall|m: int| 0 <= m < i ==> a@[m].key@ == b@[m].key@ && a@[m].value@ == b@[m].value@,
        decreases a.len() - i,
    {
        if a[i].key != b[i].key || a[i].value != b[i].value {
            assert(label_pairs(a@)[i as int] != label_pairs(b@)[i as int]);
            return false;
        }
        i += 1;
    }
    assert(label_pairs(a@) =~= label_pairs(b@));
    true
}

/// Whether two identity matches are equal.
pub fn eq_id_match(a: &IdMatch, b: &IdMatch) -> (r: bool)
    ensures
        r == (a@ == b@),
{
    if !eq_strs(&a.identities, &b.identities) {
        return false;
    }
    if a.suffixes.len() != b.suffixes.len() {
        assert(suffix_views(a.suffixes@).len() != suffix_views(b.suffixes@).len());
        return false;
    }
    let mut i: usize = 0;
    while i < a.suffixes.len()
        invariant
            0 <= i <= a.suffixes.len(),
            a.suffixes.len() == b.suffixes.len(),
            strs(a.identities@) == strs(b.identities@),
            forall|m: int| 0 <= m < i ==> strs(a.suffixes@[m]@) == strs(b.suffixes@[m]@),
        decreases a.suffixes.len() - i,
    {
        if !eq_strs(&a.suffixes[i], &b.suffixes[i]) {
            assert(suffix_views(a.suffixes@)[i as int] != suffix_views(b.suffixes@)[i as int]);
            return false;
        }
        i += 1;
    }
    assert(suffix_views(a.suffixes@) =~= suffix_views(b.suffixes@));
    true
}

/// Whether two wire authorizations are equal.
pub fn eq_wire_authz(a: &WireAuthz, b: &WireAuthz) -> (r: bool)
    ensures
        r == (a@ == b@),
{
    if !eq_strs(&a.networks, &b.networks) || !eq_labels(&a.labels, &b.labels) {
        return false;
    }
    match (&a.tls, &b.tls) {
        (None, None) => true,
        (Some(x), Some(y)) => eq_id_match(x, y),
        _ => false,
    }
}

impl ProxyConfig {
    /// Structural equality of two wire configs.
    pub fn same(&self, other: &ProxyConfig) -> (r: bool)
        ensures
            r == (self@ == other@),
    {
        if self.protocol != other.protocol {
            return false;
        }
        let a = &self.authorizations;
        let b = &other.authorizations;
        if a.len() != b.len() {
            assert(wire_authz_views(a@).len() != wire_authz_views(b@).len());
            return false;
        }
        let mut i: usize = 0;
        while i < a.len()
            invariant
                0 <= i <= a.len(),
                a.len() == b.len(),
                a@ == self.authorizations@,
                b@ == other.authorizations@,
                self.protocol == other.protocol,
                forall|m: int| 0 <= m < i ==> a@[m]@ == b@[m]@,
            decreases a.len() - i,
        {
            if !eq_wire_authz(&a[i], &b[i]) {
                assert(wire_authz_views(a@)[i as int] != wire_authz_views(b@)[i as int]);
                return false;
            }
            i += 1;
        }
        assert(wire_authz_views(a@) =~= wire_authz_views(b@));
        true
    }
}

/// A proxy's subscription to one pod port: it remembers the last config sent,
/// and sends a new one only when it differs.
pub struct Subscriber {
    pub ns: String,
    pub pod: String,
    pub port: u16,
    pub kubelet: WireAuthz,
    pub identity_domain: String,
    /// The config most recently sent.
    pub last: ProxyConfig,
}

impl Subscriber {
    /// The wire config that the subscriber would send for `cfg`.
    pub open spec fn encode(&self, cfg: crate::config::ConfigView) -> ProxyConfigView {
        wire_config(self.kubelet@, cfg, self.identity_domain@)
    }

    /// The port's config changed to `cfg`: returns whether a new config is to
    /// be sent, which is then `last`.
    pub fn observe(&mut self, cfg: &InboundServerConfig) -> (changed: bool)
        ensures
            changed == (old(self).encode(cfg@) != old(self).last@),
            changed ==> final(self).last@ == old(self).encode(cfg@),
            !changed ==> final(self).last@ == old(self).last@,
            final(self).kubelet@ == old(self).kubelet@,
            final(self).identity_domain@ == old(self).identity_domain@,
            final(self).ns@ == old(self).ns@,
            final(self).pod@ == old(self).pod@,
            final(self).port == old(self).port,
    {
        let next = to_config(&self.kubelet, cfg, &self.identity_domain);
        if next.same(&self.last) {
            false
        } else {
            self.last = next;
            true
        }
    }
}

/// The gRPC service's state: the identity domain of the cluster.
pub struct Server {
    pub identity_domain: String,
}

impl Server {
    pub fn new(identity_domain: String) -> (r: Server)
        ensures
            r.identity_domain@ == identity_domain@,
    {
        Server { identity_domain }
    }

    /// Starts a watch of port `port` of workload `<namespace>:<pod>`. Its
    /// first config is the port's current one, after the kubelet's
    /// authorization.
    pub fn watch_inbound(&self, index: &Index, workload: &String, port: u32) -> (r: Result<Subscriber, WatchError>)
        requires
            index.wf(),
        ensures
            !has_colon(workload@) ==> r == Err::<Subscriber, WatchError>(WatchError::InvalidWorkload),
            has_colon(workload@) && !(1 <= port <= 65535) ==> r == Err::<Subscriber, WatchError>(
                WatchError::InvalidPort,
            ),
            has_colon(workload@) && 1 <= port <= 65535 ==> (r == Err::<Subscriber, WatchError>(
                WatchError::NotFound,
            ) || r is Ok),
            r is Ok ==> ({
                let s = r->Ok_0;
                let k = (s.ns@, s.pod@);
                &&& first_colon(workload@, s.ns@.len() as int)
                &&& s.ns@ == workload@.subrange(0, s.ns@.len() as int)
                &&& s.pod@ == workload@.subrange(s.ns@.len() as int + 1, workload@.len() as int)
                &&& s.port == port
                &&& index.pods@.contains_key(k)
                &&& declares(index.pods@[k], s.port)
                &&& s.kubelet@ == kubelet_authz(strs(index.pods@[k].kubelet_ips@))
                &&& s.identity_domain@ == self.identity_domain@
                &&& s.last@ == s.encode(index.config_of(index.pods@[k], s.port))
            }),
            r == Err::<Subscriber, WatchError>(WatchError::NotFound) ==> has_colon(workload@) && 1
                <= port <= 65535 && forall|i: int|
                first_colon(workload@, i) ==> !(index.pods@.contains_key(
                    (workload@.subrange(0, i), workload@.subrange(i + 1, workload@.len() as int)),
                ) && declares(
                    index.pods@[(
                        workload@.subrange(0, i),
                        workload@.subrange(i + 1, workload@.len() as int),
                    )],
                    port as u16,
                )),
    {
        let (ns, pod) = match parse_workload(workload) {
            None => {
                return Err(WatchError::InvalidWorkload);
            },
            Some(parts) => parts,
        };
        let port = match validate_port(port) {
            None => {
                return Err(WatchError::InvalidPort);
            },
            Some(p) => p,
        };
        proof {
            let i = choose|i: int|
                first_colon(workload@, i) && ns@ == workload@.subrange(0, i) && pod@
                    == workload@.subrange(i + 1, workload@.len() as int);
            assert forall|j: int| first_colon(workload@, j) implies j == i by {
                if j < i {
                    assert(workload@[j] != ':');
                } else if j > i {
                    assert(workload@[i] != ':');
                }
            }
            assert(ns@.len() == i);
        }
        match index.lookup(&ns, &pod, port) {
            None => Err(WatchError::NotFound),
            Some(found) => {
                let kubelet = mk_kubelet_authz(&found.kubelet_ips);
                let last = to_config(&kubelet, &found.config, &self.identity_domain);
                Ok(
                    Subscriber {
                        ns,
                        pod,
                        port,
                        kubelet,
                        identity_domain: self.identity_domain.clone(),
                        last,
                    },
                )
            },
        }
    }
}

} // verus!
