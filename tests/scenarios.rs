use polixy::config::{Clients, ProxyProtocolHint};
use polixy::grpc::{Server, Subscriber, WatchError};
use polixy::index::{
    Authz, ContainerPort, DefaultMode, Index, Pod, Port, ServerResource, ServerSelector, Update,
};
use polixy::labels::{Label, Selector};
use polixy::wire::{ProxyConfig, WireAuthz, WireProtocol};

fn s(x: &str) -> String {
    x.to_string()
}

fn labels(pairs: &[(&str, &str)]) -> Vec<Label> {
    pairs.iter().map(|(k, v)| Label { key: s(k), value: s(v) }).collect()
}

fn selector(pairs: &[(&str, &str)]) -> Selector {
    Selector { match_labels: labels(pairs), match_expressions: vec![] }
}

fn pod(ns: &str, name: &str, lbls: &[(&str, &str)], ports: &[u16]) -> Pod {
    Pod {
        ns: s(ns),
        name: s(name),
        labels: labels(lbls),
        ports: ports.iter().map(|n| ContainerPort { name: None, number: *n }).collect(),
        kubelet_ips: vec![s("10.1.0.1/32")],
    }
}

fn server(
    ns: &str,
    name: &str,
    lbls: &[(&str, &str)],
    sel: &[(&str, &str)],
    port: u16,
    proto: Option<ProxyProtocolHint>,
) -> ServerResource {
    ServerResource {
        ns: s(ns),
        name: s(name),
        labels: labels(lbls),
        port: Port::Number(port),
        pod_selector: selector(sel),
        proxy_protocol: proto,
    }
}

fn unauthenticated(ns: &str, name: &str, target: ServerSelector, cidrs: &[&str]) -> Authz {
    Authz {
        ns: s(ns),
        name: s(name),
        target,
        clients: Clients::Unauthenticated(cidrs.iter().map(|c| s(c)).collect()),
    }
}

fn label_value(a: &WireAuthz, key: &str) -> Option<String> {
    a.labels.iter().find(|l| l.key == key).map(|l| l.value.clone())
}

fn watch(idx: &Index, workload: &str, port: u32) -> Result<Subscriber, WatchError> {
    Server::new(s("cluster.local")).watch_inbound(idx, &s(workload), port)
}

fn update_for<'a>(ups: &'a [Update], ns: &str, pod: &str, port: u16) -> Option<&'a Update> {
    ups.iter().find(|u| u.ns == ns && u.pod == pod && u.port == port)
}

fn observe_update(sub: &mut Subscriber, ups: &[Update]) -> bool {
    let u = update_for(ups, &sub.ns.clone(), &sub.pod.clone(), sub.port).expect("an update for the port");
    sub.observe(u.value.as_ref().expect("a new value"))
}

fn basic_index() -> Index {
    let mut idx = Index::new(DefaultMode::DenyAll, vec![]);
    idx.apply_pod(pod("A", "p", &[("app", "x")], &[80]));
    idx.apply_server(server("A", "s", &[], &[("app", "x")], 80, Some(ProxyProtocolHint::Http1)));
    idx
}

fn kubelet_only(cfg: &ProxyConfig) -> bool {
    cfg.authorizations.len() == 1
        && label_value(&cfg.authorizations[0], "name") == Some(s("_kubelet"))
}

#[test]
fn basic_allow() {
    let mut idx = basic_index();
    idx.apply_authz(unauthenticated("A", "a", ServerSelector::Name(s("s")), &["10.0.0.0/8"]));
    let mut sub = watch(&idx, "A:p", 80).ok().expect("the port is known");
    let cfg = &sub.last;
    assert_eq!(cfg.protocol, WireProtocol::Http);
    assert_eq!(cfg.authorizations.len(), 2);
    let kubelet = &cfg.authorizations[0];
    assert_eq!(kubelet.networks, vec![s("10.1.0.1/32")]);
    assert_eq!(label_value(kubelet, "authn"), Some(s("false")));
    assert_eq!(label_value(kubelet, "name"), Some(s("_kubelet")));
    let a = &cfg.authorizations[1];
    assert_eq!(a.networks, vec![s("10.0.0.0/8")]);
    assert!(a.tls.is_none());
    assert_eq!(label_value(a, "authn"), Some(s("false")));
    assert_eq!(label_value(a, "name"), Some(s("a")));
    // Nothing changes: the subscriber sends nothing more.
    let current = idx.lookup(&s("A"), &s("p"), 80).expect("known").config;
    assert!(!sub.observe(&current));
}

#[test]
fn authz_by_selector() {
    let mut idx = Index::new(DefaultMode::DenyAll, vec![]);
    idx.apply_pod(pod("A", "p", &[("app", "x")], &[80]));
    idx.apply_server(server(
        "A",
        "s",
        &[("role", "edge")],
        &[("app", "x")],
        80,
        Some(ProxyProtocolHint::Http1),
    ));
    idx.apply_authz(unauthenticated(
        "A",
        "a",
        ServerSelector::Selector(selector(&[("role", "edge")])),
        &["10.0.0.0/8"],
    ));
    let mut sub = watch(&idx, "A:p", 80).ok().expect("the port is known");
    assert_eq!(sub.last.authorizations.len(), 2);
    assert_eq!(label_value(&sub.last.authorizations[1], "name"), Some(s("a")));

    let ups = idx.apply_server(server(
        "A",
        "s",
        &[("role", "internal")],
        &[("app", "x")],
        80,
        Some(ProxyProtocolHint::Http1),
    ));
    assert!(observe_update(&mut sub, &ups));
    assert!(kubelet_only(&sub.last));
}

#[test]
fn conflict() {
    let mut idx = basic_index();
    idx.apply_server(server("A", "t", &[], &[("app", "x")], 80, Some(ProxyProtocolHint::Grpc)));
    let mut sub = watch(&idx, "A:p", 80).ok().expect("the port is known");
    assert_eq!(sub.last.protocol, WireProtocol::Detect { timeout_ms: 5000 });
    assert!(kubelet_only(&sub.last));
    let looked = idx.lookup(&s("A"), &s("p"), 80).expect("known");
    assert!(looked.config.conflict);

    let ups = idx.delete_server(&server("A", "t", &[], &[], 80, None)).ok().expect("t is known");
    assert!(observe_update(&mut sub, &ups));
    assert_eq!(sub.last.protocol, WireProtocol::Http);
}

#[test]
fn restart_pruning() {
    let mut idx = Index::new(DefaultMode::AllowAll, vec![]);
    idx.apply_pod(pod("A", "p", &[("app", "x")], &[80]));
    idx.apply_server(server("A", "s", &[], &[("app", "x")], 80, Some(ProxyProtocolHint::Opaque)));
    let mut sub = watch(&idx, "A:p", 80).ok().expect("the port is known");
    assert_eq!(sub.last.protocol, WireProtocol::Opaque);

    let ups = idx.reset_servers(vec![server("A", "other", &[], &[("app", "y")], 80, None)]);
    assert!(observe_update(&mut sub, &ups));
    assert_eq!(sub.last.protocol, WireProtocol::Detect { timeout_ms: 5000 });
    assert_eq!(sub.last.authorizations.len(), 2);
    let d = &sub.last.authorizations[1];
    assert_eq!(d.networks, vec![s("0.0.0.0/0"), s("::/0")]);
    assert_eq!(label_value(d, "name"), Some(s("default")));
    assert_eq!(idx.servers.index.items.len(), 1);
    assert_eq!(idx.servers.index.items[0].name, s("other"));
}

#[test]
fn unknown_port() {
    let idx = basic_index();
    assert!(matches!(watch(&idx, "A:p", 81), Err(WatchError::NotFound)));
    assert!(matches!(watch(&idx, "A:q", 80), Err(WatchError::NotFound)));
    assert!(matches!(watch(&idx, "B:p", 80), Err(WatchError::NotFound)));
}

#[test]
fn invalid_input() {
    let idx = basic_index();
    assert!(matches!(watch(&idx, "garbage", 80), Err(WatchError::InvalidWorkload)));
    assert!(matches!(watch(&idx, "A:p", 0), Err(WatchError::InvalidPort)));
    assert!(matches!(watch(&idx, "A:p", 70000), Err(WatchError::InvalidPort)));
    assert!(watch(&idx, "A:p", 80).is_ok());
}

#[test]
fn deleting_a_pod_tears_down_its_cells() {
    let mut idx = basic_index();
    assert_eq!(idx.cells.len(), 1);
    let ups = idx.delete_pod(&s("A"), &s("p")).ok().expect("p is known");
    assert_eq!(ups.len(), 1);
    assert!(ups[0].value.is_none());
    assert_eq!(idx.cells.len(), 0);
    assert!(matches!(watch(&idx, "A:p", 80), Err(WatchError::NotFound)));
}
