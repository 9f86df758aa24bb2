use polixy::authz::{
    Authorization, AuthorizationSpec, Client, Name, SchemaError, Server as AuthzTarget,
    ServiceAccountRef,
};
use polixy::config::{mk_protocol, Clients, ProxyProtocol, ProxyProtocolHint, ServiceAccount};
use polixy::grpc::{parse_workload, validate_port, Server};
use polixy::index::{
    ContainerPort, DefaultMode, Index, IndexError, Pod, Port, ServerResource, ServerSelector,
};
use polixy::labels::{Expression, Label, Operator, Selector};
use polixy::wire::{to_authz, to_identity, to_suffix_parts};

fn s(x: &str) -> String {
    x.to_string()
}

fn labels(pairs: &[(&str, &str)]) -> Vec<Label> {
    pairs.iter().map(|(k, v)| Label { key: s(k), value: s(v) }).collect()
}

fn pod(name: &str, lbls: &[(&str, &str)], ports: &[(Option<&str>, u16)]) -> Pod {
    Pod {
        ns: s("A"),
        name: s(name),
        labels: labels(lbls),
        ports: ports.iter().map(|(n, p)| ContainerPort { name: n.map(s), number: *p }).collect(),
        kubelet_ips: vec![],
    }
}

fn server(name: &str, port: Port, sel: &[(&str, &str)]) -> ServerResource {
    ServerResource {
        ns: s("A"),
        name: s(name),
        labels: vec![],
        port,
        pod_selector: Selector { match_labels: labels(sel), match_expressions: vec![] },
        proxy_protocol: None,
    }
}

#[test]
fn selector_exact_and_set_requirements() {
    let l = labels(&[("app", "x"), ("tier", "web")]);
    let mut sel = Selector { match_labels: labels(&[("app", "x")]), match_expressions: vec![] };
    assert!(sel.matches(&l));
    sel.match_expressions.push(Expression { key: s("tier"), operator: Operator::In, values: vec![s("web"), s("db")] });
    assert!(sel.matches(&l));
    sel.match_expressions.push(Expression { key: s("zone"), operator: Operator::DoesNotExist, values: vec![] });
    assert!(sel.matches(&l));
    sel.match_expressions.push(Expression { key: s("tier"), operator: Operator::NotIn, values: vec![s("web")] });
    assert!(!sel.matches(&l));
    let exists = Selector {
        match_labels: vec![],
        match_expressions: vec![Expression { key: s("app"), operator: Operator::Exists, values: vec![] }],
    };
    assert!(exists.matches(&l));
    assert!(!exists.matches(&vec![]));
    let wrong = Selector { match_labels: labels(&[("app", "y")]), match_expressions: vec![] };
    assert!(!wrong.matches(&l));
    let empty = Selector { match_labels: vec![], match_expressions: vec![] };
    assert!(empty.matches(&vec![]));
}

#[test]
fn protocol_hints() {
    assert_eq!(mk_protocol(None), ProxyProtocol::Detect { timeout_ms: 5000 });
    assert_eq!(mk_protocol(Some(&ProxyProtocolHint::Unknown)), ProxyProtocol::Detect { timeout_ms: 5000 });
    assert_eq!(mk_protocol(Some(&ProxyProtocolHint::Http2)), ProxyProtocol::Http2);
    assert_eq!(mk_protocol(Some(&ProxyProtocolHint::Tls)), ProxyProtocol::Tls);
}

#[test]
fn identity_and_suffix_encoding() {
    assert_eq!(
        to_identity(&s("ns1"), &s("web"), &s("cluster.local")),
        s("web.ns1.serviceaccount.identity.linkerd.cluster.local")
    );
    assert_eq!(to_suffix_parts(&s("a.b.cluster.local")), vec![s("local"), s("cluster"), s("b"), s("a")]);
    assert_eq!(to_suffix_parts(&s("*")), vec![s("*")]);
    assert_eq!(to_suffix_parts(&s("")), vec![s("")]);
}

#[test]
fn authenticated_authz_encoding() {
    let clients = Clients::Authenticated {
        service_accounts: vec![ServiceAccount { ns: s("ns1"), name: s("web") }],
        identities: vec![s("id.example")],
        suffixes: vec![s("example.com")],
    };
    let a = to_authz(&s("auth"), &clients, &s("cluster.local"));
    assert_eq!(a.networks, vec![s("0.0.0.0/0"), s("::/0")]);
    let tls = a.tls.expect("authenticated");
    assert_eq!(
        tls.identities,
        vec![s("id.example"), s("web.ns1.serviceaccount.identity.linkerd.cluster.local")]
    );
    assert_eq!(tls.suffixes, vec![vec![s("com"), s("example")]]);
    assert_eq!(a.labels[0].key, s("authn"));
    assert_eq!(a.labels[0].value, s("true"));
    assert_eq!(a.labels[1].value, s("auth"));
}

#[test]
fn workload_and_port_validation() {
    assert_eq!(parse_workload(&s("ns:pod")), Some((s("ns"), s("pod"))));
    assert_eq!(parse_workload(&s("ns:pod:x")), Some((s("ns"), s("pod:x"))));
    assert_eq!(parse_workload(&s("garbage")), None);
    assert_eq!(validate_port(0), None);
    assert_eq!(validate_port(65535), Some(65535));
    assert_eq!(validate_port(65536), None);
}

#[test]
fn named_port_resolution() {
    let mut idx = Index::new(DefaultMode::AllowAll, vec![]);
    idx.apply_pod(pod("p", &[("app", "x")], &[(Some("http"), 8080), (None, 9090)]));
    idx.apply_server(server("s", Port::Name(s("http")), &[("app", "x")]));
    // The server governs the named port, and has no authorization.
    assert!(idx.lookup(&s("A"), &s("p"), 8080).unwrap().config.authorizations.is_empty());
    // The other port falls back to the default policy.
    let cfg = idx.lookup(&s("A"), &s("p"), 9090).unwrap().config;
    assert_eq!(cfg.authorizations.len(), 1);
    assert_eq!(cfg.authorizations[0].name, s("default"));
    // A name the pod does not declare selects nothing.
    let mut other = Index::new(DefaultMode::AllowAll, vec![]);
    other.apply_pod(pod("p", &[("app", "x")], &[(None, 9090)]));
    other.apply_server(server("s", Port::Name(s("http")), &[("app", "x")]));
    let cfg = other.lookup(&s("A"), &s("p"), 9090).unwrap().config;
    assert_eq!(cfg.authorizations.len(), 1);
    assert_eq!(cfg.authorizations[0].name, s("default"));
}

#[test]
fn default_modes() {
    let nets = vec![s("10.0.0.0/8")];
    let p = pod("p", &[], &[(None, 80)]);
    for (mode, expect) in [
        (DefaultMode::AllowAll, 1),
        (DefaultMode::DenyAll, 0),
        (DefaultMode::AuthenticatedOnly, 1),
        (DefaultMode::ClusterOnly, 1),
    ] {
        let mut idx = Index::new(mode, nets.clone());
        let copy = Pod { ns: p.ns.clone(), name: p.name.clone(), labels: vec![], ports: vec![ContainerPort { name: None, number: 80 }], kubelet_ips: vec![] };
        idx.apply_pod(copy);
        let cfg = idx.lookup(&s("A"), &s("p"), 80).unwrap().config;
        assert_eq!(cfg.authorizations.len(), expect);
        assert_eq!(cfg.protocol, ProxyProtocol::Detect { timeout_ms: 5000 });
        if mode == DefaultMode::ClusterOnly {
            match &cfg.authorizations[0].clients {
                Clients::Unauthenticated(n) => assert_eq!(n, &nets),
                _ => panic!("cluster-only admits networks"),
            }
        }
        if mode == DefaultMode::AuthenticatedOnly {
            match &cfg.authorizations[0].clients {
                Clients::Authenticated { suffixes, .. } => assert_eq!(suffixes, &vec![s("*")]),
                _ => panic!("authenticated-only admits identities"),
            }
        }
    }
}

#[test]
fn reapplying_changes_nothing() {
    let mut idx = Index::new(DefaultMode::AllowAll, vec![]);
    idx.apply_pod(pod("p", &[("app", "x")], &[(None, 80)]));
    let first = idx.apply_server(server("s", Port::Number(80), &[("app", "x")]));
    assert_eq!(first.len(), 1);
    let second = idx.apply_server(server("s", Port::Number(80), &[("app", "x")]));
    assert!(second.is_empty());
    assert_eq!(idx.servers.index.items.len(), 1);
    let again = idx.apply_pod(pod("p", &[("app", "x")], &[(None, 80)]));
    assert!(again.is_empty());
    assert_eq!(idx.pods.items.len(), 1);
}

#[test]
fn authorization_attaches_only_to_its_target() {
    let mut idx = Index::new(DefaultMode::DenyAll, vec![]);
    idx.apply_pod(pod("p", &[("app", "x")], &[(None, 80), (None, 81)]));
    idx.apply_server(server("s", Port::Number(80), &[("app", "x")]));
    idx.apply_server(server("t", Port::Number(81), &[("app", "x")]));
    idx.apply_authz(polixy::index::Authz {
        ns: s("A"),
        name: s("a"),
        target: ServerSelector::Name(s("s")),
        clients: Clients::Unauthenticated(vec![]),
    });
    // Same name, other namespace: applies to nothing here.
    idx.apply_authz(polixy::index::Authz {
        ns: s("B"),
        name: s("b"),
        target: ServerSelector::Name(s("t")),
        clients: Clients::Unauthenticated(vec![]),
    });
    assert_eq!(idx.lookup(&s("A"), &s("p"), 80).unwrap().config.authorizations.len(), 1);
    assert_eq!(idx.lookup(&s("A"), &s("p"), 81).unwrap().config.authorizations.len(), 0);
    let ups = idx.delete_authz(&s("A"), &s("a")).ok().unwrap();
    assert_eq!(ups.len(), 1);
    assert_eq!(ups[0].port, 80);
    assert!(ups[0].value.as_ref().unwrap().authorizations.is_empty());
}

#[test]
fn deleting_unknown_objects_fails() {
    let mut idx = Index::new(DefaultMode::DenyAll, vec![]);
    assert!(matches!(idx.delete_pod(&s("A"), &s("p")), Err(IndexError::UnknownPod)));
    assert!(matches!(idx.rm_server(&s("A"), &s("s")), Err(IndexError::UnknownServer)));
    assert!(matches!(idx.delete_authz(&s("A"), &s("a")), Err(IndexError::UnknownAuthz)));
    assert!(matches!(
        idx.delete_server(&server("s", Port::Number(80), &[])),
        Err(IndexError::UnknownServer)
    ));
}

#[test]
fn authorization_resources() {
    let client = Client {
        cidrs: None,
        unauthenticated: None,
        identities: Some(vec![s("x.example")]),
        service_accounts: Some(vec![
            ServiceAccountRef { namespace: None, name: s("web") },
            ServiceAccountRef { namespace: Some(s("other")), name: s("api") },
        ]),
    };
    let res = Authorization {
        ns: s("A"),
        name: s("a"),
        spec: AuthorizationSpec { server: AuthzTarget { name: Some(s("s")), selector: None }, client },
    };
    assert_eq!(Name::from_resource(&res).to_string(), s("a"));
    let a = res.to_authz().ok().expect("valid");
    assert!(matches!(a.target, ServerSelector::Name(ref n) if *n == "s"));
    match a.clients {
        Clients::Authenticated { service_accounts, identities, suffixes } => {
            assert_eq!(service_accounts.len(), 2);
            assert_eq!(service_accounts[0].ns, s("A"));
            assert_eq!(service_accounts[1].ns, s("other"));
            assert_eq!(identities, vec![s("x.example")]);
            assert!(suffixes.is_empty());
        }
        _ => panic!("authenticated"),
    }

    let open = Client { cidrs: None, unauthenticated: Some(true), identities: None, service_accounts: None };
    let none = Authorization {
        ns: s("A"),
        name: s("b"),
        spec: AuthorizationSpec { server: AuthzTarget { name: None, selector: None }, client: open },
    };
    assert!(matches!(none.to_authz(), Err(SchemaError::NoServerTarget)));

    let open = Client { cidrs: None, unauthenticated: Some(true), identities: None, service_accounts: None };
    let both = Authorization {
        ns: s("A"),
        name: s("c"),
        spec: AuthorizationSpec {
            server: AuthzTarget {
                name: Some(s("s")),
                selector: Some(Selector { match_labels: vec![], match_expressions: vec![] }),
            },
            client: open,
        },
    };
    assert!(matches!(both.to_authz(), Err(SchemaError::AmbiguousServerTarget)));

    let open = Client { cidrs: None, unauthenticated: Some(true), identities: None, service_accounts: None };
    let by_selector = Authorization {
        ns: s("A"),
        name: s("d"),
        spec: AuthorizationSpec {
            server: AuthzTarget {
                name: None,
                selector: Some(Selector { match_labels: vec![], match_expressions: vec![] }),
            },
            client: open,
        },
    };
    match by_selector.to_authz().ok().expect("valid").clients {
        Clients::Unauthenticated(nets) => assert_eq!(nets, vec![s("0.0.0.0/0"), s("::/0")]),
        _ => panic!("unauthenticated"),
    }
}

#[test]
fn subscriber_sends_only_changes() {
    let mut idx = Index::new(DefaultMode::DenyAll, vec![]);
    idx.apply_pod(pod("p", &[("app", "x")], &[(None, 80)]));
    let mut sub = Server::new(s("cluster.local")).watch_inbound(&idx, &s("A:p"), 80).ok().unwrap();
    let cfg = idx.lookup(&s("A"), &s("p"), 80).unwrap().config;
    assert!(!sub.observe(&cfg));
    assert!(!sub.observe(&cfg));
    let mut srv = server("s", Port::Number(80), &[("app", "x")]);
    srv.proxy_protocol = Some(ProxyProtocolHint::Http1);
    let ups = idx.apply_server(srv);
    let next = ups[0].value.as_ref().unwrap();
    assert!(sub.observe(next));
    assert!(!sub.observe(next));
    // HTTP/1 and HTTP/2 look alike on the wire: nothing new to send.
    let mut srv = server("s", Port::Number(80), &[("app", "x")]);
    srv.proxy_protocol = Some(ProxyProtocolHint::Http2);
    let ups = idx.apply_server(srv);
    assert!(!sub.observe(ups[0].value.as_ref().unwrap()));
}

#[test]
fn authorizations_ordered_by_name() {
    let mut idx = Index::new(DefaultMode::DenyAll, vec![]);
    idx.apply_pod(pod("p", &[("app", "x")], &[(None, 80)]));
    idx.apply_server(server("s", Port::Number(80), &[("app", "x")]));
    for name in ["zeta", "alpha", "mid", "alp"] {
        idx.apply_authz(polixy::index::Authz {
            ns: s("A"),
            name: s(name),
            target: ServerSelector::Name(s("s")),
            clients: Clients::Unauthenticated(vec![]),
        });
    }
    let cfg = idx.lookup(&s("A"), &s("p"), 80).unwrap().config;
    let names: Vec<String> = cfg.authorizations.iter().map(|a| a.name.clone()).collect();
    assert_eq!(names, vec![s("alp"), s("alpha"), s("mid"), s("zeta")]);
    let wire = Server::new(s("cluster.local")).watch_inbound(&idx, &s("A:p"), 80).ok().unwrap();
    assert_eq!(wire.last.authorizations.len(), 5);
    assert_eq!(wire.last.authorizations[0].labels[1].value, s("_kubelet"));
    assert_eq!(wire.last.authorizations[1].labels[1].value, s("alp"));
}

#[test]
fn namespace_default_mode() {
    let mut idx = Index::new(DefaultMode::AllowAll, vec![]);
    idx.apply_pod(pod("p", &[], &[(None, 80)]));
    assert_eq!(idx.lookup(&s("A"), &s("p"), 80).unwrap().config.authorizations.len(), 1);
    let ups = idx.set_namespace_mode(s("A"), Some(DefaultMode::DenyAll));
    assert_eq!(ups.len(), 1);
    assert!(ups[0].value.as_ref().unwrap().authorizations.is_empty());
    // Another namespace's choice changes nothing here.
    let ups = idx.set_namespace_mode(s("B"), Some(DefaultMode::ClusterOnly));
    assert!(ups.is_empty());
    let ups = idx.set_namespace_mode(s("A"), None);
    assert_eq!(ups.len(), 1);
    assert_eq!(ups[0].value.as_ref().unwrap().authorizations.len(), 1);
}
