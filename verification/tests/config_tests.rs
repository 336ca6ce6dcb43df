use loadbalancer::addr::Addr;
use loadbalancer::config::{
    build_resolved, BufferConfig, ResolvedBackend, ResolvedFrontend, RootConfig,
};
use loadbalancer::error::Error;

fn one_backend(name: &str, targets: Vec<Addr>) -> ResolvedBackend {
    ResolvedBackend { name: name.to_string(), targets }
}

fn one_frontend(addr: Addr, backend: &str) -> ResolvedFrontend {
    ResolvedFrontend { listen_addr: addr, backend: backend.to_string() }
}

#[test]
fn buffer_defaults() {
    let b = BufferConfig::default();
    assert_eq!(b.connections, 4096);
    assert_eq!(b.listeners, 128);
}

#[test]
fn root_config_default_is_empty() {
    let c = RootConfig::default();
    assert!(c.frontends.is_empty());
    assert!(c.backends.is_empty());
    assert_eq!(c.buffers.connections, 4096);
}

#[test]
fn build_resolved_joins_names() {
    let backends = vec![
        one_backend("web", vec![Addr::v4(10, 80), Addr::v4(11, 80)]),
        one_backend("api", vec![Addr::v4(20, 8080)]),
    ];
    let frontends = vec![
        one_frontend(Addr::v4(1, 80), "web"),
        one_frontend(Addr::v4(1, 8080), "api"),
    ];
    let rc = build_resolved(&frontends, &backends).expect("valid inputs must resolve");
    assert_eq!(rc.backends.len(), 2);
    assert_eq!(rc.backends[0], vec![Addr::v4(10, 80), Addr::v4(11, 80)]);
    assert_eq!(rc.frontends.len(), 2);
    assert_eq!(rc.frontends[0], (Addr::v4(1, 80), 0));
    assert_eq!(rc.frontends[1], (Addr::v4(1, 8080), 1));
}

#[test]
fn empty_target_list_is_rejected() {
    let backends = vec![one_backend("web", vec![])];
    let frontends = vec![one_frontend(Addr::v4(1, 80), "web")];
    let r = build_resolved(&frontends, &backends);
    assert!(matches!(r, Err(Error::ConfigResolve)));
}

#[test]
fn unknown_backend_name_is_rejected() {
    let backends = vec![one_backend("web", vec![Addr::v4(10, 80)])];
    let frontends = vec![one_frontend(Addr::v4(1, 80), "app")];
    let r = build_resolved(&frontends, &backends);
    assert!(matches!(r, Err(Error::ConfigResolve)));
}

#[test]
fn duplicate_listen_addr_is_rejected() {
    let backends = vec![one_backend("web", vec![Addr::v4(10, 80)])];
    let frontends = vec![
        one_frontend(Addr::v4(1, 80), "web"),
        one_frontend(Addr::v4(1, 80), "web"),
    ];
    let r = build_resolved(&frontends, &backends);
    assert!(matches!(r, Err(Error::ConfigResolve)));
}

#[test]
fn empty_config_resolves() {
    let rc = build_resolved(&vec![], &vec![]).expect("an empty configuration is valid");
    assert!(rc.backends.is_empty());
    assert!(rc.frontends.is_empty());
}
