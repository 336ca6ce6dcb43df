use loadbalancer::addr::Addr;
use loadbalancer::frontend::Frontend;
use loadbalancer::messages::BackendId;
use loadbalancer::readiness::Readiness;

#[test]
fn frontend_reports_its_binding() {
    let f = Frontend::new(Addr::v4(1, 80), vec![3, 5]);
    assert_eq!(f.listen_addr(), Addr::v4(1, 80));
    assert_eq!(f.listen_addrs(), vec![Addr::v4(1, 80)]);
    assert_eq!(f.decide_backend(), 3, "the first backend serves new connections");
}

#[test]
fn readiness_insert_is_a_union() {
    let mut r = Readiness::empty();
    assert!(!r.is_readable() && !r.is_writable() && !r.is_closed());
    r.insert(Readiness { readable: true, writable: false, error: false, hup: false });
    r.insert(Readiness { readable: false, writable: true, error: false, hup: false });
    assert!(r.is_readable());
    assert!(r.is_writable());
    assert!(!r.is_closed());
    r.insert(Readiness { readable: false, writable: false, error: false, hup: true });
    assert!(r.is_closed());
    assert!(r.is_readable(), "merging never clears a bit");
}

#[test]
fn backend_ids_compare_by_value() {
    assert_eq!(BackendId(7), BackendId(7));
    assert_ne!(BackendId(7), BackendId(8));
}
