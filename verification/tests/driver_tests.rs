use loadbalancer::addr::Addr;
use loadbalancer::config::{build_resolved, BufferConfig, ResolvedBackend, ResolvedFrontend};
use loadbalancer::connection::{EndPointType, IncomingToken, ListenerToken};
use loadbalancer::driver::Driver;
use loadbalancer::driver_state::DriverState;
use loadbalancer::error::Error;
use loadbalancer::readiness::Readiness;

type TestDriver = Driver<u8, u32>;

fn small_buffers(connections: usize, listeners: usize) -> BufferConfig {
    BufferConfig { connections, listeners }
}

fn cfg_one_frontend(listen: Addr, targets: Vec<Addr>) -> loadbalancer::config::ResolvedConfig {
    let backends = vec![ResolvedBackend { name: "b".to_string(), targets }];
    let frontends = vec![ResolvedFrontend { listen_addr: listen, backend: "b".to_string() }];
    build_resolved(&frontends, &backends).expect("configuration must resolve")
}

#[test]
fn insert_pair_wires_both_tables() {
    let mut d: TestDriver = Driver::new(DriverState::new(&small_buffers(8, 2)));
    let (i, o) = d.insert_pair(100, 200).expect("tables have room");
    assert_eq!(i.0, 1);
    assert_eq!(o.0, 1);
    assert_eq!(d.lookup_by_outgoing(o), Some(i));
    let c = d.connection(i).expect("pair must be present");
    assert_eq!(c.outgoing_token().0, o.0);
    assert_eq!(*c.incoming_stream(), 100);
    assert_eq!(*c.outgoing_stream(), 200);
    assert_eq!(d.incoming_len(), 1);
    assert_eq!(d.outgoing_len(), 1);
}

#[test]
fn pairs_use_lowest_free_slots() {
    let mut d: TestDriver = Driver::new(DriverState::new(&small_buffers(8, 2)));
    let (i1, _) = d.insert_pair(1, 2).unwrap();
    let (i2, _) = d.insert_pair(3, 4).unwrap();
    assert_eq!(i1.0, 1);
    assert_eq!(i2.0, 2);
    let c1 = d.remove_connection(i1);
    assert_eq!(*c1.incoming_stream(), 1);
    let (i3, _) = d.insert_pair(5, 6).unwrap();
    assert_eq!(i3.0, 1, "a freed slot is reused first");
}

#[test]
fn full_tables_reject_new_pairs() {
    let mut d: TestDriver = Driver::new(DriverState::new(&small_buffers(1, 2)));
    d.insert_pair(1, 2).expect("one pair fits");
    let r = d.insert_pair(3, 4);
    assert!(matches!(r, Err(Error::SlabFull)));
    assert_eq!(d.incoming_len(), 1);
    assert_eq!(d.outgoing_len(), 1);
}

#[test]
fn removal_frees_both_slots() {
    let mut d: TestDriver = Driver::new(DriverState::new(&small_buffers(8, 2)));
    let (i, o) = d.insert_pair(1, 2).unwrap();
    let c = d.remove_connection(i);
    assert_eq!(c.outgoing_token().0, o.0);
    assert_eq!(d.incoming_len(), 0);
    assert_eq!(d.outgoing_len(), 0);
    assert!(d.connection(i).is_none());
    assert_eq!(d.lookup_by_outgoing(o), None);
}

#[test]
fn quiet_connection_is_kept_and_rearmed() {
    let mut d: TestDriver = Driver::new(DriverState::new(&small_buffers(8, 2)));
    let (i, _) = d.insert_pair(1, 2).unwrap();
    let gone = d.settle_incoming_event(i, false);
    assert!(gone.is_none());
    assert_eq!(d.incoming_len(), 1);
    let rearm = d.take_reregister_list();
    assert_eq!(rearm, vec![i]);
    assert!(d.take_reregister_list().is_empty());
}

#[test]
fn closed_connection_without_progress_is_torn_down() {
    let mut d: TestDriver = Driver::new(DriverState::new(&small_buffers(8, 2)));
    let (i, o) = d.insert_pair(1, 2).unwrap();
    let c = d.connection_mut(i).unwrap();
    c.incoming_ready(Readiness { readable: false, writable: false, error: false, hup: true });
    let gone = d.settle_incoming_event(i, false);
    assert!(gone.is_some());
    assert_eq!(d.incoming_len(), 0);
    assert_eq!(d.outgoing_len(), 0);
    assert_eq!(d.lookup_by_outgoing(o), None);
    assert!(d.take_reregister_list().is_empty());
}

#[test]
fn closed_connection_with_progress_survives_the_tick() {
    let mut d: TestDriver = Driver::new(DriverState::new(&small_buffers(8, 2)));
    let (i, _) = d.insert_pair(1, 2).unwrap();
    let c = d.connection_mut(i).unwrap();
    c.incoming_ready(Readiness { readable: false, writable: false, error: false, hup: true });
    let gone = d.settle_incoming_event(i, true);
    assert!(gone.is_none());
    assert_eq!(d.incoming_len(), 1);
}

#[test]
fn outgoing_event_resolves_through_reverse_mapping() {
    let mut d: TestDriver = Driver::new(DriverState::new(&small_buffers(8, 2)));
    let (i, o) = d.insert_pair(1, 2).unwrap();
    let c = d.connection_mut(i).unwrap();
    c.outgoing_ready(Readiness { readable: false, writable: false, error: true, hup: false });
    let gone = d.settle_outgoing_event(o, false);
    assert!(gone.is_some());
    assert_eq!(d.incoming_len(), 0);
    assert_eq!(d.outgoing_len(), 0);
}

#[test]
fn half_close_flushes_before_teardown() {
    let mut d: TestDriver = Driver::new(DriverState::new(&small_buffers(8, 2)));
    let (i, _) = d.insert_pair(1, 2).unwrap();
    let c = d.connection_mut(i).unwrap();
    // bytes from the upstream are still in flight toward the client
    c.outgoing_ready(Readiness { readable: true, writable: false, error: false, hup: false });
    c.incoming_ready(Readiness { readable: false, writable: true, error: false, hup: true });
    assert!(c.wants_transfer(EndPointType::Back));
    c.absorb(EndPointType::Back, b"tail");
    assert_eq!(c.queued(EndPointType::Front).as_slice(), b"tail");
    c.transfer_written(EndPointType::Front, 4);
    assert!(c.queued(EndPointType::Front).is_empty());
    // the flush counted as progress, so the pair survives this tick
    assert!(d.settle_incoming_event(i, true).is_none());
    // the next tick makes no progress and the client half is closed
    assert!(d.settle_incoming_event(i, false).is_some());
    assert_eq!(d.incoming_len(), 0);
    assert_eq!(d.outgoing_len(), 0);
}

#[test]
fn round_robin_dispatch_alternates_targets() {
    let t1 = Addr::v4(21, 9001);
    let t2 = Addr::v4(22, 9002);
    let mut state: DriverState<u8> = DriverState::new(&small_buffers(8, 2));
    let cfg = cfg_one_frontend(Addr::v4(1, 80), vec![t1, t2]);
    let to_bind = state.reconfigure(&cfg);
    assert_eq!(to_bind.len(), 1);
    let mut lt = ListenerToken(0);
    for f in to_bind {
        lt = state.add_listener(42, f).expect("listener table has room");
    }
    let mut d: Driver<u8, u32> = Driver::new(state);
    assert_eq!(d.decide_target(lt), Some(t1));
    assert_eq!(d.decide_target(lt), Some(t2));
    assert_eq!(d.decide_target(lt), Some(t1));
    assert_eq!(d.decide_target(lt), Some(t2));
    assert_eq!(d.decide_target(ListenerToken(7)), None);
}

#[test]
fn reconfigure_drop_removes_the_listener() {
    let mut state: DriverState<u8> = DriverState::new(&small_buffers(8, 2));
    let cfg = cfg_one_frontend(Addr::v4(1, 80), vec![Addr::v4(9, 90)]);
    let to_bind = state.reconfigure(&cfg);
    let lt = state.add_listener(42, to_bind.into_iter().next().unwrap()).unwrap();
    let mut d: Driver<u8, u32> = Driver::new(state);
    assert!(d.listener(lt).is_some());
    // a configuration without frontends marks the listener for removal
    let empty = build_resolved(&vec![], &vec![]).unwrap();
    let to_bind2 = d.state_mut().reconfigure(&empty);
    assert!(to_bind2.is_empty());
    // the listener still accepts nothing new but is removed only at the
    // tick boundary
    let removed = d.state_mut().take_removed_listeners();
    assert_eq!(removed.len(), 1);
    assert_eq!(removed[0].token.0, lt.0);
    assert_eq!(removed[0].listener, 42);
    assert!(d.listener(lt).is_none());
}

#[test]
fn reconfigure_rebind_keeps_the_socket_and_swaps_the_target() {
    let p2 = Addr::v4(2, 9002);
    let p3 = Addr::v4(3, 9003);
    let listen = Addr::v4(1, 9001);
    let mut state: DriverState<u8> = DriverState::new(&small_buffers(8, 2));
    let to_bind = state.reconfigure(&cfg_one_frontend(listen, vec![p2]));
    let lt = state.add_listener(77, to_bind.into_iter().next().unwrap()).unwrap();
    let mut d: Driver<u8, u32> = Driver::new(state);
    assert_eq!(d.decide_target(lt), Some(p2));
    // same listen address, different backend: rebound in place
    let to_bind2 = d.state_mut().reconfigure(&cfg_one_frontend(listen, vec![p3]));
    assert!(to_bind2.is_empty(), "the socket is not re-opened");
    assert!(d.state_mut().take_removed_listeners().is_empty());
    let l = d.listener(lt).expect("the listener survived the swap");
    assert_eq!(l.listener, 77, "the bound socket is the original one");
    assert_eq!(d.decide_target(lt), Some(p3));
}

#[test]
fn duplicate_listener_address_is_an_invariant_violation() {
    let mut state: DriverState<u8> = DriverState::new(&small_buffers(8, 2));
    let cfg = cfg_one_frontend(Addr::v4(1, 80), vec![Addr::v4(9, 90)]);
    let to_bind = state.reconfigure(&cfg);
    let f = to_bind.into_iter().next().unwrap();
    state.add_listener(1, f).unwrap();
    // binding the same address again cannot happen after a well-formed
    // reconfiguration; the state machine refuses it
    let cfg2 = cfg_one_frontend(Addr::v4(1, 80), vec![Addr::v4(9, 90)]);
    let to_bind2 = state.reconfigure(&cfg2);
    assert!(to_bind2.is_empty());
    let backends = vec![ResolvedBackend { name: "b".to_string(), targets: vec![Addr::v4(9, 90)] }];
    let frontends =
        vec![ResolvedFrontend { listen_addr: Addr::v4(1, 80), backend: "b".to_string() }];
    let rc = build_resolved(&frontends, &backends).unwrap();
    let dup = loadbalancer::frontend::Frontend::new(rc.frontends[0].0, vec![rc.frontends[0].1]);
    let r = state.add_listener(2, dup);
    assert!(matches!(r, Err(Error::InvariantViolation)));
}

#[test]
fn listener_table_capacity_is_enforced() {
    let mut state: DriverState<u8> = DriverState::new(&small_buffers(8, 1));
    let b1 = vec![ResolvedBackend { name: "b".to_string(), targets: vec![Addr::v4(9, 90)] }];
    let f1 = vec![
        ResolvedFrontend { listen_addr: Addr::v4(1, 80), backend: "b".to_string() },
        ResolvedFrontend { listen_addr: Addr::v4(2, 80), backend: "b".to_string() },
    ];
    let cfg = build_resolved(&f1, &b1).unwrap();
    let to_bind = state.reconfigure(&cfg);
    assert_eq!(to_bind.len(), 2);
    let mut results = Vec::new();
    for f in to_bind {
        results.push(state.add_listener(0, f));
    }
    assert!(results[0].is_ok());
    assert!(matches!(results[1], Err(Error::SlabFull)));
}

#[test]
fn mark_reregister_deduplicates() {
    let mut d: TestDriver = Driver::new(DriverState::new(&small_buffers(8, 2)));
    let (i, _) = d.insert_pair(1, 2).unwrap();
    assert!(d.settle_incoming_event(i, false).is_none());
    assert!(d.settle_incoming_event(i, false).is_none());
    assert_eq!(d.take_reregister_list(), vec![i]);
}

#[test]
fn unknown_tokens_are_ignored() {
    let mut d: TestDriver = Driver::new(DriverState::new(&small_buffers(8, 2)));
    assert!(d.settle_incoming_event(IncomingToken(3), false).is_none());
    assert!(d.settle_outgoing_event(loadbalancer::connection::OutgoingToken(3), false).is_none());
    assert_eq!(d.incoming_len(), 0);
}
