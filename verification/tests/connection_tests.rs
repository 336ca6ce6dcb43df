use loadbalancer::connection::{Connection, EndPointType, OutgoingToken};
use loadbalancer::readiness::Readiness;

fn readable() -> Readiness {
    Readiness { readable: true, writable: false, error: false, hup: false }
}

fn writable() -> Readiness {
    Readiness { readable: false, writable: true, error: false, hup: false }
}

fn hup() -> Readiness {
    Readiness { readable: false, writable: false, error: false, hup: true }
}

#[test]
fn new_connection_is_quiet() {
    let c: Connection<u32> = Connection::new(1, 2, OutgoingToken(8));
    assert!(!c.is_incoming_closed());
    assert!(!c.is_outgoing_closed());
    assert!(!c.wants_flush(EndPointType::Front));
    assert!(!c.wants_flush(EndPointType::Back));
    assert!(!c.wants_transfer(EndPointType::Front));
    assert!(!c.wants_transfer(EndPointType::Back));
    assert_eq!(c.outgoing_token().0, 8);
    assert_eq!(*c.incoming_stream(), 1);
    assert_eq!(*c.outgoing_stream(), 2);
}

#[test]
fn transfer_moves_bytes_in_order() {
    let mut c: Connection<u32> = Connection::new(1, 2, OutgoingToken(1));
    c.incoming_ready(readable());
    c.outgoing_ready(writable());
    assert!(c.wants_transfer(EndPointType::Front));
    let data = b"sent by frontend\n";
    c.absorb(EndPointType::Front, &data[..]);
    assert_eq!(c.queued(EndPointType::Back).as_slice(), &data[..]);
    c.transfer_written(EndPointType::Back, data.len());
    assert!(c.queued(EndPointType::Back).is_empty());
    // both edges were consumed: a new transfer needs fresh readiness
    assert!(!c.wants_transfer(EndPointType::Front));
}

#[test]
fn short_write_keeps_the_tail_in_order() {
    let mut c: Connection<u32> = Connection::new(1, 2, OutgoingToken(1));
    c.incoming_ready(readable());
    c.outgoing_ready(writable());
    c.absorb(EndPointType::Front, b"abcdef");
    c.transfer_written(EndPointType::Back, 2);
    assert_eq!(c.queued(EndPointType::Back).as_slice(), b"cdef");
    // the retained tail drains before any new read for that direction
    c.incoming_ready(readable());
    c.outgoing_ready(writable());
    assert!(!c.wants_transfer(EndPointType::Front));
    assert!(c.wants_flush(EndPointType::Back));
    c.flush_written(EndPointType::Back, 4);
    assert!(c.queued(EndPointType::Back).is_empty());
    assert!(!c.wants_flush(EndPointType::Back));
}

#[test]
fn upstream_to_client_direction_is_symmetric() {
    let mut c: Connection<u32> = Connection::new(1, 2, OutgoingToken(1));
    c.outgoing_ready(readable());
    c.incoming_ready(writable());
    assert!(c.wants_transfer(EndPointType::Back));
    let data = b"sent by backend\n";
    c.absorb(EndPointType::Back, &data[..]);
    assert_eq!(c.queued(EndPointType::Front).as_slice(), &data[..]);
    c.transfer_written(EndPointType::Front, data.len());
    assert!(c.queued(EndPointType::Front).is_empty());
}

#[test]
fn backpressure_defers_reads_without_losing_bytes() {
    let mut c: Connection<u32> = Connection::new(1, 2, OutgoingToken(1));
    // the upstream reads slowly: its half never reports writable
    c.incoming_ready(readable());
    assert!(!c.wants_transfer(EndPointType::Front));
    // once it drains a little, a transfer runs; a short write keeps all
    // remaining bytes queued
    c.outgoing_ready(writable());
    let bulk = vec![7u8; 4096];
    c.absorb(EndPointType::Front, &bulk[..]);
    c.transfer_written(EndPointType::Back, 100);
    assert_eq!(c.queued(EndPointType::Back).len(), 3996);
    assert_eq!(c.queued(EndPointType::Back)[0], 7);
    // no further read is attempted for the direction until the queue is gone
    c.incoming_ready(readable());
    c.outgoing_ready(writable());
    assert!(!c.wants_transfer(EndPointType::Front));
}

#[test]
fn would_block_read_only_consumes_the_edge() {
    let mut c: Connection<u32> = Connection::new(1, 2, OutgoingToken(1));
    c.incoming_ready(readable());
    c.outgoing_ready(writable());
    c.absorb(EndPointType::Front, b"");
    assert!(c.queued(EndPointType::Back).is_empty());
    assert!(!c.wants_transfer(EndPointType::Front));
}

#[test]
fn closed_flags_follow_error_and_hup() {
    let mut c: Connection<u32> = Connection::new(1, 2, OutgoingToken(1));
    c.incoming_ready(hup());
    assert!(c.is_incoming_closed());
    assert!(!c.is_outgoing_closed());
    let mut d: Connection<u32> = Connection::new(3, 4, OutgoingToken(2));
    d.outgoing_ready(Readiness { readable: false, writable: false, error: true, hup: false });
    assert!(d.is_outgoing_closed());
    assert!(!d.is_incoming_closed());
}

#[test]
fn readiness_merge_is_non_destructive() {
    let mut c: Connection<u32> = Connection::new(1, 2, OutgoingToken(1));
    c.incoming_ready(readable());
    c.incoming_ready(hup());
    // the readable bit reported earlier is still set
    c.outgoing_ready(writable());
    assert!(c.wants_transfer(EndPointType::Front));
    assert!(c.is_incoming_closed());
}
