use loadbalancer::connection::{IncomingToken, ListenerToken, OutgoingToken, TokenType};

#[test]
fn listener_token_round_trip() {
    let raw = ListenerToken(5).as_raw_token();
    assert_eq!(raw, 20);
    match TokenType::from_raw_token(raw) {
        TokenType::Listener(t) => assert_eq!(t.0, 5),
        _ => panic!("decoded to the wrong kind"),
    }
}

#[test]
fn incoming_token_round_trip() {
    let raw = IncomingToken(7).as_raw_token();
    assert_eq!(raw, 29);
    match TokenType::from_raw_token(raw) {
        TokenType::Incoming(t) => assert_eq!(t.0, 7),
        _ => panic!("decoded to the wrong kind"),
    }
}

#[test]
fn outgoing_token_round_trip() {
    let raw = OutgoingToken(9).as_raw_token();
    assert_eq!(raw, 38);
    match TokenType::from_raw_token(raw) {
        TokenType::Outgoing(t) => assert_eq!(t.0, 9),
        _ => panic!("decoded to the wrong kind"),
    }
}

#[test]
fn largest_slot_round_trips() {
    let slot = (usize::MAX - 3) / 4;
    let raw = OutgoingToken(slot).as_raw_token();
    match TokenType::from_raw_token(raw) {
        TokenType::Outgoing(t) => assert_eq!(t.0, slot),
        _ => panic!("decoded to the wrong kind"),
    }
}

#[test]
fn sentinel_zero_tokens_decode() {
    match TokenType::from_raw_token(0) {
        TokenType::Listener(t) => assert_eq!(t.0, 0),
        _ => panic!("raw 0 must decode as the sentinel listener token"),
    }
    match TokenType::from_raw_token(1) {
        TokenType::Incoming(t) => assert_eq!(t.0, 0),
        _ => panic!("raw 1 must decode as the sentinel incoming token"),
    }
    match TokenType::from_raw_token(2) {
        TokenType::Outgoing(t) => assert_eq!(t.0, 0),
        _ => panic!("raw 2 must decode as the sentinel outgoing token"),
    }
}
