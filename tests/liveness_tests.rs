use rsvp::liveness::{
    liveness_token, Inbound, LinkState, Liveness, Outbound, Token, HEARTBEAT_TIMEOUT_MS,
};

#[test]
fn tick_within_timeout_sends_ping() {
    let mut l = Liveness::new(1000);
    let out = l.step(1000 + HEARTBEAT_TIMEOUT_MS, Inbound::Tick);
    assert!(matches!(out, Outbound::SendPing));
    assert!(matches!(l.state, LinkState::AwaitingPong));
    assert_eq!(l.last_response_ms, 1000);
}

#[test]
fn tick_after_timeout_disconnects() {
    let mut l = Liveness::new(1000);
    let out = l.step(1001 + HEARTBEAT_TIMEOUT_MS, Inbound::Tick);
    assert!(matches!(out, Outbound::Disconnect));
    assert!(matches!(l.state, LinkState::Disconnected));
}

#[test]
fn pong_resets_timer() {
    let mut l = Liveness::new(0);
    assert!(matches!(l.step(15000, Inbound::Tick), Outbound::SendPing));
    assert!(matches!(l.step(20000, Inbound::Pong), Outbound::Nothing));
    assert!(matches!(l.state, LinkState::Connected));
    assert_eq!(l.last_response_ms, 20000);
    assert!(matches!(l.step(40000, Inbound::Tick), Outbound::SendPing));
}

#[test]
fn text_tokens_are_liveness() {
    let mut l = Liveness::new(0);
    assert!(matches!(l.step(5, Inbound::Text("  ping\n".to_string())), Outbound::SendPongText));
    assert_eq!(l.last_response_ms, 5);
    assert!(matches!(l.step(9, Inbound::Text("pong".to_string())), Outbound::Nothing));
    assert_eq!(l.last_response_ms, 9);
}

#[test]
fn other_text_is_dispatched() {
    let mut l = Liveness::new(0);
    match l.step(5, Inbound::Text(" {\"x\":1}".to_string())) {
        Outbound::Dispatch(t) => assert_eq!(t, " {\"x\":1}"),
        _ => panic!("expected a dispatch"),
    }
    assert_eq!(l.last_response_ms, 0);
}

#[test]
fn protocol_ping_is_answered() {
    let mut l = Liveness::new(0);
    match l.step(3, Inbound::Ping(vec![1, 2])) {
        Outbound::SendPong(p) => assert_eq!(p, vec![1, 2]),
        _ => panic!("expected a pong"),
    }
    assert_eq!(l.last_response_ms, 3);
}

#[test]
fn close_and_failures_disconnect_for_good() {
    for ev in [Inbound::Close, Inbound::Failure, Inbound::End, Inbound::SendFailed] {
        let mut l = Liveness::new(0);
        assert!(matches!(l.step(1, ev), Outbound::Disconnect));
        assert!(matches!(l.step(2, Inbound::Pong), Outbound::Disconnect));
        assert!(matches!(l.state, LinkState::Disconnected));
    }
}

#[test]
fn heartbeat_timeout_scenario() {
    let mut l = Liveness::new(0);
    assert!(matches!(l.step(15000, Inbound::Tick), Outbound::SendPing));
    assert!(matches!(l.step(30000, Inbound::Tick), Outbound::Disconnect));
}

#[test]
fn tokens_recognised() {
    assert!(matches!(liveness_token("ping"), Some(Token::Ping)));
    assert!(matches!(liveness_token("pong"), Some(Token::Pong)));
    assert!(liveness_token(" ping").is_none());
    assert!(liveness_token("").is_none());
}
