use hubless::config::ServerConfig;
use hubless::registry::Registry;
use hubless::session::AuthDecision;
use hubless::session::AuthState;
use hubless::session::Listener;
use hubless::text::annotate_data;

#[test]
fn listener_assigns_fresh_increasing_ids() {
    let mut listener = Listener::new();
    let a = listener.new_client();
    let b = listener.new_client();
    let c = listener.new_client();
    assert_eq!(a.conn_id, 0);
    assert_eq!(b.conn_id, 1);
    assert_eq!(c.conn_id, 2);
    assert_eq!(a.state, AuthState::Unauthenticated);
}

#[test]
fn reference_policy_accepts_everyone() {
    assert_eq!(hubless::session::decide_auth("anyone"), AuthDecision::Accept);
    assert_eq!(hubless::session::decide_auth(""), AuthDecision::Accept);
}

#[test]
fn auth_decision_moves_the_state_machine() {
    let mut listener = Listener::new();
    let mut accepted = listener.new_client();
    accepted.on_auth(AuthDecision::Accept);
    assert_eq!(accepted.state, AuthState::Active);
    let mut rejected = listener.new_client();
    rejected.on_auth(AuthDecision::Reject);
    assert_eq!(rejected.state, AuthState::Rejected);
}

#[test]
fn channel_open_registers_only_while_active() {
    let mut listener = Listener::new();
    let mut reg: Registry<u64> = Registry::new();
    let pending = listener.new_client();
    assert!(!pending.on_channel_open(1, 100, &mut reg));
    assert_eq!(reg.get(pending.conn_id, 1), None);
    let mut active = listener.new_client();
    active.on_auth(AuthDecision::Accept);
    assert!(active.on_channel_open(1, 100, &mut reg));
    assert_eq!(reg.get(active.conn_id, 1), Some(&100));
}

#[test]
fn data_is_echoed_and_broadcast_to_other_connections() {
    let mut listener = Listener::new();
    let mut reg: Registry<u64> = Registry::new();
    let mut a = listener.new_client();
    let mut b = listener.new_client();
    a.on_auth(AuthDecision::Accept);
    b.on_auth(AuthDecision::Accept);
    a.on_channel_open(1, 100, &mut reg);
    b.on_channel_open(2, 200, &mut reg);
    b.on_channel_open(3, 300, &mut reg);
    let plan = a.on_data(1, b"ping", &reg);
    assert_eq!(plan.echo_chan, 1);
    assert_eq!(plan.payload, "Got data: ping\r\n");
    let mut targets = plan.targets.clone();
    targets.sort();
    assert_eq!(targets, vec![(b.conn_id, 2), (b.conn_id, 3)]);
}

#[test]
fn forward_request_is_acknowledged_with_the_fixed_plan() {
    let mut listener = Listener::new();
    let h = listener.new_client();
    let (accepted, task) = h.on_forward_request("example.org", 8022);
    assert!(accepted);
    assert_eq!(task.address, "example.org");
    assert_eq!(task.port, 8022);
    assert_eq!(task.origin_address, "1.2.3.4");
    assert_eq!(task.origin_port, 1234);
    assert_eq!(task.payload, "Hello from a forwarded port");
}

#[test]
fn closing_a_connection_clears_its_channels_and_no_others() {
    let mut listener = Listener::new();
    let mut reg: Registry<u64> = Registry::new();
    let mut a = listener.new_client();
    let mut b = listener.new_client();
    a.on_auth(AuthDecision::Accept);
    b.on_auth(AuthDecision::Accept);
    a.on_channel_open(1, 100, &mut reg);
    a.on_channel_open(2, 101, &mut reg);
    b.on_channel_open(1, 200, &mut reg);
    a.on_close(&mut reg);
    assert_eq!(a.state, AuthState::Closed);
    assert_eq!(reg.get(a.conn_id, 1), None);
    assert_eq!(reg.get(a.conn_id, 2), None);
    assert_eq!(reg.get(b.conn_id, 1), Some(&200));
}

#[test]
fn two_connections_scenario() {
    // A and B connect; A opens channel 1, B opens channel 2; A sends "hi".
    let mut listener = Listener::new();
    let mut reg: Registry<u64> = Registry::new();
    let mut a = listener.new_client();
    let mut b = listener.new_client();
    a.on_auth(AuthDecision::Accept);
    b.on_auth(AuthDecision::Accept);
    assert!(a.on_channel_open(1, 100, &mut reg));
    assert!(b.on_channel_open(2, 200, &mut reg));
    let plan = a.on_data(1, b"hi", &reg);
    // A's channel 1 receives the annotated echo
    assert_eq!(plan.echo_chan, 1);
    assert_eq!(plan.payload, "Got data: hi\r\n");
    // B's channel 2 receives the same payload via broadcast, and nothing else does
    assert_eq!(plan.targets, vec![(b.conn_id, 2)]);
    // the registry still lists both (A, 1) and (B, 2)
    assert_eq!(reg.get(a.conn_id, 1), Some(&100));
    assert_eq!(reg.get(b.conn_id, 2), Some(&200));
}

#[test]
fn annotation_decodes_bytes_lossily() {
    assert_eq!(annotate_data(b"hi"), "Got data: hi\r\n");
    assert_eq!(annotate_data(b""), "Got data: \r\n");
    // an invalid UTF-8 sequence is replaced, not rejected and not echoed raw
    assert_eq!(annotate_data(&[0xff, 0xfe]), "Got data: \u{fffd}\u{fffd}\r\n");
    // a multi-byte sequence survives the decoding intact
    assert_eq!(annotate_data("h\u{e9}llo".as_bytes()), "Got data: h\u{e9}llo\r\n");
}

#[test]
fn default_config_matches_the_handshake_parameters() {
    let c = ServerConfig::default();
    assert_eq!(c.inactivity_timeout_secs, 3600);
    assert_eq!(c.auth_rejection_secs, 3);
    assert_eq!(c.auth_rejection_initial_secs, 0);
}
