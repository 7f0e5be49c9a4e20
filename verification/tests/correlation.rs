use nix_relay::error::Error;
use nix_relay::server::{ConnectionState, Dispatch, Incoming, Received, ServerConnection};

fn connected() -> ServerConnection {
    let mut conn = ServerConnection::new();
    assert!(conn.connect().is_empty());
    assert_eq!(conn.handshake_done("ws://relay/client", Ok(())), Ok(()));
    conn
}

#[test]
fn new_connection_is_down_with_nothing_pending() {
    let conn = ServerConnection::new();
    assert_eq!(conn.state(), ConnectionState::Disconnected);
    assert_eq!(conn.pending(), 0);
    assert_eq!(conn.send(), Err(Error::Send));
}

#[test]
fn handshake_brings_the_channel_up_or_down() {
    let mut conn = ServerConnection::new();
    conn.connect();
    assert_eq!(conn.state(), ConnectionState::Connecting);
    assert_eq!(
        conn.handshake_done("ws://relay/client", Err("connection refused".to_string())),
        Err(Error::Connect(
            "Failed to connect to server ws://relay/client: connection refused".to_string()
        ))
    );
    assert_eq!(conn.state(), ConnectionState::Disconnected);
    conn.connect();
    assert_eq!(conn.handshake_done("ws://relay/client", Ok(())), Ok(()));
    assert_eq!(conn.state(), ConnectionState::Connected);
    assert_eq!(conn.send(), Ok(()));
}

#[test]
fn handshake_outcome_without_an_attempt_changes_nothing() {
    let mut conn = ServerConnection::new();
    assert_eq!(
        conn.handshake_done("u", Ok(())),
        Err(Error::Connect(
            "Failed to connect to server u: no connection attempt is under way".to_string()
        ))
    );
    assert_eq!(conn.state(), ConnectionState::Disconnected);
    let mut up = connected();
    assert_eq!(
        up.handshake_done("u", Err("late".to_string())),
        Err(Error::Connect("Failed to connect to server u: late".to_string()))
    );
    assert_eq!(up.state(), ConnectionState::Connected);
}

#[test]
fn build_request_needs_a_channel_that_is_up() {
    let mut conn = ServerConnection::new();
    assert_eq!(conn.send_build_request("k".to_string(), &vec![1, 2]), Err(Error::Send));
    assert_eq!(conn.pending(), 0);
}

#[test]
fn build_request_registers_and_frames() {
    let mut conn = connected();
    let frame = conn.send_build_request("k".to_string(), &b"{}".to_vec()).unwrap();
    assert_eq!(frame, b"job k {}".to_vec());
    assert!(conn.is_pending("k"));
    assert_eq!(conn.pending(), 1);
}

#[test]
fn second_request_for_a_pending_key_is_a_duplicate() {
    let mut conn = connected();
    conn.send_build_request("k".to_string(), &Vec::new()).unwrap();
    assert_eq!(conn.send_build_request("k".to_string(), &Vec::new()), Err(Error::DuplicateKey));
    assert_eq!(conn.register("k".to_string()), Err(Error::DuplicateKey));
    assert_eq!(conn.pending(), 1);
}

#[test]
fn completions_out_of_order_reach_their_own_request() {
    let mut conn = connected();
    for key in ["a", "b", "c"] {
        conn.register(key.to_string()).unwrap();
    }
    assert_eq!(
        conn.dispatch("b false"),
        Dispatch::Delivered { key: "b".to_string(), success: false }
    );
    assert!(conn.is_pending("a") && !conn.is_pending("b") && conn.is_pending("c"));
    assert_eq!(
        conn.dispatch("c true"),
        Dispatch::Delivered { key: "c".to_string(), success: true }
    );
    assert_eq!(
        conn.dispatch("a true"),
        Dispatch::Delivered { key: "a".to_string(), success: true }
    );
    assert_eq!(conn.pending(), 0);
}

#[test]
fn a_second_completion_for_a_key_is_dropped() {
    let mut conn = connected();
    conn.register("a".to_string()).unwrap();
    assert_eq!(
        conn.dispatch("a true"),
        Dispatch::Delivered { key: "a".to_string(), success: true }
    );
    assert_eq!(conn.dispatch("a true"), Dispatch::Unknown { key: "a".to_string(), success: true });
    assert_eq!(conn.pending(), 0);
}

#[test]
fn malformed_and_unknown_frames_change_nothing() {
    let mut conn = connected();
    conn.register("a".to_string()).unwrap();
    assert_eq!(conn.dispatch("garbage"), Dispatch::Malformed);
    assert_eq!(conn.dispatch("a maybe"), Dispatch::Malformed);
    assert_eq!(conn.dispatch("z true"), Dispatch::Unknown { key: "z".to_string(), success: true });
    assert!(conn.is_pending("a"));
    assert_eq!(conn.pending(), 1);
}

#[test]
fn a_key_can_be_registered_again_after_its_delivery() {
    let mut conn = connected();
    conn.register("a".to_string()).unwrap();
    conn.dispatch("a false");
    assert_eq!(conn.register("a".to_string()), Ok(()));
}

#[test]
fn abandon_withdraws_one_request() {
    let mut conn = connected();
    conn.register("a".to_string()).unwrap();
    conn.register("b".to_string()).unwrap();
    assert!(conn.abandon("a"));
    assert!(!conn.abandon("a"));
    assert!(conn.is_pending("b"));
    assert_eq!(conn.pending(), 1);
}

#[test]
fn disconnect_cancels_every_pending_request() {
    let mut conn = connected();
    for key in ["a", "b", "c"] {
        conn.register(key.to_string()).unwrap();
    }
    let cancelled = conn.disconnect();
    assert_eq!(cancelled, vec!["a".to_string(), "b".to_string(), "c".to_string()]);
    assert_eq!(conn.pending(), 0);
    assert_eq!(conn.state(), ConnectionState::Disconnected);
}

#[test]
fn clear_keeps_the_state() {
    let mut conn = connected();
    conn.register("a".to_string()).unwrap();
    assert_eq!(conn.clear(), vec!["a".to_string()]);
    assert_eq!(conn.state(), ConnectionState::Connected);
    assert_eq!(conn.pending(), 0);
}

#[test]
fn connecting_again_tears_the_channel_down_first() {
    let mut conn = connected();
    conn.register("a".to_string()).unwrap();
    let cancelled = conn.connect();
    assert_eq!(cancelled, vec!["a".to_string()]);
    assert_eq!(conn.state(), ConnectionState::Connecting);
    assert_eq!(conn.pending(), 0);
}

#[test]
fn receiver_delivers_text_frames() {
    let mut conn = connected();
    conn.register("a".to_string()).unwrap();
    assert_eq!(
        conn.websocket_receiver(Incoming::Text("a false".to_string())),
        Received::Delivered { key: "a".to_string(), success: false }
    );
    assert_eq!(conn.websocket_receiver(Incoming::Text("a false".to_string())), Received::Dropped);
    assert_eq!(conn.websocket_receiver(Incoming::Text("nonsense".to_string())), Received::Dropped);
    assert_eq!(conn.websocket_receiver(Incoming::Other), Received::Dropped);
    assert_eq!(conn.state(), ConnectionState::Connected);
}

#[test]
fn receiver_stops_on_close_and_drains() {
    let mut conn = connected();
    conn.register("a".to_string()).unwrap();
    conn.register("b".to_string()).unwrap();
    assert_eq!(
        conn.websocket_receiver(Incoming::Close),
        Received::Stopped { cancelled: vec!["a".to_string(), "b".to_string()] }
    );
    assert_eq!(conn.state(), ConnectionState::Disconnected);
    assert_eq!(conn.pending(), 0);
}

#[test]
fn receiver_stops_on_failure() {
    let mut conn = connected();
    conn.register("a".to_string()).unwrap();
    assert_eq!(
        conn.websocket_receiver(Incoming::Failure),
        Received::Stopped { cancelled: vec!["a".to_string()] }
    );
    assert_eq!(conn.state(), ConnectionState::Disconnected);
}

#[test]
fn nothing_is_read_on_a_channel_that_is_down() {
    let mut conn = ServerConnection::new();
    conn.register("a".to_string()).unwrap();
    assert_eq!(
        conn.websocket_receiver(Incoming::Text("a true".to_string())),
        Received::Stopped { cancelled: Vec::new() }
    );
    assert!(conn.is_pending("a"));
}

#[test]
fn copy_commands_of_the_connection() {
    let down = ServerConnection::download_derivation("http://host", "/nix/store/a.drv");
    assert_eq!(down.program, "nix");
    assert_eq!(
        down.args,
        vec!["copy", "--from", "http://host", "/nix/store/a.drv", "--refresh", "--repair", "--derivation", "-v"]
    );
    let up = ServerConnection::upload_derivation("http://host", "/nix/store/a.drv");
    assert_eq!(
        up.args,
        vec!["copy", "--to", "http://host", "/nix/store/a.drv", "--refresh", "--repair", "--derivation", "-v"]
    );
}

#[test]
fn key_with_a_space_cannot_be_registered() {
    let mut conn = connected();
    assert_eq!(conn.register("a b".to_string()), Err(Error::Protocol));
    assert_eq!(conn.send_build_request("a b".to_string(), &Vec::new()), Err(Error::Protocol));
    assert_eq!(conn.send_build_request(" ".to_string(), &Vec::new()), Err(Error::Protocol));
    assert_eq!(conn.pending(), 0);
    let mut down = ServerConnection::new();
    assert_eq!(down.send_build_request("a b".to_string(), &Vec::new()), Err(Error::Send));
}

#[test]
fn every_pending_key_can_be_answered() {
    let mut conn = connected();
    conn.register("/nix/store/a.drv".to_string()).unwrap();
    let frame = nix_relay::frame::encode_completion("/nix/store/a.drv", true);
    assert_eq!(
        conn.dispatch(&frame),
        Dispatch::Delivered { key: "/nix/store/a.drv".to_string(), success: true }
    );
}
