use nix_relay::server::Incoming;
use nix_relay::worker::{
    send_derivation, Config, Worker, WorkerAction, WorkerEvent, WorkerState,
};

fn idle_worker() -> Worker {
    let mut worker = Worker::new(Config::new("relay:4000".to_string()));
    assert_eq!(
        worker.start(),
        vec![WorkerAction::Connect { url: "ws://relay:4000/worker".to_string() }]
    );
    assert_eq!(
        worker.step(WorkerEvent::Connected { accepted: true }),
        vec![WorkerAction::Send { frame: "register".to_string() }]
    );
    worker
}

fn frame_text(frame: &str) -> WorkerEvent {
    WorkerEvent::Message(Incoming::Text(frame.to_string()))
}

fn add_object(object: &str) -> Vec<WorkerAction> {
    vec![WorkerAction::AddObject { object: object.to_string() }]
}

fn report(frame: &str) -> Vec<WorkerAction> {
    vec![WorkerAction::Send { frame: frame.to_string() }]
}

#[test]
fn worker_urls() {
    let config = Config::new("relay:4000".to_string());
    assert_eq!(config.websocket_url(), "ws://relay:4000/worker");
    assert_eq!(config.upload_url(), "http://relay:4000");
}

#[test]
fn worker_registers_once_connected() {
    let worker = idle_worker();
    assert_eq!(worker.state(), WorkerState::Idle);
}

#[test]
fn refused_handshake_is_tried_again_after_the_pause() {
    let mut worker = Worker::new(Config::new("relay".to_string()));
    worker.start();
    for _ in 0..5 {
        assert_eq!(
            worker.step(WorkerEvent::Connected { accepted: false }),
            vec![WorkerAction::Wait { seconds: 2 }]
        );
        assert_eq!(worker.state(), WorkerState::Disconnected);
        assert_eq!(
            worker.step(WorkerEvent::BackoffElapsed),
            vec![WorkerAction::Connect { url: "ws://relay/worker".to_string() }]
        );
        assert_eq!(worker.state(), WorkerState::Connecting);
    }
}

#[test]
fn build_adds_each_object_then_realizes_transfers_and_reports() {
    let mut worker = idle_worker();
    let actions = worker.step(frame_text("request-build /nix/store/k.drv {\"a\": {\"x\": 1}, \"b\": [2]}"));
    assert_eq!(actions, add_object("{\"x\":1}"));
    assert_eq!(worker.state(), WorkerState::Building);
    assert_eq!(worker.step(WorkerEvent::Added { ok: true }), add_object("[2]"));
    assert_eq!(
        worker.step(WorkerEvent::Added { ok: true }),
        vec![WorkerAction::Realize { key: "/nix/store/k.drv".to_string() }]
    );
    assert_eq!(
        worker.step(WorkerEvent::Realized { outcome: Ok(()) }),
        vec![WorkerAction::Transfer { key: "/nix/store/k.drv".to_string() }]
    );
    assert_eq!(
        worker.step(WorkerEvent::Transferred { ok: true }),
        report("complete true /nix/store/k.drv")
    );
    assert_eq!(worker.state(), WorkerState::Idle);
}

#[test]
fn failed_transfer_still_reports_success() {
    let mut worker = idle_worker();
    worker.build_derivation("k".to_string(), Some(Vec::new()));
    worker.step(WorkerEvent::Realized { outcome: Ok(()) });
    assert_eq!(worker.step(WorkerEvent::Transferred { ok: false }), report("complete true k"));
}

#[test]
fn failed_realize_reports_failure_without_transfer() {
    let mut worker = idle_worker();
    assert_eq!(
        worker.build_derivation("k".to_string(), Some(Vec::new())),
        vec![WorkerAction::Realize { key: "k".to_string() }]
    );
    assert_eq!(
        worker.step(WorkerEvent::Realized { outcome: Err("builder failed".to_string()) }),
        report("complete false k")
    );
    assert_eq!(worker.state(), WorkerState::Idle);
}

#[test]
fn refused_object_is_tried_again_after_the_others() {
    let mut worker = idle_worker();
    let objects = vec!["one".to_string(), "two".to_string(), "three".to_string()];
    assert_eq!(worker.build_derivation("k".to_string(), Some(objects)), add_object("one"));
    assert_eq!(worker.step(WorkerEvent::Added { ok: false }), add_object("two"));
    assert_eq!(worker.step(WorkerEvent::Added { ok: true }), add_object("three"));
    assert_eq!(worker.step(WorkerEvent::Added { ok: false }), add_object("one"));
    assert_eq!(worker.step(WorkerEvent::Added { ok: true }), add_object("three"));
    assert_eq!(
        worker.step(WorkerEvent::Added { ok: true }),
        vec![WorkerAction::Realize { key: "k".to_string() }]
    );
}

#[test]
fn a_round_without_progress_fails_the_build() {
    let mut worker = idle_worker();
    let objects = vec!["one".to_string(), "two".to_string()];
    worker.build_derivation("k".to_string(), Some(objects));
    assert_eq!(worker.step(WorkerEvent::Added { ok: false }), add_object("two"));
    assert_eq!(worker.step(WorkerEvent::Added { ok: false }), report("complete false k"));
    assert_eq!(worker.state(), WorkerState::Idle);
}

#[test]
fn single_object_that_is_refused_fails_the_build() {
    let mut worker = idle_worker();
    worker.build_derivation("k".to_string(), Some(vec!["one".to_string()]));
    assert_eq!(worker.step(WorkerEvent::Added { ok: false }), report("complete false k"));
}

#[test]
fn payload_that_is_no_object_is_a_failed_build() {
    let mut worker = idle_worker();
    assert_eq!(worker.step(frame_text("request-build k not-json")), report("complete false k"));
    assert_eq!(worker.step(frame_text("request-build k [1, 2]")), report("complete false k"));
    assert_eq!(worker.state(), WorkerState::Idle);
    assert_eq!(
        worker.build_derivation("k".to_string(), None),
        report("complete false k")
    );
}

#[test]
fn payload_with_an_empty_object_is_realized_at_once() {
    let mut worker = idle_worker();
    assert_eq!(
        worker.step(frame_text("request-build k {}")),
        vec![WorkerAction::Realize { key: "k".to_string() }]
    );
}

#[test]
fn frames_that_are_no_request_are_ignored() {
    let mut worker = idle_worker();
    assert_eq!(worker.step(frame_text("hello")), Vec::new());
    assert_eq!(worker.step(frame_text("request-build k")), Vec::new());
    assert_eq!(worker.step(WorkerEvent::Message(Incoming::Other)), Vec::new());
    assert_eq!(worker.state(), WorkerState::Idle);
}

#[test]
fn a_request_during_a_build_is_not_taken() {
    let mut worker = idle_worker();
    worker.build_derivation("k".to_string(), Some(vec!["one".to_string()]));
    assert_eq!(worker.step(frame_text("request-build other {}")), Vec::new());
    assert_eq!(worker.build_derivation("other".to_string(), Some(Vec::new())), Vec::new());
    assert_eq!(
        worker.step(WorkerEvent::Added { ok: true }),
        vec![WorkerAction::Realize { key: "k".to_string() }]
    );
}

#[test]
fn close_takes_the_worker_back_to_the_start() {
    let mut worker = idle_worker();
    assert_eq!(
        worker.step(WorkerEvent::Message(Incoming::Close)),
        vec![WorkerAction::Wait { seconds: 2 }]
    );
    assert_eq!(worker.state(), WorkerState::Disconnected);
    assert_eq!(
        worker.step(WorkerEvent::BackoffElapsed),
        vec![WorkerAction::Connect { url: "ws://relay:4000/worker".to_string() }]
    );
}

#[test]
fn transport_failure_during_a_build_gives_the_build_up() {
    let mut worker = idle_worker();
    worker.build_derivation("k".to_string(), Some(vec!["one".to_string()]));
    assert_eq!(
        worker.step(WorkerEvent::Message(Incoming::Failure)),
        vec![WorkerAction::Wait { seconds: 2 }]
    );
    assert_eq!(worker.state(), WorkerState::Disconnected);
    assert_eq!(worker.step(WorkerEvent::Added { ok: true }), Vec::new());
    let mut other = idle_worker();
    assert_eq!(other.step(WorkerEvent::SendFailed), vec![WorkerAction::Wait { seconds: 2 }]);
}

#[test]
fn events_out_of_turn_change_nothing() {
    let mut worker = Worker::new(Config::new("relay".to_string()));
    assert_eq!(worker.step(WorkerEvent::Connected { accepted: true }), Vec::new());
    assert_eq!(worker.step(WorkerEvent::Added { ok: true }), Vec::new());
    assert_eq!(worker.step(WorkerEvent::SendFailed), Vec::new());
    assert_eq!(worker.state(), WorkerState::Disconnected);
    let mut busy = idle_worker();
    busy.build_derivation("k".to_string(), Some(vec!["one".to_string()]));
    assert_eq!(busy.step(WorkerEvent::Realized { outcome: Ok(()) }), Vec::new());
    assert_eq!(busy.step(WorkerEvent::Transferred { ok: true }), Vec::new());
    assert_eq!(busy.step(WorkerEvent::BackoffElapsed), Vec::new());
    assert_eq!(busy.state(), WorkerState::Building);
}

#[test]
fn artifact_is_sent_to_the_upload_url() {
    let config = Config::new("relay:4000".to_string());
    let line = send_derivation("/nix/store/k.drv", &config);
    assert_eq!(line.program, "nix");
    assert_eq!(
        line.args,
        vec!["copy", "--to", "http://relay:4000", "/nix/store/k.drv", "--refresh", "--repair", "--derivation", "-v"]
    );
}
