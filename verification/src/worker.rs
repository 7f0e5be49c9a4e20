//! The worker: it registers with the relay, takes one build request at a
//! time, builds it in the local store and reports how the build ended.
//!
//! Like the client, a `Worker` is driven by events and answers with the
//! actions to perform.

use crate::command::{upload, upload_line, Invocation};
use crate::frame::{encode_report, parse_request, parsed_request, report_frame};
use crate::server::{Incoming, IncomingView};
use crate::text::texts_view;
use vstd::prelude::*;
use vstd::string::*;

verus! {

/// The pause before the relay is tried again, in seconds.
pub const RECONNECT_SECONDS: u64 = 2;

/// The settings of a worker.
#[derive(Clone, Debug)]
pub struct Config {
    server_url: String,
}

impl View for Config {
    type V = Seq<char>;

    closed spec fn view(&self) -> Seq<char> {
        self.server_url@
    }
}

/// The address of the relay's channel for workers.
pub open spec fn worker_channel_url(server_url: Seq<char>) -> Seq<char> {
    "ws://"@ + server_url + "/worker"@
}

/// The address of the cache that built artifacts are copied to.
pub open spec fn upload_endpoint_url(server_url: Seq<char>) -> Seq<char> {
    "http://"@ + server_url
}

impl Config {
    /// The settings of a worker of the relay at `server_url`.
    pub fn new(server_url: String) -> (config: Self)
        ensures
            config@ == server_url@,
    {
        Config { server_url }
    }

    /// The address of the relay's channel for workers.
    pub fn websocket_url(&self) -> (url: String)
        ensures
            url@ == worker_channel_url(self@),
    {
        let mut url = String::from_str("ws://");
        url.append(self.server_url.as_str());
        url.append("/worker");
        url
    }

    /// The address of the cache that built artifacts are copied to.
    pub fn upload_url(&self) -> (url: String)
        ensures
            url@ == upload_endpoint_url(self@),
    {
        let mut url = String::from_str("http://");
        url.append(self.server_url.as_str());
        url
    }
}

/// The states of a worker.
#[derive(Clone, Copy, Debug, PartialEq, Eq, Structural)]
pub enum WorkerState {
    /// No channel; a connection attempt follows the pause.
    Disconnected,
    /// The handshake is under way.
    Connecting,
    /// Registered with the relay and waiting for a request.
    Idle,
    /// A build is under way.
    Building,
}

/// How far a build has come.
#[derive(Clone, Copy, Debug, PartialEq, Eq, Structural)]
pub enum JobStage {
    /// The objects of the payload are being added to the local store.
    Adding,
    /// The local store is building the derivation.
    Realizing,
    /// The artifact is being copied to the remote cache.
    Transferring,
}

/// The build that a worker is making.
#[derive(Debug)]
pub struct Job {
    pub key: String,
    /// The objects that are still to be added, the next one first.
    pub queue: Vec<String>,
    /// How many objects the store has refused in a row.
    pub stalled: usize,
    pub stage: JobStage,
}

/// Something that happened outside and that the worker must react to.
#[derive(Debug, PartialEq, Eq)]
pub enum WorkerEvent {
    /// The handshake with the relay ended.
    Connected { accepted: bool },
    /// The pause before the next connection attempt is over.
    BackoffElapsed,
    /// The transport rejected a frame that was to be written.
    SendFailed,
    /// A message was read.
    Message(Incoming),
    /// The local store took the object, or refused it for now.
    Added { ok: bool },
    /// The local store ended the build; on failure with what it printed.
    Realized { outcome: Result<(), String> },
    /// The copy to the remote cache ended.
    Transferred { ok: bool },
}

/// Work that the worker asks for.
#[derive(Debug, PartialEq, Eq)]
pub enum WorkerAction {
    /// Perform the handshake with the relay at `url`.
    Connect { url: String },
    /// Pause for `seconds`.
    Wait { seconds: u64 },
    /// Write `frame` to the relay.
    Send { frame: String },
    /// Hand `object` to the local store.
    AddObject { object: String },
    /// Build `key` in the local store.
    Realize { key: String },
    /// Copy `key` to the remote cache.
    Transfer { key: String },
}

/// The mathematical value of a [`Job`].
pub struct JobView {
    pub key: Seq<char>,
    pub queue: Seq<Seq<char>>,
    pub stalled: nat,
    pub stage: JobStage,
}

/// The mathematical value of a [`WorkerEvent`].
pub enum WorkerEventView {
    Connected { accepted: bool },
    BackoffElapsed,
    SendFailed,
    Message(IncomingView),
    Added { ok: bool },
    Realized { outcome: Result<(), Seq<char>> },
    Transferred { ok: bool },
}

/// The mathematical value of a [`WorkerAction`].
pub enum WorkerActionView {
    Connect { url: Seq<char> },
    Wait { seconds: u64 },
    Send { frame: Seq<char> },
    AddObject { object: Seq<char> },
    Realize { key: Seq<char> },
    Transfer { key: Seq<char> },
}

/// The mathematical value of a [`Worker`].
pub struct WorkerView {
    pub server_url: Seq<char>,
    pub state: WorkerState,
    pub job: Option<JobView>,
}

impl View for Job {
    type V = JobView;

    open spec fn view(&self) -> JobView {
        JobView {
            key: self.key@,
            queue: self.queue.deep_view(),
            stalled: self.stalled as nat,
            stage: self.stage,
        }
    }
}

impl View for WorkerEvent {
    type V = WorkerEventView;

    open spec fn view(&self) -> WorkerEventView {
        match self {
            WorkerEvent::Connected { accepted } => WorkerEventView::Connected {
                accepted: *accepted,
            },
            WorkerEvent::BackoffElapsed => WorkerEventView::BackoffElapsed,
            WorkerEvent::SendFailed => WorkerEventView::SendFailed,
            WorkerEvent::Message(m) => WorkerEventView::Message(m@),
            WorkerEvent::Added { ok } => WorkerEventView::Added { ok: *ok },
            WorkerEvent::Realized { outcome } => WorkerEventView::Realized {
                outcome: match outcome {
                    Ok(()) => Ok(()),
                    Err(text) => Err(text@),
                },
            },
            WorkerEvent::Transferred { ok } => WorkerEventView::Transferred { ok: *ok },
        }
    }
}

impl View for WorkerAction {
    type V = WorkerActionView;

    open spec fn view(&self) -> WorkerActionView {
        match self {
            WorkerAction::Connect { url } => WorkerActionView::Connect { url: url@ },
            WorkerAction::Wait { seconds } => WorkerActionView::Wait { seconds: *seconds },
            WorkerAction::Send { frame } => WorkerActionView::Send { frame: frame@ },
            WorkerAction::AddObject { object } => WorkerActionView::AddObject { object: object@ },
            WorkerAction::Realize { key } => WorkerActionView::Realize { key: key@ },
            WorkerAction::Transfer { key } => WorkerActionView::Transfer { key: key@ },
        }
    }
}

/// The values of a list of actions, in order.
pub open spec fn worker_actions_view(actions: Seq<WorkerAction>) -> Seq<WorkerActionView> {
    Seq::new(actions.len(), |i: int| actions[i]@)
}

/// The objects that a payload describes, each as text, in the order in which
/// the JSON parser lists the members of the payload's object; none where the
/// payload is not a JSON object.
pub uninterp spec fn payload_parts(payload: Seq<char>) -> Option<Seq<Seq<char>>>;

/// The channel is gone: the build, if any, is given up, and the relay is
/// tried again after the pause.
pub open spec fn lost(w: WorkerView) -> (WorkerView, Seq<WorkerActionView>) {
    (
        WorkerView { state: WorkerState::Disconnected, job: None, ..w },
        seq![WorkerActionView::Wait { seconds: RECONNECT_SECONDS }],
    )
}

/// The build ends: its outcome is reported and the worker waits for the
/// next request.
pub open spec fn reported(w: WorkerView, key: Seq<char>, success: bool) -> (
    WorkerView,
    Seq<WorkerActionView>,
) {
    (
        WorkerView { state: WorkerState::Idle, job: None, ..w },
        seq![WorkerActionView::Send { frame: report_frame(key, success) }],
    )
}

/// An idle worker takes the request to build `key`, whose payload was split
/// into `parts`. A payload that is no JSON object is a failed build. With
/// no object to add the derivation is built at once; else the first object
/// is handed to the store. A worker that is not idle takes no request.
pub open spec fn taken(w: WorkerView, key: Seq<char>, parts: Option<Seq<Seq<char>>>) -> (
    WorkerView,
    Seq<WorkerActionView>,
) {
    if w.state != WorkerState::Idle {
        (w, Seq::empty())
    } else {
        match parts {
            None => reported(w, key, false),
            Some(objects) => if objects.len() == 0 {
                (
                    WorkerView {
                        state: WorkerState::Building,
                        job: Some(
                            JobView { key, queue: objects, stalled: 0, stage: JobStage::Realizing },
                        ),
                        ..w
                    },
                    seq![WorkerActionView::Realize { key }],
                )
            } else {
                (
                    WorkerView {
                        state: WorkerState::Building,
                        job: Some(
                            JobView { key, queue: objects, stalled: 0, stage: JobStage::Adding },
                        ),
                        ..w
                    },
                    seq![WorkerActionView::AddObject { object: objects[0] }],
                )
            },
        }
    }
}

/// The store answered for the object at the head of the queue. An object
/// that was taken leaves the queue; one that was refused goes to its end, to
/// be tried again after the others. Once the queue is empty the derivation
/// is built. Once the store has refused every object that is left, one
/// after the other, none of them can be added: the build has failed.
pub open spec fn added(w: WorkerView, job: JobView, ok: bool) -> (
    WorkerView,
    Seq<WorkerActionView>,
) {
    if ok {
        let rest = job.queue.drop_first();
        if rest.len() == 0 {
            (
                WorkerView {
                    job: Some(
                        JobView { queue: rest, stalled: 0, stage: JobStage::Realizing, ..job },
                    ),
                    ..w
                },
                seq![WorkerActionView::Realize { key: job.key }],
            )
        } else {
            (
                WorkerView { job: Some(JobView { queue: rest, stalled: 0, ..job }), ..w },
                seq![WorkerActionView::AddObject { object: rest[0] }],
            )
        }
    } else if job.stalled + 1 >= job.queue.len() {
        reported(w, job.key, false)
    } else {
        let turned = job.queue.drop_first().push(job.queue[0]);
        (
            WorkerView {
                job: Some(JobView { queue: turned, stalled: job.stalled + 1, ..job }),
                ..w
            },
            seq![WorkerActionView::AddObject { object: turned[0] }],
        )
    }
}

/// What an event does to a worker that is building.
pub open spec fn building(w: WorkerView, job: JobView, event: WorkerEventView) -> (
    WorkerView,
    Seq<WorkerActionView>,
) {
    match event {
        WorkerEventView::Added { ok } => if job.stage == JobStage::Adding && job.queue.len() > 0 {
            added(w, job, ok)
        } else {
            (w, Seq::empty())
        },
        WorkerEventView::Realized { outcome } => if job.stage == JobStage::Realizing {
            match outcome {
                Ok(()) => (
                    WorkerView { job: Some(JobView { stage: JobStage::Transferring, ..job }), ..w },
                    seq![WorkerActionView::Transfer { key: job.key }],
                ),
                Err(_) => reported(w, job.key, false),
            }
        } else {
            (w, Seq::empty())
        },
        WorkerEventView::Transferred { ok } => if job.stage == JobStage::Transferring {
            reported(w, job.key, true)
        } else {
            (w, Seq::empty())
        },
        _ => (w, Seq::empty()),
    }
}

/// What an event does to a worker: the worker afterwards and the work it
/// asks for, in order. A transport failure, in whatever state, takes the
/// worker back to the start. An event that the state does not expect
/// changes nothing.
pub open spec fn worked(w: WorkerView, event: WorkerEventView) -> (
    WorkerView,
    Seq<WorkerActionView>,
) {
    match event {
        WorkerEventView::SendFailed => if w.state == WorkerState::Idle || w.state
            == WorkerState::Building {
            lost(w)
        } else {
            (w, Seq::empty())
        },
        WorkerEventView::Message(IncomingView::Close) | WorkerEventView::Message(
            IncomingView::Failure,
        ) => if w.state == WorkerState::Idle || w.state == WorkerState::Building {
            lost(w)
        } else {
            (w, Seq::empty())
        },
        WorkerEventView::Connected { accepted } => if w.state == WorkerState::Connecting {
            if accepted {
                (
                    WorkerView { state: WorkerState::Idle, job: None, ..w },
                    seq![WorkerActionView::Send { frame: "register"@ }],
                )
            } else {
                lost(w)
            }
        } else {
            (w, Seq::empty())
        },
        WorkerEventView::BackoffElapsed => if w.state == WorkerState::Disconnected {
            (
                WorkerView { state: WorkerState::Connecting, job: None, ..w },
                seq![WorkerActionView::Connect { url: worker_channel_url(w.server_url) }],
            )
        } else {
            (w, Seq::empty())
        },
        WorkerEventView::Message(IncomingView::Text(frame)) => if w.state == WorkerState::Idle {
            match parsed_request(frame) {
                Some((key, payload)) => taken(w, key, payload_parts(payload)),
                None => (w, Seq::empty()),
            }
        } else {
            (w, Seq::empty())
        },
        _ => if w.state == WorkerState::Building && w.job is Some {
            building(w, w.job->0, event)
        } else {
            (w, Seq::empty())
        },
    }
}

/// A worker holds a build exactly while it is building; while the objects
/// of the build are being added, one is at the head of the queue and the
/// store has not yet refused all that are left.
pub open spec fn consistent(w: WorkerView) -> bool {
    &&& w.state == WorkerState::Building <==> w.job is Some
    &&& w.job is Some && w.job->0.stage == JobStage::Adding ==> w.job->0.stalled
        < w.job->0.queue.len()
}

/// Every event leaves a consistent worker consistent: the states in which
/// `worked` finds a building worker without a build, or an empty queue that
/// is being added, are never reached.
pub proof fn law_worker_stays_consistent(w: WorkerView, event: WorkerEventView)
    requires
        consistent(w),
    ensures
        consistent(worked(w, event).0),
{
}

/// Splits the payload of a build request into the objects that it describes.
///
/// Trusted: calls `serde_json::from_str` for a `serde_json::Value`. The
/// contract claims only that the answer depends on the payload alone: it is
/// `payload_parts` of the payload. By the crate's source the answer is none
/// where the text is not valid JSON or its value is no object, and else the
/// members of the object, each written back as JSON text by `to_string`.
#[verifier::external_body]
fn split_payload(payload: &str) -> (objects: Option<Vec<String>>)
    ensures
        texts_view(objects) == payload_parts(payload@),
{
    let value: serde_json::Value = serde_json::from_str(payload).ok()?;
    Some(value.as_object()?.values().map(|object| object.to_string()).collect())
}

/// A worker.
#[derive(Debug)]
pub struct Worker {
    config: Config,
    state: WorkerState,
    job: Option<Job>,
}

impl View for Worker {
    type V = WorkerView;

    closed spec fn view(&self) -> WorkerView {
        WorkerView {
            server_url: self.config@,
            state: self.state,
            job: match self.job {
                Some(job) => Some(job@),
                None => None,
            },
        }
    }
}

impl Worker {
    /// A worker that has no channel yet.
    pub fn new(config: Config) -> (worker: Self)
        ensures
            worker@ == (WorkerView {
                server_url: config@,
                state: WorkerState::Disconnected,
                job: None,
            }),
    {
        Worker { config, state: WorkerState::Disconnected, job: None }
    }

    /// The state of the worker.
    pub fn state(&self) -> (state: WorkerState)
        ensures
            state == self@.state,
    {
        self.state
    }

    /// The settings that the worker was made with.
    pub fn config(&self) -> (config: &Config)
        ensures
            config@ == self@.server_url,
    {
        &self.config
    }

    /// No action.
    fn nothing() -> (actions: Vec<WorkerAction>)
        ensures
            worker_actions_view(actions@) == Seq::<WorkerActionView>::empty(),
    {
        let actions: Vec<WorkerAction> = Vec::new();
        assert(worker_actions_view(actions@) =~= Seq::<WorkerActionView>::empty());
        actions
    }

    /// One action.
    fn only(action: WorkerAction) -> (actions: Vec<WorkerAction>)
        ensures
            worker_actions_view(actions@) == seq![action@],
    {
        let mut actions: Vec<WorkerAction> = Vec::new();
        actions.push(action);
        assert(worker_actions_view(actions@) =~= seq![action@]);
        actions
    }

    /// Starts the worker: the relay is to be reached. The same as the end
    /// of a pause.
    pub fn start(&mut self) -> (actions: Vec<WorkerAction>)
        ensures
            final(self)@ == worked(old(self)@, WorkerEventView::BackoffElapsed).0,
            worker_actions_view(actions@) == worked(old(self)@, WorkerEventView::BackoffElapsed).1,
    {
        self.step(WorkerEvent::BackoffElapsed)
    }

    /// The channel is gone.
    fn lost(&mut self) -> (actions: Vec<WorkerAction>)
        ensures
            final(self)@ == lost(old(self)@).0,
            worker_actions_view(actions@) == lost(old(self)@).1,
    {
        self.state = WorkerState::Disconnected;
        self.job = None;
        Self::only(WorkerAction::Wait { seconds: RECONNECT_SECONDS })
    }

    /// The build of `key` ends.
    fn report(&mut self, key: &str, success: bool) -> (actions: Vec<WorkerAction>)
        ensures
            final(self)@ == reported(old(self)@, key@, success).0,
            worker_actions_view(actions@) == reported(old(self)@, key@, success).1,
    {
        self.state = WorkerState::Idle;
        self.job = None;
        Self::only(WorkerAction::Send { frame: encode_report(key, success) })
    }

    /// Takes the request to build `derivation`, whose payload was split into
    /// `objects`: what `taken` gives. The objects are added to the local
    /// store one by one, and the derivation is built once all are in.
    pub fn build_derivation(
        &mut self,
        derivation: String,
        objects: Option<Vec<String>>,
    ) -> (actions: Vec<WorkerAction>)
        ensures
            final(self)@ == taken(old(self)@, derivation@, texts_view(objects)).0,
            worker_actions_view(actions@) == taken(old(self)@, derivation@, texts_view(objects)).1,
    {
        match self.state {
            WorkerState::Idle => {},
            _ => {
                return Self::nothing();
            },
        }
        match objects {
            None => self.report(derivation.as_str(), false),
            Some(queue) => {
                if queue.len() == 0 {
                    let key = derivation.clone();
                    self.state = WorkerState::Building;
                    self.job = Some(
                        Job { key: derivation, queue, stalled: 0, stage: JobStage::Realizing },
                    );
                    Self::only(WorkerAction::Realize { key })
                } else {
                    let object = queue[0].clone();
                    self.state = WorkerState::Building;
                    self.job = Some(
                        Job { key: derivation, queue, stalled: 0, stage: JobStage::Adding },
                    );
                    Self::only(WorkerAction::AddObject { object })
                }
            },
        }
    }

    /// The store answered for the object at the head of the queue.
    fn added(&mut self, job: Job, ok: bool) -> (actions: Vec<WorkerAction>)
        requires
            job.queue.len() > 0,
        ensures
            final(self)@ == added(WorkerView { job: Some(job@), ..old(self)@ }, job@, ok).0,
            worker_actions_view(actions@) == added(
                WorkerView { job: Some(job@), ..old(self)@ },
                job@,
                ok,
            ).1,
    {
        let mut job = job;
        let ghost queued = job.queue.deep_view();
        if ok {
            job.queue.remove(0);
            assert(job.queue.deep_view() =~= queued.drop_first());
            job.stalled = 0;
            if job.queue.len() == 0 {
                let key = job.key.clone();
                job.stage = JobStage::Realizing;
                self.job = Some(job);
                Self::only(WorkerAction::Realize { key })
            } else {
                let object = job.queue[0].clone();
                self.job = Some(job);
                Self::only(WorkerAction::AddObject { object })
            }
        } else if job.stalled >= job.queue.len() - 1 {
            self.report(job.key.as_str(), false)
        } else {
            let refused = job.queue.remove(0);
            job.queue.push(refused);
            assert(job.queue.deep_view() =~= queued.drop_first().push(queued[0]));
            job.stalled = job.stalled + 1;
            let object = job.queue[0].clone();
            self.job = Some(job);
            Self::only(WorkerAction::AddObject { object })
        }
    }

    /// An event reached a worker that is building `job`.
    fn building(&mut self, job: Job, event: WorkerEvent) -> (actions: Vec<WorkerAction>)
        ensures
            final(self)@ == building(
                WorkerView { job: Some(job@), ..old(self)@ },
                job@,
                event@,
            ).0,
            worker_actions_view(actions@) == building(
                WorkerView { job: Some(job@), ..old(self)@ },
                job@,
                event@,
            ).1,
    {
        match event {
            WorkerEvent::Added { ok } => {
                if job.stage == JobStage::Adding && job.queue.len() > 0 {
                    self.added(job, ok)
                } else {
                    self.job = Some(job);
                    Self::nothing()
                }
            },
            WorkerEvent::Realized { outcome } => {
                if job.stage == JobStage::Realizing {
                    match outcome {
                        Ok(()) => {
                            let mut job = job;
                            let key = job.key.clone();
                            job.stage = JobStage::Transferring;
                            self.job = Some(job);
                            Self::only(WorkerAction::Transfer { key })
                        },
                        Err(_) => self.report(job.key.as_str(), false),
                    }
                } else {
                    self.job = Some(job);
                    Self::nothing()
                }
            },
            WorkerEvent::Transferred { ok } => {
                if job.stage == JobStage::Transferring {
                    self.report(job.key.as_str(), true)
                } else {
                    self.job = Some(job);
                    Self::nothing()
                }
            },
            _ => {
                self.job = Some(job);
                Self::nothing()
            },
        }
    }

    /// Reacts to one event: the worker afterwards and the actions that it
    /// asks for are those that `worked` gives.
    pub fn step(&mut self, event: WorkerEvent) -> (actions: Vec<WorkerAction>)
        ensures
            final(self)@ == worked(old(self)@, event@).0,
            worker_actions_view(actions@) == worked(old(self)@, event@).1,
    {
        let up = self.state == WorkerState::Idle || self.state == WorkerState::Building;
        match event {
            WorkerEvent::SendFailed => {
                if up {
                    self.lost()
                } else {
                    Self::nothing()
                }
            },
            WorkerEvent::Message(Incoming::Close) | WorkerEvent::Message(Incoming::Failure) => {
                if up {
                    self.lost()
                } else {
                    Self::nothing()
                }
            },
            WorkerEvent::Connected { accepted } => {
                if self.state == WorkerState::Connecting {
                    if accepted {
                        self.state = WorkerState::Idle;
                        self.job = None;
                        Self::only(WorkerAction::Send { frame: "register".to_owned() })
                    } else {
                        self.lost()
                    }
                } else {
                    Self::nothing()
                }
            },
            WorkerEvent::BackoffElapsed => {
                if self.state == WorkerState::Disconnected {
                    self.state = WorkerState::Connecting;
                    self.job = None;
                    Self::only(WorkerAction::Connect { url: self.config.websocket_url() })
                } else {
                    Self::nothing()
                }
            },
            WorkerEvent::Message(Incoming::Text(frame)) => {
                if self.state == WorkerState::Idle {
                    match parse_request(frame.as_str()) {
                        Some((key, payload)) => {
                            let objects = split_payload(payload.as_str());
                            self.build_derivation(key, objects)
                        },
                        None => Self::nothing(),
                    }
                } else {
                    Self::nothing()
                }
            },
            other => {
                if self.state == WorkerState::Building && self.job.is_some() {
                    let job = self.job.take().unwrap();
                    assert((WorkerView { job: Some(job@), ..self@ }) == old(self)@);
                    self.building(job, other)
                } else {
                    Self::nothing()
                }
            },
        }
    }
}

/// The command that copies what a worker built to the remote cache.
pub fn send_derivation(derivation: &str, config: &Config) -> (invocation: Invocation)
    ensures
        invocation@ == upload_line(upload_endpoint_url(config@), derivation@),
{
    let url = config.upload_url();
    upload(url.as_str(), derivation)
}

} // verus!
