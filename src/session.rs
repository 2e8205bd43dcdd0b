//! The server's side of one connection, as a state machine.
//!
//! The caller performs the actions that `Session::step` returns and feeds
//! back what happened as events. The session keeps, as ghost state, every
//! reply it asked to send and how often it asked to signal the child
//! because the client went away; its well-formedness ties both to the
//! phase, which is what the protocol promises the client.

use crate::child::{body_request, io_count, plan_matches, setup_command, ProcessRequest, SpawnPlan};
use crate::messages::{
    body_fits, decode_exec_body, decode_request, decode_signal, encode_result, encode_started,
    lemma_exec_body_round_trip, lemma_request_round_trip, lemma_signal_round_trip,
    wire_exec_body, wire_request, wire_result, wire_signal, wire_started, ExecBody, ProcessResult,
    RequestInput, RequestOutput, Signal, StartedProcess, IO_ALL, PROCESS_GROUP, SESSION, START_ALL,
};
use crate::system::{decode_wait_status, is_signal, outcome_of, signal_known, WaitOutcome, SIGKILL};
use vstd::prelude::*;

verus! {

/// Where a connection stands.
#[derive(Clone, Copy, Debug, PartialEq, Eq, Structural)]
pub enum Phase {
    /// Waiting for the request datagram.
    Start,
    /// An exec header came; waiting for the body and its descriptors.
    AwaitBody { size: u64 },
    /// The child is being spawned.
    Spawning { pg_leader: bool, connsig: i32 },
    /// The child runs and the client may send signals.
    Running { pid: i32, pg_leader: bool, connsig: i32 },
    /// The client is gone and the child was signalled; waiting for its exit.
    Reaping { pid: i32 },
    /// Nothing more happens on this connection.
    Terminal,
}

/// What happened since the last step.
pub enum Event {
    /// A datagram from the client; an empty one means the client closed.
    Datagram(Vec<u8>),
    /// The exec body datagram, with the descriptors that came with it.
    Body(Vec<u8>, Vec<i32>),
    /// Reading from the client failed.
    ReadFailed,
    /// The child was spawned with this pid.
    Spawned(i32),
    /// Spawning failed with this OS error number and message.
    SpawnFailed(i32, String),
    /// The child watcher reported this raw wait status for the child.
    Exited(i32),
}

/// What the caller does next.
pub enum Action {
    /// Read the next datagram; while the child runs, watch for its exit
    /// at the same time.
    Receive,
    /// Read the body datagram of this size with its descriptors.
    ReceiveBody(u64),
    /// Spawn the child by this plan.
    Spawn(SpawnPlan),
    /// Send this datagram.
    Send(Vec<u8>),
    /// Shut down the read half of the socket.
    ShutdownRead,
    /// Send a signal to the child, or to its process group; when the group
    /// does not exist, to the child itself.
    Kill { pid: i32, signal: i32, group: bool },
    /// Raise SIGINT in the server, which stops it.
    Interrupt,
    /// Close these received descriptors.
    CloseFds(Vec<i32>),
    /// Wait for the child's exit without reading from the client.
    AwaitExit,
    /// Close the connection.
    Close,
}

/// An event as a value.
pub enum EventView {
    Datagram(Seq<u8>),
    Body(Seq<u8>, Seq<i32>),
    ReadFailed,
    Spawned(i32),
    SpawnFailed(i32, Seq<char>),
    Exited(i32),
}

impl View for Event {
    type V = EventView;

    open spec fn view(&self) -> EventView {
        match self {
            Event::Datagram(d) => EventView::Datagram(d@),
            Event::Body(d, f) => EventView::Body(d@, f@),
            Event::ReadFailed => EventView::ReadFailed,
            Event::Spawned(p) => EventView::Spawned(*p),
            Event::SpawnFailed(e, m) => EventView::SpawnFailed(*e, m@),
            Event::Exited(s) => EventView::Exited(*s),
        }
    }
}

/// An action as a value; a spawn plan is described by `plan_matches`.
pub enum ActionView {
    Receive,
    ReceiveBody(u64),
    Spawn,
    Send(Seq<u8>),
    ShutdownRead,
    Kill { pid: i32, signal: i32, group: bool },
    Interrupt,
    CloseFds(Seq<i32>),
    AwaitExit,
    Close,
}

impl View for Action {
    type V = ActionView;

    open spec fn view(&self) -> ActionView {
        match self {
            Action::Receive => ActionView::Receive,
            Action::ReceiveBody(n) => ActionView::ReceiveBody(*n),
            Action::Spawn(_) => ActionView::Spawn,
            Action::Send(d) => ActionView::Send(d@),
            Action::ShutdownRead => ActionView::ShutdownRead,
            Action::Kill { pid, signal, group } => ActionView::Kill {
                pid: *pid,
                signal: *signal,
                group: *group,
            },
            Action::Interrupt => ActionView::Interrupt,
            Action::CloseFds(f) => ActionView::CloseFds(f@),
            Action::AwaitExit => ActionView::AwaitExit,
            Action::Close => ActionView::Close,
        }
    }
}

pub open spec fn actions_view(a: Seq<Action>) -> Seq<ActionView> {
    a.map_values(|x: Action| x@)
}

/// A reply the server sent to the client.
pub enum Reply {
    Started((bool, Seq<char>, i32, i32)),
    Finished(ProcessResult),
}

/// The request that a datagram holds, if it holds one.
pub open spec fn request_of(d: Seq<u8>) -> Option<RequestInput> {
    if exists|r: RequestInput| wire_request(r) == d {
        Some(choose|r: RequestInput| wire_request(r) == d)
    } else {
        None
    }
}

/// The exec body that a datagram holds, if it holds one.
pub open spec fn body_of(d: Seq<u8>) -> Option<ExecBody> {
    if exists|x: ExecBody| body_fits(x) && wire_exec_body(x) == d {
        Some(choose|x: ExecBody| body_fits(x) && wire_exec_body(x) == d)
    } else {
        None
    }
}

/// The signal message that a datagram holds, if it holds one.
pub open spec fn signal_of(d: Seq<u8>) -> Option<Signal> {
    if exists|s: Signal| wire_signal(s) == d {
        Some(choose|s: Signal| wire_signal(s) == d)
    } else {
        None
    }
}

/// A body the server accepts: flags within their sets, and exactly one
/// descriptor for each stdio flag.
pub open spec fn body_acceptable(x: ExecBody, nfds: nat) -> bool {
    &&& x.startup & !START_ALL == 0
    &&& x.io & !IO_ALL == 0
    &&& io_count(x.io) == nfds
}

/// The child leads a process group when it was started in a group or in
/// a session of its own.
pub open spec fn leads_group(x: ExecBody) -> bool {
    x.startup & (PROCESS_GROUP | SESSION) != 0
}

/// The signal to send when the client goes away: the one asked for, or
/// SIGKILL when it names no signal.
pub open spec fn connsig_of(x: ExecBody) -> i32 {
    if signal_known(x.connsig) {
        x.connsig
    } else {
        SIGKILL
    }
}

/// The answer to a successful spawn.
pub open spec fn started_ok(pid: i32) -> (bool, Seq<char>, i32, i32) {
    (true, Seq::empty(), 0, pid)
}

/// The answer to a failed spawn.
pub open spec fn started_failed(errno: i32, message: Seq<char>) -> (bool, Seq<char>, i32, i32) {
    (false, message, errno, -1i32)
}

/// The result that a raw wait status reports.
pub open spec fn result_of(status: i32) -> ProcessResult {
    match outcome_of(status) {
        WaitOutcome::Exited(c) => ProcessResult::Exit(c),
        WaitOutcome::Signaled(s) => ProcessResult::Signal(s),
        WaitOutcome::Other => ProcessResult::Undefined,
    }
}

/// What a signal message from the client asks of the child: nothing for
/// a number that names no signal, the group for a negative number when
/// the child leads one, the child itself otherwise.
pub open spec fn delivery(pid: i32, v: i32, pg_leader: bool) -> Seq<ActionView> {
    if v == 0 || v == i32::MIN || !signal_known(if v < 0 { (-v) as i32 } else { v }) {
        Seq::empty()
    } else if v < 0 {
        seq![ActionView::Kill { pid, signal: (-v) as i32, group: pg_leader }]
    } else {
        seq![ActionView::Kill { pid, signal: v, group: false }]
    }
}

/// What one step does: the next phase, the actions, the replies it sends
/// and how many times it signals the child because the client left.
pub open spec fn next(p: Phase, e: EventView) -> (Phase, Seq<ActionView>, Seq<Reply>, nat) {
    match (p, e) {
        (Phase::Start, EventView::Datagram(d)) => {
            if d.len() == 0 {
                (Phase::Terminal, seq![ActionView::Close], Seq::empty(), 0)
            } else {
                match request_of(d) {
                    Some(RequestInput::Stop) => (
                        Phase::Terminal,
                        seq![ActionView::Interrupt, ActionView::Close],
                        Seq::empty(),
                        0,
                    ),
                    Some(RequestInput::Exec(h)) => (
                        Phase::AwaitBody { size: h.body_size },
                        seq![ActionView::ReceiveBody(h.body_size)],
                        Seq::empty(),
                        0,
                    ),
                    None => (Phase::Terminal, seq![ActionView::Close], Seq::empty(), 0),
                }
            }
        },
        (Phase::AwaitBody { size }, EventView::Body(d, fds)) => {
            match body_of(d) {
                Some(x) => {
                    if d.len() == size && body_acceptable(x, fds.len()) {
                        (
                            Phase::Spawning { pg_leader: leads_group(x), connsig: connsig_of(x) },
                            seq![ActionView::Spawn],
                            Seq::empty(),
                            0,
                        )
                    } else {
                        (
                            Phase::Terminal,
                            seq![ActionView::CloseFds(fds), ActionView::Close],
                            Seq::empty(),
                            0,
                        )
                    }
                },
                None => (
                    Phase::Terminal,
                    seq![ActionView::CloseFds(fds), ActionView::Close],
                    Seq::empty(),
                    0,
                ),
            }
        },
        (Phase::AwaitBody { size }, EventView::Datagram(d)) => (
            Phase::Terminal,
            seq![ActionView::Close],
            Seq::empty(),
            0,
        ),
        (Phase::Spawning { pg_leader, connsig }, EventView::Spawned(pid)) => (
            Phase::Running { pid, pg_leader, connsig },
            seq![ActionView::Send(wire_started(started_ok(pid))), ActionView::Receive],
            seq![Reply::Started(started_ok(pid))],
            0,
        ),
        (Phase::Spawning { pg_leader, connsig }, EventView::SpawnFailed(errno, message)) => (
            Phase::Terminal,
            seq![
                ActionView::Send(wire_started(started_failed(errno, message))),
                ActionView::Close,
            ],
            seq![Reply::Started(started_failed(errno, message))],
            0,
        ),
        (Phase::Running { pid, pg_leader, connsig }, EventView::Datagram(d)) => {
            match signal_of(d) {
                Some(sig) => (
                    Phase::Running { pid, pg_leader, connsig },
                    delivery(pid, sig.0, pg_leader).push(ActionView::Receive),
                    Seq::empty(),
                    0,
                ),
                None => (
                    Phase::Reaping { pid },
                    seq![
                        ActionView::Kill { pid, signal: connsig, group: pg_leader },
                        ActionView::AwaitExit,
                    ],
                    Seq::empty(),
                    1,
                ),
            }
        },
        (Phase::Running { pid, pg_leader, connsig }, EventView::ReadFailed) => (
            Phase::Reaping { pid },
            seq![ActionView::Kill { pid, signal: connsig, group: pg_leader }, ActionView::AwaitExit],
            Seq::empty(),
            1,
        ),
        (Phase::Running { pid, pg_leader, connsig }, EventView::Exited(status)) => (
            Phase::Terminal,
            seq![
                ActionView::ShutdownRead,
                ActionView::Send(wire_result(result_of(status))),
                ActionView::Close,
            ],
            seq![Reply::Finished(result_of(status))],
            0,
        ),
        (Phase::Reaping { pid }, EventView::Exited(status)) => (
            Phase::Terminal,
            seq![ActionView::Close],
            Seq::empty(),
            0,
        ),
        (Phase::Reaping { pid }, _) => (Phase::Reaping { pid }, seq![ActionView::AwaitExit], Seq::empty(), 0),
        (Phase::Start, EventView::ReadFailed) => (Phase::Terminal, seq![ActionView::Close], Seq::empty(), 0),
        (Phase::AwaitBody { size }, EventView::ReadFailed) => (
            Phase::Terminal,
            seq![ActionView::Close],
            Seq::empty(),
            0,
        ),
        _ => (p, Seq::empty(), Seq::empty(), 0),
    }
}

/// The replies a connection may have sent: at most a started-process
/// answer and, only after a successful start, one result.
pub open spec fn replies_allowed(sent: Seq<Reply>) -> bool {
    &&& sent.len() <= 2
    &&& sent.len() >= 1 ==> sent[0] is Started
    &&& sent.len() == 2 ==> sent[0]->Started_0.0 && sent[1] is Finished
}

/// The invariant of a connection: what was sent and how often the child
/// was signalled for a lost client, given the phase.
pub open spec fn phase_history(p: Phase, sent: Seq<Reply>, lost: nat) -> bool {
    match p {
        Phase::Start | Phase::AwaitBody { .. } | Phase::Spawning { .. } => sent.len() == 0 && lost
            == 0,
        Phase::Running { pid, .. } => sent == seq![Reply::Started(started_ok(pid))] && lost == 0,
        Phase::Reaping { pid } => sent == seq![Reply::Started(started_ok(pid))] && lost == 1,
        Phase::Terminal => {
            &&& replies_allowed(sent)
            &&& lost <= 1
            &&& lost == 1 ==> sent.len() == 1
            &&& sent.len() == 1 && sent[0]->Started_0.0 ==> lost == 1
        },
    }
}

/// One connection on the server.
pub struct Session {
    pub phase: Phase,
    /// Every reply sent so far.
    pub sent: Ghost<Seq<Reply>>,
    /// How many times the child was signalled because the client left.
    pub lost: Ghost<nat>,
}

impl Session {
    pub open spec fn wf(&self) -> bool {
        phase_history(self.phase, self.sent@, self.lost@)
    }

    /// A connection that was just accepted.
    pub fn new() -> (s: Session)
        ensures
            s.wf(),
            s.phase == Phase::Start,
            s.sent@ == Seq::<Reply>::empty(),
    {
        Session { phase: Phase::Start, sent: Ghost(Seq::empty()), lost: Ghost(0) }
    }

    /// Handles one event and says what to do next.
    pub fn step(&mut self, event: Event) -> (actions: Vec<Action>)
        requires
            old(self).wf(),
        ensures
            final(self).wf(),
            final(self).phase == next(old(self).phase, event@).0,
            actions_view(actions@) == next(old(self).phase, event@).1,
            final(self).sent@ == old(self).sent@ + next(old(self).phase, event@).2,
            final(self).lost@ == old(self).lost@ + next(old(self).phase, event@).3,
            forall|i: int|
                0 <= i < actions@.len() ==> (#[trigger] actions@[i] matches Action::Spawn(plan) ==> (
                event@ matches EventView::Body(d, fds) && body_of(d) matches Some(x) && plan_matches(
                    plan,
                    body_request(x),
                    fds,
                ))),
    {
        let ghost e = event@;
        let ghost p = self.phase;
        let mut actions: Vec<Action> = Vec::new();
        match (self.phase, event) {
            (Phase::Start, Event::Datagram(d)) => {
                if d.len() == 0 {
                    actions.push(Action::Close);
                    self.phase = Phase::Terminal;
                } else {
                    let req = decode_request(d.as_slice());
                    proof { lemma_request_of(d@); }
                    match req {
                        Some(RequestOutput::Stop) => {
                            actions.push(Action::Interrupt);
                            actions.push(Action::Close);
                            self.phase = Phase::Terminal;
                        },
                        Some(RequestOutput::Exec(h)) => {
                            actions.push(Action::ReceiveBody(h.body_size));
                            self.phase = Phase::AwaitBody { size: h.body_size };
                        },
                        None => {
                            actions.push(Action::Close);
                            self.phase = Phase::Terminal;
                        },
                    }
                }
            },
            (Phase::AwaitBody { size }, Event::Body(d, fds)) => {
                let body = decode_exec_body(d.as_slice());
                proof { lemma_body_of(d@); }
                match body {
                    Some(x) => {
                        if (d.len() as u64) == size && x.startup & !START_ALL == 0 && x.io & !IO_ALL
                            == 0 && io_len(x.io) == fds.len() {
                            let pg_leader = x.startup & (PROCESS_GROUP | SESSION) != 0;
                            let connsig = if is_signal(x.connsig) {
                                x.connsig
                            } else {
                                SIGKILL
                            };
                            let plan = setup_command(ProcessRequest::from_output(x), fds.as_slice());
                            actions.push(Action::Spawn(plan));
                            self.phase = Phase::Spawning { pg_leader, connsig };
                        } else {
                            actions.push(Action::CloseFds(fds));
                            actions.push(Action::Close);
                            self.phase = Phase::Terminal;
                        }
                    },
                    None => {
                        actions.push(Action::CloseFds(fds));
                        actions.push(Action::Close);
                        self.phase = Phase::Terminal;
                    },
                }
            },
            (Phase::AwaitBody { .. }, Event::Datagram(_)) => {
                actions.push(Action::Close);
                self.phase = Phase::Terminal;
            },
            (Phase::Spawning { pg_leader, connsig }, Event::Spawned(pid)) => {
                let answer = StartedProcess {
                    success: true,
                    message: String::new(),
                    errno: 0,
                    pid,
                };
                actions.push(Action::Send(encode_started(&answer)));
                actions.push(Action::Receive);
                self.phase = Phase::Running { pid, pg_leader, connsig };
                self.sent = Ghost(self.sent@.push(Reply::Started(started_ok(pid))));
            },
            (Phase::Spawning { .. }, Event::SpawnFailed(errno, message)) => {
                let answer = StartedProcess { success: false, message, errno, pid: -1 };
                let ghost m = answer@;
                actions.push(Action::Send(encode_started(&answer)));
                actions.push(Action::Close);
                self.phase = Phase::Terminal;
                self.sent = Ghost(self.sent@.push(Reply::Started(m)));
            },
            (Phase::Running { pid, pg_leader, connsig }, Event::Datagram(d)) => {
                let sig = decode_signal(d.as_slice());
                proof { lemma_signal_of(d@); }
                match sig {
                    Some(Signal(v)) => {
                        pass_signal(&mut actions, pid, v, pg_leader);
                        actions.push(Action::Receive);
                    },
                    None => {
                        actions.push(Action::Kill { pid, signal: connsig, group: pg_leader });
                        actions.push(Action::AwaitExit);
                        self.phase = Phase::Reaping { pid };
                        self.lost = Ghost(self.lost@ + 1);
                    },
                }
            },
            (Phase::Running { pid, pg_leader, connsig }, Event::ReadFailed) => {
                actions.push(Action::Kill { pid, signal: connsig, group: pg_leader });
                actions.push(Action::AwaitExit);
                self.phase = Phase::Reaping { pid };
                self.lost = Ghost(self.lost@ + 1);
            },
            (Phase::Running { .. }, Event::Exited(status)) => {
                let result = child_finished(status);
                actions.push(Action::ShutdownRead);
                actions.push(Action::Send(encode_result(&result)));
                actions.push(Action::Close);
                self.phase = Phase::Terminal;
                self.sent = Ghost(self.sent@.push(Reply::Finished(result)));
            },
            (Phase::Reaping { .. }, Event::Exited(_)) => {
                actions.push(Action::Close);
                self.phase = Phase::Terminal;
            },
            (Phase::Reaping { .. }, _) => {
                actions.push(Action::AwaitExit);
            },
            (Phase::Start, Event::ReadFailed) => {
                actions.push(Action::Close);
                self.phase = Phase::Terminal;
            },
            (Phase::AwaitBody { .. }, Event::ReadFailed) => {
                actions.push(Action::Close);
                self.phase = Phase::Terminal;
            },
            _ => {},
        }
        proof {
            assert(actions_view(actions@) =~= next(p, e).1);
            assert(self.sent@ =~= old(self).sent@ + next(p, e).2);
        }
        actions
    }
}

/// The number of stdio descriptors that a set of stdio flags asks for.
pub fn io_len(io: u32) -> (r: usize)
    ensures
        r == io_count(io),
{
    let mut n: usize = 0;
    if io & 1 != 0 {
        n = n + 1;
    }
    if io & 2 != 0 {
        n = n + 1;
    }
    if io & 4 != 0 {
        n = n + 1;
    }
    n
}

/// Adds the signal that a client's signal message asks for, if any.
pub fn pass_signal(actions: &mut Vec<Action>, pid: i32, sigval: i32, pg_leader: bool)
    ensures
        actions_view(final(actions)@) == actions_view(old(actions)@) + delivery(pid, sigval, pg_leader),
        forall|i: int|
            0 <= i < final(actions)@.len() ==> (#[trigger] final(actions)@[i] matches Action::Spawn(_)
                ==> i < old(actions)@.len() && old(actions)@[i] == final(actions)@[i]),
{
    if sigval == 0 || sigval == i32::MIN {
        assert(actions_view(actions@) =~= actions_view(old(actions)@) + delivery(pid, sigval, pg_leader));
        return ;
    }
    let abs = if sigval < 0 {
        -sigval
    } else {
        sigval
    };
    if !is_signal(abs) {
        assert(actions_view(actions@) =~= actions_view(old(actions)@) + delivery(pid, sigval, pg_leader));
        return ;
    }
    if sigval < 0 {
        actions.push(Action::Kill { pid, signal: abs, group: pg_leader });
    } else {
        actions.push(Action::Kill { pid, signal: abs, group: false });
    }
    assert(actions_view(actions@) =~= actions_view(old(actions)@) + delivery(pid, sigval, pg_leader));
}

/// The result to report for a raw wait status: the exit code when the
/// child exited, the signal when one killed it, undefined otherwise.
pub fn child_finished(status: i32) -> (r: ProcessResult)
    ensures
        r == result_of(status),
{
    match decode_wait_status(status) {
        WaitOutcome::Exited(c) => ProcessResult::Exit(c),
        WaitOutcome::Signaled(s) => ProcessResult::Signal(s),
        WaitOutcome::Other => ProcessResult::Undefined,
    }
}

proof fn lemma_request_of(d: Seq<u8>)
    ensures
        forall|r: RequestInput| wire_request(r) == d ==> request_of(d) == Some(r),
{
    assert forall|r: RequestInput| wire_request(r) == d implies request_of(d) == Some(r) by {
        let c = choose|r: RequestInput| wire_request(r) == d;
        lemma_request_round_trip(c, r);
    }
}

proof fn lemma_body_of(d: Seq<u8>)
    ensures
        forall|x: ExecBody| body_fits(x) && wire_exec_body(x) == d ==> body_of(d) == Some(x),
{
    assert forall|x: ExecBody| body_fits(x) && wire_exec_body(x) == d implies body_of(d) == Some(
        x,
    ) by {
        let c = choose|x: ExecBody| body_fits(x) && wire_exec_body(x) == d;
        lemma_exec_body_round_trip(c, x);
    }
}

/// A datagram that encodes a signal message holds exactly that message.
pub proof fn lemma_signal_of(d: Seq<u8>)
    ensures
        forall|s: Signal| wire_signal(s) == d ==> signal_of(d) == Some(s),
{
    assert forall|s: Signal| wire_signal(s) == d implies signal_of(d) == Some(s) by {
        let c = choose|s: Signal| wire_signal(s) == d;
        lemma_signal_round_trip(c, s);
    }
}

/// The phase, actions, replies and lost-client signals of a whole run of
/// events from a given phase.
pub open spec fn run(p: Phase, events: Seq<EventView>) -> (Phase, Seq<ActionView>, Seq<Reply>, nat)
    decreases events.len(),
{
    if events.len() == 0 {
        (p, Seq::empty(), Seq::empty(), 0)
    } else {
        let (p1, a1, r1, k1) = next(p, events[0]);
        let (p2, a2, r2, k2) = run(p1, events.drop_first());
        (p2, a1 + a2, r1 + r2, k1 + k2)
    }
}

/// Every step keeps the connection's invariant.
pub proof fn lemma_next_keeps_history(p: Phase, sent: Seq<Reply>, lost: nat, e: EventView)
    requires
        phase_history(p, sent, lost),
    ensures
        phase_history(next(p, e).0, sent + next(p, e).2, lost + next(p, e).3),
{
    assert(sent + Seq::<Reply>::empty() =~= sent);
    match (p, e) {
        (Phase::Spawning { .. }, EventView::Spawned(pid)) => {
            assert(sent + next(p, e).2 =~= seq![Reply::Started(started_ok(pid))]);
        },
        (Phase::Spawning { .. }, EventView::SpawnFailed(errno, message)) => {
            assert(sent + next(p, e).2 =~= seq![Reply::Started(started_failed(errno, message))]);
        },
        (Phase::Running { pid, .. }, EventView::Exited(status)) => {
            assert(sent + next(p, e).2 =~= seq![
                Reply::Started(started_ok(pid)),
                Reply::Finished(result_of(status)),
            ]);
        },
        _ => {},
    }
}

/// Every run from an accepted connection keeps the connection's invariant.
pub proof fn lemma_run_keeps_history(p: Phase, sent: Seq<Reply>, lost: nat, events: Seq<EventView>)
    requires
        phase_history(p, sent, lost),
    ensures
        phase_history(run(p, events).0, sent + run(p, events).2, lost + run(p, events).3),
    decreases events.len(),
{
    if events.len() > 0 {
        let (p1, a1, r1, k1) = next(p, events[0]);
        lemma_next_keeps_history(p, sent, lost, events[0]);
        lemma_run_keeps_history(p1, sent + r1, lost + k1, events.drop_first());
        let (p2, a2, r2, k2) = run(p1, events.drop_first());
        assert(sent + r1 + r2 =~= sent + (r1 + r2));
    } else {
        assert(sent + Seq::<Reply>::empty() =~= sent);
    }
}

/// After a successful spawn the client gets the started-process answer
/// with the child's pid and then at most one result, and nothing else;
/// when the connection ends without the client having gone away, the
/// result was sent.
pub proof fn lemma_successful_spawn_replies(events: Seq<EventView>)
    ensures
        ({
            let (p, _, sent, lost) = run(Phase::Start, events);
            sent.len() >= 1 && sent[0]->Started_0.0 ==> {
                &&& exists|pid: i32| sent[0] == Reply::Started(started_ok(pid))
                &&& sent.len() <= 2
                &&& sent.len() == 2 ==> sent[1] is Finished
                &&& p == Phase::Terminal && lost == 0 ==> sent.len() == 2
            }
        }),
{
    lemma_run_keeps_history(Phase::Start, Seq::empty(), 0, events);
    lemma_run_started_ok(Phase::Start, Seq::empty(), events);
    let r = run(Phase::Start, events).2;
    assert(Seq::<Reply>::empty() + r =~= r);
}

/// A successful answer always carries the spawned pid and nothing else.
proof fn lemma_run_started_ok(p: Phase, sent: Seq<Reply>, events: Seq<EventView>)
    requires
        sent.len() >= 1 && sent[0]->Started_0.0 ==> exists|pid: i32|
            sent[0] == Reply::Started(started_ok(pid)),
        phase_history(p, sent, 0) || phase_history(p, sent, 1),
    ensures
        ({
            let all = sent + run(p, events).2;
            all.len() >= 1 && all[0]->Started_0.0 ==> exists|pid: i32|
                all[0] == Reply::Started(started_ok(pid))
        }),
    decreases events.len(),
{
    if events.len() > 0 {
        let (p1, a1, r1, k1) = next(p, events[0]);
        let lost: nat = if phase_history(p, sent, 0) { 0 } else { 1 };
        lemma_next_keeps_history(p, sent, lost, events[0]);
        let s1 = sent + r1;
        if s1.len() >= 1 && s1[0]->Started_0.0 {
            if sent.len() >= 1 {
                assert(s1[0] == sent[0]);
            } else {
                match (p, events[0]) {
                    (Phase::Spawning { .. }, EventView::Spawned(pid)) => {
                        assert(s1[0] == Reply::Started(started_ok(pid)));
                    },
                    _ => {},
                }
            }
        }
        assert(phase_history(p1, s1, lost + k1));
        assert(lost + k1 <= 1) by {
            match p1 {
                Phase::Terminal => {},
                _ => {},
            }
        }
        lemma_run_started_ok(p1, s1, events.drop_first());
        let (p2, a2, r2, k2) = run(p1, events.drop_first());
        assert(sent + (r1 + r2) =~= s1 + r2);
    } else {
        assert(sent + Seq::<Reply>::empty() =~= sent);
    }
}

/// After a failed spawn the client gets the started-process answer
/// carrying the error and nothing more; the connection ends there.
pub proof fn lemma_failed_spawn_replies(
    pg_leader: bool,
    connsig: i32,
    errno: i32,
    message: Seq<char>,
    later: Seq<EventView>,
)
    ensures
        next(Phase::Spawning { pg_leader, connsig }, EventView::SpawnFailed(errno, message)) == (
            Phase::Terminal,
            seq![
                ActionView::Send(wire_started(started_failed(errno, message))),
                ActionView::Close,
            ],
            seq![Reply::Started(started_failed(errno, message))],
            0nat,
        ),
        run(Phase::Terminal, later) == (
            Phase::Terminal,
            Seq::<ActionView>::empty(),
            Seq::<Reply>::empty(),
            0nat,
        ),
{
    lemma_terminal_is_final(later);
}

/// Nothing happens on a connection that has ended.
pub proof fn lemma_terminal_is_final(events: Seq<EventView>)
    ensures
        run(Phase::Terminal, events) == (
            Phase::Terminal,
            Seq::<ActionView>::empty(),
            Seq::<Reply>::empty(),
            0nat,
        ),
    decreases events.len(),
{
    if events.len() > 0 {
        lemma_terminal_is_final(events.drop_first());
        assert(Seq::<ActionView>::empty() + Seq::<ActionView>::empty() =~= Seq::<
            ActionView,
        >::empty());
        assert(Seq::<Reply>::empty() + Seq::<Reply>::empty() =~= Seq::<Reply>::empty());
    }
}

/// When the client closes while the child runs, the child (or its group,
/// when it leads one) gets the connection signal, and the session waits
/// for the exit without sending a result.
pub proof fn lemma_client_disconnect(pid: i32, pg_leader: bool, connsig: i32)
    ensures
        next(Phase::Running { pid, pg_leader, connsig }, EventView::Datagram(Seq::empty())) == (
            Phase::Reaping { pid },
            seq![ActionView::Kill { pid, signal: connsig, group: pg_leader }, ActionView::AwaitExit],
            Seq::<Reply>::empty(),
            1nat,
        ),
{
    assert forall|s: Signal| wire_signal(s) != Seq::<u8>::empty() by {
        crate::wire::lemma_i32(s.0, Seq::empty());
        assert(wire_signal(s) + Seq::<u8>::empty() =~= wire_signal(s));
    }
}

/// Over a whole run the child is signalled at most once for a lost client,
/// and once it was, no result is ever sent.
pub proof fn lemma_lost_client_signalled_once(events: Seq<EventView>)
    ensures
        run(Phase::Start, events).3 <= 1,
        run(Phase::Start, events).3 == 1 ==> forall|i: int|
            0 <= i < run(Phase::Start, events).2.len() ==> !(#[trigger] run(
                Phase::Start,
                events,
            ).2[i] is Finished),
{
    lemma_run_keeps_history(Phase::Start, Seq::empty(), 0, events);
    let r = run(Phase::Start, events).2;
    assert(Seq::<Reply>::empty() + r =~= r);
}

/// A body is spawned only when it carries exactly one descriptor for each
/// stdio flag; otherwise the received descriptors are closed and the
/// connection ends without an answer.
pub proof fn lemma_descriptor_count(size: u64, d: Seq<u8>, fds: Seq<i32>)
    ensures
        ({
            let (p, a, sent, _) = next(Phase::AwaitBody { size }, EventView::Body(d, fds));
            match body_of(d) {
                Some(x) => if io_count(x.io) != fds.len() {
                    p == Phase::Terminal && a == seq![ActionView::CloseFds(fds), ActionView::Close]
                        && sent.len() == 0
                } else {
                    true
                },
                None => p == Phase::Terminal && a == seq![
                    ActionView::CloseFds(fds),
                    ActionView::Close,
                ] && sent.len() == 0,
            }
        }),
        next(Phase::AwaitBody { size }, EventView::Body(d, fds)).1 =~= seq![ActionView::Spawn]
            ==> (body_of(d) matches Some(x) && io_count(x.io) == fds.len()),
{
}

/// A stop request makes the server raise its interrupt once and ends the
/// connection without an answer.
pub proof fn lemma_stop_request()
    ensures
        next(Phase::Start, EventView::Datagram(wire_request(RequestInput::Stop))) == (
            Phase::Terminal,
            seq![ActionView::Interrupt, ActionView::Close],
            Seq::<Reply>::empty(),
            0nat,
        ),
{
    lemma_request_of(wire_request(RequestInput::Stop));
    crate::wire::lemma_u32(0, Seq::empty());
    assert(wire_request(RequestInput::Stop) + Seq::<u8>::empty() =~= wire_request(RequestInput::Stop));
}

} // verus!
