//! The client's side: building the exec request from the command line,
//! reading the server's answers, and turning caught signals into
//! messages.

use crate::messages::{
    decode_result, decode_started, encode_exec, encode_request, encode_signal, pairs_view,
    strings_view, wire_exec_body, wire_request, wire_result, wire_signal, wire_started, ExecHeader,
    ExecRequestInput, ProcessResult, RequestInput, Signal, DETACH_TERMINAL, IO_ALL, PROCESS_GROUP,
    SESSION,
};
use crate::session::{lemma_signal_of, next, result_of, ActionView, EventView, Phase, Reply};
use crate::system::{
    exit_code, exited, signal_known, signaled, term_signal, SIGCONT, SIGKILL, SIGSTOP, SIGTSTP,
    SIGTTIN, SIGTTOU,
};
use vstd::prelude::*;
use vstd::string::StrSliceExecFns;

verus! {

/// What the command line asks the server to run.
pub struct Args {
    pub program: String,
    pub args: Vec<String>,
    pub env: Vec<(String, String)>,
    pub cwd: String,
    pub uid: i32,
    pub gid: i32,
    pub deathsig: i32,
    pub setpgid: Option<i32>,
    pub setsid: bool,
    pub notty: bool,
}

/// The start-up flags that the command line asks for.
pub open spec fn startup_of(setpgid: Option<i32>, setsid: bool, notty: bool) -> u32 {
    (if setpgid is Some { PROCESS_GROUP } else { 0u32 }) | (if setsid { SESSION } else { 0u32 }) | (
    if notty {
        DETACH_TERMINAL
    } else {
        0u32
    })
}

/// Builds the exec body: the program and its arguments, environment and
/// directory as given, all three stdio descriptors, a process group when
/// one was asked for (0 otherwise), and SIGKILL as the signal for a lost
/// connection.
pub fn prepare_request(args: Args) -> (r: ExecRequestInput)
    ensures
        r.program@ == args.program@,
        strings_view(r.argv@) == strings_view(args.args@),
        r.cwd@ == args.cwd@,
        pairs_view(r.env@) == pairs_view(args.env@),
        r.startup == startup_of(args.setpgid, args.setsid, args.notty),
        r.io == IO_ALL,
        r.pgid == (match args.setpgid {
            Some(id) => id,
            None => 0,
        }),
        r.uid == args.uid,
        r.gid == args.gid,
        r.deathsig == args.deathsig,
        r.connsig == SIGKILL,
{
    let pgid = match args.setpgid {
        Some(id) => id,
        None => 0,
    };
    let startup: u32 = (if args.setpgid.is_some() {
        PROCESS_GROUP
    } else {
        0u32
    }) | (if args.setsid {
        SESSION
    } else {
        0u32
    }) | (if args.notty {
        DETACH_TERMINAL
    } else {
        0u32
    });
    ExecRequestInput {
        program: args.program,
        argv: args.args,
        cwd: args.cwd,
        env: args.env,
        startup,
        io: IO_ALL,
        pgid,
        uid: args.uid,
        gid: args.gid,
        deathsig: args.deathsig,
        connsig: SIGKILL,
    }
}

/// The two datagrams of an exec request: the header with the body's size,
/// then the body.
pub fn exec_datagrams(body: &ExecRequestInput) -> (r: (Vec<u8>, Vec<u8>))
    ensures
        r.1@ == wire_exec_body(body@),
        r.0@ == wire_request(RequestInput::Exec(ExecHeader { body_size: r.1@.len() as u64 })),
{
    let data = encode_exec(body);
    let header = encode_request(&RequestInput::Exec(ExecHeader { body_size: data.len() as u64 }));
    (header, data)
}

/// The stop request.
pub fn stop_datagram() -> (r: Vec<u8>)
    ensures
        r@ == wire_request(RequestInput::Stop),
{
    encode_request(&RequestInput::Stop)
}

/// Signals that concern the whole terminal job travel as negative numbers,
/// asking for delivery to the child's process group.
pub open spec fn is_job_control(sig: i32) -> bool {
    sig == SIGTSTP || sig == SIGSTOP || sig == SIGCONT || sig == SIGTTIN || sig == SIGTTOU
}

pub fn convert_to_group_signals(sig: i32) -> (r: i32)
    requires
        sig > 0,
    ensures
        r == if is_job_control(sig) {
            -sig
        } else {
            sig as int
        },
{
    if sig == SIGTSTP || sig == SIGSTOP || sig == SIGCONT || sig == SIGTTIN || sig == SIGTTOU {
        -sig
    } else {
        sig
    }
}

/// After forwarding a stop request the client stops itself too, so that
/// it leaves the foreground with its child.
pub fn handle_stop(sigval: i32) -> (r: bool)
    ensures
        r == (sigval == SIGTSTP || sigval == SIGSTOP || sigval == -SIGTSTP || sigval == -SIGSTOP),
{
    sigval == SIGTSTP || sigval == SIGSTOP || sigval == -SIGTSTP || sigval == -SIGSTOP
}

/// How the server answered the exec request.
#[derive(Clone, Copy, Debug, PartialEq, Eq, Structural)]
pub enum StartOutcome {
    /// The child runs.
    Running(i32),
    /// Spawning failed with this OS error number.
    Failed(i32),
    /// The server hung up without answering.
    Disconnected,
    /// The answer could not be decoded.
    Invalid,
}

pub fn started(data: &[u8]) -> (r: StartOutcome)
    ensures
        data@.len() == 0 <==> r == StartOutcome::Disconnected,
        r matches StartOutcome::Running(pid) ==> exists|m: (bool, Seq<char>, i32, i32)|
            #[trigger] wire_started(m) == data@ && crate::messages::started_fits(m) && m.0 && m.3
                == pid,
        r matches StartOutcome::Failed(errno) ==> exists|m: (bool, Seq<char>, i32, i32)|
            #[trigger] wire_started(m) == data@ && crate::messages::started_fits(m) && !m.0 && m.2
                == errno,
        r is Invalid ==> forall|m: (bool, Seq<char>, i32, i32)|
            crate::messages::started_fits(m) ==> #[trigger] wire_started(m) != data@,
{
    if data.len() == 0 {
        return StartOutcome::Disconnected;
    }
    match decode_started(data) {
        Some(answer) => {
            if answer.success {
                assert(wire_started(answer@) == data@);
                StartOutcome::Running(answer.pid)
            } else {
                assert(wire_started(answer@) == data@);
                StartOutcome::Failed(answer.errno)
            }
        },
        None => StartOutcome::Invalid,
    }
}

/// The exit status that a result maps to: the exit code itself, 128 plus
/// the signal number, 127 when undefined.
pub open spec fn exit_status_of(r: ProcessResult) -> Option<i32> {
    match r {
        ProcessResult::Exit(c) => Some(c),
        ProcessResult::Signal(s) => if s <= i32::MAX - 128 {
            Some((128 + s) as i32)
        } else {
            None
        },
        ProcessResult::Undefined => Some(127),
    }
}

/// The client's exit status for the server's last datagram: 128 when the
/// server hung up, otherwise what the result maps to; `None` when the
/// datagram is no result or its signal number is out of range.
pub fn child_finished(data: &[u8]) -> (r: Option<i32>)
    ensures
        data@.len() == 0 ==> r == Some(128i32),
        data@.len() > 0 ==> match r {
            Some(code) => exists|res: ProcessResult|
                wire_result(res) == data@ && exit_status_of(res) == Some(code),
            None => forall|res: ProcessResult|
                #[trigger] wire_result(res) == data@ ==> exit_status_of(res) is None,
        },
{
    if data.len() == 0 {
        return Some(128);
    }
    match decode_result(data) {
        Some(ProcessResult::Exit(c)) => Some(c),
        Some(ProcessResult::Signal(s)) => {
            if s <= i32::MAX - 128 {
                Some(128 + s)
            } else {
                proof {
                    crate::messages::lemma_result_round_trip(ProcessResult::Signal(s), ProcessResult::Signal(s));
                    assert forall|res: ProcessResult| #[trigger] wire_result(res) == data@ implies exit_status_of(
                        res,
                    ) is None by {
                        crate::messages::lemma_result_round_trip(res, ProcessResult::Signal(s));
                    }
                }
                None
            }
        },
        Some(ProcessResult::Undefined) => Some(127),
        None => None,
    }
}

/// What happened while the child runs.
pub enum ClientEvent {
    /// A datagram from the server (empty when it hung up).
    Server(Vec<u8>),
    /// The client caught this signal.
    Caught(i32),
}

/// What the client does about it.
pub enum ClientAction {
    /// Exit with this status.
    Finish(i32),
    /// The server's datagram was no valid result.
    Invalid,
    /// Send this signal message; then stop the client itself if asked.
    Forward { datagram: Vec<u8>, stop_after: bool },
}

/// One step of the client's wait for the child.
pub fn wait_child_step(event: ClientEvent) -> (r: ClientAction)
    requires
        event matches ClientEvent::Caught(sig) ==> sig > 0,
    ensures
        match event {
            ClientEvent::Server(d) => match r {
                ClientAction::Finish(code) => d@.len() == 0 && code == 128 || exists|res: ProcessResult|
                    wire_result(res) == d@ && exit_status_of(res) == Some(code),
                ClientAction::Invalid => d@.len() > 0 && forall|res: ProcessResult|
                    #[trigger] wire_result(res) == d@ ==> exit_status_of(res) is None,
                ClientAction::Forward { .. } => false,
            },
            ClientEvent::Caught(sig) => r matches ClientAction::Forward { datagram, stop_after }
                && datagram@ == wire_signal(Signal(if is_job_control(sig) { -sig } else { sig as int } as i32))
                && stop_after == (sig == SIGTSTP || sig == SIGSTOP),
        },
{
    match event {
        ClientEvent::Server(d) => match child_finished(d.as_slice()) {
            Some(code) => ClientAction::Finish(code),
            None => ClientAction::Invalid,
        },
        ClientEvent::Caught(sig) => {
            let v = convert_to_group_signals(sig);
            let datagram = encode_signal(&Signal(v));
            let stop_after = handle_stop(v);
            ClientAction::Forward { datagram, stop_after }
        },
    }
}

/// Where the first `=` splits an environment assignment.
pub open spec fn env_split(s: Seq<char>, name: Seq<char>, value: Seq<char>) -> bool {
    if s.contains('=') {
        s == name + seq!['='] + value && !name.contains('=')
    } else {
        name == s && value.len() == 0
    }
}

/// Splits `NAME=VALUE` at its first `=`; without one, the whole text is
/// the name and the value is empty.
pub fn env_to_kv(arg: &str) -> (r: (String, String))
    ensures
        env_split(arg@, r.0@, r.1@),
{
    let n = arg.unicode_len();
    let mut i: usize = 0;
    while i < n
        invariant
            n == arg@.len(),
            i <= n,
            forall|j: int| 0 <= j < i ==> arg@[j] != '=',
        decreases n - i,
    {
        if arg.get_char(i) == '=' {
            let name = arg.substring_char(0, i);
            let value = arg.substring_char(i + 1, n);
            proof {
                assert(arg@.contains('='));
                assert(arg@ =~= name@ + seq!['='] + value@);
                assert(!name@.contains('=')) by {
                    if name@.contains('=') {
                        let k = choose|k: int| 0 <= k < name@.len() && name@[k] == '=';
                        assert(arg@[k] == '=');
                    }
                }
            }
            return (name.to_string(), value.to_string());
        }
        i = i + 1;
    }
    proof {
        assert(!arg@.contains('=')) by {
            if arg@.contains('=') {
                let k = choose|k: int| 0 <= k < arg@.len() && arg@[k] == '=';
                assert(arg@[k] != '=');
            }
        }
    }
    (arg.to_string(), String::new())
}

/// The client exits as the child did: with its exit code when it exited,
/// with 128 plus the signal number when a signal killed it, and with 127
/// otherwise.
pub proof fn lemma_exit_status_mirrors_child(status: i32)
    ensures
        exited(status) ==> exit_status_of(result_of(status)) == Some(exit_code(status)),
        !exited(status) && signaled(status) ==> exit_status_of(result_of(status)) == Some(
            (128 + term_signal(status)) as i32,
        ),
        !exited(status) && !signaled(status) ==> exit_status_of(result_of(status)) == Some(127i32),
{
    assert(status & 0x7f <= 127) by (bit_vector);
}

/// A signal the client catches reaches the child as the same signal: a
/// job-control signal goes to the child's group when the child leads one,
/// any other signal to the child itself.
pub proof fn lemma_signal_relay(sig: i32, pid: i32, pg_leader: bool, connsig: i32)
    requires
        sig > 0,
        signal_known(sig),
    ensures
        ({
            let v = if is_job_control(sig) { -sig } else { sig as int } as i32;
            next(
                Phase::Running { pid, pg_leader, connsig },
                EventView::Datagram(wire_signal(Signal(v))),
            ) == (
                Phase::Running { pid, pg_leader, connsig },
                seq![
                    ActionView::Kill { pid, signal: sig, group: is_job_control(sig) && pg_leader },
                    ActionView::Receive,
                ],
                Seq::<Reply>::empty(),
                0nat,
            )
        }),
{
    let v = if is_job_control(sig) { -sig } else { sig as int } as i32;
    lemma_signal_of(wire_signal(Signal(v)));
    assert(seq![ActionView::Kill { pid, signal: sig, group: is_job_control(sig) && pg_leader }].push(
        ActionView::Receive,
    ) =~= seq![
        ActionView::Kill { pid, signal: sig, group: is_job_control(sig) && pg_leader },
        ActionView::Receive,
    ]);
}

} // verus!
