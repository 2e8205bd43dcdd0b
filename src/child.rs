//! Turning an exec request and the descriptors that came with it into a
//! plan for spawning the child: which descriptor becomes which stdio
//! stream, which received descriptors are closed at once, and the steps
//! the forked child takes before it executes the program.

use crate::messages::{
    pairs_view, strings_view, ExecBody, ExecRequestInput, ExecRequestOutput, CONTROLLING_TERMINAL,
    DETACH_TERMINAL, IO_ERR, IO_IN, IO_OUT, NOHUP, PROCESS_GROUP, SESSION,
};
use crate::system::{is_signal, signal_known};
use vstd::prelude::*;

verus! {

/// What the child is asked to run and how, without the connection's own
/// settings.
pub struct ProcessRequest {
    pub program: String,
    pub argv: Vec<String>,
    pub cwd: String,
    pub env: Vec<(String, String)>,
    pub startup: u32,
    pub io: u32,
    pub pgid: i32,
    pub uid: i32,
    pub gid: i32,
    pub deathsig: i32,
}

/// A process request as a value.
pub struct ProcessModel {
    pub program: Seq<char>,
    pub argv: Seq<Seq<char>>,
    pub cwd: Seq<char>,
    pub env: Seq<(Seq<char>, Seq<char>)>,
    pub startup: u32,
    pub io: u32,
    pub pgid: i32,
    pub uid: i32,
    pub gid: i32,
    pub deathsig: i32,
}

impl View for ProcessRequest {
    type V = ProcessModel;

    open spec fn view(&self) -> ProcessModel {
        ProcessModel {
            program: self.program@,
            argv: strings_view(self.argv@),
            cwd: self.cwd@,
            env: pairs_view(self.env@),
            startup: self.startup,
            io: self.io,
            pgid: self.pgid,
            uid: self.uid,
            gid: self.gid,
            deathsig: self.deathsig,
        }
    }
}

/// The process request that an exec body describes.
pub open spec fn body_request(x: ExecBody) -> ProcessModel {
    ProcessModel {
        program: x.program,
        argv: x.argv,
        cwd: x.cwd,
        env: x.env,
        startup: x.startup,
        io: x.io,
        pgid: x.pgid,
        uid: x.uid,
        gid: x.gid,
        deathsig: x.deathsig,
    }
}

impl ProcessRequest {
    /// The request that a body read by the server describes.
    pub fn from_output(o: ExecRequestOutput) -> (r: ProcessRequest)
        ensures
            r@ == body_request(o@),
    {
        ProcessRequest {
            program: o.program,
            argv: o.argv,
            cwd: o.cwd,
            env: o.env,
            startup: o.startup,
            io: o.io,
            pgid: o.pgid,
            uid: o.uid,
            gid: o.gid,
            deathsig: o.deathsig,
        }
    }

    /// The request that a body built by a client describes, for running
    /// it in the calling process.
    pub fn from_input(o: ExecRequestInput) -> (r: ProcessRequest)
        ensures
            r@ == body_request(o@),
    {
        ProcessRequest {
            program: o.program,
            argv: o.argv,
            cwd: o.cwd,
            env: o.env,
            startup: o.startup,
            io: o.io,
            pgid: o.pgid,
            uid: o.uid,
            gid: o.gid,
            deathsig: o.deathsig,
        }
    }
}

/// Where one stdio stream of the child comes from.
#[derive(Clone, Copy, Debug, PartialEq, Eq, Structural)]
pub enum Stdio {
    /// This received descriptor.
    Fd(i32),
    /// `/dev/null`.
    Null,
}

/// One step the forked child takes before it executes the program.
#[derive(Clone, Copy, Debug, PartialEq, Eq, Structural)]
pub enum PreExec {
    /// Ask for this signal when the parent dies, then exit with status 128
    /// if the parent is no longer the process that forked.
    DeathSignal(i32),
    /// Open `/dev/tty` and give it up as controlling terminal; no tty is
    /// no error.
    DetachTerminal,
    /// `setpgid(0, pgid)`.
    SetProcessGroup(i32),
    /// `setsid()`.
    NewSession,
    /// Take the terminal of stdin as controlling terminal.
    ControllingTerminal,
    /// Ignore SIGHUP.
    IgnoreHangup,
}

/// Everything needed to spawn the child.
pub struct SpawnPlan {
    pub program: String,
    pub args: Vec<String>,
    /// The whole environment of the child, or `None` to inherit the
    /// server's.
    pub env: Option<Vec<(String, String)>>,
    /// The directory to change to, or `None` to stay.
    pub cwd: Option<String>,
    pub uid: Option<u32>,
    pub gid: Option<u32>,
    pub stdin: Stdio,
    pub stdout: Stdio,
    pub stderr: Stdio,
    /// Received descriptors that no stream takes, to be closed at once.
    pub close: Vec<i32>,
    /// The steps before exec, in the order they are taken.
    pub pre_exec: Vec<PreExec>,
}

pub open spec fn has(flags: u32, bit: u32) -> bool {
    flags & bit != 0
}

/// How many stdio descriptors a set of stdio flags asks for.
pub open spec fn io_count(io: u32) -> nat {
    (if has(io, IO_IN) { 1nat } else { 0nat }) + (if has(io, IO_OUT) { 1nat } else { 0nat }) + (
    if has(io, IO_ERR) {
        1nat
    } else {
        0nat
    })
}

/// The stream that a flag selects, taking received descriptors in the
/// order stdin, stdout, stderr among the flags that are set.
pub open spec fn slot(io: u32, bit: u32, index: int, fds: Seq<i32>) -> Stdio {
    if has(io, bit) {
        Stdio::Fd(fds[index])
    } else {
        Stdio::Null
    }
}

pub open spec fn stdin_slot(io: u32, fds: Seq<i32>) -> Stdio {
    slot(io, IO_IN, 0, fds)
}

pub open spec fn stdout_slot(io: u32, fds: Seq<i32>) -> Stdio {
    slot(io, IO_OUT, if has(io, IO_IN) { 1int } else { 0int }, fds)
}

pub open spec fn stderr_slot(io: u32, fds: Seq<i32>) -> Stdio {
    slot(
        io,
        IO_ERR,
        (if has(io, IO_IN) { 1int } else { 0int }) + (if has(io, IO_OUT) { 1int } else { 0int }),
        fds,
    )
}

/// Assigns the child's stdio from the received descriptors: each flag
/// that is set takes the next descriptor, a cleared flag gives
/// `/dev/null`. Returns the three streams and how many descriptors they
/// took.
pub fn setup_command_streams(io: u32, fds: &[i32]) -> (r: (Stdio, Stdio, Stdio, usize))
    requires
        io_count(io) <= fds@.len(),
    ensures
        r.0 == stdin_slot(io, fds@),
        r.1 == stdout_slot(io, fds@),
        r.2 == stderr_slot(io, fds@),
        r.3 == io_count(io),
{
    let mut i: usize = 0;
    let stdin = if io & IO_IN != 0 {
        i = i + 1;
        Stdio::Fd(fds[0])
    } else {
        Stdio::Null
    };
    let stdout = if io & IO_OUT != 0 {
        let s = Stdio::Fd(fds[i]);
        i = i + 1;
        s
    } else {
        Stdio::Null
    };
    let stderr = if io & IO_ERR != 0 {
        let s = Stdio::Fd(fds[i]);
        i = i + 1;
        s
    } else {
        Stdio::Null
    };
    (stdin, stdout, stderr, i)
}

/// The steps before exec, in this order: parent-death signal, terminal
/// release, process group, session, controlling terminal, SIGHUP.
pub open spec fn pre_exec_steps(startup: u32, pgid: i32, deathsig: i32) -> Seq<PreExec> {
    (if deathsig != 0 && signal_known(deathsig) {
        seq![PreExec::DeathSignal(deathsig)]
    } else {
        Seq::empty()
    }) + (if has(startup, DETACH_TERMINAL) {
        seq![PreExec::DetachTerminal]
    } else {
        Seq::empty()
    }) + (if has(startup, PROCESS_GROUP) {
        seq![PreExec::SetProcessGroup(pgid)]
    } else {
        Seq::empty()
    }) + (if has(startup, SESSION) {
        seq![PreExec::NewSession]
    } else {
        Seq::empty()
    }) + (if has(startup, CONTROLLING_TERMINAL) {
        seq![PreExec::ControllingTerminal]
    } else {
        Seq::empty()
    }) + (if has(startup, NOHUP) {
        seq![PreExec::IgnoreHangup]
    } else {
        Seq::empty()
    })
}

pub fn pre_exec_actions(startup: u32, pgid: i32, deathsig: i32) -> (r: Vec<PreExec>)
    ensures
        r@ == pre_exec_steps(startup, pgid, deathsig),
{
    let mut steps: Vec<PreExec> = Vec::new();
    if deathsig != 0 && is_signal(deathsig) {
        steps.push(PreExec::DeathSignal(deathsig));
    }
    if startup & DETACH_TERMINAL != 0 {
        steps.push(PreExec::DetachTerminal);
    }
    if startup & PROCESS_GROUP != 0 {
        steps.push(PreExec::SetProcessGroup(pgid));
    }
    if startup & SESSION != 0 {
        steps.push(PreExec::NewSession);
    }
    if startup & CONTROLLING_TERMINAL != 0 {
        steps.push(PreExec::ControllingTerminal);
    }
    if startup & NOHUP != 0 {
        steps.push(PreExec::IgnoreHangup);
    }
    assert(steps@ =~= pre_exec_steps(startup, pgid, deathsig));
    steps
}

/// The plan for a request: the arguments as given, the environment only
/// when the request lists one, the directory only when it names one, the
/// ids only when they are not negative, stdio from the received
/// descriptors, and the received descriptors past the streams closed.
pub open spec fn plan_matches(plan: SpawnPlan, req: ProcessModel, fds: Seq<i32>) -> bool {
    &&& plan.program@ == req.program
    &&& strings_view(plan.args@) == req.argv
    &&& match plan.env {
        Some(e) => req.env.len() > 0 && pairs_view(e@) == req.env,
        None => req.env.len() == 0,
    }
    &&& match plan.cwd {
        Some(c) => req.cwd.len() > 0 && c@ == req.cwd,
        None => req.cwd.len() == 0,
    }
    &&& plan.uid == (if req.uid >= 0 { Some(req.uid as u32) } else { None })
    &&& plan.gid == (if req.gid >= 0 { Some(req.gid as u32) } else { None })
    &&& plan.stdin == stdin_slot(req.io, fds)
    &&& plan.stdout == stdout_slot(req.io, fds)
    &&& plan.stderr == stderr_slot(req.io, fds)
    &&& plan.close@ == fds.skip(io_count(req.io) as int)
    &&& plan.pre_exec@ == pre_exec_steps(req.startup, req.pgid, req.deathsig)
}

/// Builds the spawn plan for a request and the descriptors received with
/// it, in the order they arrived.
pub fn setup_command(req: ProcessRequest, fds: &[i32]) -> (plan: SpawnPlan)
    requires
        io_count(req.io) <= fds@.len(),
    ensures
        plan_matches(plan, req@, fds@),
{
    let (stdin, stdout, stderr, used) = setup_command_streams(req.io, fds);
    let mut close: Vec<i32> = Vec::new();
    let mut i: usize = used;
    while i < fds.len()
        invariant
            used <= i <= fds@.len(),
            close@ == fds@.subrange(used as int, i as int),
        decreases fds@.len() - i,
    {
        close.push(fds[i]);
        i = i + 1;
        assert(close@ =~= fds@.subrange(used as int, i as int));
    }
    assert(close@ =~= fds@.skip(used as int));
    let pre_exec = pre_exec_actions(req.startup, req.pgid, req.deathsig);
    let env = if req.env.len() > 0 {
        Some(req.env)
    } else {
        None
    };
    let cwd = if !req.cwd.as_str().is_empty() {
        Some(req.cwd)
    } else {
        None
    };
    let uid = if req.uid >= 0 {
        Some(req.uid as u32)
    } else {
        None
    };
    let gid = if req.gid >= 0 {
        Some(req.gid as u32)
    } else {
        None
    };
    SpawnPlan {
        program: req.program,
        args: req.argv,
        env,
        cwd,
        uid,
        gid,
        stdin,
        stdout,
        stderr,
        close,
        pre_exec,
    }
}

} // verus!
