//! Signal numbers and wait-status decoding.

use vstd::prelude::*;

verus! {

pub const SIGHUP: i32 = 1;

pub const SIGINT: i32 = 2;

pub const SIGILL: i32 = 4;

pub const SIGFPE: i32 = 8;

pub const SIGKILL: i32 = 9;

pub const SIGUSR1: i32 = 10;

pub const SIGSEGV: i32 = 11;

pub const SIGTERM: i32 = 15;

pub const SIGCHLD: i32 = 17;

pub const SIGCONT: i32 = 18;

pub const SIGSTOP: i32 = 19;

pub const SIGTSTP: i32 = 20;

pub const SIGTTIN: i32 = 21;

pub const SIGTTOU: i32 = 22;

/// Whether the platform names a signal with this number.
pub uninterp spec fn signal_known(v: i32) -> bool;

/// Relies on nix's `Signal::try_from(i32)`: it accepts exactly the numbers
/// of the signals that the platform defines, all of them positive.
#[verifier::external_body]
pub fn is_signal(v: i32) -> (r: bool)
    ensures
        r == signal_known(v),
        r ==> v > 0,
{
    nix::sys::signal::Signal::try_from(v).is_ok()
}

/// Relies on libc's `WIFEXITED`: the low seven bits of the status are zero.
#[verifier::external_body]
fn wifexited(status: i32) -> (r: bool)
    ensures
        r == (status & 0x7f == 0),
{
    libc::WIFEXITED(status)
}

/// Relies on libc's `WEXITSTATUS`: bits eight to fifteen of the status.
#[verifier::external_body]
fn wexitstatus(status: i32) -> (r: i32)
    ensures
        r == (status >> 8) & 0xff,
{
    libc::WEXITSTATUS(status)
}

/// Relies on libc's `WIFSIGNALED`: the low seven bits, plus one and read
/// as a signed byte, are at least two.
#[verifier::external_body]
fn wifsignaled(status: i32) -> (r: bool)
    ensures
        r == (((status & 0x7f) + 1) as i8 >= 2),
{
    libc::WIFSIGNALED(status)
}

/// Relies on libc's `WTERMSIG`: the low seven bits of the status.
#[verifier::external_body]
fn wtermsig(status: i32) -> (r: i32)
    ensures
        r == status & 0x7f,
{
    libc::WTERMSIG(status)
}

/// The child ended by calling exit.
pub open spec fn exited(status: i32) -> bool {
    status & 0x7f == 0
}

pub open spec fn exit_code(status: i32) -> i32 {
    (status >> 8) & 0xff
}

/// The child was killed by a signal.
pub open spec fn signaled(status: i32) -> bool {
    ((status & 0x7f) + 1) as i8 >= 2
}

pub open spec fn term_signal(status: i32) -> i32 {
    status & 0x7f
}

/// The outcome that a raw wait status describes.
#[derive(Clone, Copy, Debug, PartialEq, Eq, Structural)]
pub enum WaitOutcome {
    Exited(i32),
    Signaled(i32),
    Other,
}

pub open spec fn outcome_of(status: i32) -> WaitOutcome {
    if exited(status) {
        WaitOutcome::Exited(exit_code(status))
    } else if signaled(status) {
        WaitOutcome::Signaled(term_signal(status))
    } else {
        WaitOutcome::Other
    }
}

/// Decodes a raw wait status with the platform's macros.
pub fn decode_wait_status(status: i32) -> (r: WaitOutcome)
    ensures
        r == outcome_of(status),
{
    if wifexited(status) {
        WaitOutcome::Exited(wexitstatus(status))
    } else if wifsignaled(status) {
        WaitOutcome::Signaled(wtermsig(status))
    } else {
        WaitOutcome::Other
    }
}

/// Relies on nix's `fcntl(fd, F_GETFD)`: a descriptor is open unless the
/// call fails with `EBADF`. What is open depends on the process, so
/// nothing more is promised.
#[verifier::external_body]
fn is_valid_fd(fd: i32) -> (r: bool) {
    !matches!(
        nix::fcntl::fcntl(fd, nix::fcntl::FcntlArg::F_GETFD),
        Err(nix::errno::Errno::EBADF)
    )
}

/// The index of the first `false` in `open`, or its length when all are
/// `true`.
pub fn first_closed(open: &Vec<bool>) -> (r: usize)
    ensures
        r <= open@.len(),
        forall|j: int| 0 <= j < r ==> open@[j],
        r < open@.len() ==> !open@[r as int],
{
    let mut i: usize = 0;
    while i < open.len()
        invariant
            i <= open@.len(),
            forall|j: int| 0 <= j < i ==> open@[j],
        decreases open@.len() - i,
    {
        if !open[i] {
            return i;
        }
        i = i + 1;
    }
    i
}

/// The lowest descriptor in `fr..to` that is not open, or `to` when all
/// are: each descriptor of the range is probed in order, and the result
/// is `fr` plus the position of the first probe that found it closed.
pub fn first_invalid_fd(fr: i32, to: i32) -> (r: i32)
    ensures
        fr <= to ==> fr <= r <= to,
        fr > to ==> r == to,
{
    if fr > to {
        return to;
    }
    let mut open: Vec<bool> = Vec::new();
    let mut i: i32 = fr;
    while i < to
        invariant
            fr <= i <= to,
            open@.len() == i - fr,
        decreases to - i,
    {
        open.push(is_valid_fd(i));
        i = i + 1;
    }
    let k = first_closed(&open);
    assert(k <= to - fr);
    let r: i64 = fr as i64 + k as i64;
    r as i32
}

/// `ESRCH` on Linux: no such process or group.
pub const ESRCH: i32 = 3;

/// Relies on nix's `killpg`: sends the signal to the process group; the OS
/// error number on failure.
#[verifier::external_body]
fn killpg_raw(pgrp: i32, sig: i32) -> (r: Result<(), i32>) {
    let s = nix::sys::signal::Signal::try_from(sig).map_err(|e| e as i32)?;
    nix::sys::signal::killpg(nix::unistd::Pid::from_raw(pgrp), s).map_err(|e| e as i32)
}

/// Relies on nix's `kill`: sends the signal to the process; the OS error
/// number on failure.
#[verifier::external_body]
fn kill_raw(pid: i32, sig: i32) -> (r: Result<(), i32>) {
    let s = nix::sys::signal::Signal::try_from(sig).map_err(|e| e as i32)?;
    nix::sys::signal::kill(nix::unistd::Pid::from_raw(pid), s).map_err(|e| e as i32)
}

/// What sending a signal to a child did: the outcome of the call to its
/// group, if one was made, and of the call to the child itself, if one
/// was made.
pub struct Delivery {
    pub group: Option<Result<(), i32>>,
    pub process: Option<Result<(), i32>>,
}

/// Sends `sig` to the child `pid`, or to the group it leads when `group`;
/// when that group does not exist, to the child itself.
pub fn deliver(pid: i32, sig: i32, group: bool) -> (r: Delivery)
    ensures
        r.group is Some <==> group,
        r.process is Some <==> (!group || r.group == Some(Err::<(), i32>(ESRCH))),
{
    if group {
        let g = killpg_raw(pid, sig);
        let missing = match g {
            Err(e) => e == ESRCH,
            Ok(()) => false,
        };
        if missing {
            let p = kill_raw(pid, sig);
            Delivery { group: Some(g), process: Some(p) }
        } else {
            Delivery { group: Some(g), process: None }
        }
    } else {
        let p = kill_raw(pid, sig);
        Delivery { group: None, process: Some(p) }
    }
}

} // verus!
