//! Bookkeeping of the process-wide child reaper: which connection waits
//! for which pid, what each `waitpid` result means for the drain loop,
//! and the four bytes that carry a wait status to the waiting connection.

use crate::messages::{lemma_signal_round_trip, wire_signal, Signal};
use crate::wire::{enc_i32, get_i32, lemma_i32, lemma_i32_sound, put_i32};
use std::collections::HashMap;
use vstd::prelude::*;

verus! {

broadcast use vstd::std_specs::hash::group_hash_axioms;

/// `EINTR` on Linux.
pub const EINTR: i32 = 4;

/// `ECHILD` on Linux.
pub const ECHILD: i32 = 10;

/// The waiting connections, by the pid of their child. `H` is whatever
/// the caller uses to reach a waiting connection.
pub struct Watchers<H> {
    storage: HashMap<i32, H>,
}

impl<H> View for Watchers<H> {
    type V = Map<i32, H>;

    closed spec fn view(&self) -> Map<i32, H> {
        self.storage@
    }
}

impl<H> Watchers<H> {
    pub fn new() -> (w: Watchers<H>)
        ensures
            w@ == Map::<i32, H>::empty(),
    {
        Watchers { storage: HashMap::new() }
    }

    /// Records that `handle` waits for `pid`; gives back the handle that
    /// waited for it before, if any.
    pub fn register(&mut self, pid: i32, handle: H) -> (previous: Option<H>)
        ensures
            final(self)@ == old(self)@.insert(pid, handle),
            previous == (if old(self)@.contains_key(pid) {
                Some(old(self)@[pid])
            } else {
                None
            }),
    {
        self.storage.insert(pid, handle)
    }

    /// Takes out the handle that waits for `pid`, so that it is notified
    /// exactly once; a pid that nobody waits for gives `None`.
    pub fn notify(&mut self, pid: i32) -> (handle: Option<H>)
        ensures
            final(self)@ == old(self)@.remove(pid),
            handle == (if old(self)@.contains_key(pid) {
                Some(old(self)@[pid])
            } else {
                None
            }),
    {
        self.storage.remove(&pid)
    }
}

/// What the drain loop does with one `waitpid(-1, WNOHANG)` result.
#[derive(Clone, Copy, Debug, PartialEq, Eq, Structural)]
pub enum Drain {
    /// Interrupted: call again.
    Retry,
    /// No child is left, or none has ended yet: the drain is over.
    Stop,
    /// This child ended: deliver its status.
    Deliver(i32),
    /// `waitpid` failed with this error.
    Fail(i32),
}

pub open spec fn drain_spec(res: i32, errno: i32) -> Drain {
    if res > 0 {
        Drain::Deliver(res)
    } else if res == 0 {
        Drain::Stop
    } else if errno == EINTR {
        Drain::Retry
    } else if errno == ECHILD {
        Drain::Stop
    } else {
        Drain::Fail(errno)
    }
}

/// Decides the drain loop's next move from `waitpid`'s return value and,
/// when it failed, its error number.
pub fn drain_step(res: i32, errno: i32) -> (r: Drain)
    ensures
        r == drain_spec(res, errno),
{
    if res > 0 {
        Drain::Deliver(res)
    } else if res == 0 {
        Drain::Stop
    } else if errno == EINTR {
        Drain::Retry
    } else if errno == ECHILD {
        Drain::Stop
    } else {
        Drain::Fail(errno)
    }
}

/// The bytes that carry a wait status to its connection.
pub fn status_to_bytes(status: i32) -> (r: Vec<u8>)
    ensures
        r@ == enc_i32(status),
{
    let mut buf: Vec<u8> = Vec::new();
    put_i32(&mut buf, status);
    buf
}

/// Reads a wait status back; anything but exactly four bytes is refused.
pub fn status_from_bytes(data: &[u8]) -> (r: Option<i32>)
    ensures
        match r {
            Some(status) => enc_i32(status) == data@,
            None => forall|status: i32| #[trigger] enc_i32(status) != data@,
        },
{
    proof {
        assert forall|status: i32| #[trigger] enc_i32(status).len() == 4 by {
            lemma_i32(status, seq![]);
        }
    }
    assert(data@.skip(0) =~= data@);
    match get_i32(data, 0) {
        Some((v, p)) => {
            if p == data.len() {
                proof {
                    lemma_i32_sound(data@);
                    assert(data@ =~= data@.take(4));
                }
                Some(v)
            } else {
                None
            }
        },
        None => None,
    }
}

/// What the status channel delivers is what the reaper wrote.
pub proof fn lemma_status_round_trip(a: i32, b: i32)
    ensures
        enc_i32(a) == enc_i32(b) ==> a == b,
{
    lemma_signal_round_trip(Signal(a), Signal(b));
    assert(wire_signal(Signal(a)) == enc_i32(a));
}

} // verus!
