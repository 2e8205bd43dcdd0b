//! The client's signal pump: which signals it catches, and the four bytes
//! that carry a caught signal from the handler to the client's loop.

use crate::system::{is_signal, signal_known, SIGFPE, SIGILL, SIGKILL, SIGSEGV, SIGSTOP};
use crate::wire::{enc_i32, get_i32, lemma_i32, lemma_i32_sound, put_i32};
use vstd::prelude::*;

verus! {

/// Relies on nix's `Signal::iterator`: it yields each signal that the
/// platform defines exactly once.
#[verifier::external_body]
fn all_signals() -> (r: Vec<i32>)
    ensures
        forall|v: i32| r@.contains(v) <==> signal_known(v),
        r@.no_duplicates(),
{
    nix::sys::signal::Signal::iterator().map(|s| s as i32).collect()
}

/// Signals that cannot be caught or that make no sense to forward.
pub open spec fn uncatchable(v: i32) -> bool {
    v == SIGKILL || v == SIGSTOP || v == SIGILL || v == SIGFPE || v == SIGSEGV
}

/// Every signal the platform defines, but those that cannot or should not
/// be caught.
pub fn pump_signals() -> (r: Vec<i32>)
    ensures
        forall|v: i32| r@.contains(v) <==> signal_known(v) && !uncatchable(v),
        r@.no_duplicates(),
{
    let all = all_signals();
    let mut out: Vec<i32> = Vec::new();
    let mut i: usize = 0;
    while i < all.len()
        invariant
            i <= all@.len(),
            all@.no_duplicates(),
            forall|v: i32| all@.contains(v) <==> signal_known(v),
            forall|v: i32|
                #[trigger] out@.contains(v) <==> all@.take(i as int).contains(v) && !uncatchable(v),
            out@.no_duplicates(),
        decreases all@.len() - i,
    {
        let v = all[i];
        let ghost before = out@;
        proof {
            assert(all@.take(i + 1) =~= all@.take(i as int).push(v));
            lemma_push_contains(all@.take(i as int), v);
            assert(!all@.take(i as int).contains(v)) by {
                if all@.take(i as int).contains(v) {
                    let k = choose|k: int| 0 <= k < i && all@.take(i as int)[k] == v;
                    assert(all@[k] == all@[i as int]);
                }
            }
        }
        if !(v == SIGKILL || v == SIGSTOP || v == SIGILL || v == SIGFPE || v == SIGSEGV) {
            out.push(v);
            proof {
                lemma_push_contains(before, v);
                lemma_push_no_duplicates(before, v);
            }
        }
        i = i + 1;
    }
    assert(all@.take(i as int) =~= all@);
    out
}

proof fn lemma_push_contains(s: Seq<i32>, v: i32)
    ensures
        forall|w: i32| #[trigger] s.push(v).contains(w) <==> s.contains(w) || w == v,
{
    assert forall|w: i32| #[trigger] s.push(v).contains(w) <==> s.contains(w) || w == v by {
        if s.push(v).contains(w) {
            let k = choose|k: int| 0 <= k < s.push(v).len() && s.push(v)[k] == w;
            if k < s.len() {
                assert(s[k] == w);
            }
        }
        if w == v {
            assert(s.push(v)[s.len() as int] == v);
        }
        if s.contains(w) {
            let k = choose|k: int| 0 <= k < s.len() && s[k] == w;
            assert(s.push(v)[k] == w);
        }
    }
}

proof fn lemma_push_no_duplicates(s: Seq<i32>, v: i32)
    requires
        s.no_duplicates(),
        !s.contains(v),
    ensures
        s.push(v).no_duplicates(),
{
    let t = s.push(v);
    assert forall|a: int, b: int| 0 <= a < t.len() && 0 <= b < t.len() && a != b implies t[a]
        != t[b] by {
        if a < s.len() && b < s.len() {
            assert(t[a] == s[a] && t[b] == s[b]);
        } else if a < s.len() {
            assert(t[a] == s[a]);
        } else if b < s.len() {
            assert(t[b] == s[b]);
        }
    }
}

/// The bytes a signal handler writes into the pump's pipe.
pub fn sig_to_buf(v: i32) -> (r: Vec<u8>)
    ensures
        r@ == enc_i32(v),
{
    let mut buf: Vec<u8> = Vec::new();
    put_i32(&mut buf, v);
    buf
}

/// What the pump hands out for bytes read from its pipe: the signal when
/// exactly four bytes name a known one, `None` otherwise.
pub fn buf_to_sig(data: &[u8]) -> (r: Option<i32>)
    ensures
        match r {
            Some(v) => enc_i32(v) == data@ && signal_known(v),
            None => forall|v: i32| #[trigger] enc_i32(v) == data@ ==> !signal_known(v),
        },
{
    proof {
        assert forall|v: i32| #[trigger] enc_i32(v).len() == 4 by {
            lemma_i32(v, seq![]);
        }
    }
    assert(data@.skip(0) =~= data@);
    match get_i32(data, 0) {
        Some((v, p)) => {
            if p == data.len() {
                proof {
                    lemma_i32_sound(data@);
                    assert(data@ =~= data@.take(4));
                    assert forall|w: i32| #[trigger] enc_i32(w) == data@ implies w == v by {
                        crate::watcher::lemma_status_round_trip(w, v);
                    }
                }
                if is_signal(v) {
                    Some(v)
                } else {
                    None
                }
            } else {
                None
            }
        },
        None => None,
    }
}

} // verus!
