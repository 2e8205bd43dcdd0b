//! A SEQPACKET socket by its descriptor, with the receiving of descriptors
//! passed as SCM_RIGHTS: at most a fixed number are kept, the rest are
//! handed back to be closed.

use nix::sys::socket::{ControlMessageOwned, MsgFlags, SockFlag};
use vstd::prelude::*;

verus! {

/// `EINTR` on Linux.
pub const EINTR: i32 = 4;

/// `EAGAIN` (and `EWOULDBLOCK`) on Linux.
pub const EAGAIN: i32 = 11;

/// The most descriptors kept from one message.
pub const MAX_FDS: usize = 16;

/// The descriptors of all control messages, in the order they came.
pub open spec fn flat(groups: Seq<Seq<i32>>) -> Seq<i32>
    decreases groups.len(),
{
    if groups.len() == 0 {
        Seq::empty()
    } else {
        flat(groups.drop_last()) + groups.last()
    }
}

pub open spec fn min(a: int, b: int) -> int {
    if a < b {
        a
    } else {
        b
    }
}

/// Splits the received descriptors into the first `max`, which are kept,
/// and the rest, which the caller closes.
pub fn extract_fds(groups: &Vec<Vec<i32>>, max: usize) -> (r: (Vec<i32>, Vec<i32>))
    ensures
        r.0@ + r.1@ == flat(groups.deep_view()),
        r.0@.len() == min(max as int, flat(groups.deep_view()).len() as int),
{
    let ghost g = groups.deep_view();
    let mut kept: Vec<i32> = Vec::new();
    let mut dropped: Vec<i32> = Vec::new();
    let mut i: usize = 0;
    while i < groups.len()
        invariant
            i <= groups@.len(),
            g == groups.deep_view(),
            kept@ + dropped@ == flat(g.take(i as int)),
            kept@.len() <= max,
            dropped@.len() > 0 ==> kept@.len() == max,
        decreases groups@.len() - i,
    {
        let group = &groups[i];
        let ghost start = kept@ + dropped@;
        assert(g[i as int] == group@);
        let mut j: usize = 0;
        while j < group.len()
            invariant
                j <= group@.len(),
                kept@ + dropped@ == start + group@.take(j as int),
                kept@.len() <= max,
                dropped@.len() > 0 ==> kept@.len() == max,
            decreases group@.len() - j,
        {
            let ghost before = kept@ + dropped@;
            if kept.len() < max {
                kept.push(group[j]);
                assert(dropped@.len() == 0);
                assert(kept@ + dropped@ =~= before.push(group@[j as int]));
            } else {
                dropped.push(group[j]);
                assert(kept@ + dropped@ =~= before.push(group@[j as int]));
            }
            assert(group@.take(j + 1) =~= group@.take(j as int).push(group@[j as int]));
            assert(start + group@.take(j + 1) =~= (start + group@.take(j as int)).push(group@[j as int]));
            j = j + 1;
        }
        proof {
            assert(group@.take(j as int) =~= group@);
            assert(g.take(i + 1).drop_last() =~= g.take(i as int));
            assert(g.take(i + 1).last() == g[i as int]);
        }
        i = i + 1;
    }
    assert(g.take(i as int) =~= g);
    (kept, dropped)
}

/// Room for the control data of a message carrying `n` descriptors on
/// 64-bit Linux: a 16-byte header, then four bytes a descriptor, rounded
/// up to eight.
pub open spec fn cmsg_space(n: nat) -> nat {
    16 + (4 * n + 7) / 8 * 8
}

/// A receive buffer for one message and its descriptors.
pub struct CmsgBuf {
    pub data: Vec<u8>,
    pub max_fds: usize,
    pub space: usize,
}

impl CmsgBuf {
    /// A buffer for a message of `size` bytes of which at most `max_fds`
    /// descriptors are kept; there is room for `MAX_FDS` descriptors, so
    /// that the ones past `max_fds` arrive and can be closed.
    pub fn new(size: usize, max_fds: usize) -> (r: CmsgBuf)
        requires
            max_fds <= MAX_FDS,
        ensures
            r.data@.len() == size,
            r.max_fds == max_fds,
            r.space == cmsg_space(MAX_FDS as nat),
    {
        let data = vec![0u8; size];
        let space = 16 + (4 * MAX_FDS + 7) / 8 * 8;
        CmsgBuf { data, max_fds, space }
    }
}

/// Relies on nix's `accept4` with `SOCK_CLOEXEC | SOCK_NONBLOCK`: a new
/// descriptor, which is never negative, or the OS error number.
#[verifier::external_body]
fn accept_raw(fd: i32) -> (r: Result<i32, i32>)
    ensures
        r matches Ok(n) ==> n >= 0,
{
    nix::sys::socket::accept4(fd, SockFlag::SOCK_CLOEXEC | SockFlag::SOCK_NONBLOCK).map_err(
        |e| e as i32,
    )
}

/// Relies on nix's `recvmsg` with `MSG_CMSG_CLOEXEC`: the number of bytes
/// of the message, at most the buffer's length, and the descriptors of
/// each SCM_RIGHTS control message; or the OS error number.
#[verifier::external_body]
fn recvmsg_raw(fd: i32, data: &mut Vec<u8>, space: usize) -> (r: Result<(usize, Vec<Vec<i32>>), i32>)
    ensures
        final(data)@.len() == old(data)@.len(),
        r matches Ok((n, _)) ==> n <= old(data)@.len(),
{
    let mut iov = [std::io::IoSliceMut::new(data.as_mut_slice())];
    let mut cmsg: Vec<u8> = Vec::with_capacity(space);
    let msg = nix::sys::socket::recvmsg::<()>(fd, &mut iov, Some(&mut cmsg), MsgFlags::MSG_CMSG_CLOEXEC)
        .map_err(|e| e as i32)?;
    let groups = msg.cmsgs().map_err(|e| e as i32)?.filter_map(|c| match c {
        ControlMessageOwned::ScmRights(fds) => Some(fds),
        _ => None,
    }).collect();
    Ok((msg.bytes, groups))
}

/// What a receive on a non-blocking socket gave.
pub enum Received {
    /// A message of this many bytes, the descriptors kept and those to
    /// close.
    Message(usize, Vec<i32>, Vec<i32>),
    /// Nothing yet: wait for readiness and try again.
    NotReady,
}

/// A connected or listening UNIX SEQPACKET socket, by its descriptor.
pub struct Socket {
    fd: i32,
}

impl Socket {
    pub closed spec fn raw(&self) -> i32 {
        self.fd
    }

    pub fn from_fd(fd: i32) -> (s: Socket)
        ensures
            s.raw() == fd,
    {
        Socket { fd }
    }

    pub fn as_raw_fd(&self) -> (r: i32)
        ensures
            r == self.raw(),
    {
        self.fd
    }

    /// Accepts one connection: its descriptor, `None` when none is pending
    /// or the call was interrupted, or the OS error.
    pub fn accept(&self) -> (r: Result<Option<i32>, i32>)
        ensures
            r matches Ok(Some(n)) ==> n >= 0,
            r matches Err(e) ==> e != EAGAIN && e != EINTR,
    {
        match accept_raw(self.fd) {
            Ok(n) => Ok(Some(n)),
            Err(e) => {
                if e == EAGAIN || e == EINTR {
                    Ok(None)
                } else {
                    Err(e)
                }
            },
        }
    }

    /// Receives one message into `buf` with the descriptors that came with
    /// it: the first `buf.max_fds` are kept, the others are given back for
    /// closing. Not ready or interrupted gives `NotReady`.
    pub fn recvfds(&self, buf: &mut CmsgBuf) -> (r: Result<Received, i32>)
        ensures
            final(buf).data@.len() == old(buf).data@.len(),
            final(buf).max_fds == old(buf).max_fds,
            r matches Ok(Received::Message(n, kept, _)) ==> n <= old(buf).data@.len()
                && kept@.len() <= old(buf).max_fds,
            r matches Ok(Received::Message(_, kept, dropped)) ==> (dropped@.len() > 0
                ==> kept@.len() == old(buf).max_fds),
            r matches Err(e) ==> e != EAGAIN && e != EINTR,
    {
        match recvmsg_raw(self.fd, &mut buf.data, buf.space) {
            Ok((n, groups)) => {
                let (kept, dropped) = extract_fds(&groups, buf.max_fds);
                Ok(Received::Message(n, kept, dropped))
            },
            Err(e) => {
                if e == EAGAIN || e == EINTR {
                    Ok(Received::NotReady)
                } else {
                    Err(e)
                }
            },
        }
    }
}

} // verus!
