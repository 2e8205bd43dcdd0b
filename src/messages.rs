//! The messages exchanged between client and server and their binary form.
//!
//! Integers are little-endian of fixed width, flag sets travel as `u32`,
//! strings as a `u64` length followed by their UTF-8 bytes, and a variant
//! as a `u32` tag followed by its payload. Every decoder accepts exactly
//! the encodings of values and nothing else: a datagram with trailing
//! bytes, an unknown tag or a byte string that is not UTF-8 is refused.

use crate::wire::{
    enc_bool, enc_i32, enc_str, enc_u32, enc_u64, get_bool, get_i32, get_str, get_u32, get_u64,
    lemma_bool, lemma_bool_sound, lemma_i32, lemma_i32_sound, lemma_str, lemma_str_sound, lemma_u32, lemma_advance,
    lemma_assoc, lemma_take_cons,
    lemma_u32_sound, lemma_u64, lemma_u64_sound, parse_bool, parse_i32, parse_str, parse_u32,
    parse_u64, put_bool, put_i32, put_str, put_u32, put_u64, str_fits,
};
use vstd::prelude::*;

verus! {

broadcast use vstd::seq::group_seq_axioms;

/// Start the child in a process group (`pgid` says which).
pub const PROCESS_GROUP: u32 = 1;

/// Start the child in a new session.
pub const SESSION: u32 = 2;

/// Release the controlling terminal in the child.
pub const DETACH_TERMINAL: u32 = 4;

/// Ignore SIGHUP in the child.
pub const NOHUP: u32 = 8;

/// Take the terminal of the child's stdin as controlling terminal.
pub const CONTROLLING_TERMINAL: u32 = 16;

/// Every start-up flag.
pub const START_ALL: u32 = 31;

/// The request carries a descriptor for the child's stdin.
pub const IO_IN: u32 = 1;

/// The request carries a descriptor for the child's stdout.
pub const IO_OUT: u32 = 2;

/// The request carries a descriptor for the child's stderr.
pub const IO_ERR: u32 = 4;

/// Every stdio flag.
pub const IO_ALL: u32 = 7;

/// The first datagram of an exec request: the size of the body that
/// follows in a second datagram.
#[derive(Clone, Copy, Debug, PartialEq, Eq, Structural)]
pub struct ExecHeader {
    pub body_size: u64,
}

/// A request as the client builds it.
#[derive(Clone, Copy, Debug, PartialEq, Eq, Structural)]
pub enum RequestInput {
    Stop,
    Exec(ExecHeader),
}

/// A request as the server reads it.
#[derive(Clone, Copy, Debug, PartialEq, Eq, Structural)]
pub enum RequestOutput {
    Stop,
    Exec(ExecHeader),
}

/// A signal number sent by the client while the child runs; a negative
/// number asks for delivery to the child's process group.
#[derive(Clone, Copy, Debug, PartialEq, Eq, Structural)]
pub struct Signal(pub i32);

/// How the child ended.
#[derive(Clone, Copy, Debug, PartialEq, Eq, Structural)]
pub enum ProcessResult {
    Undefined,
    Exit(i32),
    Signal(i32),
}

/// The server's answer to an exec request.
#[derive(Clone, Debug)]
pub struct StartedProcess {
    pub success: bool,
    pub message: String,
    pub errno: i32,
    pub pid: i32,
}

impl View for StartedProcess {
    type V = (bool, Seq<char>, i32, i32);

    open spec fn view(&self) -> (bool, Seq<char>, i32, i32) {
        (self.success, self.message@, self.errno, self.pid)
    }
}

pub open spec fn wire_request(r: RequestInput) -> Seq<u8> {
    match r {
        RequestInput::Stop => enc_u32(0),
        RequestInput::Exec(h) => enc_u32(1) + enc_u64(h.body_size),
    }
}

/// The request that the server reads back from what the client sent.
pub open spec fn request_received(r: RequestInput) -> RequestOutput {
    match r {
        RequestInput::Stop => RequestOutput::Stop,
        RequestInput::Exec(h) => RequestOutput::Exec(h),
    }
}

pub open spec fn wire_signal(s: Signal) -> Seq<u8> {
    enc_i32(s.0)
}

pub open spec fn wire_result(r: ProcessResult) -> Seq<u8> {
    match r {
        ProcessResult::Undefined => enc_u32(0),
        ProcessResult::Exit(c) => enc_u32(1) + enc_i32(c),
        ProcessResult::Signal(s) => enc_u32(2) + enc_i32(s),
    }
}

pub open spec fn wire_started(m: (bool, Seq<char>, i32, i32)) -> Seq<u8> {
    enc_bool(m.0) + (enc_str(m.1) + (enc_i32(m.2) + enc_i32(m.3)))
}

/// A started-process answer whose message length fits its prefix.
pub open spec fn started_fits(m: (bool, Seq<char>, i32, i32)) -> bool {
    str_fits(m.1)
}

pub fn encode_request(req: &RequestInput) -> (r: Vec<u8>)
    ensures
        r@ == wire_request(*req),
{
    let mut buf: Vec<u8> = Vec::new();
    match req {
        RequestInput::Stop => put_u32(&mut buf, 0),
        RequestInput::Exec(h) => {
            put_u32(&mut buf, 1);
            put_u64(&mut buf, h.body_size);
        },
    }
    buf
}

fn read_request(data: &[u8]) -> (r: Option<RequestOutput>)
    ensures
        match r {
            Some(out) => exists|req: RequestInput|
                wire_request(req) == data@ && request_received(req) == out,
            None => forall|req: RequestInput| wire_request(req) != data@,
        },
{
    proof {
        lemma_u32(0, seq![]);
        lemma_u32(1, seq![]);
        assert forall|h: ExecHeader| #[trigger] wire_request(RequestInput::Exec(h)).len() == 12 by {
            lemma_u64(h.body_size, seq![]);
        }
    }
    assert(data@.skip(0) =~= data@);
    let (tag, p) = match get_u32(data, 0) {
        Some(x) => x,
        None => {
            proof { lemma_request_tags(data@); }
            return None;
        },
    };
    proof { lemma_u32_sound(data@); }
    if tag == 0 && p == data.len() {
        proof {
            assert(data@ =~= data@.take(4));
            assert(wire_request(RequestInput::Stop) == data@);
            assert(request_received(RequestInput::Stop) == RequestOutput::Stop);
        }
        return Some(RequestOutput::Stop);
    }
    if tag != 1 {
        proof { lemma_request_tags(data@); }
        return None;
    }
    match get_u64(data, p) {
        Some((size, q)) => {
            if q == data.len() {
                let h = ExecHeader { body_size: size };
                proof {
                    lemma_u64_sound(data@.skip(4));
                    assert(data@ =~= data@.take(4) + data@.skip(4).take(8));
                    assert(wire_request(RequestInput::Exec(h)) == data@);
                    assert(request_received(RequestInput::Exec(h)) == RequestOutput::Exec(h));
                }
                Some(RequestOutput::Exec(h))
            } else {
                proof { lemma_request_tags(data@); }
                None
            }
        },
        None => {
            proof { lemma_request_tags(data@); }
            None
        },
    }
}

/// Reads a request datagram: the request whose encoding it is, and for
/// the encoding of any request exactly that request.
pub fn decode_request(data: &[u8]) -> (r: Option<RequestOutput>)
    ensures
        match r {
            Some(out) => exists|req: RequestInput|
                wire_request(req) == data@ && request_received(req) == out,
            None => forall|req: RequestInput| wire_request(req) != data@,
        },
        forall|req: RequestInput|
            #[trigger] wire_request(req) == data@ ==> r == Some(request_received(req)),
{
    let r = read_request(data);
    proof {
        assert forall|req: RequestInput| #[trigger] wire_request(req) == data@ implies r == Some(
            request_received(req),
        ) by {
            let w = choose|w: RequestInput| wire_request(w) == data@ && request_received(w) == r->0;
            lemma_request_round_trip(w, req);
        }
    }
    r
}

/// What a request's encoding shows in its first bytes.
proof fn lemma_request_tags(data: Seq<u8>)
    ensures
        forall|req: RequestInput| #[trigger] wire_request(req) == data ==> match req {
            RequestInput::Stop => data.len() == 4 && parse_u32(data) == Some((0u32, 4int)),
            RequestInput::Exec(h) => data.len() == 12 && parse_u32(data) == Some((1u32, 4int))
                && parse_u64(data.skip(4)) == Some((h.body_size, 8int)),
        },
{
    assert forall|req: RequestInput| #[trigger] wire_request(req) == data implies match req {
        RequestInput::Stop => data.len() == 4 && parse_u32(data) == Some((0u32, 4int)),
        RequestInput::Exec(h) => data.len() == 12 && parse_u32(data) == Some((1u32, 4int))
            && parse_u64(data.skip(4)) == Some((h.body_size, 8int)),
    } by {
        match req {
            RequestInput::Stop => {
                lemma_u32(0, seq![]);
                assert(enc_u32(0) + seq![] =~= enc_u32(0));
            },
            RequestInput::Exec(h) => {
                lemma_u32(1, enc_u64(h.body_size));
                lemma_u64(h.body_size, seq![]);
                assert(data.skip(4) =~= enc_u64(h.body_size) + seq![]);
            },
        }
    }
}

pub fn encode_signal(sig: &Signal) -> (r: Vec<u8>)
    ensures
        r@ == wire_signal(*sig),
{
    let mut buf: Vec<u8> = Vec::new();
    put_i32(&mut buf, sig.0);
    buf
}

fn read_signal(data: &[u8]) -> (r: Option<Signal>)
    ensures
        match r {
            Some(sig) => wire_signal(sig) == data@,
            None => forall|sig: Signal| #[trigger] wire_signal(sig) != data@,
        },
{
    assert(data@.skip(0) =~= data@);
    proof {
        assert forall|sig: Signal| #[trigger] wire_signal(sig).len() == 4 by {
            lemma_i32(sig.0, seq![]);
        }
    }
    match get_i32(data, 0) {
        Some((v, p)) => {
            if p == data.len() {
                proof {
                    lemma_i32_sound(data@);
                    assert(data@ =~= data@.take(4));
                }
                Some(Signal(v))
            } else {
                None
            }
        },
        None => None,
    }
}

/// Reads a signal message: for the encoding of any signal message exactly
/// that message, `None` for anything else.
pub fn decode_signal(data: &[u8]) -> (r: Option<Signal>)
    ensures
        match r {
            Some(sig) => wire_signal(sig) == data@,
            None => forall|sig: Signal| #[trigger] wire_signal(sig) != data@,
        },
        forall|sig: Signal| #[trigger] wire_signal(sig) == data@ ==> r == Some(sig),
{
    let r = read_signal(data);
    proof {
        assert forall|sig: Signal| #[trigger] wire_signal(sig) == data@ implies r == Some(sig) by {
            lemma_signal_round_trip(r->0, sig);
        }
    }
    r
}

pub fn encode_result(res: &ProcessResult) -> (r: Vec<u8>)
    ensures
        r@ == wire_result(*res),
{
    let mut buf: Vec<u8> = Vec::new();
    match res {
        ProcessResult::Undefined => put_u32(&mut buf, 0),
        ProcessResult::Exit(c) => {
            put_u32(&mut buf, 1);
            put_i32(&mut buf, *c);
        },
        ProcessResult::Signal(sig) => {
            put_u32(&mut buf, 2);
            put_i32(&mut buf, *sig);
        },
    }
    buf
}

/// What a result's encoding shows in its first bytes.
proof fn lemma_result_tags(data: Seq<u8>)
    ensures
        forall|res: ProcessResult| #[trigger] wire_result(res) == data ==> match res {
            ProcessResult::Undefined => data.len() == 4 && parse_u32(data) == Some((0u32, 4int)),
            ProcessResult::Exit(c) => data.len() == 8 && parse_u32(data) == Some((1u32, 4int))
                && parse_i32(data.skip(4)) == Some((c, 4int)),
            ProcessResult::Signal(c) => data.len() == 8 && parse_u32(data) == Some((2u32, 4int))
                && parse_i32(data.skip(4)) == Some((c, 4int)),
        },
{
    assert forall|res: ProcessResult| #[trigger] wire_result(res) == data implies match res {
        ProcessResult::Undefined => data.len() == 4 && parse_u32(data) == Some((0u32, 4int)),
        ProcessResult::Exit(c) => data.len() == 8 && parse_u32(data) == Some((1u32, 4int))
            && parse_i32(data.skip(4)) == Some((c, 4int)),
        ProcessResult::Signal(c) => data.len() == 8 && parse_u32(data) == Some((2u32, 4int))
            && parse_i32(data.skip(4)) == Some((c, 4int)),
    } by {
        match res {
            ProcessResult::Undefined => {
                lemma_u32(0, seq![]);
                assert(enc_u32(0) + seq![] =~= enc_u32(0));
            },
            ProcessResult::Exit(c) => {
                lemma_u32(1, enc_i32(c));
                lemma_i32(c, seq![]);
                assert(data.skip(4) =~= enc_i32(c) + seq![]);
            },
            ProcessResult::Signal(c) => {
                lemma_u32(2, enc_i32(c));
                lemma_i32(c, seq![]);
                assert(data.skip(4) =~= enc_i32(c) + seq![]);
            },
        }
    }
}

fn read_result(data: &[u8]) -> (r: Option<ProcessResult>)
    ensures
        match r {
            Some(res) => wire_result(res) == data@,
            None => forall|res: ProcessResult| #[trigger] wire_result(res) != data@,
        },
{
    assert(data@.skip(0) =~= data@);
    proof { lemma_result_tags(data@); }
    let (tag, p) = match get_u32(data, 0) {
        Some(x) => x,
        None => return None,
    };
    proof { lemma_u32_sound(data@); }
    if tag == 0 {
        if p == data.len() {
            proof { assert(data@ =~= data@.take(4)); }
            return Some(ProcessResult::Undefined);
        }
        return None;
    }
    if tag != 1 && tag != 2 {
        return None;
    }
    match get_i32(data, p) {
        Some((v, q)) => {
            if q == data.len() {
                proof {
                    lemma_i32_sound(data@.skip(4));
                    assert(data@ =~= data@.take(4) + data@.skip(4).take(4));
                }
                if tag == 1 {
                    Some(ProcessResult::Exit(v))
                } else {
                    Some(ProcessResult::Signal(v))
                }
            } else {
                None
            }
        },
        None => None,
    }
}

/// Reads a process result: for the encoding of any result exactly that
/// result, `None` for anything else.
pub fn decode_result(data: &[u8]) -> (r: Option<ProcessResult>)
    ensures
        match r {
            Some(res) => wire_result(res) == data@,
            None => forall|res: ProcessResult| #[trigger] wire_result(res) != data@,
        },
        forall|res: ProcessResult| #[trigger] wire_result(res) == data@ ==> r == Some(res),
{
    let r = read_result(data);
    proof {
        assert forall|res: ProcessResult| #[trigger] wire_result(res) == data@ implies r == Some(res) by {
            lemma_result_round_trip(r->0, res);
        }
    }
    r
}

pub open spec fn parse_started(s: Seq<u8>) -> Option<((bool, Seq<char>, i32, i32), int)> {
    match parse_bool(s) {
        None => None,
        Some((success, o1)) => match parse_str(s.skip(o1)) {
            None => None,
            Some((message, n2)) => match parse_i32(s.skip(o1 + n2)) {
                None => None,
                Some((errno, n3)) => match parse_i32(s.skip(o1 + n2 + n3)) {
                    None => None,
                    Some((pid, n4)) => Some(((success, message, errno, pid), o1 + n2 + n3 + n4)),
                },
            },
        },
    }
}

proof fn lemma_started(m: (bool, Seq<char>, i32, i32), rest: Seq<u8>)
    requires
        started_fits(m),
    ensures
        parse_started(wire_started(m) + rest) == Some((m, wire_started(m).len() as int)),
{
    let t3 = enc_i32(m.3);
    let t2 = enc_i32(m.2) + t3;
    let t1 = enc_str(m.1) + t2;
    let s = wire_started(m) + rest;
    lemma_bool(m.0, t1 + rest);
    assert(s =~= enc_bool(m.0) + (t1 + rest));
    lemma_str(m.1, t2 + rest);
    let o1 = 1int;
    assert(s.skip(o1) =~= enc_str(m.1) + (t2 + rest));
    let n2 = enc_str(m.1).len() as int;
    lemma_i32(m.2, t3 + rest);
    assert(s.skip(o1 + n2) =~= enc_i32(m.2) + (t3 + rest));
    lemma_i32(m.3, rest);
    assert(s.skip(o1 + n2 + 4) =~= enc_i32(m.3) + rest);
}

proof fn lemma_started_sound(s: Seq<u8>)
    requires
        parse_started(s) is Some,
    ensures
        s.take(parse_started(s).unwrap().1) == wire_started(parse_started(s).unwrap().0),
        started_fits(parse_started(s).unwrap().0),
{
    let ((success, message, errno, pid), n) = parse_started(s).unwrap();
    lemma_bool_sound(s);
    let s1 = s.skip(1);
    lemma_str_sound(s1);
    let n2 = parse_str(s1).unwrap().1;
    let s2 = s.skip(1 + n2);
    lemma_i32_sound(s2);
    let s3 = s.skip(1 + n2 + 4);
    lemma_i32_sound(s3);
    assert(s.take(n) =~= s.take(1) + (s1.take(n2) + (s2.take(4) + s3.take(4))));
}

pub fn encode_started(answer: &StartedProcess) -> (r: Vec<u8>)
    ensures
        r@ == wire_started(answer@),
        started_fits(answer@),
{
    let mut buf: Vec<u8> = Vec::new();
    put_bool(&mut buf, answer.success);
    put_str(&mut buf, answer.message.as_str());
    put_i32(&mut buf, answer.errno);
    put_i32(&mut buf, answer.pid);
    assert(buf@ =~= wire_started(answer@));
    buf
}

fn read_started(data: &[u8]) -> (r: Option<StartedProcess>)
    ensures
        match r {
            Some(answer) => wire_started(answer@) == data@ && started_fits(answer@),
            None => forall|m: (bool, Seq<char>, i32, i32)|
                started_fits(m) ==> #[trigger] wire_started(m) != data@,
        },
{
    proof {
        assert forall|m: (bool, Seq<char>, i32, i32)|
            started_fits(m) && #[trigger] wire_started(m) == data@ implies parse_started(data@)
            == Some((m, data@.len() as int)) by {
            lemma_started(m, seq![]);
            assert(wire_started(m) + seq![] =~= wire_started(m));
        }
    }
    assert(data@.skip(0) =~= data@);
    let (success, p1) = match get_bool(data, 0) {
        Some(x) => x,
        None => return None,
    };
    let (message, p2) = match get_str(data, p1) {
        Some(x) => x,
        None => return None,
    };
    let (errno, p3) = match get_i32(data, p2) {
        Some(x) => x,
        None => return None,
    };
    let (pid, p4) = match get_i32(data, p3) {
        Some(x) => x,
        None => return None,
    };
    if p4 != data.len() {
        return None;
    }
    let answer = StartedProcess { success, message, errno, pid };
    proof {
        assert(parse_started(data@) == Some((answer@, p4 as int)));
        lemma_started_sound(data@);
        assert(data@.take(p4 as int) =~= data@);
    }
    Some(answer)
}

/// Reads a started-process answer: for the encoding of any answer exactly
/// that answer, `None` for anything else.
pub fn decode_started(data: &[u8]) -> (r: Option<StartedProcess>)
    ensures
        match r {
            Some(answer) => wire_started(answer@) == data@ && started_fits(answer@),
            None => forall|m: (bool, Seq<char>, i32, i32)|
                started_fits(m) ==> #[trigger] wire_started(m) != data@,
        },
        forall|m: (bool, Seq<char>, i32, i32)|
            started_fits(m) && #[trigger] wire_started(m) == data@ ==> (r matches Some(a) && a@
                == m),
{
    let r = read_started(data);
    proof {
        assert forall|m: (bool, Seq<char>, i32, i32)|
            started_fits(m) && #[trigger] wire_started(m) == data@ implies (r matches Some(a) && a@
                == m) by {
            lemma_started_round_trip(r->0@, m);
        }
    }
    r
}

/// Decoding what was encoded gives back the same request: no two
/// requests share an encoding, and the server reads the variant the client
/// sent.
pub proof fn lemma_request_round_trip(a: RequestInput, b: RequestInput)
    ensures
        wire_request(a) == wire_request(b) ==> a == b,
{
    lemma_request_tags(wire_request(a));
    lemma_request_tags(wire_request(b));
}

/// No two signal messages share an encoding.
pub proof fn lemma_signal_round_trip(a: Signal, b: Signal)
    ensures
        wire_signal(a) == wire_signal(b) ==> a == b,
{
    lemma_i32(a.0, seq![]);
    lemma_i32(b.0, seq![]);
    assert(wire_signal(a) + seq![] =~= wire_signal(a));
    assert(wire_signal(b) + seq![] =~= wire_signal(b));
}

/// No two process results share an encoding.
pub proof fn lemma_result_round_trip(a: ProcessResult, b: ProcessResult)
    ensures
        wire_result(a) == wire_result(b) ==> a == b,
{
    lemma_result_tags(wire_result(a));
    lemma_result_tags(wire_result(b));
}

/// No two started-process answers share an encoding.
pub proof fn lemma_started_round_trip(
    a: (bool, Seq<char>, i32, i32),
    b: (bool, Seq<char>, i32, i32),
)
    requires
        started_fits(a),
        started_fits(b),
    ensures
        wire_started(a) == wire_started(b) ==> a == b,
{
    lemma_started(a, seq![]);
    lemma_started(b, seq![]);
    assert(wire_started(a) + seq![] =~= wire_started(a));
    assert(wire_started(b) + seq![] =~= wire_started(b));
}

/// The body of an exec request, as a value.
pub struct ExecBody {
    pub program: Seq<char>,
    pub argv: Seq<Seq<char>>,
    pub cwd: Seq<char>,
    pub env: Seq<(Seq<char>, Seq<char>)>,
    pub startup: u32,
    pub io: u32,
    pub pgid: i32,
    pub uid: i32,
    pub gid: i32,
    pub deathsig: i32,
    pub connsig: i32,
}

pub open spec fn enc_str_items(v: Seq<Seq<char>>) -> Seq<u8>
    decreases v.len(),
{
    if v.len() == 0 {
        Seq::empty()
    } else {
        enc_str(v[0]) + enc_str_items(v.drop_first())
    }
}

/// A list of strings: its length as eight bytes, then each string.
pub open spec fn enc_str_list(v: Seq<Seq<char>>) -> Seq<u8> {
    enc_u64(v.len() as u64) + enc_str_items(v)
}

pub open spec fn enc_pair_items(v: Seq<(Seq<char>, Seq<char>)>) -> Seq<u8>
    decreases v.len(),
{
    if v.len() == 0 {
        Seq::empty()
    } else {
        enc_str(v[0].0) + (enc_str(v[0].1) + enc_pair_items(v.drop_first()))
    }
}

/// A list of pairs of strings: its length, then each name and value.
pub open spec fn enc_pair_list(v: Seq<(Seq<char>, Seq<char>)>) -> Seq<u8> {
    enc_u64(v.len() as u64) + enc_pair_items(v)
}

pub open spec fn str_list_fits(v: Seq<Seq<char>>) -> bool {
    &&& v.len() <= u64::MAX
    &&& forall|i: int| 0 <= i < v.len() ==> str_fits(#[trigger] v[i])
}

pub open spec fn pair_list_fits(v: Seq<(Seq<char>, Seq<char>)>) -> bool {
    &&& v.len() <= u64::MAX
    &&& forall|i: int| 0 <= i < v.len() ==> str_fits(#[trigger] v[i].0) && str_fits(v[i].1)
}

/// The seven integers that close an exec body.
pub open spec fn body_tail(x: ExecBody) -> (u32, u32, i32, i32, i32, i32, i32) {
    (x.startup, x.io, x.pgid, x.uid, x.gid, x.deathsig, x.connsig)
}

pub open spec fn enc_tail(t: (u32, u32, i32, i32, i32, i32, i32)) -> Seq<u8> {
    enc_u32(t.0) + (enc_u32(t.1) + (enc_i32(t.2) + (enc_i32(t.3) + (enc_i32(t.4) + (enc_i32(t.5)
        + enc_i32(t.6))))))
}

/// The program, the arguments, the working directory, the environment
/// and then the flags and numbers, in this order.
pub open spec fn wire_exec_body(x: ExecBody) -> Seq<u8> {
    enc_str(x.program) + (enc_str_list(x.argv) + (enc_str(x.cwd) + (enc_pair_list(x.env) + enc_tail(
        body_tail(x),
    ))))
}

/// Every length in the body fits the eight bytes that carry it.
pub open spec fn body_fits(x: ExecBody) -> bool {
    &&& str_fits(x.program)
    &&& str_list_fits(x.argv)
    &&& str_fits(x.cwd)
    &&& pair_list_fits(x.env)
}

pub open spec fn parse_str_items(s: Seq<u8>, count: nat) -> Option<(Seq<Seq<char>>, int)>
    decreases count,
{
    if count == 0 {
        Some((Seq::empty(), 0))
    } else {
        match parse_str(s) {
            None => None,
            Some((x, n)) => match parse_str_items(s.skip(n), (count - 1) as nat) {
                None => None,
                Some((xs, m)) => Some((seq![x] + xs, n + m)),
            },
        }
    }
}

pub open spec fn parse_str_list(s: Seq<u8>) -> Option<(Seq<Seq<char>>, int)> {
    match parse_u64(s) {
        None => None,
        Some((count, k)) => match parse_str_items(s.skip(k), count as nat) {
            None => None,
            Some((xs, m)) => Some((xs, k + m)),
        },
    }
}

pub open spec fn parse_pair_items(s: Seq<u8>, count: nat) -> Option<(Seq<(Seq<char>, Seq<char>)>, int)>
    decreases count,
{
    if count == 0 {
        Some((Seq::empty(), 0))
    } else {
        match parse_str(s) {
            None => None,
            Some((a, n1)) => match parse_str(s.skip(n1)) {
                None => None,
                Some((b, n2)) => match parse_pair_items(s.skip(n1 + n2), (count - 1) as nat) {
                    None => None,
                    Some((xs, m)) => Some((seq![(a, b)] + xs, n1 + n2 + m)),
                },
            },
        }
    }
}

pub open spec fn parse_pair_list(s: Seq<u8>) -> Option<(Seq<(Seq<char>, Seq<char>)>, int)> {
    match parse_u64(s) {
        None => None,
        Some((count, k)) => match parse_pair_items(s.skip(k), count as nat) {
            None => None,
            Some((xs, m)) => Some((xs, k + m)),
        },
    }
}

pub open spec fn parse_tail(s: Seq<u8>) -> Option<((u32, u32, i32, i32, i32, i32, i32), int)> {
    if s.len() >= 28 {
        Some(
            (
                (
                    parse_u32(s).unwrap().0,
                    parse_u32(s.skip(4)).unwrap().0,
                    parse_i32(s.skip(8)).unwrap().0,
                    parse_i32(s.skip(12)).unwrap().0,
                    parse_i32(s.skip(16)).unwrap().0,
                    parse_i32(s.skip(20)).unwrap().0,
                    parse_i32(s.skip(24)).unwrap().0,
                ),
                28,
            ),
        )
    } else {
        None
    }
}

pub open spec fn make_body(
    program: Seq<char>,
    argv: Seq<Seq<char>>,
    cwd: Seq<char>,
    env: Seq<(Seq<char>, Seq<char>)>,
    t: (u32, u32, i32, i32, i32, i32, i32),
) -> ExecBody {
    ExecBody {
        program,
        argv,
        cwd,
        env,
        startup: t.0,
        io: t.1,
        pgid: t.2,
        uid: t.3,
        gid: t.4,
        deathsig: t.5,
        connsig: t.6,
    }
}

pub open spec fn parse_exec_body(s: Seq<u8>) -> Option<(ExecBody, int)> {
    match parse_str(s) {
        None => None,
        Some((program, o1)) => match parse_str_list(s.skip(o1)) {
            None => None,
            Some((argv, n2)) => match parse_str(s.skip(o1 + n2)) {
                None => None,
                Some((cwd, n3)) => match parse_pair_list(s.skip(o1 + n2 + n3)) {
                    None => None,
                    Some((env, n4)) => match parse_tail(s.skip(o1 + n2 + n3 + n4)) {
                        None => None,
                        Some((t, n5)) => Some(
                            (make_body(program, argv, cwd, env, t), o1 + n2 + n3 + n4 + n5),
                        ),
                    },
                },
            },
        },
    }
}

proof fn lemma_str_items(v: Seq<Seq<char>>, rest: Seq<u8>)
    requires
        forall|i: int| 0 <= i < v.len() ==> str_fits(#[trigger] v[i]),
    ensures
        parse_str_items(enc_str_items(v) + rest, v.len()) == Some((v, enc_str_items(v).len() as int)),
    decreases v.len(),
{
    if v.len() > 0 {
        let tail = v.drop_first();
        assert forall|i: int| 0 <= i < tail.len() implies str_fits(#[trigger] tail[i]) by {
            assert(tail[i] == v[i + 1]);
        }
        lemma_str_items(tail, rest);
        lemma_str(v[0], enc_str_items(tail) + rest);
        let s = enc_str_items(v) + rest;
        assert(s =~= enc_str(v[0]) + (enc_str_items(tail) + rest));
        assert(s.skip(enc_str(v[0]).len() as int) =~= enc_str_items(tail) + rest);
        assert(seq![v[0]] + tail =~= v);
    } else {
        assert(enc_str_items(v) + rest =~= rest);
    }
}

proof fn lemma_str_items_sound(s: Seq<u8>, count: nat)
    requires
        parse_str_items(s, count) is Some,
    ensures
        s.take(parse_str_items(s, count).unwrap().1) == enc_str_items(
            parse_str_items(s, count).unwrap().0,
        ),
        parse_str_items(s, count).unwrap().0.len() == count,
        forall|i: int|
            0 <= i < count ==> str_fits(#[trigger] parse_str_items(s, count).unwrap().0[i]),
        0 <= parse_str_items(s, count).unwrap().1 <= s.len(),
    decreases count,
{
    if count > 0 {
        let (x, n) = parse_str(s).unwrap();
        lemma_str_sound(s);
        let s1 = s.skip(n);
        lemma_str_items_sound(s1, (count - 1) as nat);
        let (xs, m) = parse_str_items(s1, (count - 1) as nat).unwrap();
        let all = seq![x] + xs;
        assert(all.drop_first() =~= xs);
        assert(s.take(n + m) =~= s.take(n) + s1.take(m));
        assert forall|i: int| 0 <= i < count implies str_fits(#[trigger] all[i]) by {
            if i > 0 {
                assert(all[i] == xs[i - 1]);
            }
        }
    } else {
        assert(s.take(0) =~= Seq::<u8>::empty());
    }
}

#[verifier::spinoff_prover]
#[verifier::rlimit(40)]
proof fn lemma_pair_items(v: Seq<(Seq<char>, Seq<char>)>, rest: Seq<u8>)
    requires
        forall|i: int| 0 <= i < v.len() ==> str_fits(#[trigger] v[i].0) && str_fits(v[i].1),
    ensures
        parse_pair_items(enc_pair_items(v) + rest, v.len()) == Some(
            (v, enc_pair_items(v).len() as int),
        ),
    decreases v.len(),
{
    if v.len() > 0 {
        let tail = v.drop_first();
        assert forall|i: int| 0 <= i < tail.len() implies str_fits(#[trigger] tail[i].0) && str_fits(
            tail[i].1,
        ) by {
            assert(tail[i] == v[i + 1]);
        }
        assert(str_fits(v[0].0) && str_fits(v[0].1));
        lemma_pair_items(tail, rest);
        let t = enc_pair_items(tail) + rest;
        lemma_str(v[0].0, enc_str(v[0].1) + t);
        lemma_str(v[0].1, t);
        let s = enc_pair_items(v) + rest;
        let n1 = enc_str(v[0].0).len() as int;
        let n2 = enc_str(v[0].1).len() as int;
        assert(s =~= enc_str(v[0].0) + (enc_str(v[0].1) + t));
        assert(s.skip(n1) =~= enc_str(v[0].1) + t);
        assert(s.skip(n1 + n2) =~= t);
        assert(seq![(v[0].0, v[0].1)] + tail =~= v);
    } else {
        assert(enc_pair_items(v) + rest =~= rest);
    }
}

proof fn lemma_pair_items_sound(s: Seq<u8>, count: nat)
    requires
        parse_pair_items(s, count) is Some,
    ensures
        s.take(parse_pair_items(s, count).unwrap().1) == enc_pair_items(
            parse_pair_items(s, count).unwrap().0,
        ),
        parse_pair_items(s, count).unwrap().0.len() == count,
        forall|i: int|
            0 <= i < count ==> str_fits(#[trigger] parse_pair_items(s, count).unwrap().0[i].0)
                && str_fits(parse_pair_items(s, count).unwrap().0[i].1),
        0 <= parse_pair_items(s, count).unwrap().1 <= s.len(),
    decreases count,
{
    if count > 0 {
        let (a, n1) = parse_str(s).unwrap();
        lemma_str_sound(s);
        let s1 = s.skip(n1);
        let (b, n2) = parse_str(s1).unwrap();
        lemma_str_sound(s1);
        let s2 = s.skip(n1 + n2);
        assert(s2 =~= s1.skip(n2));
        lemma_pair_items_sound(s2, (count - 1) as nat);
        let (xs, m) = parse_pair_items(s2, (count - 1) as nat).unwrap();
        let all = seq![(a, b)] + xs;
        assert(all.drop_first() =~= xs);
        assert(s.take(n1 + n2 + m) =~= s.take(n1) + (s1.take(n2) + s2.take(m)));
        assert forall|i: int| 0 <= i < count implies str_fits(#[trigger] all[i].0) && str_fits(
            all[i].1,
        ) by {
            if i > 0 {
                assert(all[i] == xs[i - 1]);
            }
        }
    } else {
        assert(s.take(0) =~= Seq::<u8>::empty());
    }
}

proof fn lemma_tail(t: (u32, u32, i32, i32, i32, i32, i32), rest: Seq<u8>)
    ensures
        parse_tail(enc_tail(t) + rest) == Some((t, 28int)),
        enc_tail(t).len() == 28,
{
    let s = enc_tail(t) + rest;
    let r6 = enc_i32(t.6) + rest;
    let r5 = enc_i32(t.5) + r6;
    let r4 = enc_i32(t.4) + r5;
    let r3 = enc_i32(t.3) + r4;
    let r2 = enc_i32(t.2) + r3;
    let r1 = enc_u32(t.1) + r2;
    lemma_i32(t.6, rest);
    lemma_i32(t.5, r6);
    lemma_i32(t.4, r5);
    lemma_i32(t.3, r4);
    lemma_i32(t.2, r3);
    lemma_u32(t.1, r2);
    lemma_u32(t.0, r1);
    assert(s =~= enc_u32(t.0) + r1);
    assert(s.skip(4) =~= r1);
    assert(s.skip(8) =~= r2);
    assert(s.skip(12) =~= r3);
    assert(s.skip(16) =~= r4);
    assert(s.skip(20) =~= r5);
    assert(s.skip(24) =~= r6);
}

proof fn lemma_tail_sound(s: Seq<u8>)
    requires
        parse_tail(s) is Some,
    ensures
        s.take(28) == enc_tail(parse_tail(s).unwrap().0),
{
    lemma_u32_sound(s);
    lemma_u32_sound(s.skip(4));
    lemma_i32_sound(s.skip(8));
    lemma_i32_sound(s.skip(12));
    lemma_i32_sound(s.skip(16));
    lemma_i32_sound(s.skip(20));
    lemma_i32_sound(s.skip(24));
    assert(s.take(28) =~= s.take(4) + (s.skip(4).take(4) + (s.skip(8).take(4) + (s.skip(12).take(4)
        + (s.skip(16).take(4) + (s.skip(20).take(4) + s.skip(24).take(4)))))));
}

proof fn lemma_str_list(v: Seq<Seq<char>>, rest: Seq<u8>)
    requires
        str_list_fits(v),
    ensures
        parse_str_list(enc_str_list(v) + rest) == Some((v, enc_str_list(v).len() as int)),
{
    let t = enc_str_items(v) + rest;
    lemma_u64(v.len() as u64, t);
    lemma_str_items(v, rest);
    let s = enc_str_list(v) + rest;
    assert(s =~= enc_u64(v.len() as u64) + t);
    assert(s.skip(8) =~= t);
}

proof fn lemma_str_list_sound(s: Seq<u8>)
    requires
        parse_str_list(s) is Some,
    ensures
        s.take(parse_str_list(s).unwrap().1) == enc_str_list(parse_str_list(s).unwrap().0),
        str_list_fits(parse_str_list(s).unwrap().0),
        8 <= parse_str_list(s).unwrap().1 <= s.len(),
{
    lemma_u64_sound(s);
    let count = parse_u64(s).unwrap().0;
    lemma_str_items_sound(s.skip(8), count as nat);
    let (xs, m) = parse_str_items(s.skip(8), count as nat).unwrap();
    assert(s.take(8 + m) =~= s.take(8) + s.skip(8).take(m));
}

proof fn lemma_pair_list(v: Seq<(Seq<char>, Seq<char>)>, rest: Seq<u8>)
    requires
        pair_list_fits(v),
    ensures
        parse_pair_list(enc_pair_list(v) + rest) == Some((v, enc_pair_list(v).len() as int)),
{
    let t = enc_pair_items(v) + rest;
    lemma_u64(v.len() as u64, t);
    lemma_pair_items(v, rest);
    let s = enc_pair_list(v) + rest;
    assert(s =~= enc_u64(v.len() as u64) + t);
    assert(s.skip(8) =~= t);
}

proof fn lemma_pair_list_sound(s: Seq<u8>)
    requires
        parse_pair_list(s) is Some,
    ensures
        s.take(parse_pair_list(s).unwrap().1) == enc_pair_list(parse_pair_list(s).unwrap().0),
        pair_list_fits(parse_pair_list(s).unwrap().0),
        8 <= parse_pair_list(s).unwrap().1 <= s.len(),
{
    lemma_u64_sound(s);
    let count = parse_u64(s).unwrap().0;
    lemma_pair_items_sound(s.skip(8), count as nat);
    let (xs, m) = parse_pair_items(s.skip(8), count as nat).unwrap();
    assert(s.take(8 + m) =~= s.take(8) + s.skip(8).take(m));
}

#[verifier::spinoff_prover]
#[verifier::rlimit(60)]
proof fn lemma_exec_body(x: ExecBody, rest: Seq<u8>)
    requires
        body_fits(x),
    ensures
        parse_exec_body(wire_exec_body(x) + rest) == Some((x, wire_exec_body(x).len() as int)),
{
    let p0 = enc_str(x.program);
    let p1 = enc_str_list(x.argv);
    let p2 = enc_str(x.cwd);
    let p3 = enc_pair_list(x.env);
    let t4 = enc_tail(body_tail(x));
    let t3 = p3 + t4;
    let t2 = p2 + t3;
    let t1 = p1 + t2;
    let s = wire_exec_body(x) + rest;
    assert(s.skip(0) =~= s);
    lemma_assoc(p0, t1, rest);
    lemma_str(x.program, t1 + rest);
    lemma_advance(s, 0, p0, t1 + rest);
    let o1 = p0.len() as int;
    lemma_assoc(p1, t2, rest);
    lemma_str_list(x.argv, t2 + rest);
    lemma_advance(s, o1, p1, t2 + rest);
    let n2 = p1.len() as int;
    lemma_assoc(p2, t3, rest);
    lemma_str(x.cwd, t3 + rest);
    lemma_advance(s, o1 + n2, p2, t3 + rest);
    let n3 = p2.len() as int;
    lemma_assoc(p3, t4, rest);
    lemma_pair_list(x.env, t4 + rest);
    lemma_advance(s, o1 + n2 + n3, p3, t4 + rest);
    lemma_tail(body_tail(x), rest);
    assert(make_body(x.program, x.argv, x.cwd, x.env, body_tail(x)) == x);
}

proof fn lemma_exec_body_sound(s: Seq<u8>)
    requires
        parse_exec_body(s) is Some,
    ensures
        s.take(parse_exec_body(s).unwrap().1) == wire_exec_body(parse_exec_body(s).unwrap().0),
        body_fits(parse_exec_body(s).unwrap().0),
{
    let (x, n) = parse_exec_body(s).unwrap();
    lemma_str_sound(s);
    let o1 = parse_str(s).unwrap().1;
    let s1 = s.skip(o1);
    lemma_str_list_sound(s1);
    let n2 = parse_str_list(s1).unwrap().1;
    let s2 = s.skip(o1 + n2);
    lemma_str_sound(s2);
    let n3 = parse_str(s2).unwrap().1;
    let s3 = s.skip(o1 + n2 + n3);
    lemma_pair_list_sound(s3);
    let n4 = parse_pair_list(s3).unwrap().1;
    let o4 = o1 + n2 + n3 + n4;
    let s4 = s.skip(o4);
    lemma_tail_sound(s4);
    assert(body_tail(x) == parse_tail(s4).unwrap().0);
    lemma_take_cons(s, o1 + n2 + n3, n4, 28);
    lemma_take_cons(s, o1 + n2, n3, n4 + 28);
    lemma_take_cons(s, o1, n2, n3 + n4 + 28);
    lemma_take_cons(s, 0, o1, n2 + n3 + n4 + 28);
    assert(s.skip(0) =~= s);
}

/// No two exec bodies share an encoding, so the server decodes exactly
/// the body that the client encoded.
pub proof fn lemma_exec_body_round_trip(a: ExecBody, b: ExecBody)
    requires
        body_fits(a),
        body_fits(b),
    ensures
        wire_exec_body(a) == wire_exec_body(b) ==> a == b,
{
    lemma_exec_body(a, seq![]);
    lemma_exec_body(b, seq![]);
    assert(wire_exec_body(a) + seq![] =~= wire_exec_body(a));
    assert(wire_exec_body(b) + seq![] =~= wire_exec_body(b));
}

/// An exec request body as the client builds it.
pub struct ExecRequestInput {
    pub program: String,
    pub argv: Vec<String>,
    pub cwd: String,
    pub env: Vec<(String, String)>,
    pub startup: u32,
    pub io: u32,
    pub pgid: i32,
    pub uid: i32,
    pub gid: i32,
    pub deathsig: i32,
    pub connsig: i32,
}

/// An exec request body as the server reads it.
pub struct ExecRequestOutput {
    pub program: String,
    pub argv: Vec<String>,
    pub cwd: String,
    pub env: Vec<(String, String)>,
    pub startup: u32,
    pub io: u32,
    pub pgid: i32,
    pub uid: i32,
    pub gid: i32,
    pub deathsig: i32,
    pub connsig: i32,
}

pub open spec fn strings_view(v: Seq<String>) -> Seq<Seq<char>> {
    v.map_values(|s: String| s@)
}

pub open spec fn pairs_view(v: Seq<(String, String)>) -> Seq<(Seq<char>, Seq<char>)> {
    v.map_values(|p: (String, String)| (p.0@, p.1@))
}

impl View for ExecRequestInput {
    type V = ExecBody;

    open spec fn view(&self) -> ExecBody {
        ExecBody {
            program: self.program@,
            argv: strings_view(self.argv@),
            cwd: self.cwd@,
            env: pairs_view(self.env@),
            startup: self.startup,
            io: self.io,
            pgid: self.pgid,
            uid: self.uid,
            gid: self.gid,
            deathsig: self.deathsig,
            connsig: self.connsig,
        }
    }
}

impl View for ExecRequestOutput {
    type V = ExecBody;

    open spec fn view(&self) -> ExecBody {
        ExecBody {
            program: self.program@,
            argv: strings_view(self.argv@),
            cwd: self.cwd@,
            env: pairs_view(self.env@),
            startup: self.startup,
            io: self.io,
            pgid: self.pgid,
            uid: self.uid,
            gid: self.gid,
            deathsig: self.deathsig,
            connsig: self.connsig,
        }
    }
}

proof fn lemma_str_items_push(a: Seq<Seq<char>>, x: Seq<char>)
    ensures
        enc_str_items(a.push(x)) == enc_str_items(a) + enc_str(x),
    decreases a.len(),
{
    if a.len() == 0 {
        assert(a.push(x).drop_first() =~= Seq::<Seq<char>>::empty());
        assert(a.push(x)[0] == x);
        assert(enc_str_items(a) =~= Seq::<u8>::empty());
        assert(enc_str_items(a.push(x).drop_first()) =~= Seq::<u8>::empty());
        assert(enc_str_items(a.push(x)) =~= enc_str_items(a) + enc_str(x));
    } else {
        assert(a.push(x).drop_first() =~= a.drop_first().push(x));
        assert(a.push(x)[0] == a[0]);
        lemma_str_items_push(a.drop_first(), x);
        lemma_assoc(enc_str(a[0]), enc_str_items(a.drop_first()), enc_str(x));
    }
}

proof fn lemma_pair_items_push(a: Seq<(Seq<char>, Seq<char>)>, x: (Seq<char>, Seq<char>))
    ensures
        enc_pair_items(a.push(x)) == enc_pair_items(a) + (enc_str(x.0) + enc_str(x.1)),
    decreases a.len(),
{
    if a.len() == 0 {
        assert(a.push(x).drop_first() =~= Seq::<(Seq<char>, Seq<char>)>::empty());
        assert(a.push(x)[0] == x);
        assert(enc_pair_items(a) =~= Seq::<u8>::empty());
        assert(enc_pair_items(a.push(x).drop_first()) =~= Seq::<u8>::empty());
        assert(enc_pair_items(a.push(x)) =~= enc_pair_items(a) + (enc_str(x.0) + enc_str(x.1)));
    } else {
        assert(a.push(x).drop_first() =~= a.drop_first().push(x));
        assert(a.push(x)[0] == a[0]);
        lemma_pair_items_push(a.drop_first(), x);
        let h = enc_str(a[0].0) + enc_str(a[0].1);
        lemma_assoc(enc_str(a[0].0), enc_str(a[0].1), enc_pair_items(a.drop_first()));
        lemma_assoc(enc_str(a[0].0), enc_str(a[0].1), enc_pair_items(a.drop_first().push(x)));
        lemma_assoc(h, enc_pair_items(a.drop_first()), enc_str(x.0) + enc_str(x.1));
    }
}

fn put_str_list(buf: &mut Vec<u8>, v: &Vec<String>)
    ensures
        final(buf)@ == old(buf)@ + enc_str_list(strings_view(v@)),
        str_list_fits(strings_view(v@)),
{
    let ghost sv = strings_view(v@);
    put_u64(buf, v.len() as u64);
    let ghost start = buf@;
    let mut i: usize = 0;
    while i < v.len()
        invariant
            i <= v@.len(),
            sv == strings_view(v@),
            buf@ == start + enc_str_items(sv.take(i as int)),
            forall|j: int| 0 <= j < i ==> str_fits(#[trigger] sv[j]),
        decreases v@.len() - i,
    {
        put_str(buf, v[i].as_str());
        proof {
            assert(sv[i as int] == v@[i as int]@);
            assert(sv.take(i + 1) =~= sv.take(i as int).push(sv[i as int]));
            lemma_str_items_push(sv.take(i as int), sv[i as int]);
        }
        i = i + 1;
    }
    assert(sv.take(i as int) =~= sv);
    assert(buf@ =~= old(buf)@ + enc_str_list(sv));
}

spec fn pair_fits(p: (Seq<char>, Seq<char>)) -> bool {
    str_fits(p.0) && str_fits(p.1)
}

fn put_pair_list(buf: &mut Vec<u8>, v: &Vec<(String, String)>)
    ensures
        final(buf)@ == old(buf)@ + enc_pair_list(pairs_view(v@)),
        pair_list_fits(pairs_view(v@)),
{
    let ghost pv = pairs_view(v@);
    put_u64(buf, v.len() as u64);
    let ghost start = buf@;
    let mut i: usize = 0;
    while i < v.len()
        invariant
            i <= v@.len(),
            pv == pairs_view(v@),
            buf@ == start + enc_pair_items(pv.take(i as int)),
            forall|j: int| 0 <= j < i ==> pair_fits(#[trigger] pv[j]),
        decreases v@.len() - i,
    {
        let ghost before = buf@;
        let name = v[i].0.as_str();
        let value = v[i].1.as_str();
        put_str(buf, name);
        put_str(buf, value);
        proof {
            assert(name@ == pv[i as int].0 && value@ == pv[i as int].1);
            assert(pair_fits(pv[i as int]));
            assert(pv.take(i + 1) =~= pv.take(i as int).push(pv[i as int]));
            lemma_pair_items_push(pv.take(i as int), pv[i as int]);
            assert(buf@ =~= before + (enc_str(pv[i as int].0) + enc_str(pv[i as int].1)));
        }
        i = i + 1;
    }
    assert(pv.take(i as int) =~= pv);
    assert(buf@ =~= old(buf)@ + enc_pair_list(pv));
    assert forall|j: int| 0 <= j < pv.len() implies str_fits(#[trigger] pv[j].0) && str_fits(
        pv[j].1,
    ) by {
        assert(pair_fits(pv[j]));
    }
}

pub fn encode_exec(body: &ExecRequestInput) -> (r: Vec<u8>)
    ensures
        r@ == wire_exec_body(body@),
        body_fits(body@),
{
    let mut buf: Vec<u8> = Vec::new();
    put_str(&mut buf, body.program.as_str());
    put_str_list(&mut buf, &body.argv);
    put_str(&mut buf, body.cwd.as_str());
    put_pair_list(&mut buf, &body.env);
    put_u32(&mut buf, body.startup);
    put_u32(&mut buf, body.io);
    put_i32(&mut buf, body.pgid);
    put_i32(&mut buf, body.uid);
    put_i32(&mut buf, body.gid);
    put_i32(&mut buf, body.deathsig);
    put_i32(&mut buf, body.connsig);
    assert(buf@ =~= wire_exec_body(body@));
    buf
}

/// Items already read in front of what the rest of the input parses to.
pub open spec fn after_items<A>(prefix: Seq<A>, off: int, r: Option<(Seq<A>, int)>) -> Option<
    (Seq<A>, int),
> {
    match r {
        Some((xs, m)) => Some((prefix + xs, off + m)),
        None => None,
    }
}

fn get_str_list(b: &[u8], pos: usize) -> (r: Option<(Vec<String>, usize)>)
    requires
        pos <= b@.len(),
    ensures
        r matches Some((_, q)) ==> pos <= q <= b@.len(),
        match parse_str_list(b@.skip(pos as int)) {
            Some((v, n)) => r matches Some((xs, p)) && strings_view(xs@) == v && p == pos + n,
            None => r is None,
        },
{
    let (count, start) = match get_u64(b, pos) {
        Some(x) => x,
        None => return None,
    };
    let ghost s0 = b@.skip(start as int);
    assert(b@.skip(pos as int).skip(8) =~= s0);
    let mut got: Vec<String> = Vec::new();
    let mut p = start;
    let mut i: u64 = 0;
    assert(b@.skip(p as int) =~= s0);
    assert(strings_view(got@) =~= Seq::<Seq<char>>::empty());
    while i < count
        invariant
            start <= p <= b@.len(),
            i <= count,
            s0 == b@.skip(start as int),
            b@.skip(pos as int).skip(8) == s0,
            parse_u64(b@.skip(pos as int)) == Some((count, 8int)),
            parse_str_items(s0, count as nat) == after_items(
                strings_view(got@),
                p - start,
                parse_str_items(b@.skip(p as int), (count - i) as nat),
            ),
        decreases count - i,
    {
        let ghost rest = b@.skip(p as int);
        let ghost prefix = strings_view(got@);
        match get_str(b, p) {
            Some((x, q)) => {
                proof {
                    let n = (q - p) as int;
                    assert(rest.skip(n) =~= b@.skip(q as int));
                    let tail = parse_str_items(b@.skip(q as int), (count - i - 1) as nat);
                    if let Some((xs, m)) = tail {
                        assert(prefix + (seq![x@] + xs) =~= prefix.push(x@) + xs);
                    }
                }
                got.push(x);
                proof {
                    assert(strings_view(got@) =~= prefix.push(x@));
                }
                p = q;
                i = i + 1;
            },
            None => {
                assert(parse_str_items(rest, (count - i) as nat) is None);
                return None;
            },
        }
    }
    proof {
        assert(strings_view(got@) + Seq::<Seq<char>>::empty() =~= strings_view(got@));
    }
    Some((got, p))
}

fn get_pair_list(b: &[u8], pos: usize) -> (r: Option<(Vec<(String, String)>, usize)>)
    requires
        pos <= b@.len(),
    ensures
        r matches Some((_, q)) ==> pos <= q <= b@.len(),
        match parse_pair_list(b@.skip(pos as int)) {
            Some((v, n)) => r matches Some((xs, p)) && pairs_view(xs@) == v && p == pos + n,
            None => r is None,
        },
{
    let (count, start) = match get_u64(b, pos) {
        Some(x) => x,
        None => return None,
    };
    let ghost s0 = b@.skip(start as int);
    assert(b@.skip(pos as int).skip(8) =~= s0);
    let mut got: Vec<(String, String)> = Vec::new();
    let mut p = start;
    let mut i: u64 = 0;
    assert(b@.skip(p as int) =~= s0);
    assert(pairs_view(got@) =~= Seq::<(Seq<char>, Seq<char>)>::empty());
    while i < count
        invariant
            start <= p <= b@.len(),
            i <= count,
            s0 == b@.skip(start as int),
            b@.skip(pos as int).skip(8) == s0,
            parse_u64(b@.skip(pos as int)) == Some((count, 8int)),
            parse_pair_items(s0, count as nat) == after_items(
                pairs_view(got@),
                p - start,
                parse_pair_items(b@.skip(p as int), (count - i) as nat),
            ),
        decreases count - i,
    {
        let ghost rest = b@.skip(p as int);
        let ghost prefix = pairs_view(got@);
        let (name, p1) = match get_str(b, p) {
            Some(x) => x,
            None => {
                assert(parse_pair_items(rest, (count - i) as nat) is None);
                return None;
            },
        };
        assert(rest.skip(p1 - p) =~= b@.skip(p1 as int));
        let (value, q) = match get_str(b, p1) {
            Some(x) => x,
            None => {
                assert(parse_pair_items(rest, (count - i) as nat) is None);
                return None;
            },
        };
        proof {
            let n = (q - p) as int;
            assert(rest.skip(n) =~= b@.skip(q as int));
            let tail = parse_pair_items(b@.skip(q as int), (count - i - 1) as nat);
            if let Some((xs, m)) = tail {
                assert(prefix + (seq![(name@, value@)] + xs) =~= prefix.push((name@, value@)) + xs);
            }
        }
        got.push((name, value));
        proof {
            assert(pairs_view(got@) =~= prefix.push((name@, value@)));
        }
        p = q;
        i = i + 1;
    }
    proof {
        assert(pairs_view(got@) + Seq::<(Seq<char>, Seq<char>)>::empty() =~= pairs_view(got@));
    }
    Some((got, p))
}

fn get_tail(b: &[u8], pos: usize) -> (r: Option<((u32, u32, i32, i32, i32, i32, i32), usize)>)
    requires
        pos <= b@.len(),
    ensures
        r matches Some((_, q)) ==> pos <= q <= b@.len(),
        match parse_tail(b@.skip(pos as int)) {
            Some((t, n)) => r matches Some((w, q)) && w == t && q == pos + n,
            None => r is None,
        },
{
    if b.len() - pos < 28 {
        return None;
    }
    let ghost s = b@.skip(pos as int);
    assert(s.skip(4) =~= b@.skip(pos + 4));
    assert(s.skip(8) =~= b@.skip(pos + 8));
    assert(s.skip(12) =~= b@.skip(pos + 12));
    assert(s.skip(16) =~= b@.skip(pos + 16));
    assert(s.skip(20) =~= b@.skip(pos + 20));
    assert(s.skip(24) =~= b@.skip(pos + 24));
    let (startup, _) = match get_u32(b, pos) {
        Some(x) => x,
        None => return None,
    };
    let (io, _) = match get_u32(b, pos + 4) {
        Some(x) => x,
        None => return None,
    };
    let (pgid, _) = match get_i32(b, pos + 8) {
        Some(x) => x,
        None => return None,
    };
    let (uid, _) = match get_i32(b, pos + 12) {
        Some(x) => x,
        None => return None,
    };
    let (gid, _) = match get_i32(b, pos + 16) {
        Some(x) => x,
        None => return None,
    };
    let (deathsig, _) = match get_i32(b, pos + 20) {
        Some(x) => x,
        None => return None,
    };
    let (connsig, _) = match get_i32(b, pos + 24) {
        Some(x) => x,
        None => return None,
    };
    Some(((startup, io, pgid, uid, gid, deathsig, connsig), pos + 28))
}

fn read_exec_body(data: &[u8]) -> (r: Option<ExecRequestOutput>)
    ensures
        match r {
            Some(body) => wire_exec_body(body@) == data@ && body_fits(body@),
            None => forall|x: ExecBody| body_fits(x) ==> #[trigger] wire_exec_body(x) != data@,
        },
{
    proof {
        assert forall|x: ExecBody| body_fits(x) && #[trigger] wire_exec_body(x) == data@ implies parse_exec_body(
            data@,
        ) == Some((x, data@.len() as int)) by {
            lemma_exec_body(x, seq![]);
            assert(wire_exec_body(x) + seq![] =~= wire_exec_body(x));
        }
    }
    assert(data@.skip(0) =~= data@);
    let (program, p1) = match get_str(data, 0) {
        Some(x) => x,
        None => return None,
    };
    let (argv, p2) = match get_str_list(data, p1) {
        Some(x) => x,
        None => return None,
    };
    let (cwd, p3) = match get_str(data, p2) {
        Some(x) => x,
        None => return None,
    };
    let (env, p4) = match get_pair_list(data, p3) {
        Some(x) => x,
        None => return None,
    };
    let (t, p5) = match get_tail(data, p4) {
        Some(x) => x,
        None => return None,
    };
    if p5 != data.len() {
        return None;
    }
    let body = ExecRequestOutput {
        program,
        argv,
        cwd,
        env,
        startup: t.0,
        io: t.1,
        pgid: t.2,
        uid: t.3,
        gid: t.4,
        deathsig: t.5,
        connsig: t.6,
    };
    proof {
        assert(body@ == make_body(program@, strings_view(argv@), cwd@, pairs_view(env@), t));
        assert(parse_exec_body(data@) == Some((body@, p5 as int)));
        lemma_exec_body_sound(data@);
        assert(data@.take(p5 as int) =~= data@);
    }
    Some(body)
}

/// Reads an exec body: for the encoding of any body exactly that body,
/// `None` for anything else.
pub fn decode_exec_body(data: &[u8]) -> (r: Option<ExecRequestOutput>)
    ensures
        match r {
            Some(body) => wire_exec_body(body@) == data@ && body_fits(body@),
            None => forall|x: ExecBody| body_fits(x) ==> #[trigger] wire_exec_body(x) != data@,
        },
        forall|x: ExecBody|
            body_fits(x) && #[trigger] wire_exec_body(x) == data@ ==> (r matches Some(b) && b@
                == x),
{
    let r = read_exec_body(data);
    proof {
        assert forall|x: ExecBody|
            body_fits(x) && #[trigger] wire_exec_body(x) == data@ implies (r matches Some(b) && b@
                == x) by {
            lemma_exec_body_round_trip(r->0@, x);
        }
    }
    r
}

} // verus!
