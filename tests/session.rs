use sidecar::child::Stdio;
use sidecar::messages::{
    decode_result, decode_started, encode_exec, encode_request, encode_signal, ExecHeader,
    ExecRequestInput, ProcessResult, RequestInput, Signal, IO_ALL, IO_IN, IO_OUT, PROCESS_GROUP,
};
use sidecar::session::{child_finished, io_len, Action, Event, Phase, Session};

fn body(io: u32, startup: u32, connsig: i32) -> Vec<u8> {
    encode_exec(&ExecRequestInput {
        program: "/bin/sh".to_string(),
        argv: vec!["-c".to_string(), "exit 7".to_string()],
        cwd: String::new(),
        env: vec![],
        startup,
        io,
        pgid: 0,
        uid: -1,
        gid: -1,
        deathsig: 0,
        connsig,
    })
}

fn header(data: &[u8]) -> Vec<u8> {
    encode_request(&RequestInput::Exec(ExecHeader { body_size: data.len() as u64 }))
}

/// Drives a session to the running phase with a child of the given pid.
fn running(io: u32, startup: u32, fds: Vec<i32>, pid: i32) -> (Session, Vec<u8>) {
    let mut s = Session::new();
    let data = body(io, startup, 9);
    let a = s.step(Event::Datagram(header(&data)));
    assert!(matches!(a[..], [Action::ReceiveBody(n)] if n == data.len() as u64));
    let a = s.step(Event::Body(data, fds));
    assert_eq!(a.len(), 1);
    assert!(matches!(a[0], Action::Spawn(_)));
    let a = s.step(Event::Spawned(pid));
    let started = match &a[..] {
        [Action::Send(bytes), Action::Receive] => bytes.clone(),
        _ => panic!("unexpected actions"),
    };
    assert_eq!(s.phase, Phase::Running { pid, pg_leader: startup & PROCESS_GROUP != 0, connsig: 9 });
    (s, started)
}

#[test]
fn successful_spawn_sends_started_then_result() {
    let (mut s, started) = running(IO_ALL, 0, vec![10, 11, 12], 777);
    let answer = decode_started(&started).unwrap();
    assert!(answer.success);
    assert_eq!(answer.pid, 777);
    assert_eq!(answer.errno, 0);
    let a = s.step(Event::Exited(7 << 8));
    match &a[..] {
        [Action::ShutdownRead, Action::Send(bytes), Action::Close] => {
            assert_eq!(decode_result(bytes), Some(ProcessResult::Exit(7)));
        },
        _ => panic!("unexpected actions"),
    }
    assert_eq!(s.phase, Phase::Terminal);
    assert!(s.step(Event::Exited(0)).is_empty());
    assert!(s.step(Event::Datagram(vec![])).is_empty());
}

#[test]
fn spawn_plan_uses_received_descriptors() {
    let mut s = Session::new();
    let data = body(IO_IN | IO_OUT, 0, 9);
    s.step(Event::Datagram(header(&data)));
    let a = s.step(Event::Body(data, vec![5, 6]));
    match &a[..] {
        [Action::Spawn(plan)] => {
            assert_eq!(plan.program, "/bin/sh");
            assert_eq!(plan.args, vec!["-c".to_string(), "exit 7".to_string()]);
            assert_eq!(plan.stdin, Stdio::Fd(5));
            assert_eq!(plan.stdout, Stdio::Fd(6));
            assert_eq!(plan.stderr, Stdio::Null);
            assert!(plan.close.is_empty());
            assert!(plan.env.is_none());
            assert!(plan.cwd.is_none());
            assert_eq!(plan.uid, None);
            assert!(plan.pre_exec.is_empty());
        },
        _ => panic!("unexpected actions"),
    }
}

#[test]
fn failed_spawn_sends_only_started() {
    let mut s = Session::new();
    let data = body(IO_ALL, 0, 9);
    s.step(Event::Datagram(header(&data)));
    s.step(Event::Body(data, vec![3, 4, 5]));
    let a = s.step(Event::SpawnFailed(2, "No such file or directory".to_string()));
    match &a[..] {
        [Action::Send(bytes), Action::Close] => {
            let answer = decode_started(bytes).unwrap();
            assert!(!answer.success);
            assert_eq!(answer.errno, 2);
            assert_eq!(answer.pid, -1);
            assert_eq!(answer.message, "No such file or directory");
        },
        _ => panic!("unexpected actions"),
    }
    assert_eq!(s.phase, Phase::Terminal);
    assert!(s.step(Event::Exited(0)).is_empty());
}

#[test]
fn client_disconnect_signals_once_and_sends_no_result() {
    let (mut s, _) = running(IO_ALL, PROCESS_GROUP, vec![1, 2, 3], 500);
    let a = s.step(Event::Datagram(vec![]));
    assert!(matches!(
        a[..],
        [Action::Kill { pid: 500, signal: 9, group: true }, Action::AwaitExit]
    ));
    assert_eq!(s.phase, Phase::Reaping { pid: 500 });
    let a = s.step(Event::Datagram(vec![]));
    assert!(matches!(a[..], [Action::AwaitExit]));
    let a = s.step(Event::ReadFailed);
    assert!(matches!(a[..], [Action::AwaitExit]));
    let a = s.step(Event::Exited(9));
    assert!(matches!(a[..], [Action::Close]));
    assert_eq!(s.phase, Phase::Terminal);
}

#[test]
fn read_error_while_running_acts_like_disconnect() {
    let (mut s, _) = running(IO_ALL, 0, vec![1, 2, 3], 42);
    let a = s.step(Event::ReadFailed);
    assert!(matches!(
        a[..],
        [Action::Kill { pid: 42, signal: 9, group: false }, Action::AwaitExit]
    ));
}

#[test]
fn descriptor_count_mismatch_is_rejected() {
    let mut s = Session::new();
    let data = body(IO_ALL, 0, 9);
    s.step(Event::Datagram(header(&data)));
    let a = s.step(Event::Body(data, vec![7, 8]));
    match &a[..] {
        [Action::CloseFds(fds), Action::Close] => assert_eq!(fds, &vec![7, 8]),
        _ => panic!("unexpected actions"),
    }
    assert_eq!(s.phase, Phase::Terminal);
}

#[test]
fn too_many_descriptors_are_rejected() {
    let mut s = Session::new();
    let data = body(IO_IN, 0, 9);
    s.step(Event::Datagram(header(&data)));
    let a = s.step(Event::Body(data, vec![7, 8]));
    assert!(matches!(a[..], [Action::CloseFds(_), Action::Close]));
}

#[test]
fn body_of_wrong_size_is_rejected() {
    let mut s = Session::new();
    let data = body(0, 0, 9);
    s.step(Event::Datagram(encode_request(&RequestInput::Exec(ExecHeader {
        body_size: data.len() as u64 + 1,
    }))));
    let a = s.step(Event::Body(data, vec![]));
    assert!(matches!(a[..], [Action::CloseFds(_), Action::Close]));
}

#[test]
fn garbage_body_is_rejected() {
    let mut s = Session::new();
    s.step(Event::Datagram(encode_request(&RequestInput::Exec(ExecHeader { body_size: 3 }))));
    let a = s.step(Event::Body(vec![1, 2, 3], vec![4]));
    match &a[..] {
        [Action::CloseFds(fds), Action::Close] => assert_eq!(fds, &vec![4]),
        _ => panic!("unexpected actions"),
    }
}

#[test]
fn stop_request_interrupts_once() {
    let mut s = Session::new();
    let a = s.step(Event::Datagram(encode_request(&RequestInput::Stop)));
    assert!(matches!(a[..], [Action::Interrupt, Action::Close]));
    assert_eq!(s.phase, Phase::Terminal);
    assert!(s.step(Event::Datagram(encode_request(&RequestInput::Stop))).is_empty());
}

#[test]
fn garbage_request_closes() {
    let mut s = Session::new();
    let a = s.step(Event::Datagram(vec![9, 9, 9, 9]));
    assert!(matches!(a[..], [Action::Close]));
    let mut s = Session::new();
    let a = s.step(Event::Datagram(vec![]));
    assert!(matches!(a[..], [Action::Close]));
}

#[test]
fn signal_forwarding_to_process() {
    let (mut s, _) = running(IO_ALL, 0, vec![1, 2, 3], 99);
    let a = s.step(Event::Datagram(encode_signal(&Signal(10))));
    assert!(matches!(
        a[..],
        [Action::Kill { pid: 99, signal: 10, group: false }, Action::Receive]
    ));
    let a = s.step(Event::Datagram(encode_signal(&Signal(-20))));
    assert!(matches!(
        a[..],
        [Action::Kill { pid: 99, signal: 20, group: false }, Action::Receive]
    ));
}

#[test]
fn group_signal_to_group_leader() {
    let (mut s, _) = running(IO_ALL, PROCESS_GROUP, vec![1, 2, 3], 99);
    let a = s.step(Event::Datagram(encode_signal(&Signal(-20))));
    assert!(matches!(
        a[..],
        [Action::Kill { pid: 99, signal: 20, group: true }, Action::Receive]
    ));
}

#[test]
fn invalid_signal_numbers_are_ignored() {
    let (mut s, _) = running(IO_ALL, PROCESS_GROUP, vec![1, 2, 3], 99);
    for v in [0, 1000, -1000, i32::MIN] {
        let a = s.step(Event::Datagram(encode_signal(&Signal(v))));
        assert!(matches!(a[..], [Action::Receive]));
    }
}

#[test]
fn malformed_signal_message_ends_like_disconnect() {
    let (mut s, _) = running(IO_ALL, 0, vec![1, 2, 3], 99);
    let a = s.step(Event::Datagram(vec![1, 2]));
    assert!(matches!(
        a[..],
        [Action::Kill { pid: 99, signal: 9, group: false }, Action::AwaitExit]
    ));
}

#[test]
fn unknown_connection_signal_falls_back_to_sigkill() {
    let mut s = Session::new();
    let data = body(0, 0, 0);
    s.step(Event::Datagram(header(&data)));
    s.step(Event::Body(data, vec![]));
    assert_eq!(s.phase, Phase::Spawning { pg_leader: false, connsig: 9 });
}

#[test]
fn wait_status_decoding() {
    assert_eq!(child_finished(0), ProcessResult::Exit(0));
    assert_eq!(child_finished(7 << 8), ProcessResult::Exit(7));
    assert_eq!(child_finished(15), ProcessResult::Signal(15));
    assert_eq!(child_finished(9 | 0x80), ProcessResult::Signal(9));
    assert_eq!(child_finished(0x137f), ProcessResult::Undefined);
}

#[test]
fn stdio_flag_count() {
    assert_eq!(io_len(0), 0);
    assert_eq!(io_len(IO_IN), 1);
    assert_eq!(io_len(IO_ALL), 3);
    assert_eq!(io_len(IO_OUT | 8), 1);
}
