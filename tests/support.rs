use sidecar::child::{pre_exec_actions, setup_command, setup_command_streams, PreExec, ProcessRequest, Stdio};
use sidecar::debug::{bytes, opt};
use sidecar::messages::{
    CONTROLLING_TERMINAL, DETACH_TERMINAL, IO_ALL, IO_ERR, IO_IN, IO_OUT, NOHUP, PROCESS_GROUP,
    SESSION,
};
use sidecar::signals::{buf_to_sig, pump_signals, sig_to_buf};
use sidecar::socket::{extract_fds, CmsgBuf, Socket};
use sidecar::system::{
    decode_wait_status, deliver, first_closed, first_invalid_fd, is_signal, WaitOutcome,
};
use sidecar::watcher::{drain_step, status_from_bytes, status_to_bytes, Drain, Watchers};

fn request(io: u32, startup: u32) -> ProcessRequest {
    ProcessRequest {
        program: "prog".to_string(),
        argv: vec!["a".to_string()],
        cwd: "/work".to_string(),
        env: vec![("K".to_string(), "V".to_string())],
        startup,
        io,
        pgid: 12,
        uid: 1000,
        gid: -1,
        deathsig: 9,
    }
}

#[test]
fn stdio_slots_follow_flags() {
    assert_eq!(
        setup_command_streams(IO_ALL, &[3, 4, 5]),
        (Stdio::Fd(3), Stdio::Fd(4), Stdio::Fd(5), 3)
    );
    assert_eq!(setup_command_streams(IO_OUT | IO_ERR, &[7, 8]), (Stdio::Null, Stdio::Fd(7), Stdio::Fd(8), 2));
    assert_eq!(setup_command_streams(IO_ERR, &[9]), (Stdio::Null, Stdio::Null, Stdio::Fd(9), 1));
    assert_eq!(setup_command_streams(0, &[]), (Stdio::Null, Stdio::Null, Stdio::Null, 0));
}

#[test]
fn pre_exec_order() {
    let all = PROCESS_GROUP | SESSION | DETACH_TERMINAL | NOHUP | CONTROLLING_TERMINAL;
    assert_eq!(
        pre_exec_actions(all, 0, 9),
        vec![
            PreExec::DeathSignal(9),
            PreExec::DetachTerminal,
            PreExec::SetProcessGroup(0),
            PreExec::NewSession,
            PreExec::ControllingTerminal,
            PreExec::IgnoreHangup,
        ]
    );
    assert_eq!(pre_exec_actions(0, 0, 0), vec![]);
    assert_eq!(pre_exec_actions(NOHUP, 5, 4000), vec![PreExec::IgnoreHangup]);
}

#[test]
fn plan_from_request() {
    let plan = setup_command(request(IO_IN, PROCESS_GROUP), &[20, 21, 22]);
    assert_eq!(plan.program, "prog");
    assert_eq!(plan.args, vec!["a".to_string()]);
    assert_eq!(plan.env, Some(vec![("K".to_string(), "V".to_string())]));
    assert_eq!(plan.cwd, Some("/work".to_string()));
    assert_eq!(plan.uid, Some(1000));
    assert_eq!(plan.gid, None);
    assert_eq!(plan.stdin, Stdio::Fd(20));
    assert_eq!(plan.stdout, Stdio::Null);
    assert_eq!(plan.stderr, Stdio::Null);
    assert_eq!(plan.close, vec![21, 22]);
    assert_eq!(plan.pre_exec, vec![PreExec::DeathSignal(9), PreExec::SetProcessGroup(12)]);
}

#[test]
fn empty_env_and_cwd_inherit() {
    let mut req = request(0, 0);
    req.env = vec![];
    req.cwd = String::new();
    let plan = setup_command(req, &[]);
    assert!(plan.env.is_none());
    assert!(plan.cwd.is_none());
}

#[test]
fn watchers_notify_each_pid_once() {
    let mut w: Watchers<&str> = Watchers::new();
    assert_eq!(w.register(100, "first"), None);
    assert_eq!(w.register(200, "second"), None);
    assert_eq!(w.notify(100), Some("first"));
    assert_eq!(w.notify(100), None);
    assert_eq!(w.notify(300), None);
    assert_eq!(w.register(200, "again"), Some("second"));
    assert_eq!(w.notify(200), Some("again"));
}

#[test]
fn drain_decisions() {
    assert_eq!(drain_step(1234, 0), Drain::Deliver(1234));
    assert_eq!(drain_step(0, 0), Drain::Stop);
    assert_eq!(drain_step(-1, 4), Drain::Retry);
    assert_eq!(drain_step(-1, 10), Drain::Stop);
    assert_eq!(drain_step(-1, 22), Drain::Fail(22));
}

#[test]
fn status_bytes_round_trip() {
    for s in [0, 7 << 8, 9, -1, i32::MAX] {
        let b = status_to_bytes(s);
        assert_eq!(b.len(), 4);
        assert_eq!(status_from_bytes(&b), Some(s));
    }
    assert_eq!(status_from_bytes(&[]), None);
    assert_eq!(status_from_bytes(&[1, 2, 3, 4, 5]), None);
}

#[test]
fn wait_status_macros() {
    assert_eq!(decode_wait_status(3 << 8), WaitOutcome::Exited(3));
    assert_eq!(decode_wait_status(2), WaitOutcome::Signaled(2));
    assert_eq!(decode_wait_status(0x057f), WaitOutcome::Other);
}

#[test]
fn pump_catches_all_but_fatal_signals() {
    let sigs = pump_signals();
    for s in [1, 2, 10, 12, 15, 17, 18, 20] {
        assert!(sigs.contains(&s), "missing {}", s);
    }
    for s in [4, 8, 9, 11, 19] {
        assert!(!sigs.contains(&s), "unexpected {}", s);
    }
    let mut sorted = sigs.clone();
    sorted.sort();
    sorted.dedup();
    assert_eq!(sorted.len(), sigs.len());
}

#[test]
fn pump_bytes() {
    assert_eq!(buf_to_sig(&sig_to_buf(10)), Some(10));
    assert_eq!(buf_to_sig(&sig_to_buf(0)), None);
    assert_eq!(buf_to_sig(&sig_to_buf(4000)), None);
    assert_eq!(buf_to_sig(&[10, 0]), None);
}

#[test]
fn signal_numbers() {
    assert!(is_signal(9));
    assert!(is_signal(15));
    assert!(!is_signal(0));
    assert!(!is_signal(-9));
    assert!(!is_signal(1000));
}

#[test]
fn fd_extraction_caps_and_keeps_order() {
    let groups = vec![vec![3, 4], vec![], vec![5, 6, 7]];
    assert_eq!(extract_fds(&groups, 16), (vec![3, 4, 5, 6, 7], vec![]));
    assert_eq!(extract_fds(&groups, 3), (vec![3, 4, 5], vec![6, 7]));
    assert_eq!(extract_fds(&groups, 0), (vec![], vec![3, 4, 5, 6, 7]));
    assert_eq!(extract_fds(&vec![], 3), (vec![], vec![]));
}

#[test]
fn cmsg_buffer_sizes() {
    let b = CmsgBuf::new(64, 3);
    assert_eq!(b.data.len(), 64);
    assert_eq!(b.max_fds, 3);
    assert_eq!(b.space, 80);
    assert_eq!(CmsgBuf::new(0, 16).space, 80);
}

#[test]
fn socket_errors_are_reported() {
    let sock = Socket::from_fd(-1);
    assert_eq!(sock.as_raw_fd(), -1);
    assert!(matches!(sock.accept(), Err(9)));
    let mut buf = CmsgBuf::new(16, 3);
    assert!(matches!(sock.recvfds(&mut buf), Err(9)));
    assert_eq!(buf.data.len(), 16);
}

#[test]
fn descriptor_scan() {
    let first = first_invalid_fd(0, 1024);
    assert!(first <= 1024);
    assert_eq!(first_invalid_fd(5, 5), 5);
    assert_eq!(first_invalid_fd(9, 3), 3);
}

#[test]
fn bytes_render_as_literal() {
    let data = b"a\n\r\t\\\"\0\x7f\xff ~";
    let text = bytes(data).render();
    assert_eq!(String::from_utf8(text).unwrap(), "b\"a\\n\\r\\t\\\\\\\"\\0\\x7f\\xff ~\"");
    assert_eq!(bytes(b"").render(), b"b\"\"".to_vec());
}

#[test]
fn option_shows_content() {
    let some = Some(5);
    assert_eq!(opt(&some).shown(), Some(&5));
    let none: Option<i32> = None;
    assert_eq!(opt(&none).shown(), None);
}

#[test]
fn missing_group_falls_back_to_process() {
    let d = deliver(i32::MAX, 10, true);
    assert_eq!(d.group, Some(Err(3)));
    assert_eq!(d.process, Some(Err(3)));
    let d = deliver(i32::MAX, 10, false);
    assert_eq!(d.group, None);
    assert_eq!(d.process, Some(Err(3)));
}

#[test]
fn first_closed_probe() {
    assert_eq!(first_closed(&vec![]), 0);
    assert_eq!(first_closed(&vec![true, true]), 2);
    assert_eq!(first_closed(&vec![true, false, true, false]), 1);
    assert_eq!(first_closed(&vec![false]), 0);
}

#[test]
fn descriptor_scan_stops_at_closed() {
    assert_eq!(first_invalid_fd(-3, 5), -3);
    assert_eq!(first_invalid_fd(100_000, 100_004), 100_000);
}
