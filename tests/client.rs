use sidecar::client::{
    child_finished, convert_to_group_signals, env_to_kv, exec_datagrams, handle_stop,
    prepare_request, started, stop_datagram, wait_child_step, Args, ClientAction, ClientEvent,
    StartOutcome,
};
use sidecar::messages::{
    decode_exec_body, decode_request, decode_signal, encode_result, encode_started, ExecHeader,
    ProcessResult, RequestOutput, Signal, StartedProcess, DETACH_TERMINAL, IO_ALL, PROCESS_GROUP,
    SESSION,
};

fn args(setpgid: Option<i32>, setsid: bool, notty: bool) -> Args {
    Args {
        program: "/bin/sh".to_string(),
        args: vec!["-c".to_string(), "echo hello".to_string()],
        env: vec![("A".to_string(), "1".to_string())],
        cwd: "/".to_string(),
        uid: -1,
        gid: -1,
        deathsig: 9,
        setpgid,
        setsid,
        notty,
    }
}

#[test]
fn request_from_arguments() {
    let r = prepare_request(args(Some(0), true, true));
    assert_eq!(r.startup, PROCESS_GROUP | SESSION | DETACH_TERMINAL);
    assert_eq!(r.pgid, 0);
    assert_eq!(r.io, IO_ALL);
    assert_eq!(r.connsig, 9);
    assert_eq!(r.program, "/bin/sh");
    let r = prepare_request(args(None, false, false));
    assert_eq!(r.startup, 0);
    assert_eq!(r.pgid, 0);
    let r = prepare_request(args(Some(77), false, false));
    assert_eq!(r.startup, PROCESS_GROUP);
    assert_eq!(r.pgid, 77);
}

#[test]
fn exec_sends_header_then_body() {
    let r = prepare_request(args(None, false, false));
    let (header, body) = exec_datagrams(&r);
    assert_eq!(
        decode_request(&header),
        Some(RequestOutput::Exec(ExecHeader { body_size: body.len() as u64 }))
    );
    let back = decode_exec_body(&body).unwrap();
    assert_eq!(back.argv, vec!["-c".to_string(), "echo hello".to_string()]);
    assert_eq!(decode_request(&stop_datagram()), Some(RequestOutput::Stop));
}

#[test]
fn job_control_signals_go_to_the_group() {
    assert_eq!(convert_to_group_signals(20), -20);
    assert_eq!(convert_to_group_signals(19), -19);
    assert_eq!(convert_to_group_signals(18), -18);
    assert_eq!(convert_to_group_signals(21), -21);
    assert_eq!(convert_to_group_signals(22), -22);
    assert_eq!(convert_to_group_signals(10), 10);
    assert_eq!(convert_to_group_signals(2), 2);
}

#[test]
fn stop_after_tstp_and_stop_only() {
    assert!(handle_stop(-20));
    assert!(handle_stop(-19));
    assert!(handle_stop(20));
    assert!(!handle_stop(-18));
    assert!(!handle_stop(10));
}

#[test]
fn started_answers() {
    assert_eq!(started(&[]), StartOutcome::Disconnected);
    let ok = encode_started(&StartedProcess {
        success: true,
        message: String::new(),
        errno: 0,
        pid: 31,
    });
    assert_eq!(started(&ok), StartOutcome::Running(31));
    let failed = encode_started(&StartedProcess {
        success: false,
        message: "Permission denied".to_string(),
        errno: 13,
        pid: -1,
    });
    assert_eq!(started(&failed), StartOutcome::Failed(13));
    assert_eq!(started(&[7, 7]), StartOutcome::Invalid);
}

#[test]
fn exit_status_mapping() {
    assert_eq!(child_finished(&[]), Some(128));
    assert_eq!(child_finished(&encode_result(&ProcessResult::Exit(0))), Some(0));
    assert_eq!(child_finished(&encode_result(&ProcessResult::Exit(7))), Some(7));
    assert_eq!(child_finished(&encode_result(&ProcessResult::Signal(15))), Some(143));
    assert_eq!(child_finished(&encode_result(&ProcessResult::Undefined)), Some(127));
    assert_eq!(child_finished(&encode_result(&ProcessResult::Signal(i32::MAX))), None);
    assert_eq!(child_finished(&[1, 2, 3]), None);
}

#[test]
fn echo_scenario_exit_zero() {
    match wait_child_step(ClientEvent::Server(encode_result(&ProcessResult::Exit(0)))) {
        ClientAction::Finish(code) => assert_eq!(code, 0),
        _ => panic!("unexpected action"),
    }
}

#[test]
fn nonzero_exit_scenario() {
    match wait_child_step(ClientEvent::Server(encode_result(&ProcessResult::Exit(7)))) {
        ClientAction::Finish(code) => assert_eq!(code, 7),
        _ => panic!("unexpected action"),
    }
}

#[test]
fn killed_scenario() {
    match wait_child_step(ClientEvent::Server(encode_result(&ProcessResult::Signal(15)))) {
        ClientAction::Finish(code) => assert_eq!(code, 128 + 15),
        _ => panic!("unexpected action"),
    }
}

#[test]
fn server_hangup_exits_128() {
    match wait_child_step(ClientEvent::Server(vec![])) {
        ClientAction::Finish(code) => assert_eq!(code, 128),
        _ => panic!("unexpected action"),
    }
    assert!(matches!(wait_child_step(ClientEvent::Server(vec![5])), ClientAction::Invalid));
}

#[test]
fn usr1_is_forwarded_as_is() {
    match wait_child_step(ClientEvent::Caught(10)) {
        ClientAction::Forward { datagram, stop_after } => {
            assert_eq!(decode_signal(&datagram), Some(Signal(10)));
            assert!(!stop_after);
        },
        _ => panic!("unexpected action"),
    }
}

#[test]
fn tstp_goes_to_group_and_stops_client() {
    match wait_child_step(ClientEvent::Caught(20)) {
        ClientAction::Forward { datagram, stop_after } => {
            assert_eq!(decode_signal(&datagram), Some(Signal(-20)));
            assert!(stop_after);
        },
        _ => panic!("unexpected action"),
    }
    match wait_child_step(ClientEvent::Caught(18)) {
        ClientAction::Forward { datagram, stop_after } => {
            assert_eq!(decode_signal(&datagram), Some(Signal(-18)));
            assert!(!stop_after);
        },
        _ => panic!("unexpected action"),
    }
}

#[test]
fn env_assignment_split() {
    assert_eq!(env_to_kv("A=1"), ("A".to_string(), "1".to_string()));
    assert_eq!(env_to_kv("A=b=c"), ("A".to_string(), "b=c".to_string()));
    assert_eq!(env_to_kv("NOVALUE"), ("NOVALUE".to_string(), String::new()));
    assert_eq!(env_to_kv("=x"), (String::new(), "x".to_string()));
    assert_eq!(env_to_kv("ü=é"), ("ü".to_string(), "é".to_string()));
    assert_eq!(env_to_kv(""), (String::new(), String::new()));
}
