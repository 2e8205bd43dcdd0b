use sidecar::messages::{
    decode_exec_body, decode_request, decode_result, decode_signal, decode_started, encode_exec,
    encode_request, encode_result, encode_signal, encode_started, ExecHeader, ExecRequestInput,
    ProcessResult, RequestInput, RequestOutput, Signal, StartedProcess, DETACH_TERMINAL, IO_ALL,
    IO_ERR, IO_IN, PROCESS_GROUP,
};

fn sample_body() -> ExecRequestInput {
    ExecRequestInput {
        program: "/bin/sh".to_string(),
        argv: vec!["-c".to_string(), "echo hello".to_string()],
        cwd: "/tmp".to_string(),
        env: vec![
            ("PATH".to_string(), "/usr/bin:/bin".to_string()),
            ("LANG".to_string(), "C.UTF-8 ü".to_string()),
        ],
        startup: PROCESS_GROUP | DETACH_TERMINAL,
        io: IO_ALL,
        pgid: 0,
        uid: -1,
        gid: 1000,
        deathsig: 9,
        connsig: 15,
    }
}

#[test]
fn stop_request_is_tag_zero() {
    let bytes = encode_request(&RequestInput::Stop);
    assert_eq!(bytes, vec![0, 0, 0, 0]);
    assert_eq!(decode_request(&bytes), Some(RequestOutput::Stop));
}

#[test]
fn exec_header_round_trip() {
    let h = ExecHeader { body_size: 0x0102_0304_0506_0708 };
    let bytes = encode_request(&RequestInput::Exec(h));
    assert_eq!(bytes, vec![1, 0, 0, 0, 8, 7, 6, 5, 4, 3, 2, 1]);
    assert_eq!(decode_request(&bytes), Some(RequestOutput::Exec(h)));
}

#[test]
fn request_layout_matches_bincode() {
    let h = ExecHeader { body_size: 4242 };
    let expected = bincode::serialize(&(1u32, 4242u64)).unwrap();
    assert_eq!(encode_request(&RequestInput::Exec(h)), expected);
    assert_eq!(encode_request(&RequestInput::Stop), bincode::serialize(&0u32).unwrap());
}

#[test]
fn request_rejects_bad_input() {
    assert_eq!(decode_request(&[]), None);
    assert_eq!(decode_request(&[0, 0, 0]), None);
    assert_eq!(decode_request(&[0, 0, 0, 0, 0]), None);
    assert_eq!(decode_request(&[2, 0, 0, 0]), None);
    assert_eq!(decode_request(&[1, 0, 0, 0, 1, 2, 3]), None);
}

#[test]
fn signal_round_trip() {
    for v in [10, -20, 0, i32::MIN, i32::MAX] {
        let bytes = encode_signal(&Signal(v));
        assert_eq!(bytes, bincode::serialize(&v).unwrap());
        assert_eq!(decode_signal(&bytes), Some(Signal(v)));
    }
    assert_eq!(decode_signal(&[1, 2, 3]), None);
    assert_eq!(decode_signal(&[1, 2, 3, 4, 5]), None);
}

#[test]
fn result_round_trip() {
    for r in [
        ProcessResult::Undefined,
        ProcessResult::Exit(7),
        ProcessResult::Exit(-1),
        ProcessResult::Signal(15),
    ] {
        let bytes = encode_result(&r);
        assert_eq!(decode_result(&bytes), Some(r));
    }
    assert_eq!(encode_result(&ProcessResult::Exit(7)), bincode::serialize(&(1u32, 7i32)).unwrap());
    assert_eq!(encode_result(&ProcessResult::Signal(9)), vec![2, 0, 0, 0, 9, 0, 0, 0]);
    assert_eq!(decode_result(&[3, 0, 0, 0, 1, 0, 0, 0]), None);
    assert_eq!(decode_result(&[0, 0, 0, 0, 1]), None);
}

#[test]
fn started_round_trip() {
    let ok = StartedProcess { success: true, message: String::new(), errno: 0, pid: 4321 };
    let bytes = encode_started(&ok);
    assert_eq!(bytes, bincode::serialize(&(true, "", 0i32, 4321i32)).unwrap());
    let back = decode_started(&bytes).unwrap();
    assert!(back.success);
    assert_eq!(back.message, "");
    assert_eq!(back.errno, 0);
    assert_eq!(back.pid, 4321);

    let failed = StartedProcess {
        success: false,
        message: "No such file or directory (os error 2)".to_string(),
        errno: 2,
        pid: -1,
    };
    let back = decode_started(&encode_started(&failed)).unwrap();
    assert!(!back.success);
    assert_eq!(back.message, failed.message);
    assert_eq!(back.errno, 2);
    assert_eq!(back.pid, -1);
}

#[test]
fn started_rejects_bad_bool_and_utf8() {
    let mut bytes = encode_started(&StartedProcess {
        success: true,
        message: "ab".to_string(),
        errno: 0,
        pid: 1,
    });
    let good = bytes.clone();
    bytes[0] = 2;
    assert!(decode_started(&bytes).is_none());
    let mut bad_utf8 = good.clone();
    bad_utf8[9] = 0xff;
    assert!(decode_started(&bad_utf8).is_none());
    let mut trailing = good.clone();
    trailing.push(0);
    assert!(decode_started(&trailing).is_none());
    assert!(decode_started(&good).is_some());
}

#[test]
fn exec_body_round_trip() {
    let body = sample_body();
    let bytes = encode_exec(&body);
    let back = decode_exec_body(&bytes).unwrap();
    assert_eq!(back.program, body.program);
    assert_eq!(back.argv, body.argv);
    assert_eq!(back.cwd, body.cwd);
    assert_eq!(back.env, body.env);
    assert_eq!(back.startup, body.startup);
    assert_eq!(back.io, body.io);
    assert_eq!(back.pgid, body.pgid);
    assert_eq!(back.uid, body.uid);
    assert_eq!(back.gid, body.gid);
    assert_eq!(back.deathsig, body.deathsig);
    assert_eq!(back.connsig, body.connsig);
}

#[test]
fn exec_body_layout_matches_bincode() {
    let body = sample_body();
    let expected = bincode::serialize(&(
        "/bin/sh",
        vec!["-c", "echo hello"],
        "/tmp",
        vec![("PATH", "/usr/bin:/bin"), ("LANG", "C.UTF-8 ü")],
        PROCESS_GROUP | DETACH_TERMINAL,
        IO_ALL,
        (0i32, -1i32, 1000i32, 9i32, 15i32),
    ))
    .unwrap();
    assert_eq!(encode_exec(&body), expected);
}

#[test]
fn exec_body_empty_lists() {
    let body = ExecRequestInput {
        program: "true".to_string(),
        argv: vec![],
        cwd: String::new(),
        env: vec![],
        startup: 0,
        io: IO_IN | IO_ERR,
        pgid: 0,
        uid: -1,
        gid: -1,
        deathsig: 0,
        connsig: 9,
    };
    let bytes = encode_exec(&body);
    assert_eq!(bytes.len(), 8 + 4 + 8 + 8 + 8 + 28);
    let back = decode_exec_body(&bytes).unwrap();
    assert!(back.argv.is_empty());
    assert!(back.env.is_empty());
    assert_eq!(back.io, IO_IN | IO_ERR);
}

#[test]
fn exec_body_rejects_truncation_and_trailing_bytes() {
    let bytes = encode_exec(&sample_body());
    for cut in [0, 1, 8, bytes.len() / 2, bytes.len() - 1] {
        assert!(decode_exec_body(&bytes[..cut]).is_none());
    }
    let mut longer = bytes.clone();
    longer.push(0);
    assert!(decode_exec_body(&longer).is_none());
}

#[test]
fn exec_body_rejects_huge_list_count() {
    let mut bytes = Vec::new();
    bytes.extend_from_slice(&1u64.to_le_bytes());
    bytes.push(b'x');
    bytes.extend_from_slice(&u64::MAX.to_le_bytes());
    assert!(decode_exec_body(&bytes).is_none());
}
