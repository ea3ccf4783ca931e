use concurr::codec::{
    decode_info_line, decode_response, encode_request, encode_response, parse_frame, CodecError,
    ConcurrCodec, JobEvent, ResponseEvent,
};

fn decode(bytes: &[u8]) -> (Result<Option<JobEvent>, CodecError>, Vec<u8>) {
    let mut buf = bytes.to_vec();
    let r = ConcurrCodec.decode(&mut buf);
    (r, buf)
}

#[test]
fn decodes_each_request() {
    assert_eq!(decode(b"com echo {}\r\n").0, Ok(Some(JobEvent::Command("echo {}".into()))));
    assert_eq!(decode(b"inp 1 2 a b\r\n").0, Ok(Some(JobEvent::Input(1, 2, "a b".into()))));
    assert_eq!(decode(b"inp 1 2 \r\n").0, Ok(Some(JobEvent::Input(1, 2, "".into()))));
    assert_eq!(decode(b"get comms\r\n").0, Ok(Some(JobEvent::GetCommands)));
    assert_eq!(decode(b"get cores\r\n").0, Ok(Some(JobEvent::GetCores)));
    assert_eq!(decode(b"del 3\r\n").0, Ok(Some(JobEvent::StopJob(3))));
}

#[test]
fn incomplete_frame_waits() {
    let (r, rest) = decode(b"get cor");
    assert_eq!(r, Ok(None));
    assert_eq!(rest, b"get cor".to_vec());
}

#[test]
fn frames_are_taken_one_at_a_time() {
    let (r, rest) = decode(b"del 1\r\nget cores\r\nget");
    assert_eq!(r, Ok(Some(JobEvent::StopJob(1))));
    assert_eq!(rest, b"get cores\r\nget".to_vec());
    let (r, rest) = decode(&rest);
    assert_eq!(r, Ok(Some(JobEvent::GetCores)));
    assert_eq!(rest, b"get".to_vec());
}

#[test]
fn each_refusal() {
    assert_eq!(decode(b"com\r\n").0, Err(CodecError::InvalidCall));
    assert_eq!(decode(b"xyz abc\r\n").0, Err(CodecError::InvalidInstruction));
    assert_eq!(decode(b"comXabc\r\n").0, Err(CodecError::InvalidInstruction));
    assert_eq!(decode(b"com \xff\xfe\r\n").0, Err(CodecError::InvalidUtf8));
    assert_eq!(decode(b"inp 1 2 \xff\r\n").0, Err(CodecError::InvalidUtf8));
    assert_eq!(decode(b"del abc\r\n").0, Err(CodecError::NotANumber));
    assert_eq!(decode(b"inp x 2 a\r\n").0, Err(CodecError::NotANumber));
    assert_eq!(decode(b"get foo\r\n").0, Err(CodecError::UnsupportedValue));
    assert_eq!(decode(b"inp 1\r\n").0, Err(CodecError::NotEnoughArguments));
    assert_eq!(decode(b"inp 1 2\r\n").0, Err(CodecError::NotEnoughArguments));
    let (r, rest) = decode(b"get cores\nmore");
    assert_eq!(r, Err(CodecError::BareLineFeed));
    assert_eq!(rest, b"more".to_vec());
    assert_eq!(decode(b"\n").0, Err(CodecError::BareLineFeed));
}

#[test]
fn frame_body_parsing() {
    assert_eq!(parse_frame(b"del +5"), Ok(Some(JobEvent::StopJob(5))));
    assert_eq!(JobEvent::get_option(b"cores"), Ok(Some(JobEvent::GetCores)));
    assert_eq!(JobEvent::get_option(b"core"), Err(CodecError::UnsupportedValue));
    assert_eq!(JobEvent::get_command(b"ls"), Ok(Some(JobEvent::Command("ls".into()))));
    assert_eq!(JobEvent::del_command(b"9"), Ok(Some(JobEvent::StopJob(9))));
    assert_eq!(JobEvent::get_input(b"0 0 x"), Ok(Some(JobEvent::Input(0, 0, "x".into()))));
}

#[test]
fn encodes_requests() {
    assert_eq!(encode_request(&JobEvent::Input(1, 2, "abc".into())), b"inp 1 2 abc\r\n".to_vec());
    assert_eq!(encode_request(&JobEvent::Command("echo {}".into())), b"com echo {}\r\n".to_vec());
    assert_eq!(encode_request(&JobEvent::GetCores), b"get cores\r\n".to_vec());
    assert_eq!(encode_request(&JobEvent::GetCommands), b"get comms\r\n".to_vec());
    assert_eq!(encode_request(&JobEvent::StopJob(12)), b"del 12\r\n".to_vec());
}

#[test]
fn request_round_trip() {
    let events = vec![
        JobEvent::Command("sh -c 'exit {}'".into()),
        JobEvent::Input(0, 17, "a b \u{e9}".into()),
        JobEvent::Input(usize::MAX, 0, "".into()),
        JobEvent::GetCommands,
        JobEvent::GetCores,
        JobEvent::StopJob(4),
    ];
    for e in events {
        let mut buf = encode_request(&e);
        buf.extend_from_slice(b"tail");
        let r = ConcurrCodec.decode(&mut buf);
        assert_eq!(r, Ok(Some(e)));
        assert_eq!(buf, b"tail".to_vec());
    }
}

#[test]
fn encodes_responses() {
    let out = ResponseEvent::Output(0, 0, "one\n".into(), "".into());
    assert_eq!(encode_response(&out), b"0 0\none\\n\n\r\n".to_vec());
    let err = ResponseEvent::Error(2, "a\\b".into());
    assert_eq!(encode_response(&err), b"ERR 2 a\\\\b\r\n".to_vec());
    assert_eq!(encode_response(&ResponseEvent::Info("3".into())), b"3\r\n".to_vec());
    let mut buf = b"x".to_vec();
    ConcurrCodec.encode(ResponseEvent::Info("deleted job".into()), &mut buf);
    assert_eq!(buf, b"xdeleted job\r\n".to_vec());
}

#[test]
fn response_round_trip() {
    let responses = vec![
        ResponseEvent::Output(0, 0, "one\n".into(), "".into()),
        ResponseEvent::Output(5, 255, "a\r".into(), "w\\arn\r\n".into()),
        ResponseEvent::Error(3, "nonexistentbinary x\n".into()),
    ];
    for m in responses {
        let mut buf = encode_response(&m);
        buf.extend_from_slice(b"0 0\n");
        let r = decode_response(&mut buf);
        assert_eq!(r, Ok(Some(m)));
        assert_eq!(buf, b"0 0\n".to_vec());
    }
}

#[test]
fn response_waits_for_three_lines() {
    let mut buf = b"0 0\none\\n\n".to_vec();
    assert_eq!(decode_response(&mut buf), Ok(None));
    assert_eq!(buf, b"0 0\none\\n\n".to_vec());
}

#[test]
fn response_refusals() {
    let mut buf = b"0 x\n\n\r\n".to_vec();
    assert_eq!(decode_response(&mut buf), Err(CodecError::NotANumber));
    let mut buf = b"0 0\n\n\n".to_vec();
    assert_eq!(decode_response(&mut buf), Err(CodecError::BareLineFeed));
    let mut buf = b"00\n\n\r\n".to_vec();
    assert_eq!(decode_response(&mut buf), Err(CodecError::NotEnoughArguments));
}

#[test]
fn info_round_trip() {
    let mut buf = encode_response(&ResponseEvent::Info("8".into()));
    assert_eq!(decode_info_line(&mut buf), Ok(Some("8".to_string())));
    assert!(buf.is_empty());
    let mut buf = b"8\n".to_vec();
    assert_eq!(decode_info_line(&mut buf), Err(CodecError::BareLineFeed));
}

#[test]
fn echo_literals_scenario() {
    for (jid, word) in ["one", "two", "three"].iter().enumerate() {
        let m = ResponseEvent::Output(jid, 0, format!("{}\n", word), String::new());
        let mut buf = Vec::new();
        ConcurrCodec.encode(m, &mut buf);
        match decode_response(&mut buf) {
            Ok(Some(ResponseEvent::Output(id, 0, out, err))) => {
                assert_eq!(id, jid);
                assert_eq!(out, format!("{}\n", word));
                assert_eq!(err, "");
            }
            other => panic!("{:?}", other),
        }
    }
}

#[test]
fn non_zero_exit_scenario() {
    for st in [0u8, 1, 2] {
        let mut buf = encode_response(&ResponseEvent::Output(st as usize, st, String::new(), String::new()));
        match decode_response(&mut buf) {
            Ok(Some(ResponseEvent::Output(_, got, _, _))) => assert_eq!(got, st),
            other => panic!("{:?}", other),
        }
    }
}

#[test]
fn large_output_scenario() {
    let big = "x\n".repeat(524288);
    assert_eq!(big.len(), 1048576);
    let mut buf = encode_response(&ResponseEvent::Output(0, 0, big.clone(), String::new()));
    match decode_response(&mut buf) {
        Ok(Some(ResponseEvent::Output(0, 0, out, _))) => assert_eq!(out.len(), 1048576),
        other => panic!("{:?}", other.map(|_| ())),
    }
}
