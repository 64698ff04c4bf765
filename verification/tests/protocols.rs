use terminator::b64::{base64_decode, base64_encode};
use terminator::client::{
    base_url, find_double_newline, parse_port_file, take_event_data, RetryAction, RetryEvent, RetryPhase,
};
use terminator::socks5::{connect_failed_reply, connect_succeeded_reply, Socks5Error, Socks5Handshake, Step, Target};

fn feed(h: &mut Socks5Handshake, bytes: &[u8]) -> Step {
    assert_eq!(h.want(), bytes.len());
    h.feed(bytes)
}

#[test]
fn socks5_connect_to_a_domain() {
    let mut h = Socks5Handshake::new();
    assert!(matches!(feed(&mut h, &[5, 1]), Step::Continue));
    match feed(&mut h, &[0]) {
        Step::Send(r) => assert_eq!(r, vec![5, 0]),
        other => panic!("expected the method reply, got {other:?}"),
    }
    assert!(matches!(feed(&mut h, &[5, 1, 0, 3]), Step::Continue));
    assert!(matches!(feed(&mut h, &[11]), Step::Continue));
    let mut name = b"example.com".to_vec();
    name.extend_from_slice(&[0x01, 0xbb]);
    match feed(&mut h, &name) {
        Step::Connect { target: Target::Domain(d), port } => {
            assert_eq!(d, "example.com");
            assert_eq!(port, 443);
        }
        other => panic!("expected a connect, got {other:?}"),
    }
    assert!(h.is_finished());
    assert_eq!(h.want(), 0);
}

#[test]
fn socks5_connect_to_ipv4_without_methods() {
    let mut h = Socks5Handshake::new();
    assert!(matches!(feed(&mut h, &[5, 0]), Step::Send(_)));
    assert!(matches!(feed(&mut h, &[5, 1, 0, 1]), Step::Continue));
    match feed(&mut h, &[10, 0, 0, 7, 0, 22]) {
        Step::Connect { target: Target::Ipv4(a), port } => assert_eq!((a.as_str(), port), ("10.0.0.7", 22)),
        other => panic!("expected a connect, got {other:?}"),
    }
}

#[test]
fn socks5_ipv6_target_keeps_its_bytes() {
    let mut h = Socks5Handshake::new();
    feed(&mut h, &[5, 0]);
    feed(&mut h, &[5, 1, 0, 4]);
    let mut b = vec![0u8; 16];
    b[15] = 1;
    b.extend_from_slice(&[0, 80]);
    match feed(&mut h, &b) {
        Step::Connect { target: Target::Ipv6(a), port } => {
            assert_eq!(a.len(), 16);
            assert_eq!(a[15], 1);
            assert_eq!(port, 80);
        }
        other => panic!("expected a connect, got {other:?}"),
    }
}

#[test]
fn socks5_refusals() {
    let mut h = Socks5Handshake::new();
    match feed(&mut h, &[4, 1]) {
        Step::Refuse { reply: None, error } => {
            assert_eq!(error, Socks5Error::UnsupportedVersion(4));
            assert_eq!(error.message(), "unsupported SOCKS version: 4");
        }
        other => panic!("expected a refusal, got {other:?}"),
    }
    assert!(h.is_finished());

    let mut h = Socks5Handshake::new();
    feed(&mut h, &[5, 0]);
    match feed(&mut h, &[5, 2, 0, 1]) {
        Step::Refuse { reply: Some(r), error } => {
            assert_eq!(r, vec![5, 7, 0, 1, 0, 0, 0, 0, 0, 0]);
            assert_eq!(error.message(), "unsupported SOCKS5 command 2");
        }
        other => panic!("expected a refusal, got {other:?}"),
    }

    let mut h = Socks5Handshake::new();
    feed(&mut h, &[5, 0]);
    match feed(&mut h, &[5, 1, 0, 9]) {
        Step::Refuse { reply: Some(r), error } => {
            assert_eq!(r, vec![5, 8, 0, 1, 0, 0, 0, 0, 0, 0]);
            assert_eq!(error.message(), "unsupported address type 9");
        }
        other => panic!("expected a refusal, got {other:?}"),
    }

    let mut h = Socks5Handshake::new();
    feed(&mut h, &[5, 0]);
    match feed(&mut h, &[4, 1, 0, 1]) {
        Step::Refuse { reply: None, error } => assert_eq!(error.message(), "invalid SOCKS version in request"),
        other => panic!("expected a refusal, got {other:?}"),
    }
}

#[test]
fn socks5_channel_replies() {
    assert_eq!(connect_succeeded_reply(), vec![5, 0, 0, 1, 127, 0, 0, 1, 0, 0]);
    assert_eq!(connect_failed_reply(), vec![5, 1, 0, 1, 0, 0, 0, 0, 0, 0]);
}

#[test]
fn sse_events_end_at_a_blank_line() {
    assert_eq!(find_double_newline(b"data: x\n\n"), Some(7));
    assert_eq!(find_double_newline(b"data: x\r\n\r\nmore"), Some(7));
    assert_eq!(find_double_newline(b"data: x\n"), None);
    assert_eq!(find_double_newline(b""), None);
}

#[test]
fn sse_takes_one_event_at_a_time() {
    let mut buf = b"data: {\"type\":\"exit\"}\n\ndata: {\"a\":1}\r\n\r\npartial".to_vec();
    assert_eq!(take_event_data(&mut buf).as_deref(), Some("{\"type\":\"exit\"}"));
    assert_eq!(take_event_data(&mut buf).as_deref(), Some("{\"a\":1}"));
    assert_eq!(buf, b"partial".to_vec());
    assert_eq!(take_event_data(&mut buf), None);
    assert_eq!(buf, b"partial".to_vec());
}

#[test]
fn sse_joins_data_lines_and_ignores_other_fields() {
    let mut buf = b"event: x\ndata:a\r\ndata:   b\nid: 3\n\n".to_vec();
    assert_eq!(take_event_data(&mut buf).as_deref(), Some("a\nb"));
    assert!(buf.is_empty());
    let mut buf = b"event: only\n\n".to_vec();
    assert_eq!(take_event_data(&mut buf), None);
    assert!(buf.is_empty());
}

#[test]
fn the_port_file_holds_a_decimal_port() {
    assert_eq!(parse_port_file(" 8123\n"), Some(8123));
    assert_eq!(parse_port_file("+80"), Some(80));
    assert_eq!(parse_port_file("65536"), None);
    assert_eq!(parse_port_file("-1"), None);
    assert_eq!(parse_port_file(""), None);
    assert_eq!(parse_port_file("80x"), None);
    assert_eq!(base_url(8123), "http://127.0.0.1:8123");
}

#[test]
fn base64_round_trips() {
    let data = b"\x00\x01binary\xff";
    let text = base64_encode(data);
    assert_eq!(text, "AAFiaW5hcnn/");
    assert_eq!(base64_decode(&text).unwrap(), data.to_vec());
    assert!(base64_decode("not base64!").is_none());
}

#[test]
fn application_errors_are_not_retried() {
    let (p, a) = RetryPhase::begin();
    assert_eq!(a, RetryAction::Call);
    let (p, a) = p.step(RetryEvent::CallReturned { connection_error: false });
    assert_eq!((p, a), (RetryPhase::Finished, RetryAction::ReturnFirst));
}

#[test]
fn connection_errors_respawn_and_retry_once() {
    let (p, _) = RetryPhase::begin();
    let (p, a) = p.step(RetryEvent::CallReturned { connection_error: true });
    assert_eq!((p, a), (RetryPhase::Respawning, RetryAction::Respawn));
    let (p, a) = p.step(RetryEvent::RespawnReturned { ok: true });
    assert_eq!((p, a), (RetryPhase::Retrying, RetryAction::Call));
    let (p, a) = p.step(RetryEvent::CallReturned { connection_error: true });
    assert_eq!((p, a), (RetryPhase::Finished, RetryAction::ReturnSecond));
}

#[test]
fn failed_respawn_returns_the_first_error() {
    let (p, _) = RetryPhase::begin();
    let (p, _) = p.step(RetryEvent::CallReturned { connection_error: true });
    let (p, a) = p.step(RetryEvent::RespawnReturned { ok: false });
    assert_eq!((p, a), (RetryPhase::Finished, RetryAction::ReturnFirst));
}
