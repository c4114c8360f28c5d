use smarthome::{handle_chunk, handle_text, SmartSocket};

fn send(s: &mut SmartSocket, bytes: &[u8]) -> (String, bool) {
    let r = handle_chunk(s, bytes);
    (r.output, r.close)
}

#[test]
fn end_to_end_session() {
    let mut s = SmartSocket::new();
    assert_eq!(send(&mut s, b"status\r\n"), ("state: off\n".to_string(), false));
    assert_eq!(send(&mut s, b"turn on\r\n"), ("+OK\n".to_string(), false));
    assert_eq!(send(&mut s, b"load 100\r\n"), ("+OK\n".to_string(), false));
    assert_eq!(send(&mut s, b"status\r\n"), ("state: on. load: 100\n".to_string(), false));
    assert_eq!(send(&mut s, b"turn off\r\n"), ("+OK\n".to_string(), false));
    assert_eq!(send(&mut s, b"status\r\n"), ("state: off\n".to_string(), false));
    assert_eq!(send(&mut s, b"exit\r\n"), (String::new(), true));
}

#[test]
fn exit_closes_without_reply() {
    for chunk in [&b"exit"[..], b"exit\n", b"exit\r\n"] {
        let mut s = SmartSocket { on: true, load: 3 };
        assert_eq!(send(&mut s, chunk), (String::new(), true));
        assert!(s.on);
        assert_eq!(s.load, 3);
    }
}

#[test]
fn state_survives_into_next_session() {
    let mut s = SmartSocket::new();
    assert_eq!(send(&mut s, b"turn on\nload 9\nexit\n"), ("+OK\n+OK\n".to_string(), true));
    assert_eq!(send(&mut s, b"status\n"), ("state: on. load: 9\n".to_string(), false));
}

#[test]
fn lines_after_exit_are_dropped() {
    let mut s = SmartSocket::new();
    assert_eq!(send(&mut s, b"turn on\nexit\nload 5\n"), ("+OK\n".to_string(), true));
    assert!(s.on);
    assert_eq!(s.load, 0);
}

#[test]
fn several_commands_in_one_read() {
    let mut s = SmartSocket::new();
    let (out, close) = send(&mut s, b"turn on\nload 5\nstatus\nbogus\nload x\n");
    assert_eq!(out, "+OK\n+OK\nstate: on. load: 5\n-unknown command\r\nerror while parsing load\r\n");
    assert!(!close);
}

#[test]
fn errors_end_with_crlf() {
    let mut s = SmartSocket::new();
    assert_eq!(send(&mut s, b"bogus\r\n"), ("-unknown command\r\n".to_string(), false));
    assert_eq!(send(&mut s, b"load abc\n"), ("error while parsing load\r\n".to_string(), false));
}

#[test]
fn only_one_line_end_is_stripped() {
    let mut s = SmartSocket::new();
    assert_eq!(send(&mut s, b"\n"), ("-unknown command\r\n".to_string(), false));
    assert_eq!(send(&mut s, b"status\n\n"), ("state: off\n-unknown command\r\n".to_string(), false));
    assert_eq!(send(&mut s, b"status\r\n\r\n"), ("-unknown command\r\n-unknown command\r\n".to_string(), false));
    assert_eq!(send(&mut s, b"status"), ("state: off\n".to_string(), false));
}

#[test]
fn empty_read_closes() {
    let mut s = SmartSocket { on: true, load: 1 };
    assert_eq!(send(&mut s, b""), (String::new(), true));
    assert!(s.on);
    assert_eq!(s.load, 1);
}

#[test]
fn invalid_utf8_is_dropped() {
    let mut s = SmartSocket::new();
    assert_eq!(send(&mut s, &[0xff, b't', b'u', b'r', b'n', b'\n']), (String::new(), false));
    assert_eq!(send(&mut s, &[b't', b'u', b'r', b'n', b' ', b'o', b'n', 0xc3]), (String::new(), false));
    assert!(!s.on);
}

#[test]
fn multibyte_text_is_decoded() {
    let mut s = SmartSocket::new();
    assert_eq!(send(&mut s, "st\u{e9}tus\n".as_bytes()), ("-unknown command\r\n".to_string(), false));
    assert_eq!(send(&mut s, "load \u{661}\n".as_bytes()), ("error while parsing load\r\n".to_string(), false));
    assert_eq!(send(&mut s, "turn on".as_bytes()), ("+OK\n".to_string(), false));
    assert!(s.on);
}

#[test]
fn text_is_served_like_bytes() {
    let mut s = SmartSocket::new();
    let r = handle_text(&mut s, "turn on\nload 42\r\n");
    assert_eq!(r.output, "+OK\n+OK\n");
    assert!(!r.close);
    assert!(s.on);
    assert_eq!(s.load, 42);
    let r = handle_text(&mut s, "turn off\r\nstatus\r\n");
    assert_eq!(r.output, "-unknown command\r\nstate: on. load: 42\n");
    assert!(s.on);
}
