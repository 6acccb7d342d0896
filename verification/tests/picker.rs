use dshell::picker::{
    find_double_crlf, fresh_token, json_string, parse_head, read_request, token_of, Bridge, Picking,
    Reading, Reply, Request, HEAD_BYTES, PICK_PATH,
};

fn request(method: &str, path: &str, token: Option<&str>) -> Request {
    Request {
        method: method.to_string(),
        path: path.to_string(),
        token: token.map(|t| t.to_string()),
        origin: None,
    }
}

fn answer(p: Picking) -> Reply {
    match p {
        Picking::Answer(a) => a,
        Picking::Choose => panic!("an answer was due"),
    }
}

#[test]
fn head_ends_at_the_first_empty_line() {
    assert_eq!(find_double_crlf(&b"ab\r\n\r\nc\r\n\r\n".to_vec()), Some(2));
    assert_eq!(find_double_crlf(&b"ab\r\n\r".to_vec()), None);
    assert_eq!(find_double_crlf(&b"\r\n\r\n".to_vec()), Some(0));
}

#[test]
fn heads_are_read() {
    let q = parse_head(
        "POST /_dsh/desktop/pick-directory HTTP/1.1\r\nHost: x\r\nX-DShell-Token:  abc \r\nORIGIN: http://127.0.0.1:1",
    );
    assert_eq!(q.method, "POST");
    assert_eq!(q.path, PICK_PATH);
    assert_eq!(q.token, Some("abc".to_string()));
    assert_eq!(q.origin, Some("http://127.0.0.1:1".to_string()));
    let q = parse_head("");
    assert_eq!((q.method.as_str(), q.path.as_str()), ("", ""));
    assert_eq!(q.token, None);
    let q = parse_head("GET\r\nno colon\r\nx-dshell-token: 1\r\nx-dshell-token: 2:3");
    assert_eq!((q.method.as_str(), q.path.as_str()), ("GET", ""));
    assert_eq!(q.token, Some("2:3".to_string()));
}

#[test]
fn requests_arrive_in_pieces() {
    let mut buf = Vec::new();
    assert!(matches!(read_request(&mut buf, b"POST /x HTTP/1.1\r\n"), Reading::More));
    match read_request(&mut buf, b"x-dshell-token: t\r\n\r\nbody") {
        Reading::Done(q) => {
            assert_eq!(q.method, "POST");
            assert_eq!(q.path, "/x");
            assert_eq!(q.token, Some("t".to_string()));
        }
        _ => panic!("the head is complete"),
    }
}

#[test]
fn odd_bytes_do_not_stop_a_request() {
    let mut buf = Vec::new();
    match read_request(&mut buf, b"GET /\xff\xfe HTTP/1.1\r\n\r\n") {
        Reading::Done(q) => assert_eq!(q.path, "/\u{fffd}\u{fffd}"),
        _ => panic!("the head is complete"),
    }
}

#[test]
fn unfinished_and_endless_requests_are_dropped() {
    let mut buf = Vec::new();
    assert!(matches!(read_request(&mut buf, b""), Reading::Closed));
    let mut buf = Vec::new();
    assert!(matches!(read_request(&mut buf, &vec![b'a'; HEAD_BYTES]), Reading::More));
    assert!(matches!(read_request(&mut buf, b"\r\n\r\n"), Reading::TooLarge));
}

#[test]
fn replies_are_framed() {
    let r = Reply::new(200, "OK", "{\"path\":\"体\"}");
    assert_eq!(
        r.write_json(),
        "HTTP/1.1 200 OK\r\nContent-Type: application/json; charset=utf-8\r\nContent-Length: 14\r\nCache-Control: no-store\r\nConnection: close\r\n\r\n{\"path\":\"体\"}"
    );
}

#[test]
fn paths_survive_json() {
    for s in ["C:\\a \"b\"", "x\ny\rz\tw", "\u{1}\u{1f}", "体验", ""] {
        let j = json_string(s);
        let back: String = serde_json::from_str(&j).expect("valid JSON");
        assert_eq!(back, s);
    }
    assert_eq!(json_string("\u{1b}\\\""), "\"\\u001b\\\\\\\"\"");
}

#[test]
fn tokens_are_hexadecimal() {
    assert_eq!(token_of(0xabc, u64::MAX), "0000000000000abcffffffffffffffff");
    let a = fresh_token(80);
    let b = fresh_token(80);
    assert_eq!(a.len(), 32);
    assert!(a.chars().all(|c| c.is_ascii_hexdigit() && !c.is_ascii_uppercase()));
    assert_ne!(a, b);
    assert_ne!(a[..16], a[16..]);
}

#[test]
fn only_the_token_opens_the_chooser() {
    let mut b = Bridge::new();
    assert_eq!(b.port(), 0);
    assert!(b.auth_token().is_none());
    let r = answer(b.handle(&request("POST", PICK_PATH, Some("x"))));
    assert_eq!(r.status, 403);
    assert_eq!(b.start(4321), 4321);
    assert_eq!(b.port(), 4321);
    let token = b.auth_token().expect("it listens");
    let r = answer(b.handle(&request("POST", "/other", Some(&token))));
    assert_eq!((r.status, r.reason, r.body.as_str()), (404, "Not Found", "{\"error\":\"not found\"}"));
    let r = answer(b.handle(&request("GET", PICK_PATH, Some(&token))));
    assert_eq!((r.status, r.reason), (405, "Method Not Allowed"));
    let r = answer(b.handle(&request("POST", PICK_PATH, None)));
    assert_eq!((r.status, r.body.as_str()), (403, "{\"error\":\"forbidden\"}"));
    assert!(!b.dialog_open);
    assert!(matches!(b.handle(&request("POST", PICK_PATH, Some(&token))), Picking::Choose));
}

#[test]
fn one_chooser_at_a_time() {
    let mut b = Bridge::new();
    b.start(1);
    let token = b.auth_token().expect("it listens");
    let q = request("POST", PICK_PATH, Some(&token));
    assert!(matches!(b.handle(&q), Picking::Choose));
    let again = answer(b.handle(&q));
    assert_eq!((again.status, again.body.as_str()), (200, "{\"path\":null}"));
    let r = b.pick_directory(true, Some("D:\\work"));
    assert_eq!(r.body, "{\"path\":\"D:\\\\work\"}");
    assert!(matches!(b.handle(&q), Picking::Choose));
    assert_eq!(b.pick_directory(true, None).body, "{\"path\":null}");
    assert!(matches!(b.handle(&q), Picking::Choose));
    let r = b.pick_directory(false, None);
    assert_eq!(r.status, 500);
    assert_eq!(r.body, "{\"error\":\"native directory picker failed\"}");
    assert!(!b.dialog_open);
}
