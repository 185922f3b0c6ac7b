use leader_election::headers::{
    first_header_value, header_values_are_text, last_header_text, read_request_headers, HeaderField,
};
use leader_election::protocol::{
    election_request, failure_request, id_change_request, ping_caller_id, ping_request, request_id,
    requested_function, route_request, server_url, PingError, RemoteCall, RequestError,
};

fn field(name: &str, value: &[u8]) -> HeaderField {
    HeaderField { name: name.to_string(), value: value.to_vec() }
}

fn buffer_of(text: &[u8]) -> [u8; 1024] {
    let mut buf = [0u8; 1024];
    buf[..text.len()].copy_from_slice(text);
    buf
}

fn httparse_names(buf: &[u8]) -> Option<Vec<(String, Vec<u8>)>> {
    let mut slots = [httparse::EMPTY_HEADER; 16];
    let mut req = httparse::Request::new(&mut slots);
    match req.parse(buf) {
        Ok(_) => Some(req.headers.iter().map(|h| (h.name.to_string(), h.value.to_vec())).collect()),
        Err(_) => None,
    }
}

#[test]
fn ping_caller_id_decodes_utf8_only() {
    assert_eq!(ping_caller_id(&vec![field("id", b"abc")]), Ok("abc".to_string()));
    assert_eq!(ping_caller_id(&vec![field("id", "h\u{e9}".as_bytes())]), Ok("h\u{e9}".to_string()));
    assert_eq!(ping_caller_id(&vec![field("id", &[0xff, 0x41])]), Err(PingError::IdNotText));
    assert_eq!(ping_caller_id(&vec![field("id", b"")]), Ok(String::new()));
    assert_eq!(ping_caller_id(&vec![field("fn", b"ping")]), Err(PingError::MissingId));
    assert_eq!(ping_caller_id(&vec![field("id", b"7"), field("id", &[0xff])]), Ok("7".to_string()));
}

#[test]
fn first_and_last_header_values() {
    let hs = vec![field("id", b"1"), field("fn", b"ping"), field("id", b"2"), field("fn", b"broadcast_id")];
    assert_eq!(first_header_value(&hs, &"id".to_string()), Some(b"1".to_vec()));
    assert_eq!(first_header_value(&hs, &"x".to_string()), None);
    assert_eq!(last_header_text(&hs, &"fn".to_string()), "broadcast_id".to_string());
    assert_eq!(last_header_text(&hs, &"absent".to_string()), String::new());
    assert!(header_values_are_text(&hs, &"fn".to_string()));
    let bad = vec![field("fn", &[0xc3]), field("fn", b"ping")];
    assert!(!header_values_are_text(&bad, &"fn".to_string()));
    assert!(header_values_are_text(&bad, &"id".to_string()));
}

#[test]
fn header_names_are_case_sensitive() {
    let hs = vec![field("Fn", b"ping")];
    assert_eq!(requested_function(&hs), RemoteCall::Unknown);
}

#[test]
fn request_headers_match_httparse() {
    let samples: Vec<&[u8]> = vec![
        b"GET / HTTP/1.1\r\nfn: ping\r\nid: 7\r\n\r\n",
        b"GET / HTTP/1.1\r\nhost: x\r\n\r\n",
        b"not http at all",
        b"GET / HTTP/1.1\r\nfn: ping\r\n",
        b"",
    ];
    for text in samples {
        let buf = buffer_of(text);
        let ours = read_request_headers(&buf).map(|hs| hs.into_iter().map(|h| (h.name, h.value)).collect::<Vec<_>>());
        assert_eq!(ours, httparse_names(&buf));
    }
}

#[test]
fn request_headers_parsed_from_complete_head() {
    let buf = buffer_of(b"GET / HTTP/1.1\r\nfn: init_election\r\nid: 1\r\n\r\n");
    let hs = read_request_headers(&buf).unwrap();
    assert_eq!(hs.len(), 2);
    assert_eq!(hs[0].name, "fn");
    assert_eq!(hs[0].value, b"init_election".to_vec());
    assert_eq!(hs[1].name, "id");
}

#[test]
fn too_many_headers_is_malformed() {
    let mut text = b"GET / HTTP/1.1\r\n".to_vec();
    for i in 0..17 {
        text.extend_from_slice(format!("h{}: v\r\n", i).as_bytes());
    }
    text.extend_from_slice(b"\r\n");
    let buf = buffer_of(&text);
    assert!(read_request_headers(&buf).is_none());
    assert!(matches!(route_request(&buf), Err(RequestError::Malformed)));
}

#[test]
fn route_request_finds_each_call() {
    let cases: Vec<(&[u8], RemoteCall)> = vec![
        (b"GET / HTTP/1.1\r\nfn: init_election\r\n\r\n", RemoteCall::InitElection),
        (b"GET / HTTP/1.1\r\nfn: force_failure\r\n\r\n", RemoteCall::ForceFailure),
        (b"GET / HTTP/1.1\r\nfn: broadcast_id\r\nold_id: 0\r\n\r\n", RemoteCall::BroadcastId),
        (b"GET / HTTP/1.1\r\nid: 3\r\nfn: ping\r\n\r\n", RemoteCall::Ping),
        (b"GET / HTTP/1.1\r\nfn: reboot\r\n\r\n", RemoteCall::Unknown),
        (b"GET / HTTP/1.1\r\nhost: a\r\n\r\n", RemoteCall::Unknown),
        (b"GET / HTTP/1.1\r\nfn: ping\r\nfn: init_election\r\n\r\n", RemoteCall::InitElection),
    ];
    for (text, call) in cases {
        let routed = route_request(&buffer_of(text)).ok().unwrap();
        assert_eq!(routed.call, call);
    }
}

#[test]
fn route_request_errors() {
    assert!(matches!(route_request(&buffer_of(b"garbage\x01\r\n\r\n")), Err(RequestError::Malformed)));
    assert!(matches!(
        route_request(&buffer_of(b"GET / HTTP/1.1\r\nfn: \xff\xfe\r\n\r\n")),
        Err(RequestError::CallNameNotText)
    ));
}

#[test]
fn outgoing_requests_carry_their_headers() {
    let url = server_url(&"10.0.0.1:50050".to_string());
    assert_eq!(url, "http://10.0.0.1:50050");
    let r = failure_request(&url);
    assert_eq!(r.url, url);
    assert_eq!(r.headers.len(), 1);
    assert_eq!(requested_function(&r.headers), RemoteCall::ForceFailure);
    let e = election_request(&url);
    assert_eq!(requested_function(&e.headers), RemoteCall::InitElection);
    assert_eq!(first_header_value(&e.headers, &"id".to_string()), Some(b"1".to_vec()));
    let p = ping_request(&url, b"17");
    assert_eq!(requested_function(&p.headers), RemoteCall::Ping);
    assert_eq!(request_id(&p.headers), Some(b"17".to_vec()));
    let c = id_change_request(&url, &"0".to_string(), &"3".to_string(), &"http://me".to_string());
    assert_eq!(requested_function(&c.headers), RemoteCall::BroadcastId);
    assert_eq!(last_header_text(&c.headers, &"old_id".to_string()), "0");
    assert_eq!(last_header_text(&c.headers, &"new_id".to_string()), "3");
    assert_eq!(last_header_text(&c.headers, &"new_ip".to_string()), "http://me");
}

#[test]
fn request_id_missing() {
    let hs = vec![field("fn", b"ping")];
    assert_eq!(request_id(&hs), None);
}
