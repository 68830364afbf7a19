use samples::grpc::ApiImpl;
use samples::wsgi::{
    error_reply, head_action, internal_error, parse_usize, readline_step, response_head, EnvironValue,
    HeadAction, HeaderReader, WsgiEnviron, WsgiServer,
};
use std::path::PathBuf;

fn read_head(bytes: &[u8]) -> (Vec<u8>, usize) {
    let mut r = HeaderReader::new();
    let mut used = 0;
    for b in bytes {
        used += 1;
        if r.feed(Some(*b)) {
            return (r.head, used);
        }
    }
    r.feed(None);
    (r.head, used)
}

const REQUEST: &[u8] = b"GET /app?x=1&y HTTP/1.1\r\nHost: 127.0.0.1:8000\r\nX-Foo-Bar: baz\r\nContent-Length: 5\r\nContent-Type: text/plain\r\n\r\nhello";

#[test]
fn the_head_ends_at_an_empty_line() {
    let (head, used) = read_head(REQUEST);
    assert_eq!(used, REQUEST.len() - 5);
    assert_eq!(&head[..], &REQUEST[..REQUEST.len() - 5]);
    let (head, used) = read_head(b"GET / HTTP/1.1\r\nHost: x");
    assert_eq!(used, 23);
    assert_eq!(&head[..], b"GET / HTTP/1.1\r\nHost: x");
}

#[test]
fn heads_are_served_or_refused() {
    let (head, _) = read_head(REQUEST);
    let req = match head_action(&head) {
        HeadAction::Serve(req) => req,
        _ => panic!("not served"),
    };
    assert_eq!(req.method, Some("GET".to_string()));
    assert_eq!(req.path, Some("/app?x=1&y".to_string()));
    assert_eq!(req.version, Some(1));
    assert_eq!(req.headers.len(), 4);
    assert!(matches!(head_action(b"GET / HTTP/1.1\r\nHost: x"), HeadAction::Incomplete));
    assert!(matches!(head_action(b"\x01\x02 nonsense\r\n\r\n"), HeadAction::Invalid));
    assert_eq!(internal_error(0), "HTTP/1.0 500 INTERNAL SERVER ERROR\r\n\r\n");
    assert_eq!(internal_error(1), "HTTP/1.1 500 INTERNAL SERVER ERROR\r\n\r\n");
}

#[test]
fn the_environment_of_a_request() {
    let (head, _) = read_head(REQUEST);
    let req = match head_action(&head) {
        HeadAction::Serve(req) => req,
        _ => panic!("not served"),
    };
    let addrs = vec![Some(("127.0.0.1".to_string(), "8000".to_string())), None, None, None];
    let env = WsgiEnviron::new(&req, &addrs, "10.0.0.2".to_string(), false).ok().unwrap();
    assert_eq!(env.request_method, "GET");
    assert_eq!(env.script_name, "");
    assert_eq!(env.path_info, "/app");
    assert_eq!(env.query_string, Some("x=1&y".to_string()));
    assert_eq!(env.content_type, Some("text/plain".to_string()));
    assert_eq!(env.content_length, Some("5".to_string()));
    assert_eq!(env.server_name, "127.0.0.1");
    assert_eq!(env.server_port, "8000");
    assert_eq!(env.server_protocol, "HTTP/1.1");
    assert_eq!(env.remote_addr, "10.0.0.2");
    assert_eq!(env.remote_host, "10.0.0.2");
    assert_eq!(env.http_headers, vec![("HTTP_X_FOO_BAR".to_string(), "baz".to_string())]);

    let items = env.to_dict();
    let keys: Vec<&str> = items.iter().map(|(k, _)| k.as_str()).collect();
    assert_eq!(
        keys,
        vec![
            "REQUEST_METHOD", "SCRIPT_NAME", "PATH_INFO", "QUERY_STRING", "CONTENT_TYPE",
            "CONTENT_LENGTH", "SERVER_NAME", "SERVER_PORT", "SERVER_PROTOCOL", "REMOTE_ADDR",
            "REMOTE_HOST", "HTTPS", "HTTP_X_FOO_BAR", "wsgi.input", "wsgi.errors", "wsgi.version",
            "wsgi.url_scheme", "wsgi.multithread", "wsgi.multiprocess", "wsgi.run_once",
        ]
    );
    assert!(matches!(items[13].1, EnvironValue::Input { length: 5, debug: false }));
    assert!(matches!(&items[11].1, EnvironValue::Text(t) if t == "off"));
    assert!(matches!(&items[16].1, EnvironValue::Text(t) if t == "http"));
}

#[test]
fn defaults_without_host_or_path() {
    let req = samples::wsgi::HttpRequest {
        method: None,
        path: None,
        version: None,
        headers: vec![("Host".to_string(), b"localhost:80".to_vec())],
    };
    let env = WsgiEnviron::new(&req, &vec![None], "r".to_string(), true).ok().unwrap();
    assert_eq!(env.request_method, "GET");
    assert_eq!(env.path_info, "/");
    assert_eq!(env.query_string, None);
    assert_eq!(env.server_name, "127.0.0.1");
    assert_eq!(env.server_port, "80");
    assert_eq!(env.server_protocol, "HTTP/1.0");
    let bad = samples::wsgi::HttpRequest {
        method: None,
        path: None,
        version: None,
        headers: vec![("X".to_string(), vec![0xff])],
    };
    assert!(WsgiEnviron::new(&bad, &vec![None], "r".to_string(), true).is_err());
}

#[test]
fn numbers_and_response_heads() {
    assert_eq!(parse_usize("42"), Some(42));
    assert_eq!(parse_usize("+7"), Some(7));
    assert_eq!(parse_usize("+"), None);
    assert_eq!(parse_usize(""), None);
    assert_eq!(parse_usize("-1"), None);
    assert_eq!(parse_usize("99999999999999999999999"), None);
    let head = response_head(
        "200 OK",
        &vec![("Content-Type".to_string(), "text/plain".to_string()), ("X".to_string(), "y".to_string())],
    );
    assert_eq!(head, "HTTP/1.1 200 OK\r\nContent-Type: text/plain\r\nX: y\r\n\r\n");
}

#[test]
fn body_lines_stop_at_line_feed_or_limit() {
    let mut line = Vec::new();
    assert!(!readline_step(&mut line, b'a', 3));
    assert!(!readline_step(&mut line, b'b', 3));
    assert!(readline_step(&mut line, b'c', 3));
    let mut line = Vec::new();
    assert!(readline_step(&mut line, b'\n', 10));
    assert_eq!(line, b"\n".to_vec());
}

#[test]
fn servers_and_services() {
    let s = WsgiServer::new(PathBuf::from("/srv/app.py"), true);
    assert_eq!(s.application, PathBuf::from("/srv/app.py"));
    assert!(s.debug);
    let _api = ApiImpl::default();
    assert_eq!(ApiImpl::download_message(0), "count 0");
    assert_eq!(ApiImpl::download_message(1234), "count 1234");
}

#[test]
fn error_replies_follow_the_head() {
    let incomplete = head_action(b"GET / HTTP/1.1\r\nHost: x");
    assert_eq!(
        error_reply(&incomplete),
        Some("HTTP/1.0 500 INTERNAL SERVER ERROR\r\n\r\n".to_string())
    );
    let serve = head_action(b"GET / HTTP/1.1\r\nHost: x\r\n\r\n");
    assert!(matches!(serve, HeadAction::Serve(_)));
    assert_eq!(
        error_reply(&serve),
        Some("HTTP/1.1 500 INTERNAL SERVER ERROR\r\n\r\n".to_string())
    );
    assert_eq!(error_reply(&head_action(b"\x01\x02 nonsense\r\n\r\n")), None);
}
