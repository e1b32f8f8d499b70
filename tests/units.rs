use localhost::cgi_handler::{dechunk, join, read_chunk_size, CGIHandler};
use localhost::config::{add_session_routes, Config, RouteConfig, ServerConfig};
use localhost::event_loop::{parse_content_length, read_target, EventLoop};
use localhost::routing::Plan;
use localhost::http_request::{parse_cookies, HttpRequest};
use localhost::http_response::{mime_type, ErrorPages, HttpResponse};
use localhost::routing::handle_session;
use localhost::session::{ConnectionState, SessionManager};
use localhost::text::decimal_string;
use localhost::upload::{extract_boundary, first_file_part};

fn template_pages() -> ErrorPages {
    ErrorPages { custom: Vec::new(), template: Some("[{{status_code}}|{{message}}|{{status_code}}]".to_string()) }
}

#[test]
fn parses_request_line_headers_and_body() {
    let raw = b"POST  /a/b?x=1   HTTP/1.1 extra\r\nHost: h:1\r\nX-Dup: one\r\nbroken line\r\nx-dup: two\r\n\r\nBODY\r\n\r\nmore";
    let r = HttpRequest::from_raw(raw, 4, 5).unwrap();
    assert_eq!(r.method, "POST");
    assert_eq!(r.path, "/a/b?x=1");
    assert_eq!(r.version, "HTTP/1.1");
    assert_eq!(r.headers.len(), 3);
    assert_eq!(r.header("X-DUP").map(|s| s.as_str()), Some("two"));
    assert_eq!(r.header("host").map(|s| s.as_str()), Some("h:1"));
    assert_eq!(r.body, b"BODY\r\n\r\nmore".to_vec());
    assert_eq!((r.listener_fd, r.stream_fd), (4, 5));
    assert!(r.is_http_1_1());
}

#[test]
fn rejects_incomplete_or_malformed_requests() {
    assert!(HttpRequest::from_raw(b"GET / HTTP/1.1\r\nHost: a\r\n", 0, 0).is_none());
    assert!(HttpRequest::from_raw(b"GET /\r\n\r\n", 0, 0).is_none());
    assert!(HttpRequest::from_raw(b"", 0, 0).is_none());
    assert!(HttpRequest::from_raw(b"GET /\xff HTTP/1.1\r\n\r\n", 0, 0).is_none());
    let ok = HttpRequest::from_raw(b"GET / HTTP/1.0\r\n\r\n\xff\xfe", 0, 0).unwrap();
    assert_eq!(ok.body, vec![0xff, 0xfe]);
    assert!(!ok.is_http_1_1());
    let unicode = HttpRequest::from_raw("GET\u{a0}/é HTTP/1.1\r\n\r\n".as_bytes(), 0, 0).unwrap();
    assert_eq!(unicode.path, "/é");
}

#[test]
fn cookies_are_split_and_trimmed() {
    let c = parse_cookies(" a = 1 ; b=2=3;junk; session_id=xyz ");
    assert_eq!(
        c,
        vec![
            ("a".to_string(), "1".to_string()),
            ("b".to_string(), "2=3".to_string()),
            ("session_id".to_string(), "xyz".to_string()),
        ]
    );
    let r = HttpRequest::from_raw(b"GET / HTTP/1.1\r\nCookie: k=v\r\n\r\n", 0, 0).unwrap();
    assert_eq!(r.get_cookies(), vec![("k".to_string(), "v".to_string())]);
    let none = HttpRequest::from_raw(b"GET / HTTP/1.1\r\n\r\n", 0, 0).unwrap();
    assert!(none.get_cookies().is_empty());
}

#[test]
fn keep_alive_decisions() {
    let r = |raw: &str| HttpRequest::from_raw(raw.as_bytes(), 0, 0).unwrap().wants_keep_alive();
    assert!(r("GET / HTTP/1.1\r\n\r\n"));
    assert!(!r("GET / HTTP/1.1\r\nConnection: CLOSE\r\n\r\n"));
    assert!(r("GET / HTTP/1.1\r\nConnection: upgrade\r\n\r\n"));
    assert!(!r("GET / HTTP/1.0\r\n\r\n"));
    assert!(r("GET / HTTP/1.0\r\nConnection: Keep-Alive\r\n\r\n"));
    assert!(!r("GET / HTTP/1.0\r\nConnection: upgrade\r\n\r\n"));
}

#[test]
fn content_length_and_read_target() {
    assert_eq!(parse_content_length("GET / HTTP/1.1\r\nContent-Length:  42 \r\n\r\n"), Some(42));
    assert_eq!(parse_content_length("GET / HTTP/1.1\r\nContent-Length: +7\r\n"), Some(7));
    assert_eq!(parse_content_length("GET / HTTP/1.1\r\nContent-Length: x\r\nContent-Length: 3\r\n"), None);
    assert_eq!(parse_content_length("GET / HTTP/1.1\r\ncontent-length: 3\r\n"), None);
    assert_eq!(parse_content_length("Content-Length: 99999999999999999999999"), None);
    let first = b"POST / HTTP/1.1\r\nContent-Length: 10\r\n\r\nabc";
    assert_eq!(read_target(first), 10 + 35 + 4);
    assert_eq!(read_target(b"GET / HTTP/1.1\r\n"), 4);
}

#[test]
fn chunked_bodies() {
    assert_eq!(dechunk(b"3\r\nabc\r\nA\r\n0123456789\r\n0\r\n\r\n"), Some(b"abc0123456789".to_vec()));
    assert_eq!(dechunk(b"3\r\nabc"), None);
    assert_eq!(dechunk(b"3\r\nabc\r"), None);
    assert_eq!(dechunk(b""), Some(Vec::new()));
    assert_eq!(dechunk(b"zz\r\nabc\r\n"), Some(Vec::new()));
    assert_eq!(dechunk(b" 2 \r\nab\r\n0\r\n"), Some(b"ab".to_vec()));
    assert_eq!(read_chunk_size(b"1\r\rf\r\nxyz", 0), (0x1f, 6));
    assert_eq!(read_chunk_size(b"\xff1\r\n", 0), (0, 4));
    assert_eq!(read_chunk_size(b"ab", 0), (0xab, 2));
}

#[test]
fn cgi_handler_reads_headers() {
    let hs = vec![
        ("content-length".to_string(), "12".to_string()),
        ("Transfer-Encoding".to_string(), "CHUNKED".to_string()),
    ];
    let h = CGIHandler::new("/bin/sh", "/srv/", "run.sh", &hs);
    assert_eq!(h.content_length, Some(12));
    assert!(h.is_chunked);
    assert_eq!(h.full_path(), "/srv/run.sh");
    let h = CGIHandler::new("/bin/sh", "root", "/abs.sh", &Vec::new());
    assert_eq!(h.content_length, None);
    assert!(!h.is_chunked);
    assert_eq!(h.full_path(), "/abs.sh");
    assert_eq!(join("", "x"), "x");
    assert_eq!(join("a", "x"), "a/x");
}

#[test]
fn response_serialization_and_phrases() {
    let mut r = HttpResponse::new(302, vec![("Location".to_string(), "/".to_string())], b"x".to_vec());
    r.set_cookie("session_id", "abc", Some(1700000000));
    r.set_cookie("flag", "1", None);
    let text = String::from_utf8(r.to_bytes()).unwrap();
    assert_eq!(
        text,
        "HTTP/1.1 302 Found\r\nLocation: /\r\nSet-Cookie: session_id=abc; Expires=1700000000\r\nSet-Cookie: flag=1\r\n\r\nx"
    );
    for (code, phrase) in [(200, "OK"), (301, "Moved Permanently"), (400, "Bad Request"), (403, "Forbidden"), (404, "Not Found"), (405, "Method Not Allowed"), (413, "Payload Too Large"), (500, "Internal Server Error"), (503, "Service Unavailable"), (418, "Unknown")] {
        assert_eq!(HttpResponse::new(code, Vec::new(), Vec::new()).reason_phrase(), phrase);
    }
    let closed = HttpResponse::new(200, Vec::new(), Vec::new()).with_keep_alive(false);
    assert_eq!(closed.headers, vec![("Connection".to_string(), "close".to_string())]);
    assert_eq!(decimal_string(0), "0");
    assert_eq!(decimal_string(1234567890123), "1234567890123");
}

#[test]
fn error_pages_template_custom_and_fallback() {
    let r = HttpResponse::bad_request(&template_pages());
    assert_eq!(r.status_code, 400);
    assert_eq!(r.body, b"[400|Bad Request|400]".to_vec());
    assert_eq!(r.headers[1], ("Content-Length".to_string(), "21".to_string()));
    assert_eq!(HttpResponse::forbidden(&template_pages()).status_code, 403);
    assert_eq!(HttpResponse::service_unavailable(&template_pages()).status_code, 503);
    assert_eq!(HttpResponse::payload_too_large(&template_pages()).body, b"[413|Payload Too Large|413]".to_vec());
    let custom = ErrorPages {
        custom: vec![(404, Some(b"custom {{message}}".to_vec())), (403, None)],
        template: Some("{{status_code}}".to_string()),
    };
    let nf = HttpResponse::not_found(&custom);
    assert_eq!((nf.status_code, nf.body.clone()), (404, b"custom {{message}}".to_vec()));
    let fb = HttpResponse::forbidden(&custom);
    assert_eq!((fb.status_code, fb.body.clone()), (500, b"500".to_vec()));
    let none = HttpResponse::method_not_allowed(&ErrorPages::none());
    assert_eq!(none.status_code, 500);
    assert_eq!(none.body, b"<h1>500 Internal Server Error</h1>".to_vec());
    assert_eq!(HttpResponse::internal_server_error(&template_pages()).status_code, 500);
}

#[test]
fn pages_and_cgi_output() {
    let p = HttpResponse::page_server(200, Some(b"<p>s</p>".to_vec()), &template_pages());
    assert_eq!(p.headers[0], ("Content-Type".to_string(), "text/html".to_string()));
    assert_eq!(HttpResponse::page_server(200, None, &template_pages()).status_code, 500);
    let e = HttpResponse::from_cgi_output((b"out".to_vec(), b"err".to_vec()), &template_pages());
    assert_eq!(e.body, b"out".to_vec());
    assert_eq!(e.status_code, 200);
    let raw = HttpResponse::from_cgi_output((vec![0xff], Vec::new()), &template_pages());
    assert_eq!((raw.status_code, raw.body), (200, vec![0xff]));
}

#[test]
fn mime_types_by_extension() {
    for (p, m) in [("a.css", "text/css"), ("a.js", "application/javascript"), ("a.html", "text/html"), ("a.png", "image/png"), ("a.jpg", "image/jpeg"), ("a.jpeg", "image/jpeg"), ("a.gif", "image/gif"), ("a.svg", "image/svg+xml"), ("a.txt", "text/plain"), ("a.pdf", "application/pdf"), ("a.docx", "application/vnd.openxmlformats-officedocument.wordprocessingml.document"), ("a.xls", "application/vnd.openxmlformats-officedocument.spreadsheetml.sheet"), ("a.bin", "application/octet-stream"), ("css", "application/octet-stream")] {
        assert_eq!(mime_type(p), m);
    }
}

#[test]
fn boundary_and_multipart_parts() {
    assert_eq!(extract_boundary("multipart/form-data; boundary=abc"), Some("abc".to_string()));
    assert_eq!(extract_boundary("multipart/form-data; boundary=a; boundary=b"), Some("a; ".to_string()));
    assert_eq!(extract_boundary("multipart/form-data"), None);
    let body = b"--B\r\nContent-Disposition: form-data; name=\"t\"\r\n\r\nv\r\n--B\r\nContent-Disposition: form-data; name=\"f\"; filename=\"x.bin\"\r\n\r\n\x00\x01\r\n--B--\r\n".to_vec();
    assert_eq!(first_file_part(body, "B".to_string()), Some(("x.bin".to_string(), vec![0, 1])));
    assert_eq!(first_file_part(b"garbage".to_vec(), "B".to_string()), None);
}

#[test]
fn sessions_are_created_found_renewed_and_removed() {
    let mut m = SessionManager::new(60);
    let id = m.insert_session("s1".to_string(), 100);
    assert_eq!(id, "s1");
    let s = m.get_session("s1").unwrap();
    assert_eq!((s.created_at, s.expires_at, s.keep_alive), (100, 160, true));
    assert_eq!(s.connection_state, ConnectionState::New);
    assert!(!s.is_expired_at(160));
    assert!(s.is_expired_at(161));
    assert!(s.should_close_at(161));
    m.insert_session("s0".to_string(), 150);
    m.insert_session("s1".to_string(), 200);
    assert_eq!(m.sessions.len(), 2);
    assert_eq!(m.get_session("s0").unwrap().created_at, 150);
    m.remove_session("s0");
    assert_eq!(m.sessions.len(), 1);
    assert_eq!(m.get_session("s1").unwrap().created_at, 200);
    let fresh = m.create_session();
    assert_eq!(fresh.len(), 36);
    assert_eq!(fresh.as_bytes()[14], b'4');
    assert!(m.get_session(&fresh).is_some());
    m.get_session_mut("s1").unwrap().update_activity_at(500);
    assert_eq!(m.get_session("s1").unwrap().last_activity, 500);
    m.remove_session("s1");
    assert!(m.get_session("s1").is_none());
    assert_eq!(m.sessions.len(), 1);
    let routes = SessionManager::get_default_routes();
    assert_eq!(routes[0].0, "/session");
    assert_eq!(routes[1].1.accepted_methods, Some(vec!["POST".to_string()]));
}

#[test]
fn session_checks() {
    let mut m = SessionManager::new(60);
    m.insert_session("good".to_string(), 0);
    let req = HttpRequest::from_raw(b"GET /x HTTP/1.1\r\n\r\n", 0, 0).unwrap();
    assert_eq!(handle_session(&mut m, Some("good".to_string()), &req, 50).ok(), Some("good".to_string()));
    assert_eq!(m.get_session("good").unwrap().expires_at, 3650);
    let bad = handle_session(&mut m, Some("bad".to_string()), &req, 50).err().unwrap();
    assert_eq!(bad.status_code, 302);
    assert_eq!(bad.headers[1].1, "session_id=; Max-Age=0");
    let none = handle_session(&mut m, None, &req, 50).err().unwrap();
    assert_eq!(none.headers, vec![("Location".to_string(), "/session".to_string())]);
    let public = HttpRequest::from_raw(b"GET /session HTTP/1.1\r\n\r\n", 0, 0).unwrap();
    assert_eq!(handle_session(&mut m, None, &public, 50).ok(), Some(String::new()));
    let with = HttpResponse::new(200, Vec::new(), Vec::new()).with_session(m.get_session("good").unwrap());
    assert_eq!(with.headers[0].1, "session_id=good; Expires=3650");
}

fn route(methods: &[&str]) -> RouteConfig {
    RouteConfig {
        accepted_methods: Some(methods.iter().map(|m| m.to_string()).collect()),
        redirection: None,
        default_file: None,
        cgi: None,
        directory_listing: None,
        session_required: None,
    }
}

fn server(name: &str, ports: &[&str]) -> ServerConfig {
    ServerConfig {
        name: name.to_string(),
        addr: "127.0.0.1".to_string(),
        ports: ports.iter().map(|p| p.to_string()).collect(),
        routes: Vec::new(),
        error_pages: None,
        client_body_size_limit: None,
    }
}

#[test]
fn startup_bindings_skip_duplicates() {
    let cfg = Config {
        servers: vec![server("a", &["80", "81", "80"]), server("b", &["80"]), server("a", &["90", "81"])],
    };
    let b: Vec<(usize, String)> = cfg.bindings().into_iter().map(|b| (b.server, b.address)).collect();
    assert_eq!(
        b,
        vec![
            (0, "127.0.0.1:80".to_string()),
            (0, "127.0.0.1:81".to_string()),
            (1, "127.0.0.1:80".to_string()),
            (2, "127.0.0.1:90".to_string()),
        ]
    );
    let routes = add_session_routes(vec![("/".to_string(), route(&["GET"])), ("/session".to_string(), route(&["PUT"]))]);
    let paths: Vec<&str> = routes.iter().map(|r| r.0.as_str()).collect();
    assert_eq!(paths, vec!["/", "/session", "/create-session"]);
    assert_eq!(routes[1].1.accepted_methods, Some(vec!["GET".to_string()]));
    assert_eq!(routes[2].1.default_file, Some("session.html".to_string()));
}

#[test]
fn session_routes_in_dispatch() {
    let mut ev = EventLoop::with_epoll(1);
    let mut guarded = route(&["GET"]);
    guarded.session_required = Some(true);
    guarded.redirection = Some("/in".to_string());
    ev.add_listener(3, "a".to_string(), add_session_routes(vec![("/g".to_string(), guarded)]), None, None);
    let mut m = SessionManager::new(3600);
    let create = HttpRequest::from_raw(b"POST /create-session HTTP/1.1\r\n\r\n", 3, 1).unwrap();
    let id = match ev.process_request(create, &template_pages(), &mut m, 10, false) {
        Plan::Respond(r) => {
            assert_eq!(r.status_code, 302);
            assert_eq!(r.headers[0].1, "/");
            let cookie = r.headers[1].1.clone();
            assert!(cookie.starts_with("session_id=") && cookie.ends_with("; Path=/"));
            cookie["session_id=".len()..cookie.len() - "; Path=/".len()].to_string()
        },
        _ => panic!("expected the session redirect"),
    };
    let page = HttpRequest::from_raw(b"GET /session HTTP/1.1\r\n\r\n", 3, 1).unwrap();
    match ev.process_request(page, &template_pages(), &mut m, 10, false) {
        Plan::ServePage { status, file_path } => assert_eq!((status, file_path.as_str()), (200, "./public/session.html")),
        _ => panic!("expected the session page"),
    }
    let without = HttpRequest::from_raw(b"GET /g HTTP/1.1\r\n\r\n", 3, 1).unwrap();
    match ev.process_request(without, &template_pages(), &mut m, 10, false) {
        Plan::Respond(r) => assert_eq!(r.status_code, 302),
        _ => panic!("expected the session redirect"),
    }
    let raw = format!("GET /g HTTP/1.1\r\nCookie: session_id={}\r\n\r\n", id);
    let with = HttpRequest::from_raw(raw.as_bytes(), 3, 1).unwrap();
    match ev.process_request(with, &template_pages(), &mut m, 10, false) {
        Plan::Respond(r) => assert_eq!((r.status_code, r.headers[0].1.as_str()), (301, "/in")),
        _ => panic!("expected the redirect"),
    }
    assert_eq!(m.get_session(&id).unwrap().expires_at, 3610);
}

#[test]
fn session_clock_helpers() {
    let mut m = SessionManager::new(u64::MAX);
    m.insert_session("far".to_string(), 5);
    let s = m.get_session_mut("far").unwrap();
    assert_eq!(s.expires_at, u64::MAX);
    assert!(!s.is_expired());
    assert!(!s.should_close());
    s.update_activity();
    assert!(s.last_activity > 5);
    s.keep_alive = false;
    assert!(s.should_close());
}

#[test]
fn file_locations() {
    assert_eq!(localhost::routing::custom_page_path("/errors/404.html"), "./errors/404.html");
    assert_eq!(localhost::routing::listing_path("/l"), "./public/l");
    let mut r = route(&["GET"]);
    assert_eq!(r.default_file_path(), None);
    r.default_file = Some("index.html".to_string());
    assert_eq!(r.default_file_path(), Some("./public/index.html".to_string()));
}

#[test]
fn chunk_sizes_read_as_text() {
    assert_eq!(read_chunk_size("\u{a0}5\r\n".as_bytes(), 0), (5, 5));
    assert_eq!(dechunk(b"+4\r\nwxyz\r\n0\r\n\r\n"), Some(b"wxyz".to_vec()));
}

#[test]
fn listener_registration() {
    let mut ev = EventLoop::with_epoll(2);
    ev.add_listener(7, "n".to_string(), vec![("/".to_string(), route(&["GET"]))], Some(vec![(404, "/e.html".to_string())]), Some(9));
    assert_eq!(ev.servers[0].listeners, vec![7]);
    assert_eq!(ev.servers[0].size_limit, Some(9));
    assert_eq!(ev.servers[0].error_pages, Some(vec![(404, "/e.html".to_string())]));
    ev.add_listener(8, "n".to_string(), Vec::new(), None, None);
    assert_eq!(ev.servers.len(), 1);
    assert_eq!(ev.servers[0].listeners, vec![7, 8]);
    assert_eq!(ev.servers[0].route_map.len(), 1);
}
