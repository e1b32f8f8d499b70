use localhost::config::RouteConfig;
use localhost::event_loop::{Connection, EventLoop};
use localhost::http_request::HttpRequest;
use localhost::http_response::{ErrorPages, HttpResponse};
use localhost::routing::{delete_response, after_upload, DeleteOutcome, Plan, SaveOutcome};
use localhost::session::SessionManager;

fn route(methods: &[&str]) -> RouteConfig {
    RouteConfig {
        accepted_methods: Some(methods.iter().map(|m| m.to_string()).collect()),
        redirection: None,
        default_file: None,
        cgi: None,
        directory_listing: None,
        session_required: None,
    }
}

fn pages() -> ErrorPages {
    ErrorPages {
        custom: Vec::new(),
        template: Some("<p>{{status_code}} {{message}}</p>".to_string()),
    }
}

fn server_a(routes: Vec<(String, RouteConfig)>) -> EventLoop {
    let mut ev = EventLoop::with_epoll(9);
    ev.add_listener(3, "a".to_string(), routes, None, Some(1 << 20));
    ev
}

fn request(raw: &str) -> HttpRequest {
    HttpRequest::from_raw(raw.as_bytes(), 3, 7).expect("a request")
}

fn plan_of(ev: &EventLoop, raw: &str, exists: bool) -> Plan {
    let mut sessions = SessionManager::new(3600);
    ev.process_request(request(raw), &pages(), &mut sessions, 1000, exists)
}

fn respond(p: Plan) -> HttpResponse {
    match p {
        Plan::Respond(r) => r,
        _ => panic!("expected a ready answer"),
    }
}

fn header<'a>(r: &'a HttpResponse, name: &str) -> Option<&'a str> {
    r.headers.iter().find(|h| h.0 == name).map(|h| h.1.as_str())
}

#[test]
fn index_served_with_type_and_length() {
    let mut r = route(&["GET"]);
    r.default_file = Some("index.html".to_string());
    let ev = server_a(vec![("/".to_string(), r)]);
    let p = plan_of(&ev, "GET / HTTP/1.1\r\nHost: a:8080\r\n\r\n", true);
    let (type_path, file_path) = match p {
        Plan::ServeFile { type_path, file_path } => (type_path, file_path),
        _ => panic!("expected a file to serve"),
    };
    assert_eq!(file_path, "./public/index.html");
    let resp = HttpResponse::get_static(&type_path, Some(b"<h1>hi</h1>".to_vec()), &pages());
    let bytes = resp.with_keep_alive(true).to_bytes();
    let text = String::from_utf8(bytes).unwrap();
    assert!(text.starts_with("HTTP/1.1 200 OK\r\nContent-Type: text/html\r\nContent-Length: 11\r\n"));
    assert!(text.contains("Connection: keep-alive\r\nKeep-Alive: timeout=5, max=100\r\n\r\n"));
    assert!(text.ends_with("\r\n\r\n<h1>hi</h1>"));
}

#[test]
fn missing_path_falls_through_to_404() {
    let mut r = route(&["GET"]);
    r.default_file = Some("index.html".to_string());
    let ev = server_a(vec![("/".to_string(), r)]);
    let p = plan_of(&ev, "GET /missing HTTP/1.1\r\nHost: a:8080\r\n\r\n", true);
    match p {
        Plan::ServeFile { type_path, file_path } => {
            assert_eq!(file_path, "./public/missing");
            let resp = HttpResponse::get_static(&type_path, None, &pages());
            assert_eq!(resp.status_code, 404);
            assert_eq!(resp.body, b"<p>404 Not Found</p>".to_vec());
        },
        _ => panic!("expected static serving"),
    }
}

#[test]
fn redirect_route_answers_301() {
    let mut r = route(&["GET"]);
    r.redirection = Some("/new".to_string());
    let ev = server_a(vec![("/r".to_string(), r)]);
    let resp = respond(plan_of(&ev, "GET /r HTTP/1.1\r\nHost: a\r\n\r\n", false));
    assert_eq!(resp.status_code, 301);
    assert_eq!(header(&resp, "Location"), Some("/new"));
    assert!(resp.body.is_empty());
}

#[test]
fn listing_route_has_one_link_per_entry() {
    let mut r = route(&["GET"]);
    r.directory_listing = Some(true);
    let ev = server_a(vec![("/l".to_string(), r)]);
    let dir = match plan_of(&ev, "GET /l HTTP/1.1\r\nHost: a:8080\r\n\r\n", false) {
        Plan::ListDir { dir } => dir,
        _ => panic!("expected a listing"),
    };
    assert_eq!(dir, "/l");
    let entries = vec![("a.txt".to_string(), false), ("sub".to_string(), true)];
    let resp = HttpResponse::list_dir(&dir, Some("<ul>{{content}}</ul>".to_string()), Some(entries), &pages());
    assert_eq!(resp.status_code, 200);
    let body = String::from_utf8(resp.body).unwrap();
    assert_eq!(body.matches("<a ").count(), 2);
    assert!(body.contains("href=\"l/a.txt\">a.txt</a>"));
    assert!(body.contains("href=\"l/sub\">sub</a>"));
    assert!(!body.contains("delete-btn"));
}

#[test]
fn upload_listing_has_delete_buttons() {
    let entries = vec![("f.txt".to_string(), false)];
    let resp = HttpResponse::list_dir("/upload", Some("{{content}}".to_string()), Some(entries), &pages());
    let body = String::from_utf8(resp.body).unwrap();
    assert!(body.contains("deleteFile('f.txt')"));
    let missing = HttpResponse::list_dir("/upload", None, Some(Vec::new()), &pages());
    assert_eq!(missing.status_code, 500);
}

fn multipart_raw(boundary_header: &str, body: &str) -> String {
    format!(
        "POST /upload HTTP/1.1\r\nHost: a\r\nContent-Type: {}\r\nContent-Length: {}\r\n\r\n{}",
        boundary_header,
        body.len(),
        body
    )
}

const FORM: &str = "------X\r\nContent-Disposition: form-data; name=\"file\"; filename=\"foo.txt\"\r\nContent-Type: text/plain\r\n\r\nhello\r\n------X--\r\n";

#[test]
fn multipart_upload_is_stored() {
    let ev = server_a(vec![("/upload".to_string(), route(&["GET", "POST"]))]);
    let raw = multipart_raw("multipart/form-data; boundary=----X", FORM);
    match plan_of(&ev, &raw, false) {
        Plan::SaveUpload { file_path, data } => {
            assert_eq!(file_path, "./public/upload/foo.txt");
            assert_eq!(data, b"hello".to_vec());
        },
        _ => panic!("expected an upload to store"),
    }
    match after_upload(SaveOutcome::Saved, &pages()) {
        Plan::ListDir { dir } => assert_eq!(dir, "/upload"),
        _ => panic!("expected the upload listing"),
    }
    assert_eq!(respond(after_upload(SaveOutcome::DirFailed, &pages())).status_code, 500);
    assert_eq!(respond(after_upload(SaveOutcome::FileFailed, &pages())).status_code, 400);
}

#[test]
fn upload_without_file_part_is_400() {
    let ev = server_a(vec![("/upload".to_string(), route(&["POST"]))]);
    let form = "------X\r\nContent-Disposition: form-data; name=\"note\"\r\n\r\nhi\r\n------X--\r\n";
    let raw = multipart_raw("multipart/form-data; boundary=----X", form);
    assert_eq!(respond(plan_of(&ev, &raw, false)).status_code, 400);
    let raw = multipart_raw("text/plain", "hello");
    assert_eq!(respond(plan_of(&ev, &raw, false)).status_code, 400);
    let raw = multipart_raw("multipart/form-data; charset=utf-8", "hello");
    assert_eq!(respond(plan_of(&ev, &raw, false)).status_code, 400);
}

#[test]
fn get_on_upload_is_400() {
    let ev = server_a(vec![("/upload".to_string(), route(&["GET"]))]);
    assert_eq!(respond(plan_of(&ev, "GET /upload HTTP/1.1\r\nHost: a\r\n\r\n", false)).status_code, 400);
}

#[test]
fn oversized_upload_is_413() {
    let mut ev = EventLoop::with_epoll(9);
    ev.add_listener(3, "a".to_string(), vec![("/upload".to_string(), route(&["POST"]))], None, Some(4));
    let raw = multipart_raw("multipart/form-data; boundary=----X", FORM);
    let resp = respond(plan_of(&ev, &raw, false));
    assert_eq!(resp.status_code, 413);
    let mut ev = EventLoop::with_epoll(9);
    ev.add_listener(3, "a".to_string(), vec![("/upload".to_string(), route(&["POST"]))], None, None);
    match plan_of(&ev, &raw, false) {
        Plan::SaveUpload { data, .. } => assert_eq!(data, b"hello".to_vec()),
        _ => panic!("without a limit the upload is stored"),
    }
}

#[test]
fn disallowed_method_is_405_html() {
    let ev = server_a(vec![("/".to_string(), route(&["GET"]))]);
    let resp = respond(plan_of(&ev, "POST / HTTP/1.1\r\nHost: a\r\n\r\n", true));
    assert_eq!(resp.status_code, 405);
    assert_eq!(header(&resp, "Content-Type"), Some("text/html"));
    assert_eq!(resp.body, b"<p>405 Method Not Allowed</p>".to_vec());
}

#[test]
fn route_without_methods_is_400() {
    let mut r = route(&[]);
    r.accepted_methods = None;
    let ev = server_a(vec![("/".to_string(), r)]);
    assert_eq!(respond(plan_of(&ev, "GET / HTTP/1.1\r\nHost: a\r\n\r\n", true)).status_code, 400);
}

#[test]
fn upload_then_delete_then_missing() {
    let ev = server_a(vec![
        ("/upload".to_string(), route(&["POST"])),
        ("/delete".to_string(), route(&["DELETE"])),
    ]);
    let raw = multipart_raw("multipart/form-data; boundary=----X", FORM);
    let stored = match plan_of(&ev, &raw, false) {
        Plan::SaveUpload { file_path, .. } => file_path,
        _ => panic!("expected an upload"),
    };
    let del = "DELETE /delete HTTP/1.1\r\nHost: a\r\nContent-Type: application/json\r\n\r\n{\"path\":\"foo.txt\"}";
    let removed = match plan_of(&ev, del, false) {
        Plan::DeleteUpload { file_path } => file_path,
        _ => panic!("expected a delete"),
    };
    assert_eq!(removed, stored);
    let ok = delete_response(DeleteOutcome::Removed, &pages());
    assert_eq!(ok.status_code, 200);
    assert!(ok.body.is_empty());
    let served = match plan_of(&ev, "GET /upload/foo.txt HTTP/1.1\r\nHost: a\r\n\r\n", false) {
        Plan::ServeFile { file_path, type_path } => {
            assert_eq!(type_path, "/upload/foo.txt");
            file_path
        },
        _ => panic!("expected static serving"),
    };
    assert_eq!(served, stored);
    assert_eq!(HttpResponse::get_static("/upload/foo.txt", None, &pages()).status_code, 404);
    assert_eq!(delete_response(DeleteOutcome::Missing, &pages()).status_code, 404);
    assert_eq!(delete_response(DeleteOutcome::Denied, &pages()).status_code, 403);
    assert_eq!(delete_response(DeleteOutcome::Failed, &pages()).status_code, 500);
}

#[test]
fn uploaded_file_served_with_its_type() {
    let resp = HttpResponse::get_static("/upload/foo.txt", Some(b"hello".to_vec()), &pages());
    assert_eq!(resp.status_code, 200);
    assert_eq!(header(&resp, "Content-Type"), Some("text/plain"));
    assert_eq!(header(&resp, "Content-Length"), Some("5"));
    assert_eq!(resp.body, b"hello".to_vec());
}

#[test]
fn delete_rejects_bad_bodies_and_traversal() {
    let ev = server_a(vec![("/delete".to_string(), route(&["DELETE"]))]);
    let bad = "DELETE /delete HTTP/1.1\r\nHost: a\r\n\r\nnot json";
    assert_eq!(respond(plan_of(&ev, bad, false)).status_code, 400);
    let no_path = "DELETE /delete HTTP/1.1\r\nHost: a\r\n\r\n{\"name\":\"x\"}";
    assert_eq!(respond(plan_of(&ev, no_path, false)).status_code, 400);
    let not_text = "DELETE /delete HTTP/1.1\r\nHost: a\r\n\r\n{\"path\":3}";
    assert_eq!(respond(plan_of(&ev, not_text, false)).status_code, 400);
    let up = "DELETE /delete HTTP/1.1\r\nHost: a\r\n\r\n{\"path\":\"../secret\"}";
    assert_eq!(respond(plan_of(&ev, up, false)).status_code, 403);
    let abs = "DELETE /delete HTTP/1.1\r\nHost: a\r\n\r\n{\"path\":\"/etc/passwd\"}";
    assert_eq!(respond(plan_of(&ev, abs, false)).status_code, 403);
    let dots = "DELETE /delete HTTP/1.1\r\nHost: a\r\n\r\n{\"path\":\"a..b\"}";
    match plan_of(&ev, dots, false) {
        Plan::DeleteUpload { file_path } => assert_eq!(file_path, "./public/upload/a..b"),
        _ => panic!("expected a delete"),
    }
}

#[test]
fn identical_gets_get_identical_answers() {
    let ev = server_a(Vec::new());
    let raw = "GET /style.css HTTP/1.1\r\nHost: a\r\n\r\n";
    let one = plan_of(&ev, raw, false);
    let two = plan_of(&ev, raw, false);
    match (one, two) {
        (Plan::ServeFile { type_path: t1, file_path: f1 }, Plan::ServeFile { type_path: t2, file_path: f2 }) => {
            assert_eq!(t1, t2);
            assert_eq!(f1, f2);
            let a = HttpResponse::get_static(&t1, Some(b"p{}".to_vec()), &pages()).with_keep_alive(true);
            let b = HttpResponse::get_static(&t2, Some(b"p{}".to_vec()), &pages()).with_keep_alive(false);
            assert_eq!(a.status_code, b.status_code);
            assert_eq!(a.body, b.body);
            assert_eq!(a.headers[..2], b.headers[..2]);
            assert_eq!(header(&a, "Content-Type"), Some("text/css"));
        },
        _ => panic!("expected static serving"),
    }
}

#[test]
fn unparsable_bytes_answer_400_and_close() {
    let mut c = Connection::new();
    match c.on_bytes(b"GARBAGE\r\n\r\n", 3, 7, &pages()) {
        Err(r) => assert_eq!(r.status_code, 400),
        Ok(_) => panic!("expected 400"),
    }
    assert!(!c.keep_alive);
    let mut c = Connection::new();
    let reqs = c.on_bytes(b"GET /a HTTP/1.1\r\n\r\n", 3, 7, &pages()).ok().unwrap();
    assert_eq!(reqs[0].path, "/a");
    assert!(c.keep_alive);
    c.on_read_end();
    assert!(!c.keep_alive);
    let bytes = c.finish(HttpResponse::new(200, Vec::new(), Vec::new()));
    assert_eq!(String::from_utf8(bytes).unwrap(), "HTTP/1.1 200 OK\r\nConnection: close\r\n\r\n");
}

#[test]
fn keep_alive_follows_version_and_header() {
    let mut c = Connection::new();
    let reqs = c.on_request(request("GET / HTTP/1.1\r\nHost: a\r\n\r\n"), &pages()).ok().unwrap();
    assert_eq!(reqs.len(), 1);
    assert!(c.keep_alive);
    let reqs = c.on_request(request("GET /b HTTP/1.1\r\nHost: a\r\n\r\n"), &pages()).ok().unwrap();
    assert_eq!(reqs[0].path, "/b");
    assert!(c.keep_alive);
    let _ = c.on_request(request("GET / HTTP/1.1\r\nConnection: Close\r\n\r\n"), &pages());
    assert!(!c.keep_alive);
    let mut c = Connection::new();
    let _ = c.on_request(request("GET / HTTP/1.0\r\n\r\n"), &pages());
    assert!(!c.keep_alive);
    let _ = c.on_request(request("GET / HTTP/1.0\r\nconnection: keep-alive\r\n\r\n"), &pages());
    assert!(c.keep_alive);
    let bytes = c.finish(HttpResponse::new(200, Vec::new(), Vec::new()));
    assert_eq!(String::from_utf8(bytes).unwrap(), "HTTP/1.1 200 OK\r\nConnection: keep-alive\r\nKeep-Alive: timeout=5, max=100\r\n\r\n");
}

#[test]
fn queue_refuses_the_101st_request() {
    let mut q = localhost::request_queue::RequestQueue::new(100);
    for _ in 0..100 {
        assert!(q.push(request("GET / HTTP/1.1\r\n\r\n"), &pages()).is_ok());
    }
    match q.push(request("GET / HTTP/1.1\r\n\r\n"), &pages()) {
        Err(r) => assert_eq!(r.status_code, 503),
        Ok(()) => panic!("the queue is full"),
    }
    assert_eq!(q.requests.len(), 100);
    let first = q.pop().unwrap();
    assert_eq!(first.method, "GET");
    assert_eq!(q.requests.len(), 99);
}

#[test]
fn cgi_route_runs_its_script() {
    let mut r = route(&["POST"]);
    r.cgi = Some("/usr/bin/python3".to_string());
    r.default_file = Some("cgi.py".to_string());
    let ev = server_a(vec![("/cgi.py".to_string(), r)]);
    let raw = "POST /cgi.py HTTP/1.1\r\nHost: a\r\nContent-Length: 3\r\n\r\nx=1";
    match plan_of(&ev, raw, true) {
        Plan::RunCgi { handler, input } => {
            assert_eq!(handler.cgi_executable, "/usr/bin/python3");
            assert_eq!(handler.full_path(), "./public/cgi.py");
            assert_eq!(handler.content_length, Some(3));
            assert!(!handler.is_chunked);
            assert_eq!(input, b"x=1".to_vec());
            let env = handler.environment(input.len());
            assert_eq!(env[0], ("CONTENT_LENGTH".to_string(), "3".to_string()));
            assert_eq!(env[2], ("REQUEST_METHOD".to_string(), "POST".to_string()));
            assert_eq!(env[3], ("SCRIPT_FILENAME".to_string(), "./public/cgi.py".to_string()));
            assert_eq!(env[4], ("SCRIPT_NAME".to_string(), "cgi.py".to_string()));
        },
        _ => panic!("expected a CGI run"),
    }
    let out = b"Content-Type: text/html\n\nok".to_vec();
    let resp = HttpResponse::from_cgi_output((out.clone(), Vec::new()), &pages());
    assert_eq!(resp.status_code, 200);
    assert_eq!(header(&resp, "Content-Type"), Some("text/html"));
    assert_eq!(resp.body, out);
    assert!(String::from_utf8(resp.body).unwrap().ends_with("ok"));
}

#[test]
fn cgi_missing_script_is_404() {
    let mut r = route(&["POST"]);
    r.cgi = Some("/usr/bin/python3".to_string());
    r.default_file = Some("cgi.py".to_string());
    let ev = server_a(vec![("/cgi.py".to_string(), r)]);
    let raw = "POST /cgi.py HTTP/1.1\r\nHost: a\r\n\r\n";
    assert_eq!(respond(plan_of(&ev, raw, false)).status_code, 404);
}

#[test]
fn chunked_cgi_body_is_decoded() {
    let mut r = route(&["POST"]);
    r.cgi = Some("/usr/bin/php".to_string());
    r.default_file = Some("x.php".to_string());
    let ev = server_a(vec![("/x".to_string(), r)]);
    let raw = "POST /x HTTP/1.1\r\nHost: a\r\nTransfer-Encoding: Chunked\r\n\r\n3\r\nabc\r\n2\r\nde\r\n0\r\n\r\n";
    match plan_of(&ev, raw, true) {
        Plan::RunCgi { handler, input } => {
            assert!(handler.is_chunked);
            assert_eq!(input, b"abcde".to_vec());
        },
        _ => panic!("expected a CGI run"),
    }
    let cut = "POST /x HTTP/1.1\r\nHost: a\r\nTransfer-Encoding: chunked\r\n\r\n9\r\nabc";
    assert_eq!(respond(plan_of(&ev, cut, true)).status_code, 500);
}

#[test]
fn server_found_by_host_then_by_listener() {
    let mut ev = EventLoop::with_epoll(9);
    ev.add_listener(3, "alpha".to_string(), vec![("/x".to_string(), route(&["GET"]))], None, None);
    ev.add_listener(4, "beta".to_string(), Vec::new(), None, None);
    ev.add_listener(5, "alpha".to_string(), Vec::new(), None, None);
    assert_eq!(ev.servers.len(), 2);
    assert_eq!(ev.servers[0].listeners, vec![3, 5]);
    assert_eq!(ev.find_server(4, "ALPHA:80"), Some(0));
    assert_eq!(ev.find_server(4, "Alpha"), Some(0));
    assert_eq!(ev.find_server(4, "gamma:80"), Some(1));
    assert_eq!(ev.find_server(5, ""), Some(0));
    assert_eq!(ev.find_server(8, "gamma"), None);
    ev.add_server("beta".to_string(), vec![("/y".to_string(), route(&["GET"]))], None, None);
    assert_eq!(ev.servers.len(), 2);
    assert!(ev.servers[1].route_map.is_empty());
    ev.add_server("delta".to_string(), Vec::new(), None, Some(10));
    assert_eq!(ev.servers.len(), 3);
    assert_eq!(ev.servers[2].size_limit, Some(10));
}

#[test]
fn percent_encoded_static_path_is_decoded() {
    let ev = server_a(Vec::new());
    match plan_of(&ev, "GET /my%20file.txt HTTP/1.1\r\n\r\n", false) {
        Plan::ServeFile { type_path, file_path } => {
            assert_eq!(file_path, "./public/my file.txt");
            assert_eq!(type_path, "/my%20file.txt");
        },
        _ => panic!("expected static serving"),
    }
    assert_eq!(respond(plan_of(&ev, "GET /bad%ff HTTP/1.1\r\n\r\n", false)).status_code, 404);
}

#[test]
fn listing_escapes_entry_names() {
    let entries = vec![("<a x>'\\\"&.txt".to_string(), false)];
    let resp = HttpResponse::list_dir("/upload", Some("{{content}}".to_string()), Some(entries), &pages());
    let body = String::from_utf8(resp.body).unwrap();
    assert_eq!(body.matches("<a ").count(), 1);
    assert!(body.contains("href=\"upload/&lt;a x&gt;&#39;\\&quot;&amp;.txt\">&lt;a x&gt;&#39;\\&quot;&amp;.txt</a>"));
    assert!(body.contains("deleteFile('&lt;a x&gt;\\&#39;\\\\&quot;&amp;.txt')"));
}

#[test]
fn upload_with_unsafe_name_is_400() {
    let ev = server_a(vec![("/upload".to_string(), route(&["POST"]))]);
    let form = "------X\r\nContent-Disposition: form-data; name=\"file\"; filename=\"/etc/x\"\r\n\r\nhi\r\n------X--\r\n";
    let raw = multipart_raw("multipart/form-data; boundary=----X", form);
    assert_eq!(respond(plan_of(&ev, &raw, false)).status_code, 400);
    let form = "------X\r\nContent-Disposition: form-data; name=\"file\"; filename=\"../x\"\r\n\r\nhi\r\n------X--\r\n";
    let raw = multipart_raw("multipart/form-data; boundary=----X", form);
    assert_eq!(respond(plan_of(&ev, &raw, false)).status_code, 400);
}
