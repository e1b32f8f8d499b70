use vstd::prelude::*;

use crate::cgi_handler::join_path;
use crate::config::RouteConfig;
use crate::event_loop::{matched, Server};
use crate::http_request::{keep_alive_of, lookup_ci, parse_request, RequestView};
use crate::http_response::{
    custom_page, error_view, keep_alive_view, mime_of, with_length, ErrorPagesView, ResponseView,
    CONTENT_LENGTH, CONTENT_TYPE, TEXT_HTML,
};
use crate::routing::{
    bare_view, delete_plan, has_method, is_session_path, json_path_member, ok_plan, safe_name,
    session_check, session_cookie, static_plan, upload_of_request, upload_plan,
    PlanView, UPLOAD_ROOT, WEB_ROOT,
};
use crate::session::Session;
use crate::text::{decimal, html_char, html_escaped, lower_seq, lossy_text, starts_with};

verus! {

/// The error answer for `status` carries that status and an HTML type when its custom page can
/// be read, or when it has none and the shared template can be read.
pub open spec fn error_page_available(pages: ErrorPagesView, status: u16) -> bool {
    match custom_page(pages.custom, status) {
        Some(Some(_)) => true,
        Some(None) => false,
        None => pages.template is Some,
    }
}

pub proof fn lemma_error_view(status: u16, message: Seq<char>, pages: ErrorPagesView)
    requires
        error_page_available(pages, status),
    ensures
        error_view(status, message, pages).status == status,
        error_view(status, message, pages).headers.contains((CONTENT_TYPE@, TEXT_HTML@)),
{
    let r = error_view(status, message, pages);
    assert(r.headers[0] == (CONTENT_TYPE@, TEXT_HTML@));
}

/// A request with an accepted method on a route whose default file exists, with no CGI program,
/// listing or redirect, is served that file: 200, the file's bytes as the body, and their number
/// as the one `Content-Length` header. (On the session paths the session page is served instead,
/// and a route that asks for a session first checks it.)
pub proof fn default_file_is_served(
    req: RequestView,
    route: RouteConfig,
    pages: ErrorPagesView,
    size_limit: Option<usize>,
    sessions: Seq<(String, Session)>,
    bytes: Seq<u8>,
)
    requires
        route.accepted_methods matches Some(ms) && has_method(ms@, req.method),
        req.path != "/upload"@,
        req.path != "/delete"@,
        !is_session_path(req.path),
        route.session_required != Some(true) || session_check(sessions, session_cookie(req)) is Ok,
        route.directory_listing != Some(true),
        route.redirection is None,
        route.default_file is Some,
        route.cgi is None,
    ensures
        ok_plan(req, route, pages, size_limit, sessions, true) == (PlanView::ServeFile {
            type_path: route.default_file->0@,
            file_path: "./public/"@ + route.default_file->0@,
        }),
        with_length(200, mime_of(route.default_file->0@), bytes).status == 200,
        with_length(200, mime_of(route.default_file->0@), bytes).body == bytes,
        with_length(200, mime_of(route.default_file->0@), bytes).headers == seq![
            (CONTENT_TYPE@, mime_of(route.default_file->0@)),
            (CONTENT_LENGTH@, decimal(bytes.len())),
        ],
{
}

/// A method that a route does not accept is answered 405, as an HTML page.
pub proof fn disallowed_method_is_405(
    req: RequestView,
    route: RouteConfig,
    pages: ErrorPagesView,
    size_limit: Option<usize>,
    sessions: Seq<(String, Session)>,
    default_exists: bool,
)
    requires
        route.accepted_methods matches Some(ms) && !has_method(ms@, req.method),
        error_page_available(pages, 405),
    ensures
        ok_plan(req, route, pages, size_limit, sessions, default_exists) matches PlanView::Respond(
            r,
        ) && r.status == 405 && r.headers.contains((CONTENT_TYPE@, TEXT_HTML@)),
{
    lemma_error_view(405, "Method Not Allowed"@, pages);
}

/// An upload whose body is longer than the size limit is answered 413.
pub proof fn oversized_upload_is_413(
    req: RequestView,
    route: RouteConfig,
    pages: ErrorPagesView,
    limit: usize,
    sessions: Seq<(String, Session)>,
    default_exists: bool,
)
    requires
        route.accepted_methods matches Some(ms) && has_method(ms@, req.method),
        req.path == "/upload"@,
        req.body.len() > limit,
        error_page_available(pages, 413),
    ensures
        ok_plan(req, route, pages, Some(limit), sessions, default_exists) matches PlanView::Respond(
            r,
        ) && r.status == 413,
{
    lemma_error_view(413, "Payload Too Large"@, pages);
}

proof fn lemma_upload_path(name: Seq<char>)
    requires
        !starts_with(name, seq!['/']),
    ensures
        join_path(UPLOAD_ROOT@, name) == WEB_ROOT@ + ("/upload/"@ + name),
{
    reveal_strlit("./public/upload");
    reveal_strlit("./public");
    reveal_strlit("/upload/");
    assert(UPLOAD_ROOT@ == "./public/upload"@);
    assert(UPLOAD_ROOT@.skip(UPLOAD_ROOT@.len() - 1)[0] == 'd');
    assert(!crate::text::ends_with(UPLOAD_ROOT@, seq!['/']));
    assert(join_path(UPLOAD_ROOT@, name) =~= WEB_ROOT@ + ("/upload/"@ + name));
}

/// A file uploaded under the name `name` is stored where a static request for `/upload/name`
/// reads, and that request is answered with the stored bytes and the type its path names.
pub proof fn uploaded_file_is_served(
    up: RequestView,
    get: RequestView,
    pages: ErrorPagesView,
    name: Seq<char>,
    data: Seq<u8>,
)
    requires
        upload_of_request(up) == Some((name, data)),
        safe_name(name),
        get.path == "/upload/"@ + name,
        !get.path.contains('%'),
    ensures
        upload_plan(up, pages) == (PlanView::SaveUpload {
            file_path: WEB_ROOT@ + get.path,
            data,
        }),
        static_plan(get, pages) == (PlanView::ServeFile {
            type_path: get.path,
            file_path: WEB_ROOT@ + get.path,
        }),
        with_length(200, mime_of(get.path), data).status == 200,
        with_length(200, mime_of(get.path), data).body == data,
{
    lemma_upload_path(name);
}

/// A delete request names the file where an upload of that name was stored and where a static
/// request reads; its removal is answered 200, and a later request for it, finding no file, 404.
pub proof fn deleted_upload_is_gone(
    del: RequestView,
    get: RequestView,
    pages: ErrorPagesView,
    name: Seq<char>,
)
    requires
        json_path_member(lossy_text(del.body)) == Some(name),
        safe_name(name),
        get.path == "/upload/"@ + name,
        !get.path.contains('%'),
        error_page_available(pages, 404),
    ensures
        delete_plan(del, pages) == (PlanView::DeleteUpload { file_path: WEB_ROOT@ + get.path }),
        static_plan(get, pages) == (PlanView::ServeFile {
            type_path: get.path,
            file_path: WEB_ROOT@ + get.path,
        }),
        bare_view(200, Seq::empty()).status == 200,
        error_view(404, "Not Found"@, pages).status == 404,
{
    lemma_upload_path(name);
    lemma_error_view(404, "Not Found"@, pages);
}

/// The same bytes read on two connections make the same request, which gets the same plan; two
/// answers that differ only in their connection headers agree on everything before them.
pub proof fn same_request_same_answer(
    raw: Seq<u8>,
    listener_fd: i32,
    stream_a: i32,
    stream_b: i32,
    servers: Seq<Server>,
    pages: ErrorPagesView,
    r: ResponseView,
    keep_a: bool,
    keep_b: bool,
)
    requires
        parse_request(raw, listener_fd, stream_a) is Some,
    ensures
        parse_request(raw, listener_fd, stream_b) is Some,
        ({
            let a = parse_request(raw, listener_fd, stream_a)->0;
            let b = parse_request(raw, listener_fd, stream_b)->0;
            &&& matched(servers, a) == matched(servers, b)
            &&& static_plan(a, pages) == static_plan(b, pages)
            &&& forall|route: RouteConfig, limit: Option<usize>, ss: Seq<(String, Session)>, e: bool|
                #[trigger] ok_plan(a, route, pages, limit, ss, e) == ok_plan(b, route, pages, limit, ss, e)
        }),
        keep_alive_view(r, keep_a).headers.take(r.headers.len() as int) == keep_alive_view(
            r,
            keep_b,
        ).headers.take(r.headers.len() as int),
        keep_alive_view(r, keep_a).status == keep_alive_view(r, keep_b).status,
        keep_alive_view(r, keep_a).body == keep_alive_view(r, keep_b).body,
{
    let a = parse_request(raw, listener_fd, stream_a)->0;
    let b = parse_request(raw, listener_fd, stream_b)->0;
    assert(a.method == b.method && a.path == b.path && a.headers == b.headers && a.body == b.body
        && a.version == b.version && a.listener_fd == b.listener_fd);
    assert(keep_alive_view(r, keep_a).headers.take(r.headers.len() as int) =~= r.headers);
    assert(keep_alive_view(r, keep_b).headers.take(r.headers.len() as int) =~= r.headers);
    assert forall|route: RouteConfig, limit: Option<usize>, ss: Seq<(String, Session)>, e: bool|
        #[trigger] ok_plan(a, route, pages, limit, ss, e) == ok_plan(b, route, pages, limit, ss, e) by {
        assert(a == RequestView { stream_fd: a.stream_fd, ..b });
    }
}

/// HTTP/1.1 keeps the connection unless `Connection: close` is sent; `Connection: close`
/// closes it; other versions close it unless `Connection: keep-alive` is sent.
pub proof fn keep_alive_rule(version: Seq<char>, headers: Seq<(Seq<char>, Seq<char>)>)
    ensures
        ({
            let conn = lookup_ci(headers, seq!['C', 'o', 'n', 'n', 'e', 'c', 't', 'i', 'o', 'n']);
            let close = conn matches Some(v) && lower_seq(v) == seq!['c', 'l', 'o', 's', 'e'];
            let keep = conn matches Some(v) && lower_seq(v) == seq![
                'k',
                'e',
                'e',
                'p',
                '-',
                'a',
                'l',
                'i',
                'v',
                'e',
            ];
            &&& version == seq!['H', 'T', 'T', 'P', '/', '1', '.', '1'] && !close ==> keep_alive_of(version, headers)
            &&& close ==> !keep_alive_of(version, headers)
            &&& version != seq!['H', 'T', 'T', 'P', '/', '1', '.', '1'] && !keep ==> !keep_alive_of(
                version,
                headers,
            )
        }),
{
}


/// A character that can end a text run in HTML: it opens or closes a tag or ends an attribute
/// value.
pub open spec fn markup_char(c: char) -> bool {
    c == '<' || c == '>' || c == '"' || c == '\''
}

/// Escaped text holds no markup character, so a file name in a listing can neither add a tag
/// (such as another link) nor leave the attribute or script string it stands in.
pub proof fn escaped_text_has_no_markup(s: Seq<char>)
    ensures
        forall|i: int| 0 <= i < html_escaped(s).len() ==> !markup_char(#[trigger] html_escaped(s)[i]),
    decreases s.len(),
{
    if s.len() > 0 {
        escaped_text_has_no_markup(s.drop_last());
        let a = html_escaped(s.drop_last());
        let b = html_char(s.last());
        assert(html_escaped(s) == a + b);
        assert forall|i: int| 0 <= i < b.len() implies !markup_char(b[i]) by {}
        assert forall|i: int| 0 <= i < html_escaped(s).len() implies !markup_char(
            #[trigger] html_escaped(s)[i],
        ) by {
            if i < a.len() {
                assert(html_escaped(s)[i] == a[i]);
            } else {
                assert(html_escaped(s)[i] == b[i - a.len()]);
            }
        }
    }
}

} // verus!
