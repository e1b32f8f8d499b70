use vstd::prelude::*;

use crate::cgi_handler::{dechunk_from, CGIHandler};
use crate::config::RouteConfig;
use crate::http_request::{lookup_ci, pairs_view, HttpRequest, RequestView};
use crate::http_response::{error_view, ErrorPages, ErrorPagesView, HttpResponse, ResponseView};
use crate::session::{ids_unique, index_of, session_inserted, Session, SessionManager, SESSION_SECONDS};
use crate::text::{
    chars_of, lossy, lossy_text, occurs_at, occurs_at_exec, push_str, same_text, starts_with,
    starts_with_exec, string_of,
};
use crate::upload::{boundary_of, extract_boundary, first_file_part, form_parts, upload_of};
use crate::cgi_handler::{join, join_path};

verus! {

/// The directory that static files are served from.
pub const WEB_ROOT: &'static str = "./public";

/// The directory that uploads go to and deletes come from.
pub const UPLOAD_ROOT: &'static str = "./public/upload";

/// The shared error template, with `{{status_code}}` and `{{message}}` marks.
pub const ERROR_TEMPLATE: &'static str = "./public/error.html";

/// The listing template, with a `{{content}}` mark.
pub const LISTING_TEMPLATE: &'static str = "./public/list_dir.html";

/// Where a configured custom error page lies: its path taken from the working directory.
pub fn custom_page_path(path: &str) -> (r: String)
    ensures
        r@ == seq!['.'] + path@,
{
    let mut t: Vec<char> = Vec::new();
    t.push('.');
    push_str(&mut t, path);
    proof {
        assert(t@ =~= seq!['.'] + path@);
    }
    string_of(t.as_slice())
}

/// The directory that a listing of `dir` reads.
pub fn listing_path(dir: &str) -> (r: String)
    ensures
        r@ == WEB_ROOT@ + dir@,
{
    text_two(WEB_ROOT, dir)
}

/// What is left to do for a request: answer at once, or one piece of outside work, after which
/// the answer is a function of its result.
pub enum Plan {
    /// The answer is ready.
    Respond(HttpResponse),
    /// Read `file_path`; answer with `HttpResponse::get_static(type_path, ..)`.
    ServeFile { type_path: String, file_path: String },
    /// Read `file_path`; answer with `HttpResponse::page_server(status, ..)`.
    ServePage { status: u16, file_path: String },
    /// List the directory `./public{dir}`; answer with `HttpResponse::list_dir(dir, ..)`.
    ListDir { dir: String },
    /// Run the CGI script with `input` on its standard input; answer with
    /// `HttpResponse::from_cgi_output`, or 500 when the run fails.
    RunCgi { handler: CGIHandler, input: Vec<u8> },
    /// Store an uploaded file at `file_path`, making the upload directory first; continue with
    /// `after_upload`.
    SaveUpload { file_path: String, data: Vec<u8> },
    /// Remove the regular file at `file_path`; answer with `delete_response`.
    DeleteUpload { file_path: String },
}

pub enum PlanView {
    Respond(ResponseView),
    ServeFile { type_path: Seq<char>, file_path: Seq<char> },
    ServePage { status: u16, file_path: Seq<char> },
    ListDir { dir: Seq<char> },
    RunCgi {
        executable: Seq<char>,
        root: Seq<char>,
        script: Seq<char>,
        content_length: Option<usize>,
        chunked: bool,
        input: Seq<u8>,
    },
    SaveUpload { file_path: Seq<char>, data: Seq<u8> },
    DeleteUpload { file_path: Seq<char> },
}

impl View for Plan {
    type V = PlanView;

    open spec fn view(&self) -> PlanView {
        match self {
            Plan::Respond(r) => PlanView::Respond(r@),
            Plan::ServeFile { type_path, file_path } => PlanView::ServeFile {
                type_path: type_path@,
                file_path: file_path@,
            },
            Plan::ServePage { status, file_path } => PlanView::ServePage {
                status: *status,
                file_path: file_path@,
            },
            Plan::ListDir { dir } => PlanView::ListDir { dir: dir@ },
            Plan::RunCgi { handler, input } => PlanView::RunCgi {
                executable: handler.cgi_executable@,
                root: handler.root_path@,
                script: handler.script_path@,
                content_length: handler.content_length,
                chunked: handler.is_chunked,
                input: input@,
            },
            Plan::SaveUpload { file_path, data } => PlanView::SaveUpload {
                file_path: file_path@,
                data: data@,
            },
            Plan::DeleteUpload { file_path } => PlanView::DeleteUpload { file_path: file_path@ },
        }
    }
}

/// How storing an upload went.
#[derive(Clone, Copy, Debug, PartialEq, Eq, Structural)]
pub enum SaveOutcome {
    Saved,
    /// The upload directory could not be created.
    DirFailed,
    /// The file could not be created or written.
    FileFailed,
}

/// How removing a file went.
#[derive(Clone, Copy, Debug, PartialEq, Eq, Structural)]
pub enum DeleteOutcome {
    Removed,
    /// No regular file stands at the path.
    Missing,
    /// The file system refused the removal for lack of permission.
    Denied,
    Failed,
}

/// The string member `path` of the JSON value that `text` holds, if it is an object with such a
/// member.
pub uninterp spec fn json_path_member(text: Seq<char>) -> Option<Seq<char>>;

/// Relies on `serde_json::from_str` into a `serde_json::Value`, then `Value::get("path")` and
/// `Value::as_str`: the result depends on the text alone.
#[verifier::external_body]
fn path_member(text: &str) -> (r: Option<String>)
    ensures
        r is Some <==> json_path_member(text@) is Some,
        r matches Some(p) ==> json_path_member(text@) == Some(p@),
{
    let value: serde_json::Value = serde_json::from_str(text).ok()?;
    value.get("path").and_then(|p| p.as_str()).map(|p| p.to_string())
}

/// What `urlencoding::decode` makes of a text: its percent-escapes decoded, if the result is
/// UTF-8.
pub uninterp spec fn url_decoded(s: Seq<char>) -> Option<Seq<char>>;

/// Relies on `urlencoding::decode`: the result depends on the text alone, and a text without `%`
/// comes back as it is.
#[verifier::external_body]
fn decode_path(s: &str) -> (r: Option<String>)
    ensures
        r is Some <==> url_decoded(s@) is Some,
        r matches Some(d) ==> url_decoded(s@) == Some(d@),
        r is None ==> s@.contains('%'),
        r matches Some(d) ==> (!s@.contains('%') ==> d@ == s@),
{
    urlencoding::decode(s).ok().map(|d| d.into_owned())
}

pub open spec fn opt_text(o: Option<String>) -> Option<Seq<char>> {
    match o {
        Some(s) => Some(s@),
        None => None,
    }
}

pub open spec fn has_method(ms: Seq<String>, m: Seq<char>) -> bool {
    exists|i: int| 0 <= i < ms.len() && (#[trigger] ms[i])@ == m
}

/// A response with the given headers and no body.
pub open spec fn bare_view(status: u16, headers: Seq<(Seq<char>, Seq<char>)>) -> ResponseView {
    ResponseView { status, headers, body: Seq::empty() }
}

/// The value of the last pair named exactly `name`.
pub open spec fn last_exact(pairs: Seq<(Seq<char>, Seq<char>)>, name: Seq<char>) -> Option<Seq<char>>
    decreases pairs.len(),
{
    if pairs.len() == 0 {
        None
    } else if pairs.last().0 == name {
        Some(pairs.last().1)
    } else {
        last_exact(pairs.drop_last(), name)
    }
}

/// The session cookie of a request.
pub open spec fn session_cookie(req: RequestView) -> Option<Seq<char>> {
    match lookup_ci(req.headers, "Cookie"@) {
        Some(v) => last_exact(crate::http_request::cookies_from(v, 0), "session_id"@),
        None => None,
    }
}

pub open spec fn is_session_path(path: Seq<char>) -> bool {
    path == "/session"@ || path == "/create-session"@
}

/// A request that creates a session.
pub open spec fn is_create(req: RequestView) -> bool {
    req.path == "/create-session"@ && req.method == "POST"@
}

/// The expiry of a session renewed at `now`.
pub open spec fn renewed_until(now: u64) -> u64 {
    if now + SESSION_SECONDS <= u64::MAX {
        (now + SESSION_SECONDS) as u64
    } else {
        u64::MAX
    }
}

/// The session check of a request that is not on a session path: `Ok` with the index of its
/// session, or the redirect to the session page.
pub open spec fn session_check(sessions: Seq<(String, Session)>, cookie: Option<Seq<char>>) -> Result<
    int,
    ResponseView,
> {
    match cookie {
        Some(id) => match index_of(sessions, id) {
            Some(i) => Ok(i),
            None => Err(
                bare_view(
                    302,
                    seq![("Location"@, "/session"@), ("Set-Cookie"@, "session_id=; Max-Age=0"@)],
                ),
            ),
        },
        None => Err(bare_view(302, seq![("Location"@, "/session"@)])),
    }
}

/// The sessions after a successful check at `now`: the session's expiry is moved.
pub open spec fn touched(sessions: Seq<(String, Session)>, i: int, now: u64) -> Seq<(String, Session)> {
    sessions.update(i, (sessions[i].0, Session { expires_at: renewed_until(now), ..sessions[i].1 }))
}

/// The plan of a route once its session requirement is met.
pub open spec fn served_plan(
    route: RouteConfig,
    req: RequestView,
    pages: ErrorPagesView,
    default_exists: bool,
) -> PlanView {
    if route.directory_listing == Some(true) {
        PlanView::ListDir { dir: req.path }
    } else if route.redirection is Some {
        PlanView::Respond(bare_view(301, seq![("Location"@, route.redirection->0@)]))
    } else if route.default_file is Some && default_exists {
        let f = route.default_file->0@;
        match route.cgi {
            Some(c) => {
                let chunked = match lookup_ci(req.headers, "Transfer-Encoding"@) {
                    Some(v) => crate::text::same_ci(v, "chunked"@),
                    None => false,
                };
                let input = if chunked {
                    dechunk_from(req.body, 0)
                } else {
                    Some(req.body)
                };
                match input {
                    Some(b) => PlanView::RunCgi {
                        executable: c@,
                        root: "./public"@,
                        script: f,
                        content_length: match lookup_ci(req.headers, "Content-Length"@) {
                            Some(v) => match crate::text::parse_unsigned(v, 10) {
                                Some(n) => Some(n as usize),
                                None => None,
                            },
                            None => None,
                        },
                        chunked,
                        input: b,
                    },
                    None => PlanView::Respond(error_view(500, "Internal Server Error"@, pages)),
                }
            },
            None => PlanView::ServeFile { type_path: f, file_path: "./public/"@ + f },
        }
    } else {
        PlanView::Respond(error_view(404, "Not Found"@, pages))
    }
}

/// The plan of a route for a request that does not create a session, given the sessions before.
pub open spec fn route_plan(
    route: RouteConfig,
    req: RequestView,
    pages: ErrorPagesView,
    sessions: Seq<(String, Session)>,
    default_exists: bool,
) -> PlanView {
    if is_session_path(req.path) {
        PlanView::ServePage { status: 200, file_path: "./public/session.html"@ }
    } else if route.session_required == Some(true) {
        match session_check(sessions, session_cookie(req)) {
            Ok(_) => served_plan(route, req, pages, default_exists),
            Err(resp) => PlanView::Respond(resp),
        }
    } else {
        served_plan(route, req, pages, default_exists)
    }
}

/// The sessions after routing a request that does not create a session.
pub open spec fn route_sessions(
    route: RouteConfig,
    req: RequestView,
    sessions: Seq<(String, Session)>,
    now: u64,
) -> Seq<(String, Session)> {
    if !is_session_path(req.path) && route.session_required == Some(true) {
        match session_check(sessions, session_cookie(req)) {
            Ok(i) => touched(sessions, i, now),
            Err(_) => sessions,
        }
    } else {
        sessions
    }
}

/// A `..` component of `name` starts at `i`.
pub open spec fn dotdot_at(name: Seq<char>, i: int) -> bool {
    &&& occurs_at(name, seq!['.', '.'], i)
    &&& (i == 0 || name[i - 1] == '/')
    &&& (i + 2 == name.len() || name[i + 2] == '/')
}

/// A file name that stays inside the upload directory: not absolute, no `..` component.
pub open spec fn safe_name(name: Seq<char>) -> bool {
    &&& !starts_with(name, seq!['/'])
    &&& forall|i: int| !(#[trigger] dotdot_at(name, i))
}

/// The plan of a delete request.
pub open spec fn delete_plan(req: RequestView, pages: ErrorPagesView) -> PlanView {
    match json_path_member(lossy_text(req.body)) {
        None => PlanView::Respond(error_view(400, "Bad Request"@, pages)),
        Some(name) => if safe_name(name) {
            PlanView::DeleteUpload { file_path: join_path(UPLOAD_ROOT@, name) }
        } else {
            PlanView::Respond(error_view(403, "Forbidden"@, pages))
        },
    }
}

/// The file an upload request carries: its `Content-Type` names a multipart body and its boundary,
/// and the body's first entry with a file name is read whole.
pub open spec fn upload_of_request(req: RequestView) -> Option<(Seq<char>, Seq<u8>)> {
    let ct = match lookup_ci(req.headers, "Content-Type"@) {
        Some(v) => v,
        None => Seq::empty(),
    };
    if !starts_with(ct, "multipart/form-data;"@) {
        None
    } else {
        match boundary_of(ct) {
            None => None,
            Some(b) => upload_of(form_parts(req.body, b)),
        }
    }
}

/// The plan of an upload request whose size is within bounds: its file is stored under the upload
/// directory when the file's name is safe; anything else is refused with 400.
pub open spec fn upload_plan(req: RequestView, pages: ErrorPagesView) -> PlanView {
    match upload_of_request(req) {
        Some(f) => if safe_name(f.0) {
            PlanView::SaveUpload { file_path: join_path(UPLOAD_ROOT@, f.0), data: f.1 }
        } else {
            PlanView::Respond(error_view(400, "Bad Request"@, pages))
        },
        None => PlanView::Respond(error_view(400, "Bad Request"@, pages)),
    }
}

/// The plan of an upload request: a body longer than the size limit gives 413. A server with no
/// configured limit takes bodies of any length (the limit is optional, and a missing one is read
/// as no limit, not as a limit of zero).
pub open spec fn post_plan(req: RequestView, pages: ErrorPagesView, size_limit: Option<usize>) -> PlanView {
    if size_limit matches Some(l) && req.body.len() > l {
        PlanView::Respond(error_view(413, "Payload Too Large"@, pages))
    } else {
        upload_plan(req, pages)
    }
}

/// The plan of a request on a configured route, for a request that does not create a session.
pub open spec fn ok_plan(
    req: RequestView,
    route: RouteConfig,
    pages: ErrorPagesView,
    size_limit: Option<usize>,
    sessions: Seq<(String, Session)>,
    default_exists: bool,
) -> PlanView {
    match route.accepted_methods {
        None => PlanView::Respond(error_view(400, "Bad Request"@, pages)),
        Some(ms) => if !has_method(ms@, req.method) {
            PlanView::Respond(error_view(405, "Method Not Allowed"@, pages))
        } else if req.path == "/upload"@ {
            post_plan(req, pages, size_limit)
        } else if req.path == "/delete"@ {
            delete_plan(req, pages)
        } else {
            route_plan(route, req, pages, sessions, default_exists)
        },
    }
}

/// The request reaches route handling (not an upload or delete, and its method is accepted).
pub open spec fn reaches_route(req: RequestView, route: RouteConfig) -> bool {
    &&& route.accepted_methods matches Some(ms) && has_method(ms@, req.method)
    &&& req.path != "/upload"@
    &&& req.path != "/delete"@
}

/// The answer that creates a session with id `id`.
pub open spec fn created_view(id: Seq<char>) -> ResponseView {
    bare_view(302, seq![("Location"@, "/"@), ("Set-Cookie"@, "session_id="@ + id + "; Path=/"@)])
}

/// The plan of a request that matched no route: the URL-decoded path under `./public`, or 404
/// when it does not decode. A path without `%` has nothing to decode.
pub open spec fn static_plan(req: RequestView, pages: ErrorPagesView) -> PlanView {
    if !req.path.contains('%') {
        PlanView::ServeFile { type_path: req.path, file_path: WEB_ROOT@ + req.path }
    } else {
        match url_decoded(req.path) {
            Some(d) => PlanView::ServeFile { type_path: req.path, file_path: WEB_ROOT@ + d },
            None => PlanView::Respond(error_view(404, "Not Found"@, pages)),
        }
    }
}

fn bare(status: u16, headers: Vec<(String, String)>) -> (r: HttpResponse)
    ensures
        r@ == bare_view(status, pairs_view(headers@)),
{
    let r = HttpResponse { status_code: status, headers, body: Vec::new() };
    proof {
        assert(r@.body =~= Seq::<u8>::empty());
    }
    r
}

fn find_exact(pairs: &Vec<(String, String)>, name: &str) -> (r: Option<String>)
    ensures
        opt_text(r) == last_exact(pairs_view(pairs@), name@),
{
    let mut i: usize = pairs.len();
    proof {
        assert(pairs_view(pairs@).take(pairs.len() as int) =~= pairs_view(pairs@));
    }
    while i > 0
        invariant
            i <= pairs.len(),
            last_exact(pairs_view(pairs@), name@) == last_exact(pairs_view(pairs@).take(i as int), name@),
        decreases i,
    {
        proof {
            assert(pairs_view(pairs@).take(i as int).drop_last() =~= pairs_view(pairs@).take(i - 1));
        }
        if same_text(pairs[i - 1].0.as_str(), name) {
            return Some(pairs[i - 1].1.clone());
        }
        i = i - 1;
    }
    None
}

fn contains_method(ms: &Vec<String>, m: &str) -> (r: bool)
    ensures
        r == has_method(ms@, m@),
{
    let mut i: usize = 0;
    while i < ms.len()
        invariant
            i <= ms.len(),
            forall|k: int| 0 <= k < i ==> (#[trigger] ms@[k])@ != m@,
        decreases ms.len() - i,
    {
        if same_text(ms[i].as_str(), m) {
            return true;
        }
        i = i + 1;
    }
    false
}

fn is_safe_name(name: &str) -> (r: bool)
    ensures
        r == safe_name(name@),
{
    proof {
        reveal_strlit("/");
        reveal_strlit("..");
        assert("/"@ =~= seq!['/']);
        assert(".."@ =~= seq!['.', '.']);
    }
    if starts_with_exec(name, "/") {
        return false;
    }
    let cs = chars_of(name);
    let dots = chars_of("..");
    let mut i: usize = 0;
    while i < cs.len()
        invariant
            i <= cs.len(),
            cs@ == name@,
            dots@ == seq!['.', '.'],
            forall|j: int| 0 <= j < i ==> !(#[trigger] dotdot_at(cs@, j)),
        decreases cs.len() - i,
    {
        if occurs_at_exec(&cs, &dots, i) {
            if (i == 0 || cs[i - 1] == '/') && (i + 2 == cs.len() || cs[i + 2] == '/') {
                assert(dotdot_at(cs@, i as int));
                return false;
            }
        }
        i = i + 1;
    }
    proof {
        assert forall|j: int| !(#[trigger] dotdot_at(cs@, j)) by {
            if 0 <= j < i {
            } else {
                assert(!occurs_at(cs@, seq!['.', '.'], j));
            }
        }
    }
    true
}

/// Checks the session of a request: requests on the session pages pass as they are; otherwise a
/// known `session_id` is renewed until `now` plus an hour and passes, and an unknown or missing
/// one is sent to the session page.
pub fn handle_session(
    session_manager: &mut SessionManager,
    session_id: Option<String>,
    request: &HttpRequest,
    now: u64,
) -> (r: Result<String, HttpResponse>)
    requires
        ids_unique(old(session_manager).sessions@),
    ensures
        ids_unique(final(session_manager).sessions@),
        final(session_manager).session_duration == old(session_manager).session_duration,
        is_session_path(request@.path) ==> (r matches Ok(s) && s@.len() == 0)
            && final(session_manager).sessions@ == old(session_manager).sessions@,
        !is_session_path(request@.path) ==> match session_check(
            old(session_manager).sessions@,
            opt_text(session_id),
        ) {
            Ok(i) => (r matches Ok(s) && s@ == session_id->0@) && final(session_manager).sessions@
                == touched(old(session_manager).sessions@, i, now),
            Err(resp) => (r matches Err(e) && e@ == resp) && final(session_manager).sessions@
                == old(session_manager).sessions@,
        },
{
    if same_text(request.path.as_str(), "/session") || same_text(request.path.as_str(), "/create-session") {
        return Ok(String::new());
    }
    match session_id {
        Some(id) => {
            let ghost old_sessions = session_manager.sessions@;
            match session_manager.get_session_mut(id.as_str()) {
                Some(sess) => {
                    sess.expires_at = now.saturating_add(SESSION_SECONDS);
                    proof {
                        let i = index_of(old_sessions, id@)->0;
                        assert(session_manager.sessions@ =~= touched(old_sessions, i, now));
                        assert forall|a: int, b: int|
                            0 <= a < b < session_manager.sessions@.len() implies (#[trigger] session_manager.sessions@[a]).0@
                                != (#[trigger] session_manager.sessions@[b]).0@ by {
                            assert(session_manager.sessions@[a].0 == old_sessions[a].0);
                            assert(session_manager.sessions@[b].0 == old_sessions[b].0);
                        }
                    }
                    Ok(id)
                },
                None => {
                    let hs = vec![
                        ("Location".to_owned(), "/session".to_owned()),
                        ("Set-Cookie".to_owned(), "session_id=; Max-Age=0".to_owned()),
                    ];
                    proof {
                        assert(pairs_view(hs@) =~= seq![
                            ("Location"@, "/session"@),
                            ("Set-Cookie"@, "session_id=; Max-Age=0"@),
                        ]);
                    }
                    Err(bare(302, hs))
                },
            }
        },
        None => {
            let hs = vec![("Location".to_owned(), "/session".to_owned())];
            proof {
                assert(pairs_view(hs@) =~= seq![("Location"@, "/session"@)]);
            }
            Err(bare(302, hs))
        },
    }
}


fn text_two(a: &str, b: &str) -> (r: String)
    ensures
        r@ == a@ + b@,
{
    let mut t: Vec<char> = Vec::new();
    push_str(&mut t, a);
    push_str(&mut t, b);
    proof {
        assert(t@ =~= a@ + b@);
    }
    string_of(t.as_slice())
}

fn text_plus(a: &str, b: &str, c: &str) -> (r: String)
    ensures
        r@ == a@ + b@ + c@,
{
    let mut t: Vec<char> = Vec::new();
    push_str(&mut t, a);
    push_str(&mut t, b);
    push_str(&mut t, c);
    proof {
        assert(t@ =~= a@ + b@ + c@);
    }
    string_of(t.as_slice())
}

/// What a route does once its session requirement is met: list, redirect, run its CGI script,
/// or serve its default file.
pub fn served(route: &RouteConfig, request: &HttpRequest, error_page: &ErrorPages, default_exists: bool) -> (r: Plan)
    ensures
        r@ == served_plan(*route, request@, error_page@, default_exists),
{
    match route.directory_listing {
        Some(true) => {
            return Plan::ListDir { dir: request.path.clone() };
        },
        _ => {},
    }
    match &route.redirection {
        Some(to) => {
            let hs = vec![("Location".to_owned(), to.clone())];
            proof {
                assert(pairs_view(hs@) =~= seq![("Location"@, to@)]);
            }
            return Plan::Respond(bare(301, hs));
        },
        None => {},
    }
    match &route.default_file {
        Some(f) => {
            if default_exists {
                match &route.cgi {
                    Some(c) => {
                        let handler = CGIHandler::new(c.as_str(), "./public", f.as_str(), &request.headers);
                        match handler.handle_request(request) {
                            Some(input) => {
                                return Plan::RunCgi { handler, input };
                            },
                            None => {
                                return Plan::Respond(HttpResponse::internal_server_error(error_page));
                            },
                        }
                    },
                    None => {
                        let file_path = text_two("./public/", f.as_str());
                        proof {
                            assert(file_path@ =~= "./public/"@ + f@);
                        }
                        return Plan::ServeFile { type_path: f.clone(), file_path };
                    },
                }
            }
        },
        None => {},
    }
    Plan::Respond(HttpResponse::not_found(error_page))
}

/// Handles a request on a configured route: the session pages (and creating a session), the
/// route's session requirement, then what the route does.
pub fn handle_route(
    route: &RouteConfig,
    request: HttpRequest,
    error_page: &ErrorPages,
    session_manager: &mut SessionManager,
    now: u64,
    default_exists: bool,
) -> (r: Plan)
    requires
        ids_unique(old(session_manager).sessions@),
    ensures
        ids_unique(final(session_manager).sessions@),
        is_create(request@) ==> exists|id: Seq<char>, now: u64|
            r@ == PlanView::Respond(created_view(id)) && session_inserted(
                old(session_manager).sessions@,
                final(session_manager).sessions@,
                id,
                now,
                old(session_manager).session_duration,
            ),
        !is_create(request@) ==> r@ == route_plan(
            *route,
            request@,
            error_page@,
            old(session_manager).sessions@,
            default_exists,
        ) && final(session_manager).sessions@ == route_sessions(
            *route,
            request@,
            old(session_manager).sessions@,
            now,
        ),
{
    let is_create_path = same_text(request.path.as_str(), "/create-session");
    if is_create_path || same_text(request.path.as_str(), "/session") {
        if is_create_path && same_text(request.method.as_str(), "POST") {
            let id = session_manager.create_session();
            let cookie = text_plus("session_id=", id.as_str(), "; Path=/");
            let hs = vec![("Location".to_owned(), "/".to_owned()), ("Set-Cookie".to_owned(), cookie)];
            proof {
                assert(pairs_view(hs@) =~= seq![
                    ("Location"@, "/"@),
                    ("Set-Cookie"@, "session_id="@ + id@ + "; Path=/"@),
                ]);
            }
            let r = Plan::Respond(bare(302, hs));
            proof {
                assert(r@ == PlanView::Respond(created_view(id@)));
                let now = choose|now: u64|
                    session_inserted(
                        old(session_manager).sessions@,
                        session_manager.sessions@,
                        id@,
                        now,
                        old(session_manager).session_duration,
                    );
                assert(r@ == PlanView::Respond(created_view(id@)) && session_inserted(
                    old(session_manager).sessions@,
                    session_manager.sessions@,
                    id@,
                    now,
                    old(session_manager).session_duration,
                ));
            }
            return r;
        }
        return Plan::ServePage { status: 200, file_path: "./public/session.html".to_owned() };
    }
    match route.session_required {
        Some(true) => {
            let cookies = request.get_cookies();
            let sid = find_exact(&cookies, "session_id");
            match handle_session(session_manager, sid, &request, now) {
                Err(resp) => {
                    return Plan::Respond(resp);
                },
                Ok(_) => {},
            }
        },
        _ => {},
    }
    served(route, &request, error_page, default_exists)
}

/// Handles an upload request whose size is within bounds: a multipart body with a file whose name
/// stays inside the upload directory is stored; anything else is refused with 400.
pub fn handle_post(request: HttpRequest, error_page: &ErrorPages) -> (r: Plan)
    ensures
        r@ == upload_plan(request@, error_page@),
{
    let content_type = match request.header("Content-Type") {
        Some(v) => v.clone(),
        None => String::new(),
    };
    if !starts_with_exec(content_type.as_str(), "multipart/form-data;") {
        return Plan::Respond(HttpResponse::bad_request(error_page));
    }
    let boundary = match extract_boundary(content_type.as_str()) {
        Some(b) => b,
        None => {
            return Plan::Respond(HttpResponse::bad_request(error_page));
        },
    };
    match first_file_part(request.body, boundary) {
        Some((file_name, data)) => {
            if is_safe_name(file_name.as_str()) {
                Plan::SaveUpload { file_path: join(UPLOAD_ROOT, file_name.as_str()), data }
            } else {
                Plan::Respond(HttpResponse::bad_request(error_page))
            }
        },
        None => Plan::Respond(HttpResponse::bad_request(error_page)),
    }
}

/// Handles a delete request: the body is a JSON object whose string member `path` names a file
/// under the upload directory.
pub fn handle_delete(request: HttpRequest, error_page: &ErrorPages) -> (r: Plan)
    ensures
        r@ == delete_plan(request@, error_page@),
{
    let text = lossy(request.body.as_slice());
    match path_member(text.as_str()) {
        None => Plan::Respond(HttpResponse::bad_request(error_page)),
        Some(name) => {
            if is_safe_name(name.as_str()) {
                Plan::DeleteUpload { file_path: join(UPLOAD_ROOT, name.as_str()) }
            } else {
                Plan::Respond(HttpResponse::forbidden(error_page))
            }
        },
    }
}

/// The answer once a delete was tried.
pub fn delete_response(outcome: DeleteOutcome, error_page: &ErrorPages) -> (r: HttpResponse)
    ensures
        r@ == (match outcome {
            DeleteOutcome::Removed => bare_view(200, Seq::empty()),
            DeleteOutcome::Missing => error_view(404, "Not Found"@, error_page@),
            DeleteOutcome::Denied => error_view(403, "Forbidden"@, error_page@),
            DeleteOutcome::Failed => error_view(500, "Internal Server Error"@, error_page@),
        }),
{
    match outcome {
        DeleteOutcome::Removed => {
            let r = bare(200, Vec::new());
            proof {
                assert(pairs_view(Seq::<(String, String)>::empty()) =~= Seq::empty());
            }
            r
        },
        DeleteOutcome::Missing => HttpResponse::not_found(error_page),
        DeleteOutcome::Denied => HttpResponse::forbidden(error_page),
        DeleteOutcome::Failed => HttpResponse::internal_server_error(error_page),
    }
}

/// What follows once an upload was stored: the listing of the upload directory, or 500 when the
/// directory could not be made, or 400 when the file could not be written.
pub fn after_upload(outcome: SaveOutcome, error_page: &ErrorPages) -> (r: Plan)
    ensures
        r@ == (match outcome {
            SaveOutcome::Saved => PlanView::ListDir { dir: "/upload"@ },
            SaveOutcome::DirFailed => PlanView::Respond(error_view(500, "Internal Server Error"@, error_page@)),
            SaveOutcome::FileFailed => PlanView::Respond(error_view(400, "Bad Request"@, error_page@)),
        }),
{
    match outcome {
        SaveOutcome::Saved => Plan::ListDir { dir: "/upload".to_owned() },
        SaveOutcome::DirFailed => Plan::Respond(HttpResponse::internal_server_error(error_page)),
        SaveOutcome::FileFailed => Plan::Respond(HttpResponse::bad_request(error_page)),
    }
}

/// The plan of a request that matched no route: serve `./public` followed by its decoded path.
pub fn plan_static(request: &HttpRequest, error_page: &ErrorPages) -> (r: Plan)
    ensures
        r@ == static_plan(request@, error_page@),
{
    match decode_path(request.path.as_str()) {
        Some(d) => {
            let file_path = text_two(WEB_ROOT, d.as_str());
            Plan::ServeFile { type_path: request.path.clone(), file_path }
        },
        None => Plan::Respond(HttpResponse::not_found(error_page)),
    }
}

impl HttpResponse {
    /// Handles a request on a configured route: a route without a method list answers 400, a
    /// method it does not list 405; then uploads, deletes, and the route itself.
    pub fn ok(
        request: HttpRequest,
        route_config: &RouteConfig,
        error_page: &ErrorPages,
        size_limit: Option<usize>,
        session_manager: &mut SessionManager,
        now: u64,
        default_exists: bool,
    ) -> (r: Plan)
        requires
            ids_unique(old(session_manager).sessions@),
        ensures
            ids_unique(final(session_manager).sessions@),
            reaches_route(request@, *route_config) && is_create(request@) ==> exists|id: Seq<char>, now: u64|
                r@ == PlanView::Respond(created_view(id)) && session_inserted(
                    old(session_manager).sessions@,
                    final(session_manager).sessions@,
                    id,
                    now,
                    old(session_manager).session_duration,
                ),
            !(reaches_route(request@, *route_config) && is_create(request@)) ==> r@ == ok_plan(
                request@,
                *route_config,
                error_page@,
                size_limit,
                old(session_manager).sessions@,
                default_exists,
            ),
            !reaches_route(request@, *route_config) ==> final(session_manager).sessions@ == old(session_manager).sessions@,
            reaches_route(request@, *route_config) && !is_create(request@) ==> final(session_manager).sessions@
                == route_sessions(*route_config, request@, old(session_manager).sessions@, now),
    {
        let methods = match &route_config.accepted_methods {
            Some(m) => m,
            None => {
                return Plan::Respond(HttpResponse::bad_request(error_page));
            },
        };
        if !contains_method(methods, request.method.as_str()) {
            return Plan::Respond(HttpResponse::method_not_allowed(error_page));
        }
        if same_text(request.path.as_str(), "/upload") {
            return Self::handle_post_response(request, error_page, size_limit);
        }
        if same_text(request.path.as_str(), "/delete") {
            return handle_delete(request, error_page);
        }
        handle_route(route_config, request, error_page, session_manager, now, default_exists)
    }

    /// Handles an upload request: a body larger than the limit gives 413; with no limit set, any
    /// length is taken.
    pub fn handle_post_response(
        request: HttpRequest,
        error_page: &ErrorPages,
        size_limit: Option<usize>,
    ) -> (r: Plan)
        ensures
            r@ == post_plan(request@, error_page@, size_limit),
    {
        match size_limit {
            Some(limit) => {
                if request.body.len() > limit {
                    return Plan::Respond(HttpResponse::payload_too_large(error_page));
                }
            },
            None => {},
        }
        handle_post(request, error_page)
    }
}

} // verus!
