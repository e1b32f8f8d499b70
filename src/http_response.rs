use vstd::prelude::*;
use vstd::utf8::encode_utf8;

use crate::http_request::pairs_view;
use crate::session::Session;
use crate::text::{
    chars_of, html_escaped, js_escape, js_escaped, push_html_escaped,
    decimal, decimal_string, ends_with, ends_with_exec, push_all, push_bytes, push_decimal,
    push_str, replace_all, replace_exec, same_text, string_of, strip_slashes, strip_slashes_exec,
    utf8_bytes,
};

verus! {

/// A response: status, header lines in order (`Set-Cookie` may repeat), body bytes.
pub struct HttpResponse {
    pub status_code: u16,
    pub headers: Vec<(String, String)>,
    pub body: Vec<u8>,
}

pub struct ResponseView {
    pub status: u16,
    pub headers: Seq<(Seq<char>, Seq<char>)>,
    pub body: Seq<u8>,
}

impl View for HttpResponse {
    type V = ResponseView;

    open spec fn view(&self) -> ResponseView {
        ResponseView {
            status: self.status_code,
            headers: pairs_view(self.headers@),
            body: self.body@,
        }
    }
}

/// The error pages of a server as read from disk: for each status with a configured page whose
/// file exists, its bytes (`None` when reading it failed); and the text of the shared error
/// template, if it could be read.
pub struct ErrorPages {
    pub custom: Vec<(u16, Option<Vec<u8>>)>,
    pub template: Option<String>,
}

pub struct ErrorPagesView {
    pub custom: Seq<(u16, Option<Seq<u8>>)>,
    pub template: Option<Seq<char>>,
}

pub open spec fn opt_bytes(b: Option<Vec<u8>>) -> Option<Seq<u8>> {
    match b {
        Some(v) => Some(v@),
        None => None,
    }
}

impl View for ErrorPages {
    type V = ErrorPagesView;

    open spec fn view(&self) -> ErrorPagesView {
        ErrorPagesView {
            custom: self.custom@.map_values(|p: (u16, Option<Vec<u8>>)| (p.0, opt_bytes(p.1))),
            template: match self.template {
                Some(t) => Some(t@),
                None => None,
            },
        }
    }
}

impl ErrorPages {
    /// No custom page and no template.
    pub fn none() -> (r: Self)
        ensures
            r@.custom.len() == 0,
            r@.template is None,
    {
        ErrorPages { custom: Vec::new(), template: None }
    }
}

pub const TEXT_HTML: &'static str = "text/html";

pub const CONTENT_TYPE: &'static str = "Content-Type";

pub const CONTENT_LENGTH: &'static str = "Content-Length";

/// Body of the last-resort answer when no error template can be read.
pub const FALLBACK_BODY: &'static str = "<h1>500 Internal Server Error</h1>";

pub const STATUS_MARK: &'static str = "{{status_code}}";

pub const MESSAGE_MARK: &'static str = "{{message}}";

pub const CONTENT_MARK: &'static str = "{{content}}";

/// The script appended to every directory listing: it posts a delete request for a file.
pub const LISTING_SCRIPT: &'static str = "
<script>
function deleteFile(filePath) {
    if (confirm(\"Are you sure you want to delete this file?\")) {
        fetch('/delete', {
            method: 'DELETE',
            headers: { 'Content-Type': 'application/json' },
            body: JSON.stringify({ path: filePath })
        })
        .then(response => { if (response.ok) { window.location.reload(); } })
        .catch(error => { console.error('Error:', error); alert('The file could not be deleted'); });
    }
}
</script>
";

/// The reason phrase of a status.
pub open spec fn reason(status: u16) -> Seq<char> {
    if status == 200 {
        "OK"@
    } else if status == 301 {
        "Moved Permanently"@
    } else if status == 302 {
        "Found"@
    } else if status == 400 {
        "Bad Request"@
    } else if status == 403 {
        "Forbidden"@
    } else if status == 404 {
        "Not Found"@
    } else if status == 405 {
        "Method Not Allowed"@
    } else if status == 413 {
        "Payload Too Large"@
    } else if status == 500 {
        "Internal Server Error"@
    } else if status == 503 {
        "Service Unavailable"@
    } else {
        "Unknown"@
    }
}

/// A response with `Content-Type` and `Content-Length` headers.
pub open spec fn with_length(status: u16, mime: Seq<char>, body: Seq<u8>) -> ResponseView {
    ResponseView {
        status,
        headers: seq![(CONTENT_TYPE@, mime), (CONTENT_LENGTH@, decimal(body.len()))],
        body,
    }
}

/// The minimal answer when no error template can be read.
pub open spec fn fallback_view() -> ResponseView {
    with_length(500, TEXT_HTML@, encode_utf8(FALLBACK_BODY@))
}

/// The shared error template with status and message filled in.
pub open spec fn template_view(status: u16, message: Seq<char>, template: Option<Seq<char>>) -> ResponseView {
    match template {
        Some(t) => with_length(
            status,
            TEXT_HTML@,
            encode_utf8(
                replace_all(
                    replace_all(t, STATUS_MARK@, decimal(status as nat)),
                    MESSAGE_MARK@,
                    message,
                ),
            ),
        ),
        None => fallback_view(),
    }
}

/// The configured page of a status: the first entry for it.
pub open spec fn custom_page(custom: Seq<(u16, Option<Seq<u8>>)>, status: u16) -> Option<
    Option<Seq<u8>>,
>
    decreases custom.len(),
{
    if custom.len() == 0 {
        None
    } else if custom[0].0 == status {
        Some(custom[0].1)
    } else {
        custom_page(custom.drop_first(), status)
    }
}

/// The error answer for a status: its custom page as it is, else the template; a custom page that
/// exists but cannot be read gives the template's 500.
pub open spec fn error_view(status: u16, message: Seq<char>, pages: ErrorPagesView) -> ResponseView {
    match custom_page(pages.custom, status) {
        Some(Some(b)) => with_length(status, TEXT_HTML@, b),
        Some(None) => template_view(500, "Internal Server Error"@, pages.template),
        None => template_view(status, message, pages.template),
    }
}

/// The answer for what a CGI program wrote to its standard output: those bytes as an HTML page.
pub open spec fn cgi_view(out: Seq<u8>) -> ResponseView {
    ResponseView { status: 200, headers: seq![(CONTENT_TYPE@, TEXT_HTML@)], body: out }
}

/// MIME type by the extension that ends the path.
pub open spec fn mime_of(path: Seq<char>) -> Seq<char> {
    if ends_with(path, ".css"@) {
        "text/css"@
    } else if ends_with(path, ".js"@) {
        "application/javascript"@
    } else if ends_with(path, ".html"@) {
        "text/html"@
    } else if ends_with(path, ".png"@) {
        "image/png"@
    } else if ends_with(path, ".jpg"@) || ends_with(path, ".jpeg"@) {
        "image/jpeg"@
    } else if ends_with(path, ".gif"@) {
        "image/gif"@
    } else if ends_with(path, ".svg"@) {
        "image/svg+xml"@
    } else if ends_with(path, ".txt"@) {
        "text/plain"@
    } else if ends_with(path, ".pdf"@) {
        "application/pdf"@
    } else if ends_with(path, ".doc"@) || ends_with(path, ".docx"@) {
        "application/vnd.openxmlformats-officedocument.wordprocessingml.document"@
    } else if ends_with(path, ".xls"@) || ends_with(path, ".xlsx"@) {
        "application/vnd.openxmlformats-officedocument.spreadsheetml.sheet"@
    } else {
        "application/octet-stream"@
    }
}

pub fn mime_type(path: &str) -> (r: &'static str)
    ensures
        r@ == mime_of(path@),
{
    if ends_with_exec(path, ".css") {
        "text/css"
    } else if ends_with_exec(path, ".js") {
        "application/javascript"
    } else if ends_with_exec(path, ".html") {
        "text/html"
    } else if ends_with_exec(path, ".png") {
        "image/png"
    } else if ends_with_exec(path, ".jpg") || ends_with_exec(path, ".jpeg") {
        "image/jpeg"
    } else if ends_with_exec(path, ".gif") {
        "image/gif"
    } else if ends_with_exec(path, ".svg") {
        "image/svg+xml"
    } else if ends_with_exec(path, ".txt") {
        "text/plain"
    } else if ends_with_exec(path, ".pdf") {
        "application/pdf"
    } else if ends_with_exec(path, ".doc") || ends_with_exec(path, ".docx") {
        "application/vnd.openxmlformats-officedocument.wordprocessingml.document"
    } else if ends_with_exec(path, ".xls") || ends_with_exec(path, ".xlsx") {
        "application/vnd.openxmlformats-officedocument.spreadsheetml.sheet"
    } else {
        "application/octet-stream"
    }
}

pub const FILE_LINK: &'static str = "<a class=\"file-link\" href=\"";

pub const LINK_MID: &'static str = "\">";

pub const LINK_END: &'static str = "</a>";

pub const DELETE_OPEN: &'static str = "<button type=\"button\" class=\"delete-btn\" onclick=\"deleteFile('";

pub const DELETE_CLOSE: &'static str = "')\"><i class=\"fas fa-trash-alt\"></i> Delete</button>";

pub const FOLDER_OPEN: &'static str = "<div class=\"file-info\"><div class=\"file-icon folder\"><i class=\"fas fa-folder\"></i></div><span class=\"file-name\"> ";

pub const FOLDER_CLOSE: &'static str = "</span></div>\n";

pub const FILE_OPEN: &'static str = "<li class=\"file-item\"><div class=\"file-info\"><div class=\"file-icon image-file\"><i class=\"fas fa-image\"></i></div><span class=\"file-name\"> ";

pub const FILE_MID: &'static str = " </span></div><div class=\"file-actions\">";

pub const FILE_CLOSE: &'static str = "</div></li>\n";

/// The directory whose entries carry a delete button.
pub const UPLOAD_DIR: &'static str = "/upload";

/// The HTML of one entry of a listing of `dir`: a link to `dir/name` with the name as its text,
/// and under the upload directory a delete button; the name and the link target are escaped for
/// HTML, and the button's argument for a script string as well.
pub open spec fn entry_html(dir: Seq<char>, name: Seq<char>, is_dir: bool) -> Seq<char> {
    let link = FILE_LINK@ + html_escaped(strip_slashes(dir) + seq!['/'] + name) + LINK_MID@
        + html_escaped(name) + LINK_END@;
    let button = if dir == UPLOAD_DIR@ {
        DELETE_OPEN@ + html_escaped(js_escaped(name)) + DELETE_CLOSE@
    } else {
        Seq::empty()
    };
    if is_dir {
        FOLDER_OPEN@ + link + button + FOLDER_CLOSE@
    } else {
        FILE_OPEN@ + link + FILE_MID@ + button + FILE_CLOSE@
    }
}

/// The HTML of all entries, in order.
pub open spec fn listing_html(dir: Seq<char>, entries: Seq<(Seq<char>, bool)>) -> Seq<char>
    decreases entries.len(),
{
    if entries.len() == 0 {
        Seq::empty()
    } else {
        listing_html(dir, entries.drop_last()) + entry_html(
            dir,
            entries.last().0,
            entries.last().1,
        )
    }
}

pub open spec fn entries_view(entries: Seq<(String, bool)>) -> Seq<(Seq<char>, bool)> {
    entries.map_values(|e: (String, bool)| (e.0@, e.1))
}

/// The lines of a header block, each `name: value\r\n`.
pub open spec fn header_lines(hs: Seq<(Seq<char>, Seq<char>)>) -> Seq<char>
    decreases hs.len(),
{
    if hs.len() == 0 {
        Seq::empty()
    } else {
        header_lines(hs.drop_last()) + hs.last().0 + seq![':', ' '] + hs.last().1 + seq![
            '\r',
            '\n',
        ]
    }
}

/// Status line and headers of a response, up to and including the blank line.
pub open spec fn head_text(r: ResponseView) -> Seq<char> {
    "HTTP/1.1 "@ + decimal(r.status as nat) + seq![' '] + reason(r.status) + seq!['\r', '\n']
        + header_lines(r.headers) + seq!['\r', '\n']
}

/// The bytes of a response on the wire.
pub open spec fn wire(r: ResponseView) -> Seq<u8> {
    encode_utf8(head_text(r)) + r.body
}

/// The view of a response with the connection headers added.
pub open spec fn keep_alive_view(r: ResponseView, keep_alive: bool) -> ResponseView {
    ResponseView {
        headers: if keep_alive {
            r.headers + seq![("Connection"@, "keep-alive"@), ("Keep-Alive"@, "timeout=5, max=100"@)]
        } else {
            r.headers + seq![("Connection"@, "close"@)]
        },
        ..r
    }
}

/// The `Set-Cookie` value for a cookie, with its expiry in seconds since the epoch if given.
pub open spec fn cookie_text(name: Seq<char>, value: Seq<char>, expires: Option<u64>) -> Seq<char> {
    match expires {
        Some(t) => name + seq!['='] + value + "; Expires="@ + decimal(t as nat),
        None => name + seq!['='] + value,
    }
}

fn header(name: &str, value: &str) -> (r: (String, String))
    ensures
        r.0@ == name@,
        r.1@ == value@,
{
    (name.to_owned(), value.to_owned())
}

/// Builds a response whose headers give its type and length.
pub fn sized(status: u16, mime: &str, body: Vec<u8>) -> (r: HttpResponse)
    ensures
        r@ == with_length(status, mime@, body@),
{
    let len = decimal_string(body.len() as u64);
    let headers = vec![header(CONTENT_TYPE, mime), (CONTENT_LENGTH.to_owned(), len)];
    let r = HttpResponse { status_code: status, headers, body };
    proof {
        assert(r@.headers =~= with_length(status, mime@, body@).headers);
    }
    r
}

fn find_custom(custom: &Vec<(u16, Option<Vec<u8>>)>, status: u16) -> (r: Option<usize>)
    ensures
        match r {
            Some(i) => i < custom.len() && custom_page(
                custom@.map_values(|p: (u16, Option<Vec<u8>>)| (p.0, opt_bytes(p.1))),
                status,
            ) == Some(opt_bytes(custom@[i as int].1)),
            None => custom_page(
                custom@.map_values(|p: (u16, Option<Vec<u8>>)| (p.0, opt_bytes(p.1))),
                status,
            ) is None,
        },
{
    let ghost all = custom@.map_values(|p: (u16, Option<Vec<u8>>)| (p.0, opt_bytes(p.1)));
    let mut i: usize = 0;
    proof {
        assert(all.skip(0) =~= all);
    }
    while i < custom.len()
        invariant
            i <= custom.len(),
            all == custom@.map_values(|p: (u16, Option<Vec<u8>>)| (p.0, opt_bytes(p.1))),
            custom_page(all.skip(i as int), status) == custom_page(all, status),
        decreases custom.len() - i,
    {
        proof {
            assert(all.skip(i as int).drop_first() =~= all.skip(i + 1));
        }
        if custom[i].0 == status {
            return Some(i);
        }
        i = i + 1;
    }
    None
}

fn template_response(status: u16, message: &str, template: &Option<String>) -> (r: HttpResponse)
    ensures
        r@ == template_view(
            status,
            message@,
            match template {
                Some(t) => Some(t@),
                None => None,
            },
        ),
{
    match template {
        Some(t) => {
            let code = decimal_string(status as u64);
            proof {
                reveal_strlit("{{status_code}}");
                reveal_strlit("{{message}}");
            }
            let first = replace_exec(t.as_str(), STATUS_MARK, code.as_str());
            let first_text = string_of(first.as_slice());
            let second = replace_exec(first_text.as_str(), MESSAGE_MARK, message);
            let text = string_of(second.as_slice());
            sized(status, TEXT_HTML, utf8_bytes(text.as_str()))
        },
        None => sized(500, TEXT_HTML, utf8_bytes(FALLBACK_BODY)),
    }
}

fn push_link(out: &mut Vec<char>, prefix: &Vec<char>, name: &str)
    ensures
        final(out)@ == old(out)@ + (FILE_LINK@ + html_escaped(prefix@ + seq!['/'] + name@)
            + LINK_MID@ + html_escaped(name@) + LINK_END@),
{
    let name_chars = chars_of(name);
    let mut target: Vec<char> = Vec::new();
    push_all(&mut target, prefix);
    target.push('/');
    push_all(&mut target, &name_chars);
    proof {
        assert(target@ =~= prefix@ + seq!['/'] + name@);
    }
    push_str(out, FILE_LINK);
    push_html_escaped(out, &target);
    push_str(out, LINK_MID);
    push_html_escaped(out, &name_chars);
    push_str(out, LINK_END);
    proof {
        assert(final(out)@ =~= old(out)@ + (FILE_LINK@ + html_escaped(prefix@ + seq!['/'] + name@)
            + LINK_MID@ + html_escaped(name@) + LINK_END@));
    }
}

fn push_button(out: &mut Vec<char>, is_upload: bool, name: &str)
    ensures
        final(out)@ == old(out)@ + (if is_upload {
            DELETE_OPEN@ + html_escaped(js_escaped(name@)) + DELETE_CLOSE@
        } else {
            Seq::empty()
        }),
{
    if is_upload {
        let name_chars = chars_of(name);
        let quoted = js_escape(&name_chars);
        push_str(out, DELETE_OPEN);
        push_html_escaped(out, &quoted);
        push_str(out, DELETE_CLOSE);
        proof {
            assert(final(out)@ =~= old(out)@ + (DELETE_OPEN@ + html_escaped(js_escaped(name@))
                + DELETE_CLOSE@));
        }
    } else {
        proof {
            assert(final(out)@ =~= old(out)@ + Seq::empty());
        }
    }
}

fn push_entry(out: &mut Vec<char>, dir: &str, prefix: &Vec<char>, is_upload: bool, name: &str, is_dir: bool)
    requires
        is_upload == (dir@ == UPLOAD_DIR@),
        prefix@ == strip_slashes(dir@),
    ensures
        final(out)@ == old(out)@ + entry_html(dir@, name@, is_dir),
{
    let ghost link = FILE_LINK@ + html_escaped(prefix@ + seq!['/'] + name@) + LINK_MID@
        + html_escaped(name@) + LINK_END@;
    let ghost button = if is_upload {
        DELETE_OPEN@ + html_escaped(js_escaped(name@)) + DELETE_CLOSE@
    } else {
        Seq::empty()
    };
    if is_dir {
        push_str(out, FOLDER_OPEN);
        push_link(out, prefix, name);
        push_button(out, is_upload, name);
        push_str(out, FOLDER_CLOSE);
        proof {
            assert(final(out)@ =~= old(out)@ + (FOLDER_OPEN@ + link + button + FOLDER_CLOSE@));
        }
    } else {
        push_str(out, FILE_OPEN);
        push_link(out, prefix, name);
        push_str(out, FILE_MID);
        push_button(out, is_upload, name);
        push_str(out, FILE_CLOSE);
        proof {
            assert(final(out)@ =~= old(out)@ + (FILE_OPEN@ + link + FILE_MID@ + button
                + FILE_CLOSE@));
        }
    }
}

impl HttpResponse {
    pub fn new(status_code: u16, headers: Vec<(String, String)>, body: Vec<u8>) -> (r: Self)
        ensures
            r.status_code == status_code,
            r.headers == headers,
            r.body == body,
    {
        Self { status_code, headers, body }
    }

    /// Adds `Connection: keep-alive` and `Keep-Alive: timeout=5, max=100`, or `Connection: close`.
    pub fn with_keep_alive(self, keep_alive: bool) -> (r: Self)
        ensures
            r@ == keep_alive_view(self@, keep_alive),
    {
        let mut r = self;
        let ghost before = r.headers@;
        if keep_alive {
            r.headers.push(header("Connection", "keep-alive"));
            r.headers.push(header("Keep-Alive", "timeout=5, max=100"));
        } else {
            r.headers.push(header("Connection", "close"));
        }
        proof {
            assert(r@.headers =~= keep_alive_view(self@, keep_alive).headers);
        }
        r
    }

    /// Adds a `Set-Cookie` header.
    pub fn set_cookie(&mut self, name: &str, value: &str, expires: Option<u64>)
        ensures
            final(self)@ == (ResponseView {
                headers: old(self)@.headers.push(
                    ("Set-Cookie"@, cookie_text(name@, value@, expires)),
                ),
                ..old(self)@
            }),
    {
        let mut text: Vec<char> = Vec::new();
        push_str(&mut text, name);
        text.push('=');
        push_str(&mut text, value);
        match expires {
            Some(t) => {
                push_str(&mut text, "; Expires=");
                push_decimal(&mut text, t);
            },
            None => {},
        }
        let cookie = string_of(text.as_slice());
        let ghost before = self.headers@;
        self.headers.push(("Set-Cookie".to_owned(), cookie));
        proof {
            assert(cookie@ =~= cookie_text(name@, value@, expires));
            assert(pairs_view(self.headers@) =~= pairs_view(before).push(
                ("Set-Cookie"@, cookie_text(name@, value@, expires)),
            ));
        }
    }

    /// Adds the cookie that carries a session's id, expiring with the session.
    pub fn with_session(self, session: &Session) -> (r: Self)
        ensures
            r@ == (ResponseView {
                headers: self@.headers.push(
                    ("Set-Cookie"@, cookie_text("session_id"@, session.id@, Some(session.expires_at))),
                ),
                ..self@
            }),
    {
        let mut r = self;
        r.set_cookie("session_id", session.id.as_str(), Some(session.expires_at));
        r
    }

    /// The reason phrase of this response's status.
    pub fn reason_phrase(&self) -> (r: &'static str)
        ensures
            r@ == reason(self.status_code),
    {
        match self.status_code {
            200 => "OK",
            301 => "Moved Permanently",
            302 => "Found",
            400 => "Bad Request",
            403 => "Forbidden",
            404 => "Not Found",
            405 => "Method Not Allowed",
            413 => "Payload Too Large",
            500 => "Internal Server Error",
            503 => "Service Unavailable",
            _ => "Unknown",
        }
    }

    /// The bytes to send: status line, header lines, a blank line, then the body.
    pub fn to_bytes(&self) -> (r: Vec<u8>)
        ensures
            r@ == wire(self@),
    {
        let mut text: Vec<char> = Vec::new();
        push_str(&mut text, "HTTP/1.1 ");
        push_decimal(&mut text, self.status_code as u64);
        text.push(' ');
        push_str(&mut text, self.reason_phrase());
        text.push('\r');
        text.push('\n');
        let ghost head = text@;
        let mut i: usize = 0;
        while i < self.headers.len()
            invariant
                i <= self.headers.len(),
                text@ == head + header_lines(pairs_view(self.headers@).take(i as int)),
            decreases self.headers.len() - i,
        {
            let ghost before = text@;
            push_str(&mut text, self.headers[i].0.as_str());
            text.push(':');
            text.push(' ');
            push_str(&mut text, self.headers[i].1.as_str());
            text.push('\r');
            text.push('\n');
            i = i + 1;
            proof {
                let t = pairs_view(self.headers@).take(i as int);
                assert(t.drop_last() =~= pairs_view(self.headers@).take(i - 1));
                assert(text@ =~= head + header_lines(t));
            }
        }
        text.push('\r');
        text.push('\n');
        proof {
            assert(pairs_view(self.headers@).take(self.headers.len() as int) =~= pairs_view(
                self.headers@,
            ));
            assert(text@ =~= head_text(self@));
        }
        let s = string_of(text.as_slice());
        let mut out = utf8_bytes(s.as_str());
        push_bytes(&mut out, self.body.as_slice());
        out
    }

    /// The error answer for a status, from the loaded pages.
    pub fn error_template(status_code: u16, message: &str, error_page: &ErrorPages) -> (r: Self)
        ensures
            r@ == error_view(status_code, message@, error_page@),
    {
        match find_custom(&error_page.custom, status_code) {
            Some(i) => match &error_page.custom[i].1 {
                Some(b) => sized(status_code, TEXT_HTML, b.clone()),
                None => template_response(500, "Internal Server Error", &error_page.template),
            },
            None => template_response(status_code, message, &error_page.template),
        }
    }

    pub fn bad_request(error_page: &ErrorPages) -> (r: Self)
        ensures
            r@ == error_view(400, "Bad Request"@, error_page@),
    {
        Self::error_template(400, "Bad Request", error_page)
    }

    pub fn forbidden(error_page: &ErrorPages) -> (r: Self)
        ensures
            r@ == error_view(403, "Forbidden"@, error_page@),
    {
        Self::error_template(403, "Forbidden", error_page)
    }

    pub fn not_found(error_page: &ErrorPages) -> (r: Self)
        ensures
            r@ == error_view(404, "Not Found"@, error_page@),
    {
        Self::error_template(404, "Not Found", error_page)
    }

    pub fn method_not_allowed(error_page: &ErrorPages) -> (r: Self)
        ensures
            r@ == error_view(405, "Method Not Allowed"@, error_page@),
    {
        Self::error_template(405, "Method Not Allowed", error_page)
    }

    pub fn service_unavailable(error_page: &ErrorPages) -> (r: Self)
        ensures
            r@ == error_view(503, "Service Unavailable"@, error_page@),
    {
        Self::error_template(503, "Service Unavailable", error_page)
    }

    pub fn payload_too_large(error_page: &ErrorPages) -> (r: Self)
        ensures
            r@ == error_view(413, "Payload Too Large"@, error_page@),
    {
        Self::error_template(413, "Payload Too Large", error_page)
    }

    pub fn internal_server_error(error_page: &ErrorPages) -> (r: Self)
        ensures
            r@ == error_view(500, "Internal Server Error"@, error_page@),
    {
        Self::error_template(500, "Internal Server Error", error_page)
    }

    /// The answer for a CGI program's output `(stdout, stderr)`: its standard output as an HTML
    /// page. What it wrote to stderr is not sent, and no output is an error: a run that failed is
    /// answered by the caller with `internal_server_error`.
    pub fn from_cgi_output(output: (Vec<u8>, Vec<u8>), _error_page: &ErrorPages) -> (r: Self)
        ensures
            r@ == cgi_view(output.0@),
    {
        let (stdout, _stderr) = output;
        let r = HttpResponse {
            status_code: 200,
            headers: vec![header(CONTENT_TYPE, TEXT_HTML)],
            body: stdout,
        };
        proof {
            assert(r@.headers =~= seq![(CONTENT_TYPE@, TEXT_HTML@)]);
        }
        r
    }

    /// A page read from disk, served as HTML; `None` (it could not be read) gives 500.
    pub fn page_server(status_code: u16, content: Option<Vec<u8>>, error_page: &ErrorPages) -> (r:
        Self)
        ensures
            r@ == (match content {
                Some(b) => with_length(status_code, TEXT_HTML@, b@),
                None => error_view(500, "Internal Server Error"@, error_page@),
            }),
    {
        match content {
            Some(b) => sized(status_code, TEXT_HTML, b),
            None => Self::internal_server_error(error_page),
        }
    }

    /// A static file answer: 200 with the file's bytes and the MIME type of `path`, or 404 when
    /// there is no such file (`None`).
    pub fn get_static(path: &str, content: Option<Vec<u8>>, error_page: &ErrorPages) -> (r: Self)
        ensures
            r@ == (match content {
                Some(b) => with_length(200, mime_of(path@), b@),
                None => error_view(404, "Not Found"@, error_page@),
            }),
    {
        match content {
            Some(b) => sized(200, mime_type(path), b),
            None => Self::not_found(error_page),
        }
    }

    /// The HTML of the entries `(name, is_directory)` of a listing of `dir`.
    pub fn list_content(dir: &str, entries: &Vec<(String, bool)>) -> (r: String)
        ensures
            r@ == listing_html(dir@, entries_view(entries@)),
    {
        let is_upload = same_text(dir, UPLOAD_DIR);
        let prefix = strip_slashes_exec(dir);
        let mut out: Vec<char> = Vec::new();
        let mut i: usize = 0;
        while i < entries.len()
            invariant
                i <= entries.len(),
                is_upload == (dir@ == UPLOAD_DIR@),
                prefix@ == strip_slashes(dir@),
                out@ == listing_html(dir@, entries_view(entries@).take(i as int)),
            decreases entries.len() - i,
        {
            let ghost before = out@;
            push_entry(&mut out, dir, &prefix, is_upload, entries[i].0.as_str(), entries[i].1);
            i = i + 1;
            proof {
                let t = entries_view(entries@).take(i as int);
                assert(t.drop_last() =~= entries_view(entries@).take(i - 1));
                assert(out@ =~= before + entry_html(dir@, t.last().0, t.last().1));
            }
        }
        proof {
            assert(entries_view(entries@).take(entries.len() as int) =~= entries_view(entries@));
        }
        string_of(out.as_slice())
    }

    /// A directory listing page: the listing template with its content mark replaced by the
    /// entries, then the delete script. Either input missing (not readable) gives 500.
    pub fn list_dir(
        dir: &str,
        template: Option<String>,
        entries: Option<Vec<(String, bool)>>,
        error_page: &ErrorPages,
    ) -> (r: Self)
        ensures
            r@ == (match (template, entries) {
                (Some(t), Some(es)) => with_length(
                    200,
                    TEXT_HTML@,
                    encode_utf8(
                        replace_all(t@, CONTENT_MARK@, listing_html(dir@, entries_view(es@)))
                            + LISTING_SCRIPT@,
                    ),
                ),
                _ => error_view(500, "Internal Server Error"@, error_page@),
            }),
    {
        match (template, entries) {
            (Some(t), Some(es)) => {
                let content = Self::list_content(dir, &es);
                proof {
                    reveal_strlit("{{content}}");
                }
                let mut body = replace_exec(t.as_str(), CONTENT_MARK, content.as_str());
                push_str(&mut body, LISTING_SCRIPT);
                let text = string_of(body.as_slice());
                sized(200, TEXT_HTML, utf8_bytes(text.as_str()))
            },
            _ => Self::internal_server_error(error_page),
        }
    }
}

} // verus!
