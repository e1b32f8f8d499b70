use vstd::prelude::*;

use crate::config::RouteConfig;
use crate::http_request::{
    keep_alive_of, parse_request, lookup_ci, run_until, run_until_exec, terminator_from, HttpRequest,
};
use crate::http_response::{error_view, keep_alive_view, ErrorPages, HttpResponse};
use crate::request_queue::RequestQueue;
use crate::routing::{
    created_view, is_create, ok_plan, plan_static, reaches_route, static_plan, Plan, PlanView,
};
use crate::session::{ids_unique, session_inserted, SessionManager};
use crate::text::{
    chars_of, eq_ignore_case, find_char, find_char_exec, lossy, lossy_text, parse_unsigned,
    parse_usize, same_ci, same_text, starts_with, sub_chars, trim, trimmed,
};

verus! {

/// A logical server: its name, the listening sockets it owns, its routes by exact path, the
/// paths of its custom error pages, and its upload size limit.
pub struct Server {
    pub name: String,
    pub listeners: Vec<i32>,
    pub route_map: Vec<(String, RouteConfig)>,
    pub error_pages: Option<Vec<(u16, String)>>,
    pub size_limit: Option<usize>,
}

/// The servers that share one readiness loop.
pub struct EventLoop {
    pub epoll_fd: i32,
    pub servers: Vec<Server>,
}

/// Requests a connection may have queued.
pub const QUEUE_CAPACITY: usize = 100;

/// The host name of a `Host` value: what stands before its first `:`.
pub open spec fn host_part(h: Seq<char>) -> Seq<char> {
    match find_char(h, 0, ':') {
        Some(k) => h.take(k),
        None => h,
    }
}

/// The first server at or after `i` whose name is the host's, up to ASCII case.
pub open spec fn by_name(servers: Seq<Server>, host: Seq<char>, i: int) -> Option<int>
    decreases servers.len() - i,
{
    if i < 0 || i >= servers.len() {
        None
    } else if same_ci(servers[i].name@, host_part(host)) {
        Some(i)
    } else {
        by_name(servers, host, i + 1)
    }
}

/// The first server at or after `i` that owns the listening socket `fd`.
pub open spec fn by_fd(servers: Seq<Server>, fd: i32, i: int) -> Option<int>
    decreases servers.len() - i,
{
    if i < 0 || i >= servers.len() {
        None
    } else if servers[i].listeners@.contains(fd) {
        Some(i)
    } else {
        by_fd(servers, fd, i + 1)
    }
}

/// The first server at or after `i` named exactly `name`.
pub open spec fn first_named(servers: Seq<Server>, name: Seq<char>, i: int) -> Option<int>
    decreases servers.len() - i,
{
    if i < 0 || i >= servers.len() {
        None
    } else if servers[i].name@ == name {
        Some(i)
    } else {
        first_named(servers, name, i + 1)
    }
}

proof fn lemma_first_named(servers: Seq<Server>, name: Seq<char>, from: int, i: int)
    requires
        0 <= from <= i < servers.len(),
        servers[i].name@ == name,
        forall|j: int| from <= j < i ==> (#[trigger] servers[j]).name@ != name,
    ensures
        first_named(servers, name, from) == Some(i),
    decreases i - from,
{
    if from < i {
        lemma_first_named(servers, name, from + 1, i);
    }
}

proof fn lemma_none_named(servers: Seq<Server>, name: Seq<char>, from: int)
    requires
        0 <= from <= servers.len(),
        forall|j: int| from <= j < servers.len() ==> (#[trigger] servers[j]).name@ != name,
    ensures
        first_named(servers, name, from) is None,
    decreases servers.len() - from,
{
    if from < servers.len() {
        lemma_none_named(servers, name, from + 1);
    }
}

/// The server that answers: by host name first, else by listening socket.
pub open spec fn resolve(servers: Seq<Server>, fd: i32, host: Seq<char>) -> Option<int> {
    match by_name(servers, host, 0) {
        Some(i) => Some(i),
        None => by_fd(servers, fd, 0),
    }
}

/// The first route with exactly this path.
pub open spec fn route_index(routes: Seq<(String, RouteConfig)>, path: Seq<char>, i: int) -> Option<int>
    decreases routes.len() - i,
{
    if i < 0 || i >= routes.len() {
        None
    } else if routes[i].0@ == path {
        Some(i)
    } else {
        route_index(routes, path, i + 1)
    }
}

/// The `Host` header of a request, or empty.
pub open spec fn host_of(req: crate::http_request::RequestView) -> Seq<char> {
    match lookup_ci(req.headers, "Host"@) {
        Some(h) => h,
        None => Seq::empty(),
    }
}

/// The route and size limit that apply to a request.
pub open spec fn matched(servers: Seq<Server>, req: crate::http_request::RequestView) -> Option<
    (RouteConfig, Option<usize>),
> {
    match resolve(servers, req.listener_fd, host_of(req)) {
        Some(i) => match route_index(servers[i].route_map@, req.path, 0) {
            Some(j) => Some((servers[i].route_map@[j].1, servers[i].size_limit)),
            None => None,
        },
        None => None,
    }
}

/// Whether a response keeps the connection: what the request's `Connection` header and version
/// ask for.
pub fn check_connection_headers(request: &HttpRequest) -> (r: bool)
    ensures
        r == keep_alive_of(request@.version, request@.headers),
{
    request.wants_keep_alive()
}

/// Adds the connection headers to a response.
pub fn add_connection_headers(response: HttpResponse, keep_alive: bool) -> (r: HttpResponse)
    ensures
        r@ == keep_alive_view(response@, keep_alive),
{
    response.with_keep_alive(keep_alive)
}

/// The `Content-Length` of a header text: on its first line (lines split at `\n`) that starts with
/// `Content-Length: `, the trimmed rest as a decimal number; `None` when no line does or the
/// number does not read.
pub open spec fn content_length_from(s: Seq<char>, from: int) -> Option<nat>
    decreases s.len() + 1 - from,
{
    if from < 0 || from >= s.len() {
        None
    } else {
        let end = from + run_until(s, from, '\n');
        let line = s.subrange(from, end);
        if starts_with(line, "Content-Length: "@) {
            parse_unsigned(trim(line.skip("Content-Length: "@.len() as int)), 10)
        } else if end < s.len() {
            content_length_from(s, end + 1)
        } else {
            None
        }
    }
}

pub fn parse_content_length(request: &str) -> (r: Option<usize>)
    ensures
        match r {
            Some(v) => content_length_from(request@, 0) == Some(v as nat),
            None => content_length_from(request@, 0) is None,
        },
{
    let s = chars_of(request);
    let prefix = chars_of("Content-Length: ");
    let mut pos: usize = 0;
    while pos < s.len()
        invariant
            pos <= s.len(),
            s@ == request@,
            prefix@ == "Content-Length: "@,
            content_length_from(s@, pos as int) == content_length_from(s@, 0),
        decreases s.len() - pos,
    {
        let end = pos + run_until_exec(&s, pos, '\n');
        let line = sub_chars(&s, pos, end);
        if crate::text::occurs_at_exec(&line, &prefix, 0) {
            proof {
                assert(line@.subrange(0, prefix@.len() as int) =~= line@.take(prefix@.len() as int));
            }
            let value = trimmed(&line, prefix.len(), line.len());
            proof {
                assert(line@.subrange(prefix.len() as int, line.len() as int) =~= line@.skip(prefix.len() as int));
            }
            return parse_usize(&value, 10);
        }
        proof {
            if prefix.len() <= line.len() {
                assert(line@.subrange(0, prefix@.len() as int) =~= line@.take(prefix@.len() as int));
            }
        }
        if end >= s.len() {
            return None;
        }
        pos = end + 1;
    }
    None
}

/// How many bytes a request needs, judged from what was read first: the header block, its blank
/// line, and the `Content-Length` body (the largest size if that overflows).
pub open spec fn read_target_of(first: Seq<u8>) -> nat {
    let cl = match content_length_from(lossy_text(first), 0) {
        Some(n) => n,
        None => 0,
    };
    let he = match terminator_from(first, 0) {
        Some(e) => e,
        None => 0,
    };
    let total = cl + he + 4;
    if total <= usize::MAX {
        total as nat
    } else {
        usize::MAX as nat
    }
}

pub fn read_target(first: &[u8]) -> (r: usize)
    ensures
        r as nat == read_target_of(first@),
{
    let text = lossy(first);
    let cl = match parse_content_length(text.as_str()) {
        Some(n) => n,
        None => 0,
    };
    let he = match crate::http_request::find_terminator(first) {
        Some(e) => e,
        None => 0,
    };
    if cl > usize::MAX - 4 || he > usize::MAX - 4 - cl {
        usize::MAX
    } else {
        cl + he + 4
    }
}

/// The state of one connection: its request queue and whether it stays open.
pub struct Connection {
    pub queue: RequestQueue,
    pub keep_alive: bool,
}

impl Connection {
    pub fn new() -> (r: Self)
        ensures
            r.queue.requests@.len() == 0,
            r.queue.max_queued == QUEUE_CAPACITY,
            r.keep_alive,
    {
        Connection { queue: RequestQueue::new(QUEUE_CAPACITY), keep_alive: true }
    }

    /// Takes a request that was read: the connection stays open as the request asks; the request
    /// is queued and every queued request is handed back in arrival order. A full queue answers
    /// 503 and closes the connection.
    pub fn on_request(&mut self, request: HttpRequest, error_page: &ErrorPages) -> (r: Result<
        Vec<HttpRequest>,
        HttpResponse,
    >)
        ensures
            final(self).queue.max_queued == old(self).queue.max_queued,
            old(self).queue.requests@.len() < old(self).queue.max_queued ==> (r matches Ok(v)
                && v@ == old(self).queue.requests@.push(request)) && final(self).queue.requests@.len()
                == 0 && final(self).keep_alive == keep_alive_of(request@.version, request@.headers),
            old(self).queue.requests@.len() >= old(self).queue.max_queued ==> (r matches Err(e)
                && e@ == error_view(503, "Service Unavailable"@, error_page@)) && !final(self).keep_alive
                && final(self).queue.requests@ == old(self).queue.requests@,
    {
        let keep = check_connection_headers(&request);
        match self.queue.push(request, error_page) {
            Err(e) => {
                self.keep_alive = false;
                Err(e)
            },
            Ok(()) => {
                self.keep_alive = keep;
                let ghost all = self.queue.requests@;
                let mut out: Vec<HttpRequest> = Vec::new();
                while self.queue.len() > 0
                    invariant
                        out@ + self.queue.requests@ == all,
                        self.queue.max_queued == old(self).queue.max_queued,
                        self.keep_alive == keep,
                    decreases self.queue.requests@.len(),
                {
                    let ghost before = self.queue.requests@;
                    match self.queue.pop() {
                        Some(req) => {
                            out.push(req);
                            proof {
                                assert(out@ + self.queue.requests@ =~= all);
                            }
                        },
                        None => {},
                    }
                }
                proof {
                    assert(out@ + self.queue.requests@ =~= out@);
                }
                Ok(out)
            },
        }
    }

    /// Takes the bytes of one request as read: a request that does not parse is answered 400 and
    /// closes the connection; one that parses goes on as `on_request` says.
    pub fn on_bytes(
        &mut self,
        raw: &[u8],
        listener_fd: i32,
        stream_fd: i32,
        error_page: &ErrorPages,
    ) -> (r: Result<Vec<HttpRequest>, HttpResponse>)
        ensures
            final(self).queue.max_queued == old(self).queue.max_queued,
            parse_request(raw@, listener_fd, stream_fd) is None ==> (r matches Err(e) && e@
                == error_view(400, "Bad Request"@, error_page@)) && !final(self).keep_alive
                && final(self).queue.requests@ == old(self).queue.requests@,
            parse_request(raw@, listener_fd, stream_fd) matches Some(req) ==> {
                &&& old(self).queue.requests@.len() < old(self).queue.max_queued ==> (r matches Ok(v)
                    && v@.len() == old(self).queue.requests@.len() + 1 && v@.last()@ == req
                    && v@.drop_last() == old(self).queue.requests@)
                    && final(self).queue.requests@.len() == 0 && final(self).keep_alive
                    == keep_alive_of(req.version, req.headers)
                &&& old(self).queue.requests@.len() >= old(self).queue.max_queued ==> (r matches Err(e)
                    && e@ == error_view(503, "Service Unavailable"@, error_page@))
                    && !final(self).keep_alive && final(self).queue.requests@ == old(
                    self).queue.requests@
            },
    {
        match HttpRequest::from_raw(raw, listener_fd, stream_fd) {
            None => {
                self.keep_alive = false;
                Err(HttpResponse::bad_request(error_page))
            },
            Some(request) => {
                let ghost q = self.queue.requests@;
                let r = self.on_request(request, error_page);
                proof {
                    if q.len() < self.queue.max_queued {
                        assert(q.push(request).drop_last() =~= q);
                    }
                }
                r
            },
        }
    }

    /// A read that timed out or found the stream at its end closes the connection.
    pub fn on_read_end(&mut self)
        ensures
            !final(self).keep_alive,
            final(self).queue == old(self).queue,
    {
        self.keep_alive = false;
    }

    /// The bytes of a response on this connection, with its connection headers.
    pub fn finish(&self, response: HttpResponse) -> (r: Vec<u8>)
        ensures
            r@ == crate::http_response::wire(keep_alive_view(response@, self.keep_alive)),
    {
        add_connection_headers(response, self.keep_alive).to_bytes()
    }
}

impl EventLoop {
    pub fn with_epoll(epoll_fd: i32) -> (r: Self)
        ensures
            r.epoll_fd == epoll_fd,
            r.servers@.len() == 0,
    {
        EventLoop { epoll_fd, servers: Vec::new() }
    }

    fn index_of_name(&self, name: &str) -> (r: Option<usize>)
        ensures
            match r {
                Some(i) => first_named(self.servers@, name@, 0) == Some(i as int),
                None => first_named(self.servers@, name@, 0) is None,
            },
            match r {
                Some(i) => i < self.servers@.len() && self.servers@[i as int].name@ == name@
                    && forall|j: int| 0 <= j < i ==> (#[trigger] self.servers@[j]).name@ != name@,
                None => forall|j: int|
                    0 <= j < self.servers@.len() ==> (#[trigger] self.servers@[j]).name@ != name@,
            },
    {
        let mut i: usize = 0;
        while i < self.servers.len()
            invariant
                i <= self.servers.len(),
                forall|j: int| 0 <= j < i ==> (#[trigger] self.servers@[j]).name@ != name@,
            decreases self.servers.len() - i,
        {
            if same_text(self.servers[i].name.as_str(), name) {
                proof {
                    lemma_first_named(self.servers@, name@, 0, i as int);
                }
                return Some(i);
            }
            i = i + 1;
        }
        proof {
            lemma_none_named(self.servers@, name@, 0);
        }
        None
    }

    /// Registers a server with no listener; a name already registered is left as it is.
    pub fn add_server(
        &mut self,
        server_name: String,
        routes: Vec<(String, RouteConfig)>,
        error_pages: Option<Vec<(u16, String)>>,
        size_limit: Option<usize>,
    )
        ensures
            final(self).epoll_fd == old(self).epoll_fd,
            (exists|j: int| 0 <= j < old(self).servers@.len() && (#[trigger] old(self).servers@[j]).name@
                == server_name@) ==> final(self).servers@ == old(self).servers@,
            (forall|j: int| 0 <= j < old(self).servers@.len() ==> (#[trigger] old(self).servers@[j]).name@
                != server_name@) ==> final(self).servers@.len() == old(self).servers@.len() + 1
                && final(self).servers@.take(old(self).servers@.len() as int) == old(self).servers@
                && final(self).servers@.last().name == server_name
                && final(self).servers@.last().listeners@.len() == 0
                && final(self).servers@.last().route_map == routes
                && final(self).servers@.last().error_pages == error_pages
                && final(self).servers@.last().size_limit == size_limit,
    {
        match self.index_of_name(server_name.as_str()) {
            Some(_) => {},
            None => {
                let ghost before = self.servers@;
                self.servers.push(
                    Server {
                        name: server_name,
                        listeners: Vec::new(),
                        route_map: routes,
                        error_pages,
                        size_limit,
                    },
                );
                proof {
                    assert(self.servers@.take(before.len() as int) =~= before);
                }
            },
        }
    }

    /// Records that the listening socket `listener_fd` belongs to the named server: the first
    /// server of that name gets it as its last listener; a new name registers a server that owns
    /// only this socket.
    pub fn add_listener(
        &mut self,
        listener_fd: i32,
        server_name: String,
        routes: Vec<(String, RouteConfig)>,
        error_pages: Option<Vec<(u16, String)>>,
        size_limit: Option<usize>,
    )
        ensures
            final(self).epoll_fd == old(self).epoll_fd,
            match first_named(old(self).servers@, server_name@, 0) {
                Some(i) => {
                    &&& final(self).servers@.len() == old(self).servers@.len()
                    &&& forall|j: int|
                        0 <= j < old(self).servers@.len() && j != i ==> (#[trigger] final(self).servers@[j]) == old(self).servers@[j]
                    &&& final(self).servers@[i].name == old(self).servers@[i].name
                    &&& final(self).servers@[i].route_map == old(self).servers@[i].route_map
                    &&& final(self).servers@[i].error_pages == old(self).servers@[i].error_pages
                    &&& final(self).servers@[i].size_limit == old(self).servers@[i].size_limit
                    &&& final(self).servers@[i].listeners@ == old(self).servers@[i].listeners@.push(
                        listener_fd,
                    )
                },
                None => {
                    &&& final(self).servers@.len() == old(self).servers@.len() + 1
                    &&& final(self).servers@.take(old(self).servers@.len() as int) == old(self).servers@
                    &&& final(self).servers@.last().name == server_name
                    &&& final(self).servers@.last().listeners@ == seq![listener_fd]
                    &&& final(self).servers@.last().route_map == routes
                    &&& final(self).servers@.last().error_pages == error_pages
                    &&& final(self).servers@.last().size_limit == size_limit
                },
            },
    {
        match self.index_of_name(server_name.as_str()) {
            Some(i) => {
                let ghost before = self.servers@;
                let mut server = self.servers.remove(i);
                server.listeners.push(listener_fd);
                self.servers.insert(i, server);
                proof {
                    assert forall|j: int| 0 <= j < before.len() && j != i implies (#[trigger] self.servers@[j])
                        == before[j] by {}
                }
            },
            None => {
                let ghost before = self.servers@;
                self.servers.push(
                    Server {
                        name: server_name,
                        listeners: vec![listener_fd],
                        route_map: routes,
                        error_pages,
                        size_limit,
                    },
                );
                proof {
                    assert(self.servers@.take(before.len() as int) =~= before);
                    assert(self.servers@.last().listeners@ =~= seq![listener_fd]);
                }
            },
        }
    }

    /// The server that answers a request on `fd` with this `Host` value.
    pub fn find_server(&self, fd: i32, hostname: &str) -> (r: Option<usize>)
        ensures
            match r {
                Some(i) => resolve(self.servers@, fd, hostname@) == Some(i as int) && i
                    < self.servers@.len(),
                None => resolve(self.servers@, fd, hostname@) is None,
            },
    {
        let h = chars_of(hostname);
        let host = match find_char_exec(&h, 0, ':') {
            Some(k) => sub_chars(&h, 0, k),
            None => h,
        };
        proof {
            assert(host@ =~= host_part(hostname@));
        }
        let mut i: usize = 0;
        while i < self.servers.len()
            invariant
                i <= self.servers.len(),
                host@ == host_part(hostname@),
                by_name(self.servers@, hostname@, i as int) == by_name(self.servers@, hostname@, 0),
            decreases self.servers.len() - i,
        {
            let name = chars_of(self.servers[i].name.as_str());
            if eq_ignore_case(&name, &host) {
                return Some(i);
            }
            i = i + 1;
        }
        let mut k: usize = 0;
        while k < self.servers.len()
            invariant
                k <= self.servers.len(),
                by_name(self.servers@, hostname@, 0) is None,
                by_fd(self.servers@, fd, k as int) == by_fd(self.servers@, fd, 0),
            decreases self.servers.len() - k,
        {
            let ls = &self.servers[k].listeners;
            let mut m: usize = 0;
            while m < ls.len()
                invariant
                    m <= ls.len(),
                    k < self.servers@.len(),
                    ls@ == self.servers@[k as int].listeners@,
                    by_name(self.servers@, hostname@, 0) is None,
                    by_fd(self.servers@, fd, k as int) == by_fd(self.servers@, fd, 0),
                    forall|q: int| 0 <= q < m ==> ls@[q] != fd,
                decreases ls.len() - m,
            {
                if ls[m] == fd {
                    proof {
                        assert(ls@[m as int] == fd);
                        assert(self.servers@[k as int].listeners@.contains(fd));
                        assert(by_fd(self.servers@, fd, k as int) == Some(k as int));
                    }
                    return Some(k);
                }
                m = m + 1;
            }
            proof {
                assert(!ls@.contains(fd));
            }
            k = k + 1;
        }
        None
    }

    /// The index of the first route with exactly this path.
    pub fn find_route(routes: &Vec<(String, RouteConfig)>, path: &str) -> (r: Option<usize>)
        ensures
            match r {
                Some(j) => route_index(routes@, path@, 0) == Some(j as int) && j < routes@.len(),
                None => route_index(routes@, path@, 0) is None,
            },
    {
        let mut j: usize = 0;
        while j < routes.len()
            invariant
                j <= routes.len(),
                route_index(routes@, path@, j as int) == route_index(routes@, path@, 0),
            decreases routes.len() - j,
        {
            if same_text(routes[j].0.as_str(), path) {
                return Some(j);
            }
            j = j + 1;
        }
        None
    }

    /// The plan of a request: the server by `Host` or by listening socket, then the route with
    /// exactly the request's path, or static files when there is none.
    pub fn process_request(
        &self,
        request: HttpRequest,
        error_page: &ErrorPages,
        session_manager: &mut SessionManager,
        now: u64,
        default_exists: bool,
    ) -> (r: Plan)
        requires
            ids_unique(old(session_manager).sessions@),
        ensures
            ids_unique(final(session_manager).sessions@),
            match matched(self.servers@, request@) {
                None => r@ == static_plan(request@, error_page@) && final(session_manager).sessions@
                    == old(session_manager).sessions@,
                Some((route, limit)) => if reaches_route(request@, route) && is_create(request@) {
                    exists|id: Seq<char>, now: u64|
                        r@ == PlanView::Respond(created_view(id)) && session_inserted(
                            old(session_manager).sessions@,
                            final(session_manager).sessions@,
                            id,
                            now,
                            old(session_manager).session_duration,
                        )
                } else {
                    r@ == ok_plan(
                        request@,
                        route,
                        error_page@,
                        limit,
                        old(session_manager).sessions@,
                        default_exists,
                    )
                },
            },
    {
        let host = match request.header("Host") {
            Some(h) => h.clone(),
            None => String::new(),
        };
        match self.find_server(request.listener_fd, host.as_str()) {
            Some(i) => {
                let server = &self.servers[i];
                match Self::find_route(&server.route_map, request.path.as_str()) {
                    Some(j) => HttpResponse::ok(
                        request,
                        &server.route_map[j].1,
                        error_page,
                        server.size_limit,
                        session_manager,
                        now,
                        default_exists,
                    ),
                    None => plan_static(&request, error_page),
                }
            },
            None => plan_static(&request, error_page),
        }
    }
}

} // verus!
