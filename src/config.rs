use vstd::prelude::*;

use crate::text::{push_str, same_text};

verus! {

/// The policy of one route.
#[derive(Clone, Debug)]
pub struct RouteConfig {
    pub accepted_methods: Option<Vec<String>>,
    pub redirection: Option<String>,
    pub default_file: Option<String>,
    /// The interpreter that runs the default file as a CGI script.
    pub cgi: Option<String>,
    pub directory_listing: Option<bool>,
    /// Whether the route is only served within a session (missing means no).
    pub session_required: Option<bool>,
}

/// One logical server of the configuration.
#[derive(Clone, Debug)]
pub struct ServerConfig {
    pub name: String,
    pub addr: String,
    pub ports: Vec<String>,
    pub routes: Vec<(String, RouteConfig)>,
    /// Custom error page paths by status.
    pub error_pages: Option<Vec<(u16, String)>>,
    /// Upper bound of an upload body, in bytes.
    pub client_body_size_limit: Option<usize>,
}

#[derive(Clone, Debug)]
pub struct Config {
    pub servers: Vec<ServerConfig>,
}

/// A listener to open: the server (by index in the configuration) and its `addr:port`.
pub struct Binding {
    pub server: usize,
    pub address: String,
}

/// The text `addr:port`.
pub open spec fn address_of(addr: Seq<char>, port: Seq<char>) -> Seq<char> {
    addr + seq![':'] + port
}

/// Server `i` may listen on `address`.
pub open spec fn offers(servers: Seq<ServerConfig>, i: int, address: Seq<char>) -> bool {
    exists|p: int|
        0 <= p < servers[i].ports@.len() && address == address_of(
            servers[i].addr@,
            (#[trigger] servers[i].ports@[p])@,
        )
}

/// `out` binds `address` for a server named `name`.
pub open spec fn has_binding(
    servers: Seq<ServerConfig>,
    out: Seq<Binding>,
    name: Seq<char>,
    address: Seq<char>,
) -> bool {
    exists|k: int|
        0 <= k < out.len() && servers[(#[trigger] out[k]).server as int].name@ == name
            && out[k].address@ == address
}

/// Every port of every server before `upto` is bound, for a server of its name.
pub open spec fn all_bound(servers: Seq<ServerConfig>, out: Seq<Binding>, upto: int) -> bool {
    forall|i: int, p: int|
        0 <= i < upto && 0 <= p < servers[i].ports@.len() ==> has_binding(
            servers,
            out,
            servers[i].name@,
            address_of(servers[i].addr@, (#[trigger] servers[i].ports@[p])@),
        )
}

/// Each binding is of a server at one of its addresses; the bindings come grouped by server, and
/// no `(name, address)` pair is bound twice.
pub open spec fn sound_bindings(servers: Seq<ServerConfig>, out: Seq<Binding>) -> bool {
    &&& forall|k: int|
        0 <= k < out.len() ==> {
            let b = #[trigger] out[k];
            &&& b.server < servers.len()
            &&& offers(servers, b.server as int, b.address@)
        }
    &&& forall|k: int, l: int|
        0 <= k < l < out.len() ==> (#[trigger] out[k]).server <= (#[trigger] out[l]).server && !(
        servers[out[k].server as int].name@ == servers[out[l].server as int].name@
            && out[k].address@ == out[l].address@)
}

proof fn lemma_push_keeps_binding(
    servers: Seq<ServerConfig>,
    out: Seq<Binding>,
    b: Binding,
    name: Seq<char>,
    address: Seq<char>,
)
    requires
        has_binding(servers, out, name, address),
    ensures
        has_binding(servers, out.push(b), name, address),
{
    let k = choose|k: int|
        0 <= k < out.len() && servers[(#[trigger] out[k]).server as int].name@ == name
            && out[k].address@ == address;
    assert(out.push(b)[k] == out[k]);
}

/// A route that only serves a page: one accepted method and its default file.
pub open spec fn page_route(rc: RouteConfig, method: Seq<char>, file: Option<Seq<char>>) -> bool {
    &&& rc.accepted_methods matches Some(ms) && ms@.len() == 1 && ms@[0]@ == method
    &&& match rc.default_file {
        Some(f) => file == Some(f@),
        None => file is None,
    }
    &&& rc.redirection is None
    &&& rc.cgi is None
    &&& rc.directory_listing is None
    &&& rc.session_required is None
}

/// The routes but those on the two session paths, in order.
pub open spec fn without_session_paths(rs: Seq<(String, RouteConfig)>) -> Seq<(String, RouteConfig)>
    decreases rs.len(),
{
    if rs.len() == 0 {
        Seq::empty()
    } else {
        let rest = without_session_paths(rs.drop_last());
        if rs.last().0@ == "/session"@ || rs.last().0@ == "/create-session"@ {
            rest
        } else {
            rest.push(rs.last())
        }
    }
}

/// A route that serves only a page, for one method.
pub fn page_route_config(method: &str, file: Option<&str>) -> (r: RouteConfig)
    ensures
        page_route(
            r,
            method@,
            match file {
                Some(f) => Some(f@),
                None => None,
            },
        ),
{
    let default_file = match file {
        Some(f) => Some(f.to_owned()),
        None => None,
    };
    RouteConfig {
        accepted_methods: Some(vec![method.to_owned()]),
        redirection: None,
        default_file,
        cgi: None,
        directory_listing: None,
        session_required: None,
    }
}

/// The routes of a server with the session page and the session-creating route added; a route
/// the server had on either path gives way.
pub fn add_session_routes(routes: Vec<(String, RouteConfig)>) -> (r: Vec<(String, RouteConfig)>)
    ensures
        r@.len() == without_session_paths(routes@).len() + 2,
        r@.take(without_session_paths(routes@).len() as int) == without_session_paths(routes@),
        r@[r@.len() - 2].0@ == "/session"@,
        page_route(r@[r@.len() - 2].1, "GET"@, Some("session.html"@)),
        r@[r@.len() - 1].0@ == "/create-session"@,
        page_route(r@[r@.len() - 1].1, "POST"@, Some("session.html"@)),
{
    let mut rest = routes;
    let ghost all = rest@;
    let mut kept: Vec<(String, RouteConfig)> = Vec::new();
    let ghost mut i: int = 0;
    proof {
        assert(all.skip(0) =~= all);
        assert(all.take(0) =~= Seq::<(String, RouteConfig)>::empty());
    }
    while rest.len() > 0
        invariant
            0 <= i <= all.len(),
            rest@ == all.skip(i),
            kept@ == without_session_paths(all.take(i)),
        decreases rest@.len(),
    {
        proof {
            assert(all.take(i + 1).drop_last() =~= all.take(i));
            assert(all.take(i + 1).last() == all[i]);
        }
        let (path, rc) = rest.remove(0);
        let keep = !(same_text(path.as_str(), "/session") || same_text(
            path.as_str(),
            "/create-session",
        ));
        if keep {
            kept.push((path, rc));
        }
        proof {
            i = i + 1;
            assert(rest@ =~= all.skip(i));
        }
    }
    let mut out = kept;
    proof {
        assert(all.take(i) =~= all);
    }
    let ghost n = out@.len();
    out.push(("/session".to_owned(), page_route_config("GET", Some("session.html"))));
    out.push(("/create-session".to_owned(), page_route_config("POST", Some("session.html"))));
    proof {
        assert(out@.take(n as int) =~= without_session_paths(all));
    }
    out
}

impl RouteConfig {
    /// Where the route's default file lies: under `./public/`.
    pub fn default_file_path(&self) -> (r: Option<String>)
        ensures
            match self.default_file {
                Some(f) => r matches Some(p) && p@ == "./public/"@ + f@,
                None => r is None,
            },
    {
        match &self.default_file {
            Some(f) => {
                let mut t: Vec<char> = Vec::new();
                push_str(&mut t, "./public/");
                push_str(&mut t, f.as_str());
                proof {
                    assert(t@ =~= "./public/"@ + f@);
                }
                Some(crate::text::string_of(t.as_slice()))
            },
            None => None,
        }
    }
}

impl Config {
    /// The listeners to open, in configuration order: each server's `addr:port` addresses, but a
    /// `(name, address)` pair that is already bound is not bound again.
    pub fn bindings(&self) -> (r: Vec<Binding>)
        ensures
            sound_bindings(self.servers@, r@),
            all_bound(self.servers@, r@, self.servers@.len() as int),
    {
        let mut out: Vec<Binding> = Vec::new();
        let mut i: usize = 0;
        while i < self.servers.len()
            invariant
                i <= self.servers.len(),
                sound_bindings(self.servers@, out@),
                forall|k: int| 0 <= k < out@.len() ==> (#[trigger] out@[k]).server < i,
                all_bound(self.servers@, out@, i as int),
            decreases self.servers.len() - i,
        {
            let server = &self.servers[i];
            let mut p: usize = 0;
            while p < server.ports.len()
                invariant
                    i < self.servers.len(),
                    *server == self.servers@[i as int],
                    p <= server.ports.len(),
                    sound_bindings(self.servers@, out@),
                    forall|k: int| 0 <= k < out@.len() ==> (#[trigger] out@[k]).server <= i,
                    all_bound(self.servers@, out@, i as int),
                    forall|q: int|
                        0 <= q < p ==> has_binding(
                            self.servers@,
                            out@,
                            server.name@,
                            address_of(server.addr@, (#[trigger] server.ports@[q])@),
                        ),
                decreases server.ports.len() - p,
            {
                let mut text: Vec<char> = Vec::new();
                push_str(&mut text, server.addr.as_str());
                text.push(':');
                push_str(&mut text, server.ports[p].as_str());
                let address = crate::text::string_of(text.as_slice());
                proof {
                    assert(address@ =~= address_of(server.addr@, server.ports@[p as int]@));
                }
                let mut seen = false;
                let mut k: usize = 0;
                while k < out.len()
                    invariant
                        k <= out.len(),
                        sound_bindings(self.servers@, out@),
                        seen ==> has_binding(self.servers@, out@, server.name@, address@),
                        !seen ==> forall|m: int|
                            0 <= m < k ==> !(self.servers@[(#[trigger] out@[m]).server as int].name@
                                == server.name@ && out@[m].address@ == address@),
                    decreases out.len() - k,
                {
                    let owner = out[k].server;
                    if same_text(self.servers[owner].name.as_str(), server.name.as_str())
                        && same_text(out[k].address.as_str(), address.as_str()) {
                        seen = true;
                    }
                    k = k + 1;
                }
                if !seen {
                    let ghost before = out@;
                    let b = Binding { server: i, address };
                    proof {
                        assert(offers(self.servers@, i as int, b.address@));
                    }
                    out.push(b);
                    proof {
                        let last = out@.len() - 1;
                        assert(out@[last].server == i);
                        assert(has_binding(self.servers@, out@, server.name@, out@[last].address@));
                        assert forall|i2: int, q: int|
                            0 <= i2 < i && 0 <= q < self.servers@[i2].ports@.len() implies has_binding(
                            self.servers@,
                            out@,
                            self.servers@[i2].name@,
                            address_of(self.servers@[i2].addr@, (#[trigger] self.servers@[i2].ports@[q])@),
                        ) by {
                            lemma_push_keeps_binding(self.servers@, before, out@[last], self.servers@[i2].name@, address_of(self.servers@[i2].addr@, self.servers@[i2].ports@[q]@));
                            assert(before.push(out@[last]) == out@);
                        }
                        assert forall|q: int| 0 <= q < p implies has_binding(
                            self.servers@,
                            out@,
                            server.name@,
                            address_of(server.addr@, (#[trigger] server.ports@[q])@),
                        ) by {
                            lemma_push_keeps_binding(self.servers@, before, out@[last], server.name@, address_of(server.addr@, server.ports@[q]@));
                            assert(before.push(out@[last]) == out@);
                        }
                        assert forall|a: int, c: int| 0 <= a < c < out@.len() implies (#[trigger] out@[a]).server <= (
                        #[trigger] out@[c]).server && !(self.servers@[out@[a].server as int].name@
                            == self.servers@[out@[c].server as int].name@ && out@[a].address@ == out@[c].address@) by {
                            assert(out@[a] == before[a]);
                            if c < last {
                                assert(out@[c] == before[c]);
                            }
                        }
                    }
                }
                p = p + 1;
            }
            proof {
                assert forall|i2: int, q: int|
                    0 <= i2 < i + 1 && 0 <= q < self.servers@[i2].ports@.len() implies has_binding(
                    self.servers@,
                    out@,
                    self.servers@[i2].name@,
                    address_of(self.servers@[i2].addr@, (#[trigger] self.servers@[i2].ports@[q])@),
                ) by {
                    if i2 == i {
                        assert(self.servers@[i2].ports@[q] == server.ports@[q]);
                    }
                }
            }
            i = i + 1;
        }
        out
    }
}

} // verus!
