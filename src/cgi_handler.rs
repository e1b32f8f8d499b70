use vstd::prelude::*;
use vstd::utf8::{decode_utf8, valid_utf8};

use crate::http_request::{lookup_ci, pairs_view, HttpRequest, lookup_pair};
use crate::text::{
    chars_of, decimal, decimal_string, lossy, lossy_text, parse_unsigned, parse_usize,
    push_str, same_ci, str_eq_ignore_case, string_of, trim, trimmed, ends_with_exec, starts_with_exec,
    starts_with, ends_with
};

verus! {

/// How a CGI script is run for one request.
pub struct CGIHandler {
    pub script_path: String,
    pub cgi_executable: String,
    pub root_path: String,
    pub content_length: Option<usize>,
    pub is_chunked: bool,
}

/// `b` without its carriage-return bytes.
pub open spec fn drop_cr(b: Seq<u8>) -> Seq<u8>
    decreases b.len(),
{
    if b.len() == 0 {
        Seq::empty()
    } else if b.last() == 13 {
        drop_cr(b.drop_last())
    } else {
        drop_cr(b.drop_last()).push(b.last())
    }
}

/// Number of bytes from `pos` up to the next line feed, or to the end.
pub open spec fn line_bytes(b: Seq<u8>, pos: int) -> nat
    decreases b.len() - pos,
{
    if pos < 0 || pos >= b.len() || b[pos] == 10 {
        0
    } else {
        1 + line_bytes(b, pos + 1)
    }
}

/// The text of some bytes: their UTF-8 decoding, or what lossy decoding makes of them when they
/// are not valid UTF-8.
pub open spec fn text_of(b: Seq<u8>) -> Seq<char> {
    if valid_utf8(b) {
        decode_utf8(b)
    } else {
        lossy_text(b)
    }
}

/// The size given by the chunk-size line at `pos`: its bytes but carriage returns, as text,
/// trimmed, read in hex; 0 when that fails.
pub open spec fn chunk_size_at(b: Seq<u8>, pos: int) -> nat {
    let end = pos + line_bytes(b, pos);
    match parse_unsigned(trim(text_of(drop_cr(b.subrange(pos, end)))), 16) {
        Some(v) => v,
        None => 0,
    }
}

/// Where the data of the chunk whose size line is at `pos` starts.
pub open spec fn after_size_line(b: Seq<u8>, pos: int) -> int {
    let end = pos + line_bytes(b, pos);
    if end < b.len() {
        end + 1
    } else {
        b.len() as int
    }
}

/// The data of a chunked body from `pos` on: chunks until one of size 0 (or a size line that
/// cannot be read, which counts as 0); `None` when a chunk or its line end is cut short.
pub open spec fn dechunk_from(b: Seq<u8>, pos: int) -> Option<Seq<u8>>
    decreases b.len() - pos,
{
    if pos < 0 || pos > b.len() {
        None
    } else {
        let size = chunk_size_at(b, pos);
        let next = after_size_line(b, pos);
        if size == 0 {
            Some(Seq::empty())
        } else if next + size + 2 > b.len() {
            None
        } else {
            match dechunk_from(b, next + size + 2) {
                Some(rest) => Some(b.subrange(next, next + size) + rest),
                None => None,
            }
        }
    }
}

/// `root` joined with `path` as `Path::join` does on Unix: an absolute `path` replaces `root`.
pub open spec fn join_path(root: Seq<char>, path: Seq<char>) -> Seq<char> {
    if starts_with(path, seq!['/']) || root.len() == 0 {
        path
    } else if ends_with(root, seq!['/']) {
        root + path
    } else {
        root + seq!['/'] + path
    }
}

/// The environment a CGI script runs with.
pub open spec fn cgi_environment(full_path: Seq<char>, script: Seq<char>, body_len: nat) -> Seq<
    (Seq<char>, Seq<char>),
> {
    seq![
        ("CONTENT_LENGTH"@, decimal(body_len)),
        ("CONTENT_TYPE"@, "application/x-www-form-urlencoded"@),
        ("REQUEST_METHOD"@, "POST"@),
        ("SCRIPT_FILENAME"@, full_path),
        ("SCRIPT_NAME"@, script),
    ]
}

proof fn lemma_line_bytes(b: Seq<u8>, pos: int)
    requires
        0 <= pos <= b.len(),
    ensures
        pos + line_bytes(b, pos) <= b.len(),
    decreases b.len() - pos,
{
    if pos < b.len() && b[pos] != 10 {
        lemma_line_bytes(b, pos + 1);
    }
}

/// Reads the chunk-size line at `pos`: the size and where the chunk's data starts.
pub fn read_chunk_size(input: &[u8], pos: usize) -> (r: (usize, usize))
    requires
        pos <= input@.len(),
    ensures
        r.0 == chunk_size_at(input@, pos as int),
        r.1 == after_size_line(input@, pos as int),
        pos <= r.1 <= input@.len(),
{
    proof {
        lemma_line_bytes(input@, pos as int);
    }
    let n = input.len();
    let mut k: usize = pos;
    let mut kept: Vec<u8> = Vec::new();
    while k < n && input[k] != 10
        invariant
            n == input@.len(),
            pos <= k <= n,
            line_bytes(input@, pos as int) == (k - pos) + line_bytes(input@, k as int),
            kept@ == drop_cr(input@.subrange(pos as int, k as int)),
        decreases n - k,
    {
        if input[k] != 13 {
            kept.push(input[k]);
        }
        proof {
            assert(input@.subrange(pos as int, k + 1).drop_last() =~= input@.subrange(pos as int, k as int));
        }
        k = k + 1;
    }
    let text = lossy(kept.as_slice());
    let cs = chars_of(text.as_str());
    let t = trimmed(&cs, 0, cs.len());
    proof {
        assert(cs@.subrange(0, cs@.len() as int) =~= cs@);
    }
    let size = match parse_usize(&t, 16) {
        Some(v) => v,
        None => 0,
    };
    let next = if k < n {
        k + 1
    } else {
        n
    };
    (size, next)
}

/// Decodes a chunked body; `None` when it is cut short.
pub fn dechunk(input: &[u8]) -> (r: Option<Vec<u8>>)
    ensures
        match r {
            Some(v) => dechunk_from(input@, 0) == Some(v@),
            None => dechunk_from(input@, 0) is None,
        },
{
    let n = input.len();
    let mut out: Vec<u8> = Vec::new();
    let mut pos: usize = 0;
    loop
        invariant
            n == input@.len(),
            pos <= n,
            dechunk_from(input@, 0) == match dechunk_from(input@, pos as int) {
                Some(rest) => Some(out@ + rest),
                None => None,
            },
        decreases n - pos,
    {
        let (size, next) = read_chunk_size(input, pos);
        if size == 0 {
            proof {
                assert(out@ + Seq::<u8>::empty() =~= out@);
            }
            return Some(out);
        }
        if size > n - next || n - next - size < 2 {
            return None;
        }
        let ghost before = out@;
        let mut i: usize = next;
        while i < next + size
            invariant
                n == input@.len(),
                next <= i <= next + size <= n,
                out@ == before + input@.subrange(next as int, i as int),
            decreases next + size - i,
        {
            out.push(input[i]);
            i = i + 1;
            proof {
                assert(out@ =~= before + input@.subrange(next as int, i as int));
            }
        }
        proof {
            let chunk = input@.subrange(next as int, next + size);
            match dechunk_from(input@, next + size + 2) {
                Some(rest) => {
                    assert(before + (chunk + rest) =~= out@ + rest);
                },
                None => {},
            }
        }
        pos = next + size + 2;
    }
}

/// Joins a path to a root as `Path::join` does on Unix.
pub fn join(root: &str, script: &str) -> (r: String)
    ensures
        r@ == join_path(root@, script@),
{
    proof {
        reveal_strlit("/");
        assert("/"@ =~= seq!['/']);
    }
    if starts_with_exec(script, "/") || root.is_empty() {
        return script.to_owned();
    }
    let mut text: Vec<char> = Vec::new();
    push_str(&mut text, root);
    if !ends_with_exec(root, "/") {
        text.push('/');
    }
    push_str(&mut text, script);
    proof {
        assert(text@ =~= join_path(root@, script@));
    }
    string_of(text.as_slice())
}

impl CGIHandler {
    /// Reads from the request headers what the run needs: the body length that
    /// `Content-Length` gives, and whether `Transfer-Encoding` is `chunked` (up to ASCII case).
    pub fn new(
        cgi_executable: &str,
        root: &str,
        script_path: &str,
        headers: &Vec<(String, String)>,
    ) -> (r: Self)
        ensures
            r.cgi_executable@ == cgi_executable@,
            r.root_path@ == root@,
            r.script_path@ == script_path@,
            r.content_length == (match lookup_ci(pairs_view(headers@), "Content-Length"@) {
                Some(v) => match parse_unsigned(v, 10) {
                    Some(n) => Some(n as usize),
                    None => None,
                },
                None => None,
            }),
            r.is_chunked == (match lookup_ci(pairs_view(headers@), "Transfer-Encoding"@) {
                Some(v) => same_ci(v, "chunked"@),
                None => false,
            }),
    {
        let content_length = match lookup_pair(headers, "Content-Length") {
            Some(v) => {
                let cs = chars_of(v.as_str());
                parse_usize(&cs, 10)
            },
            None => None,
        };
        let is_chunked = match lookup_pair(headers, "Transfer-Encoding") {
            Some(t) => str_eq_ignore_case(t.as_str(), "chunked"),
            None => false,
        };
        CGIHandler {
            script_path: script_path.to_owned(),
            cgi_executable: cgi_executable.to_owned(),
            root_path: root.to_owned(),
            content_length,
            is_chunked,
        }
    }

    /// What the script gets on its standard input: the request body, decoded when it is chunked;
    /// `None` when a chunked body is cut short.
    pub fn handle_request(&self, request: &HttpRequest) -> (r: Option<Vec<u8>>)
        ensures
            self.is_chunked ==> match r {
                Some(v) => dechunk_from(request.body@, 0) == Some(v@),
                None => dechunk_from(request.body@, 0) is None,
            },
            !self.is_chunked ==> (r matches Some(v) && v@ == request.body@),
    {
        if self.is_chunked {
            dechunk(request.body.as_slice())
        } else {
            Some(request.body.clone())
        }
    }

    /// The script's path: the root joined with the script path.
    pub fn full_path(&self) -> (r: String)
        ensures
            r@ == join_path(self.root_path@, self.script_path@),
    {
        join(self.root_path.as_str(), self.script_path.as_str())
    }

    /// The environment of a run with a body of `body_len` bytes.
    pub fn environment(&self, body_len: usize) -> (r: Vec<(String, String)>)
        ensures
            pairs_view(r@) == cgi_environment(
                join_path(self.root_path@, self.script_path@),
                self.script_path@,
                body_len as nat,
            ),
    {
        let r = vec![
            ("CONTENT_LENGTH".to_owned(), decimal_string(body_len as u64)),
            ("CONTENT_TYPE".to_owned(), "application/x-www-form-urlencoded".to_owned()),
            ("REQUEST_METHOD".to_owned(), "POST".to_owned()),
            ("SCRIPT_FILENAME".to_owned(), self.full_path()),
            ("SCRIPT_NAME".to_owned(), self.script_path.clone()),
        ];
        proof {
            assert(pairs_view(r@) =~= cgi_environment(
                join_path(self.root_path@, self.script_path@),
                self.script_path@,
                body_len as nat,
            ));
        }
        r
    }
}

} // verus!
