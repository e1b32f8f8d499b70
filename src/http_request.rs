use vstd::prelude::*;
use vstd::slice::slice_to_vec;
use vstd::utf8::{decode_utf8, valid_utf8};

use crate::text::{
    chars_of, eq_ignore_case, find_char, find_char_exec, find_pair, find_pair_exec, lower_seq,
    same_ci, skip_word, skip_ws, str_eq_ignore_case, string_of, sub_chars, sub_string, trim,
    trimmed, word_end, ws_end,
};

verus! {

/// A request as it came off the wire.
pub struct HttpRequest {
    pub method: String,
    pub path: String,
    pub version: String,
    /// Header lines in the order they came; a name that repeats is looked up by its last line.
    pub headers: Vec<(String, String)>,
    pub body: Vec<u8>,
    pub stream_fd: i32,
    pub listener_fd: i32,
}

/// What a request holds, as plain sequences.
pub struct RequestView {
    pub method: Seq<char>,
    pub path: Seq<char>,
    pub version: Seq<char>,
    pub headers: Seq<(Seq<char>, Seq<char>)>,
    pub body: Seq<u8>,
    pub stream_fd: i32,
    pub listener_fd: i32,
}

pub open spec fn pairs_view(hs: Seq<(String, String)>) -> Seq<(Seq<char>, Seq<char>)> {
    hs.map_values(|p: (String, String)| (p.0@, p.1@))
}

impl View for HttpRequest {
    type V = RequestView;

    open spec fn view(&self) -> RequestView {
        RequestView {
            method: self.method@,
            path: self.path@,
            version: self.version@,
            headers: pairs_view(self.headers@),
            body: self.body@,
            stream_fd: self.stream_fd,
            listener_fd: self.listener_fd,
        }
    }
}

/// The value of the last entry whose name equals `name` up to ASCII case.
pub open spec fn lookup_ci(hs: Seq<(Seq<char>, Seq<char>)>, name: Seq<char>) -> Option<Seq<char>>
    decreases hs.len(),
{
    if hs.len() == 0 {
        None
    } else if same_ci(hs.last().0, name) {
        Some(hs.last().1)
    } else {
        lookup_ci(hs.drop_last(), name)
    }
}

/// Finds the value of a named entry among `(name, value)` pairs: the last one whose name equals
/// `name` up to ASCII case.
pub fn lookup_pair<'a>(hs: &'a Vec<(String, String)>, name: &str) -> (r: Option<&'a String>)
    ensures
        match r {
            Some(v) => lookup_ci(pairs_view(hs@), name@) == Some(v@),
            None => lookup_ci(pairs_view(hs@), name@) is None,
        },
{
    let wanted = chars_of(name);
    let mut i: usize = hs.len();
    proof {
        assert(pairs_view(hs@).take(hs.len() as int) =~= pairs_view(hs@));
    }
    while i > 0
        invariant
            i <= hs.len(),
            wanted@ == name@,
            lookup_ci(pairs_view(hs@), name@) == lookup_ci(pairs_view(hs@).take(i as int), name@),
        decreases i,
    {
        let ghost t = pairs_view(hs@).take(i as int);
        proof {
            assert(t.drop_last() =~= pairs_view(hs@).take(i - 1));
        }
        let key = chars_of(hs[i - 1].0.as_str());
        if eq_ignore_case(&key, &wanted) {
            return Some(&hs[i - 1].1);
        }
        i = i - 1;
    }
    None
}

/// `raw[i..i + 4]` is the blank line `\r\n\r\n` that ends the header block.
pub open spec fn terminator_at(raw: Seq<u8>, i: int) -> bool {
    0 <= i && i + 4 <= raw.len() && raw[i] == 13 && raw[i + 1] == 10 && raw[i + 2] == 13 && raw[i
        + 3] == 10
}

/// The first index at or after `i` where the header block ends.
pub open spec fn terminator_from(raw: Seq<u8>, i: int) -> Option<int>
    decreases raw.len() - i,
{
    if i < 0 || i + 4 > raw.len() {
        None
    } else if terminator_at(raw, i) {
        Some(i)
    } else {
        terminator_from(raw, i + 1)
    }
}

/// Number of characters from `from` up to the next `\r\n`, or to the end.
pub open spec fn line_len(s: Seq<char>, from: int) -> nat
    decreases s.len() - from,
{
    if from < 0 || from >= s.len() {
        0
    } else if from + 1 < s.len() && s[from] == '\r' && s[from + 1] == '\n' {
        0
    } else {
        1 + line_len(s, from + 1)
    }
}

/// A header line split once at its first `": "`.
pub open spec fn field_of(line: Seq<char>) -> Option<(Seq<char>, Seq<char>)> {
    match find_pair(line, 0, ':', ' ') {
        Some(k) => Some((line.take(k), line.skip(k + 2))),
        None => None,
    }
}

/// The header fields of the lines that start at `from`, up to the first empty line; lines without
/// `": "` are skipped.
pub open spec fn header_fields(s: Seq<char>, from: int) -> Seq<(Seq<char>, Seq<char>)>
    decreases s.len() - from,
{
    if from < 0 || from >= s.len() {
        Seq::empty()
    } else {
        let n = line_len(s, from);
        if n == 0 {
            Seq::empty()
        } else {
            let rest = if from + n + 2 <= s.len() {
                header_fields(s, from + n + 2)
            } else {
                Seq::empty()
            };
            match field_of(s.subrange(from, from + n)) {
                Some(kv) => seq![kv] + rest,
                None => rest,
            }
        }
    }
}

/// The first three white-space separated words of a request line.
pub open spec fn request_tokens(line: Seq<char>) -> Option<(Seq<char>, Seq<char>, Seq<char>)> {
    let a1 = ws_end(line, 0);
    let b1 = word_end(line, a1);
    let a2 = ws_end(line, b1);
    let b2 = word_end(line, a2);
    let a3 = ws_end(line, b2);
    let b3 = word_end(line, a3);
    if a1 < b1 && a2 < b2 && a3 < b3 {
        Some((line.subrange(a1, b1), line.subrange(a2, b2), line.subrange(a3, b3)))
    } else {
        None
    }
}

/// The request that the bytes `raw` hold, if they hold one: a header block that ends in a blank
/// line and is UTF-8, whose first line has a method, a path and a version; the body is every byte
/// after the blank line.
pub open spec fn parse_request(raw: Seq<u8>, listener_fd: i32, stream_fd: i32) -> Option<
    RequestView,
> {
    match terminator_from(raw, 0) {
        None => None,
        Some(e) => {
            let head = raw.take(e + 4);
            if !valid_utf8(head) {
                None
            } else {
                let h = decode_utf8(head);
                let l = line_len(h, 0);
                match request_tokens(h.take(l as int)) {
                    None => None,
                    Some(t) => Some(
                        RequestView {
                            method: t.0,
                            path: t.1,
                            version: t.2,
                            headers: header_fields(h, l + 2int),
                            body: raw.skip(e + 4),
                            stream_fd,
                            listener_fd,
                        },
                    ),
                }
            }
        }
    }
}

/// The keep-alive rule: HTTP/1.1 keeps the connection unless `Connection` is `close`; any other
/// version closes it unless `Connection` is `keep-alive` (values compared up to ASCII case).
pub open spec fn keep_alive_of(version: Seq<char>, headers: Seq<(Seq<char>, Seq<char>)>) -> bool {
    let conn = lookup_ci(headers, seq!['C', 'o', 'n', 'n', 'e', 'c', 't', 'i', 'o', 'n']);
    if version == seq!['H', 'T', 'T', 'P', '/', '1', '.', '1'] {
        match conn {
            Some(v) => lower_seq(v) != seq!['c', 'l', 'o', 's', 'e'],
            None => true,
        }
    } else {
        match conn {
            Some(v) => lower_seq(v) == seq!['k', 'e', 'e', 'p', '-', 'a', 'l', 'i', 'v', 'e'],
            None => false,
        }
    }
}

/// Number of characters from `from` up to the next `c`, or to the end.
pub open spec fn run_until(s: Seq<char>, from: int, c: char) -> nat
    decreases s.len() - from,
{
    if from < 0 || from >= s.len() || s[from] == c {
        0
    } else {
        1 + run_until(s, from + 1, c)
    }
}

/// One cookie: a part split at its first `=`, both sides trimmed.
pub open spec fn cookie_of(part: Seq<char>) -> Option<(Seq<char>, Seq<char>)> {
    match find_char(part, 0, '=') {
        Some(k) => Some((trim(part.take(k)), trim(part.skip(k + 1)))),
        None => None,
    }
}

/// Cookies of a `Cookie` header value: its `;`-separated parts from `from` on; parts without `=`
/// are skipped.
pub open spec fn cookies_from(s: Seq<char>, from: int) -> Seq<(Seq<char>, Seq<char>)>
    decreases s.len() + 1 - from,
{
    if from < 0 || from > s.len() {
        Seq::empty()
    } else {
        let end = from + run_until(s, from, ';');
        let rest = if end < s.len() {
            cookies_from(s, end + 1)
        } else {
            Seq::empty()
        };
        match cookie_of(s.subrange(from, end)) {
            Some(kv) => seq![kv] + rest,
            None => rest,
        }
    }
}

proof fn lemma_run_until(s: Seq<char>, from: int, c: char)
    requires
        0 <= from <= s.len(),
    ensures
        from + run_until(s, from, c) <= s.len(),
        from + run_until(s, from, c) < s.len() ==> s[from + run_until(s, from, c)] == c,
    decreases s.len() - from,
{
    if from < s.len() && s[from] != c {
        lemma_run_until(s, from + 1, c);
    }
}

pub(crate) fn run_until_exec(s: &Vec<char>, from: usize, c: char) -> (n: usize)
    requires
        from <= s.len(),
    ensures
        n == run_until(s@, from as int, c),
        from + n <= s.len(),
{
    proof {
        lemma_run_until(s@, from as int, c);
    }
    let mut k: usize = from;
    while k < s.len() && s[k] != c
        invariant
            from <= k <= s.len(),
            run_until(s@, from as int, c) == (k - from) + run_until(s@, k as int, c),
        decreases s.len() - k,
    {
        k = k + 1;
    }
    k - from
}

pub proof fn lemma_find_char_bounds(s: Seq<char>, from: int, c: char)
    requires
        0 <= from,
    ensures
        find_char(s, from, c) matches Some(k) ==> from <= k < s.len() && s[k] == c,
    decreases s.len() - from,
{
    if from < s.len() && s[from] != c {
        lemma_find_char_bounds(s, from + 1, c);
    }
}

proof fn lemma_terminator_from_bounds(raw: Seq<u8>, i: int)
    requires
        0 <= i,
    ensures
        terminator_from(raw, i) matches Some(e) ==> i <= e && terminator_at(raw, e),
    decreases raw.len() - i,
{
    if i + 4 <= raw.len() && !terminator_at(raw, i) {
        lemma_terminator_from_bounds(raw, i + 1);
    }
}

proof fn lemma_line_len(s: Seq<char>, from: int)
    requires
        0 <= from <= s.len(),
    ensures
        from + line_len(s, from) <= s.len(),
        from + line_len(s, from) < s.len() ==> from + line_len(s, from) + 1 < s.len(),
    decreases s.len() - from,
{
    if from < s.len() && !(from + 1 < s.len() && s[from] == '\r' && s[from + 1] == '\n') {
        lemma_line_len(s, from + 1);
    }
}

pub(crate) fn find_terminator(raw: &[u8]) -> (r: Option<usize>)
    ensures
        match r {
            Some(e) => terminator_from(raw@, 0) == Some(e as int),
            None => terminator_from(raw@, 0) is None,
        },
        r matches Some(e) ==> e + 4 <= raw@.len(),
{
    proof {
        lemma_terminator_from_bounds(raw@, 0);
    }
    if raw.len() < 4 {
        return None;
    }
    let mut i: usize = 0;
    while i <= raw.len() - 4
        invariant
            raw.len() >= 4,
            i <= raw.len() - 3,
            terminator_from(raw@, i as int) == terminator_from(raw@, 0),
        decreases raw.len() - i,
    {
        if raw[i] == 13 && raw[i + 1] == 10 && raw[i + 2] == 13 && raw[i + 3] == 10 {
            return Some(i);
        }
        i = i + 1;
    }
    None
}

fn line_length(s: &Vec<char>, from: usize) -> (n: usize)
    requires
        from <= s.len(),
    ensures
        n == line_len(s@, from as int),
        from + n <= s.len(),
        from + n < s.len() ==> from + n + 1 < s.len(),
{
    proof {
        lemma_line_len(s@, from as int);
    }
    let mut k: usize = from;
    while k < s.len() && !(k + 1 < s.len() && s[k] == '\r' && s[k + 1] == '\n')
        invariant
            from <= k <= s.len(),
            line_len(s@, from as int) == (k - from) + line_len(s@, k as int),
        decreases s.len() - k,
    {
        k = k + 1;
    }
    k - from
}

/// Relies on `std::str::from_utf8`: it accepts exactly the valid UTF-8 byte strings, and the text
/// is their decoding.
#[verifier::external_body]
pub(crate) fn utf8_text(b: &[u8]) -> (r: Option<String>)
    ensures
        r is Some <==> valid_utf8(b@),
        r matches Some(t) ==> t@ == decode_utf8(b@),
{
    std::str::from_utf8(b).ok().map(|t| t.to_string())
}

fn parse_header_fields(h: &Vec<char>, start: usize) -> (r: Vec<(String, String)>)
    requires
        start <= h.len(),
    ensures
        pairs_view(r@) == header_fields(h@, start as int),
{
    let mut out: Vec<(String, String)> = Vec::new();
    let mut pos: usize = start;
    while pos < h.len()
        invariant
            start <= pos <= h.len(),
            pairs_view(out@) + header_fields(h@, pos as int) == header_fields(h@, start as int),
        decreases h.len() - pos,
    {
        let n = line_length(h, pos);
        if n == 0 {
            proof {
                assert(pairs_view(out@) + Seq::empty() =~= pairs_view(out@));
            }
            return out;
        }
        let line = sub_chars(h, pos, pos + n);
        let ghost before = out@;
        let ghost old_pos = pos;
        let ghost rest = if pos + n + 2 <= h.len() {
            header_fields(h@, pos + n + 2)
        } else {
            Seq::empty()
        };
        proof {
            assert(header_fields(h@, pos as int) == (match field_of(line@) {
                Some(kv) => seq![kv] + rest,
                None => rest,
            }));
        }
        match find_pair_exec(&line, 0, ':', ' ') {
            Some(k) => {
                let key = sub_string(&line, 0, k);
                let value = sub_string(&line, k + 2, line.len());
                out.push((key, value));
                proof {
                    assert(pairs_view(out@) =~= pairs_view(before).push((key@, value@)));
                    assert(line@.take(k as int) =~= key@);
                    assert(line@.skip(k + 2) =~= value@);
                    assert(field_of(line@) == Some((key@, value@)));
                    assert(pairs_view(before) + (seq![(key@, value@)] + rest) =~= pairs_view(out@)
                        + rest);
                }
            },
            None => {
                assert(pairs_view(out@) =~= pairs_view(before));
            },
        }
        if pos + n == h.len() {
            proof {
                assert(header_fields(h@, h.len() as int) == Seq::<(Seq<char>, Seq<char>)>::empty());
            }
            pos = h.len();
        } else {
            pos = pos + n + 2;
        }
        proof {
            assert(header_fields(h@, pos as int) == rest);
        }
    }
    out
}

impl HttpRequest {
    pub fn is_http_1_1(&self) -> (r: bool)
        ensures
            r == (self.version@ == seq!['H', 'T', 'T', 'P', '/', '1', '.', '1']),
    {
        let v = chars_of(self.version.as_str());
        v.len() == 8 && v[0] == 'H' && v[1] == 'T' && v[2] == 'T' && v[3] == 'P' && v[4] == '/'
            && v[5] == '1' && v[6] == '.' && v[7] == '1' && {
            proof {
                assert(v@ =~= seq!['H', 'T', 'T', 'P', '/', '1', '.', '1']);
            }
            true
        }
    }

    /// The value of the named header, compared up to ASCII case; the last line wins.
    pub fn header(&self, name: &str) -> (r: Option<&String>)
        ensures
            match r {
                Some(v) => lookup_ci(self@.headers, name@) == Some(v@),
                None => lookup_ci(self@.headers, name@) is None,
            },
    {
        lookup_pair(&self.headers, name)
    }

    pub fn wants_keep_alive(&self) -> (r: bool)
        ensures
            r == keep_alive_of(self@.version, self@.headers),
    {
        let conn = self.header("Connection");
        proof {
            reveal_strlit("Connection");
            reveal_strlit("close");
            reveal_strlit("keep-alive");
            assert("Connection"@ =~= seq!['C', 'o', 'n', 'n', 'e', 'c', 't', 'i', 'o', 'n']);
            assert(lower_seq("close"@) =~= seq!['c', 'l', 'o', 's', 'e']);
            assert(lower_seq("keep-alive"@) =~= seq![
                'k',
                'e',
                'e',
                'p',
                '-',
                'a',
                'l',
                'i',
                'v',
                'e',
            ]);
        }
        let is11 = self.is_http_1_1();
        match conn {
            Some(v) => {
                if is11 {
                    !str_eq_ignore_case(v.as_str(), "close")
                } else {
                    str_eq_ignore_case(v.as_str(), "keep-alive")
                }
            },
            None => is11,
        }
    }

    /// Parses a raw request: the header block up to the first blank line, then the body.
    pub fn from_raw(raw_request: &[u8], listener_fd: i32, stream_fd: i32) -> (r: Option<Self>)
        ensures
            r is Some <==> parse_request(raw_request@, listener_fd, stream_fd) is Some,
            r matches Some(req) ==> req@ == parse_request(
                raw_request@,
                listener_fd,
                stream_fd,
            )->0,
    {
        let e = match find_terminator(raw_request) {
            Some(e) => e,
            None => return None,
        };
        let n = raw_request.len();
        assert(e + 4 <= n);
        let (head, rest) = raw_request.split_at(e + 4);
        proof {
            assert(head@ =~= raw_request@.take(e + 4));
        }
        let text = match utf8_text(head) {
            Some(t) => t,
            None => return None,
        };
        let h = chars_of(text.as_str());
        let l = line_length(&h, 0);
        let line = sub_chars(&h, 0, l);
        let a1 = skip_ws(&line, 0);
        let b1 = skip_word(&line, a1);
        let a2 = skip_ws(&line, b1);
        let b2 = skip_word(&line, a2);
        let a3 = skip_ws(&line, b2);
        let b3 = skip_word(&line, a3);
        proof {
            assert(line@ =~= h@.take(l as int));
        }
        if !(a1 < b1 && a2 < b2 && a3 < b3) {
            return None;
        }
        let method = sub_string(&line, a1, b1);
        let path = sub_string(&line, a2, b2);
        let version = sub_string(&line, a3, b3);
        let start = if l < h.len() {
            l + 2
        } else {
            h.len()
        };
        let headers = parse_header_fields(&h, start);
        let body = slice_to_vec(rest);
        proof {
            assert(body@ =~= raw_request@.skip(e + 4));
            assert(header_fields(h@, start as int) == header_fields(h@, l + 2int));
        }
        Some(
            HttpRequest {
                method,
                path,
                version,
                headers,
                body,
                stream_fd,
                listener_fd,
            },
        )
    }

    /// The cookies of the `Cookie` header, in the order they appear.
    pub fn get_cookies(&self) -> (r: Vec<(String, String)>)
        ensures
            pairs_view(r@) == (match lookup_ci(self@.headers, "Cookie"@) {
                Some(v) => cookies_from(v, 0),
                None => Seq::empty(),
            }),
    {
        match self.header("Cookie") {
            Some(v) => parse_cookies(v.as_str()),
            None => Vec::new(),
        }
    }
}

/// Splits a `Cookie` header value into trimmed `(name, value)` pairs.
pub fn parse_cookies(value: &str) -> (r: Vec<(String, String)>)
    ensures
        pairs_view(r@) == cookies_from(value@, 0),
{
    let s = chars_of(value);
    let mut out: Vec<(String, String)> = Vec::new();
    let mut pos: usize = 0;
    loop
        invariant
            pos <= s.len(),
            s@ == value@,
            pairs_view(out@) + cookies_from(s@, pos as int) == cookies_from(s@, 0),
        decreases s.len() - pos,
    {
        let ghost before = out@;
        let end = pos + run_until_exec(&s, pos, ';');
        let part = sub_chars(&s, pos, end);
        proof {
            lemma_find_char_bounds(part@, 0, '=');
        }
        match find_char_exec(&part, 0, '=') {
            Some(k) => {
                let name = trimmed(&part, 0, k);
                let val = trimmed(&part, k + 1, part.len());
                out.push((string_of(name.as_slice()), string_of(val.as_slice())));
                proof {
                    assert(part@.subrange(0, k as int) =~= part@.take(k as int));
                    assert(part@.subrange(k + 1, part.len() as int) =~= part@.skip(k + 1));
                    assert(pairs_view(out@) =~= pairs_view(before).push(
                        (trim(part@.take(k as int)), trim(part@.skip(k + 1))),
                    ));
                }
            },
            None => {
                assert(pairs_view(out@) =~= pairs_view(before));
            },
        }
        let ghost rest: Seq<(Seq<char>, Seq<char>)> = if end < s.len() {
            cookies_from(s@, end + 1)
        } else {
            Seq::empty()
        };
        proof {
            assert(cookies_from(s@, pos as int) == (match cookie_of(part@) {
                Some(kv) => seq![kv] + rest,
                None => rest,
            }));
            match cookie_of(part@) {
                Some(kv) => {
                    assert(pairs_view(out@) =~= pairs_view(before) + seq![kv]);
                    assert(pairs_view(before) + (seq![kv] + rest) =~= pairs_view(out@) + rest);
                },
                None => {},
            }
        }
        if end == s.len() {
            proof {
                assert(pairs_view(out@) + Seq::empty() =~= pairs_view(out@));
            }
            return out;
        }
        pos = end + 1;
    }
}

} // verus!
