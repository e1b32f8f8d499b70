use multipart::server::Multipart;
use std::io::Cursor;
use vstd::prelude::*;

use crate::text::{chars_of, find_from, find_from_exec, sub_string};

verus! {

#[verifier::external_type_specification]
#[verifier::external_body]
#[verifier::reject_recursive_types(R)]
pub struct ExMultipart<R>(Multipart<R>);

#[verifier::external_type_specification]
#[verifier::external_body]
#[verifier::reject_recursive_types(T)]
pub struct ExCursor<T>(Cursor<T>);

/// One entry of a multipart body: its file name, if it has one, and its data (`None` when reading
/// the data failed).
pub type FormPart = (Option<Seq<char>>, Option<Seq<u8>>);

/// The entries that the multipart reader yields for `body` with `boundary`, in order, up to its
/// end or its first error.
pub uninterp spec fn form_parts(body: Seq<u8>, boundary: Seq<char>) -> Seq<FormPart>;

/// The entries a multipart reader has yet to yield.
pub uninterp spec fn pending_parts(m: Multipart<Cursor<Vec<u8>>>) -> Seq<FormPart>;

pub open spec fn part_view(p: (Option<String>, Option<Vec<u8>>)) -> FormPart {
    (
        match p.0 {
            Some(n) => Some(n@),
            None => None,
        },
        match p.1 {
            Some(d) => Some(d@),
            None => None,
        },
    )
}

/// Relies on `multipart::server::Multipart::with_body`: a reader over an in-memory body, split at
/// `--boundary`; what it yields depends on the body and the boundary alone.
#[verifier::external_body]
fn open_form(body: Vec<u8>, boundary: String) -> (r: Multipart<Cursor<Vec<u8>>>)
    ensures
        pending_parts(r) == form_parts(body@, boundary@),
{
    Multipart::with_body(Cursor::new(body), boundary)
}

/// Relies on `multipart::server::Multipart::read_entry`: the next entry (none at the end or on an
/// error), with its file name and its data read to the end.
#[verifier::external_body]
fn next_part(m: &mut Multipart<Cursor<Vec<u8>>>) -> (r: Option<(Option<String>, Option<Vec<u8>>)>)
    ensures
        r is None <==> pending_parts(*old(m)).len() == 0,
        r matches Some(p) ==> part_view(p) == pending_parts(*old(m))[0],
        r is Some ==> pending_parts(*final(m)) == pending_parts(*old(m)).drop_first(),
{
    match m.read_entry() {
        Ok(Some(mut field)) => {
            let name = field.headers.filename.clone();
            let mut data = Vec::new();
            let read = std::io::Read::read_to_end(&mut field.data, &mut data);
            Some((name, read.ok().map(|_| data)))
        },
        _ => None,
    }
}

/// The upload in a list of entries: the first entry with a file name, with its data; `None` when
/// there is no such entry or its data could not be read.
pub open spec fn upload_of(parts: Seq<FormPart>) -> Option<(Seq<char>, Seq<u8>)>
    decreases parts.len(),
{
    if parts.len() == 0 {
        None
    } else {
        match parts[0].0 {
            Some(name) => match parts[0].1 {
                Some(data) => Some((name, data)),
                None => None,
            },
            None => upload_of(parts.drop_first()),
        }
    }
}

/// The first file of a multipart body: its name and its bytes.
pub fn first_file_part(body: Vec<u8>, boundary: String) -> (r: Option<(String, Vec<u8>)>)
    ensures
        match r {
            Some(f) => upload_of(form_parts(body@, boundary@)) == Some((f.0@, f.1@)),
            None => upload_of(form_parts(body@, boundary@)) is None,
        },
{
    let ghost all = form_parts(body@, boundary@);
    let ghost body_view = body@;
    let ghost boundary_view = boundary@;
    let mut form = open_form(body, boundary);
    loop
        invariant
            all == form_parts(body_view, boundary_view),
            body_view == body@,
            boundary_view == boundary@,
            upload_of(pending_parts(form)) == upload_of(all),
        decreases pending_parts(form).len(),
    {
        let ghost before = pending_parts(form);
        let next = next_part(&mut form);
        proof {
            if next is Some {
                assert(before.len() > 0);
                assert(before.drop_first() == pending_parts(form));
            }
        }
        match next {
            None => {
                assert(upload_of(before) is None);
                return None;
            },
            Some((Some(name), Some(data))) => {
                assert(before[0] == (Some(name@), Some(data@)));
                assert(upload_of(before) == Some((name@, data@)));
                return Some((name, data));
            },
            Some((Some(name), None)) => {
                assert(before[0] == (Some(name@), None::<Seq<u8>>));
                assert(upload_of(before) is None);
                return None;
            },
            Some((None, d)) => {
                assert(before[0].0 is None);
                assert(upload_of(before) == upload_of(before.drop_first()));
            },
        }
    }
}

/// The boundary of a `Content-Type` value: what follows the first `boundary=`, up to the next one.
pub open spec fn boundary_of(ct: Seq<char>) -> Option<Seq<char>> {
    match find_from(ct, "boundary="@, 0) {
        None => None,
        Some(k) => {
            let start = k + "boundary="@.len();
            match find_from(ct, "boundary="@, start) {
                Some(k2) => Some(ct.subrange(start, k2)),
                None => Some(ct.skip(start)),
            }
        },
    }
}

pub fn extract_boundary(content_type: &str) -> (r: Option<String>)
    ensures
        match r {
            Some(b) => boundary_of(content_type@) == Some(b@),
            None => boundary_of(content_type@) is None,
        },
{
    let cs = chars_of(content_type);
    let pat = chars_of("boundary=");
    match find_from_exec(&cs, &pat, 0) {
        None => None,
        Some(k) => {
            let start = k + pat.len();
            proof {
                crate::text::lemma_find_from_bounds(cs@, pat@, start as int);
            }
            match find_from_exec(&cs, &pat, start) {
                Some(k2) => Some(sub_string(&cs, start, k2)),
                None => {
                    let b = sub_string(&cs, start, cs.len());
                    proof {
                        assert(cs@.subrange(start as int, cs.len() as int) =~= cs@.skip(start as int));
                    }
                    Some(b)
                },
            }
        },
    }
}

} // verus!
