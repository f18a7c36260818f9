//! The canonical byte layout shared by all objects: a type tag, a space, the
//! decimal length of the body, a NUL byte, then the body.
use crate::decimal::{decimal, is_digit, lemma_decimal, push_decimal};
use crate::order::bytes_equal;
use vstd::prelude::*;
use vstd::string::{is_ascii, StringSliceAdditionalSpecFns};
use vstd::utf8::{decode_utf8, valid_utf8};

verus! {

/// The ASCII space, which ends a type tag.
pub const SPACE: u8 = 0x20;

/// The NUL byte, which ends a header.
pub const NUL: u8 = 0;

/// The kind of an object, named by its type tag.
#[derive(Debug, Clone, Copy, PartialEq, Eq, Structural)]
pub enum ObjectKind {
    Blob,
    Tree,
    Commit,
}

/// The type tag of each kind: `blob`, `tree` or `commit` in ASCII.
pub open spec fn kind_tag(kind: ObjectKind) -> Seq<u8> {
    match kind {
        ObjectKind::Blob => seq![0x62u8, 0x6c, 0x6f, 0x62],
        ObjectKind::Tree => seq![0x74u8, 0x72, 0x65, 0x65],
        ObjectKind::Commit => seq![0x63u8, 0x6f, 0x6d, 0x6d, 0x69, 0x74],
    }
}

/// The canonical layout of an object of `kind` whose body is `body`.
pub open spec fn framed(kind: ObjectKind, body: Seq<u8>) -> Seq<u8> {
    kind_tag(kind) + seq![SPACE] + decimal(body.len()) + seq![NUL] + body
}

/// Appends `b`.
pub fn extend_bytes(out: &mut Vec<u8>, b: &[u8])
    ensures
        final(out)@ == old(out)@ + b@,
{
    let mut i: usize = 0;
    while i < b.len()
        invariant
            i <= b@.len(),
            out@ == old(out)@ + b@.take(i as int),
        decreases b@.len() - i,
    {
        out.push(b[i]);
        assert(b@.take(i + 1) =~= b@.take(i as int).push(b@[i as int]));
        i = i + 1;
    }
    assert(b@.take(i as int) =~= b@);
}

/// The type tag of a kind, as text.
pub fn kind_name(kind: ObjectKind) -> (r: &'static str)
    ensures
        r.spec_bytes() == kind_tag(kind),
        is_ascii(r),
{
    let r = match kind {
        ObjectKind::Blob => "blob",
        ObjectKind::Tree => "tree",
        ObjectKind::Commit => "commit",
    };
    proof {
        reveal_strlit("blob");
        reveal_strlit("tree");
        reveal_strlit("commit");
        assert(is_ascii(r));
        assert(r.spec_bytes() =~= kind_tag(kind));
    }
    r
}

/// Lays out an object: header, then body.
pub fn frame(kind: ObjectKind, body: &[u8]) -> (r: Vec<u8>)
    ensures
        r@ == framed(kind, body@),
{
    let mut out: Vec<u8> = Vec::new();
    extend_bytes(&mut out, kind_name(kind).as_bytes());
    out.push(SPACE);
    push_decimal(&mut out, body.len() as u64);
    out.push(NUL);
    extend_bytes(&mut out, body);
    assert(out@ =~= framed(kind, body@));
    out
}

/// The position of the first `x` in `b` at or after `start`.
pub open spec fn first_index_from(b: Seq<u8>, start: nat, x: u8) -> Option<nat>
    decreases b.len() - start,
{
    if start >= b.len() {
        None
    } else if b[start as int] == x {
        Some(start)
    } else {
        first_index_from(b, start + 1, x)
    }
}

/// A search from `start` stops at the first `x`, and only there.
pub proof fn lemma_first_index_at(b: Seq<u8>, start: nat, k: nat, x: u8)
    requires
        start <= k < b.len(),
        b[k as int] == x,
        forall|j: int| start <= j < k ==> b[j] != x,
    ensures
        first_index_from(b, start, x) == Some(k),
    decreases k - start,
{
    if start < k {
        lemma_first_index_at(b, start + 1, k, x);
    }
}

pub proof fn lemma_first_index_bounds(b: Seq<u8>, start: nat, x: u8)
    ensures
        first_index_from(b, start, x) matches Some(k) ==> start <= k < b.len() && b[k as int] == x,
    decreases b.len() - start,
{
    if start < b.len() && b[start as int] != x {
        lemma_first_index_bounds(b, start + 1, x);
    }
}

/// Finds the first `x` in `b` at or after `start`.
pub fn find_byte(b: &[u8], start: usize, x: u8) -> (r: Option<usize>)
    requires
        start <= b@.len(),
    ensures
        first_index_from(b@, start as nat, x) == (match r {
            Some(i) => Some(i as nat),
            None => None,
        }),
{
    let mut i: usize = start;
    while i < b.len()
        invariant
            start <= i <= b@.len(),
            first_index_from(b@, start as nat, x) == first_index_from(b@, i as nat, x),
        decreases b@.len() - i,
    {
        if b[i] == x {
            return Some(i);
        }
        i = i + 1;
    }
    None
}

/// The kind whose tag is `tag`, if any.
pub open spec fn kind_of_tag(tag: Seq<u8>) -> Option<ObjectKind> {
    if tag == kind_tag(ObjectKind::Blob) {
        Some(ObjectKind::Blob)
    } else if tag == kind_tag(ObjectKind::Tree) {
        Some(ObjectKind::Tree)
    } else if tag == kind_tag(ObjectKind::Commit) {
        Some(ObjectKind::Commit)
    } else {
        None
    }
}

/// Reads a header: the tag runs up to the first space and names the kind;
/// the body starts after the first NUL. `None` if either byte is missing
/// or the tag is unknown.
pub open spec fn header_of(b: Seq<u8>) -> Option<(ObjectKind, nat)> {
    match first_index_from(b, 0, SPACE) {
        Some(sp) => match first_index_from(b, 0, NUL) {
            Some(nul) => match kind_of_tag(b.take(sp as int)) {
                Some(kind) => Some((kind, nul + 1)),
                None => None,
            },
            None => None,
        },
        None => None,
    }
}

/// The header of a framed object gives back its kind and the start of its body.
pub proof fn lemma_header_of_framed(kind: ObjectKind, body: Seq<u8>)
    ensures
        header_of(framed(kind, body)) == Some(
            (kind, (kind_tag(kind).len() + 1 + decimal(body.len()).len() + 1) as nat),
        ),
{
    let b = framed(kind, body);
    let t = kind_tag(kind);
    let d = decimal(body.len());
    lemma_decimal(body.len());
    assert(b[t.len() as int] == SPACE);
    assert forall|j: int| 0 <= j < t.len() implies b[j] != SPACE && b[j] != NUL by {
        assert(b[j] == t[j]);
    }
    lemma_first_index_at(b, 0, t.len(), SPACE);
    let nul = t.len() + 1 + d.len();
    assert(b[nul as int] == NUL);
    assert forall|j: int| 0 <= j < nul implies b[j] != NUL by {
        if j > t.len() {
            assert(b[j] == d[j - t.len() - 1]);
            assert(is_digit(d[j - t.len() - 1]));
        }
    }
    lemma_first_index_at(b, 0, nul as nat, NUL);
    assert(b.take(t.len() as int) =~= t);
    assert(kind_tag(ObjectKind::Blob)[0] != kind_tag(ObjectKind::Tree)[0]);
    assert(kind_tag(ObjectKind::Blob)[0] != kind_tag(ObjectKind::Commit)[0]);
    assert(kind_tag(ObjectKind::Tree)[0] != kind_tag(ObjectKind::Commit)[0]);
}

/// Reads the header of an object's layout: see `header_of`.
pub fn read_header(b: &[u8]) -> (r: Option<(ObjectKind, usize)>)
    ensures
        header_of(b@) == (match r {
            Some((kind, start)) => Some((kind, start as nat)),
            None => None,
        }),
        r matches Some((kind, start)) ==> start <= b@.len(),
{
    let sp = match find_byte(b, 0, SPACE) {
        Some(i) => i,
        None => return None,
    };
    let nul = match find_byte(b, 0, NUL) {
        Some(i) => i,
        None => return None,
    };
    proof {
        lemma_first_index_bounds(b@, 0, SPACE);
        lemma_first_index_bounds(b@, 0, NUL);
    }
    let tag = &b[0..sp];
    assert(tag@ =~= b@.take(sp as int));
    let kind = if bytes_equal(tag, kind_name(ObjectKind::Blob).as_bytes()) {
        ObjectKind::Blob
    } else if bytes_equal(tag, kind_name(ObjectKind::Tree).as_bytes()) {
        ObjectKind::Tree
    } else if bytes_equal(tag, kind_name(ObjectKind::Commit).as_bytes()) {
        ObjectKind::Commit
    } else {
        return None;
    };
    assert(nul < b.len());
    Some((kind, nul + 1))
}

/// Relies on `String::from_utf8`: it accepts exactly the valid UTF-8 byte
/// strings, and the text it returns is the one they encode.
#[verifier::external_body]
pub(crate) fn string_from_utf8(bytes: Vec<u8>) -> (r: Option<String>)
    ensures
        r is Some <==> valid_utf8(bytes@),
        r matches Some(s) ==> s@ == decode_utf8(bytes@),
{
    String::from_utf8(bytes).ok()
}

} // verus!
