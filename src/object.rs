//! The three kinds of object, each built from its fields into the canonical
//! layout, digested and compressed; and the way back from a layout to an
//! object.
use crate::address::{digest_hex, hex_lower};
use crate::decimal::{
    decimal, push_signed_decimal, push_two_digits, signed_decimal, two_digits, MINUS,
};
use crate::digest::{compress_content, hash_content, sha1_of, zlib_of};
use crate::error::RepoError;
use crate::index::{entries_view, EntryView, IndexEntry};
use crate::layout::{
    extend_bytes, frame, framed, header_of, kind_tag, lemma_header_of_framed, read_header,
    string_from_utf8, ObjectKind, SPACE,
};
use crate::tree::{
    entry_encodable, lemma_tree_round_trip, parse_tree_entries, parse_tree_spec, tree_body,
    tree_body_bytes,
};
use vstd::prelude::*;
use vstd::slice::slice_to_vec;
use vstd::string::StringSliceAdditionalSpecFns;
use vstd::utf8::{
    decode_utf8, encode_utf8, encode_utf8_decode_utf8, encode_utf8_valid_utf8, valid_utf8,
};

verus! {

/// The ASCII line feed.
pub const NEWLINE: u8 = 0x0a;

/// The ASCII plus sign, the sign of a non-negative zone offset.
pub const PLUS: u8 = 0x2b;

/// The identity written as both author and committer of every commit.
pub const IDENTITY: &'static str = "Francis Eugene Casibu <email@example.com>";

/// The canonical layout of a blob holding `content`.
pub open spec fn blob_layout(content: Seq<char>) -> Seq<u8> {
    framed(ObjectKind::Blob, encode_utf8(content))
}

/// The canonical layout of a tree with these entries.
pub open spec fn tree_layout(s: Seq<EntryView>) -> Seq<u8> {
    framed(ObjectKind::Tree, tree_body(s))
}

/// A zone offset, in seconds east of UTC, written as a sign and four
/// digits `HHMM`: `+` east of UTC or at it, `-` west of it.
pub open spec fn zone_text(offset: int) -> Seq<u8> {
    let a = if offset >= 0 {
        offset
    } else {
        -offset
    };
    seq![
        if offset >= 0 {
            PLUS
        } else {
            MINUS
        },
    ] + two_digits((a / 3600) as nat) + two_digits(((a % 3600) / 60) as nat)
}

/// One signature line: the role word, the identity, the time and the zone.
pub open spec fn signature_line(role: Seq<u8>, timestamp: int, offset: int) -> Seq<u8> {
    role + IDENTITY.spec_bytes() + seq![SPACE] + signed_decimal(timestamp) + seq![SPACE]
        + zone_text(offset) + seq![NEWLINE]
}

/// The body of a commit: the tree line, the parent line if there is a
/// parent, the author and committer lines, a blank line, the message.
pub open spec fn commit_body(
    tree_hex: Seq<char>,
    parent: Option<Seq<u8>>,
    timestamp: int,
    offset: int,
    message: Seq<char>,
) -> Seq<u8> {
    "tree ".spec_bytes() + encode_utf8(tree_hex) + seq![NEWLINE] + match parent {
        Some(p) => "parent ".spec_bytes() + encode_utf8(hex_lower(p)) + seq![NEWLINE],
        None => Seq::empty(),
    } + signature_line("author ".spec_bytes(), timestamp, offset) + signature_line(
        "committer ".spec_bytes(),
        timestamp,
        offset,
    ) + seq![NEWLINE] + encode_utf8(message)
}

/// The digest of an optional parent.
pub open spec fn parent_view(p: Option<&[u8; 20]>) -> Option<Seq<u8>> {
    match p {
        Some(d) => Some(d@),
        None => None,
    }
}

/// The digest of an optional parent, held by value.
pub open spec fn optional_digest(p: Option<[u8; 20]>) -> Option<Seq<u8>> {
    match p {
        Some(d) => Some(d@),
        None => None,
    }
}

/// A blob: its digest, its compressed layout and its text.
pub struct BlobObject {
    pub hash: [u8; 20],
    pub compressed_content: Vec<u8>,
    pub raw_content: String,
}

/// A tree: its digest, its compressed layout and its body.
pub struct TreeObject {
    pub hash: [u8; 20],
    pub compressed_content: Vec<u8>,
    pub raw_content: Vec<u8>,
}

/// A commit: its digest, its compressed layout and its body.
pub struct CommitObject {
    pub hash: [u8; 20],
    pub compressed_content: Vec<u8>,
    pub raw_content: Vec<u8>,
}

/// Digests and compresses a layout.
fn seal(layout: &[u8]) -> (r: ([u8; 20], Vec<u8>))
    ensures
        r.0@ == sha1_of(layout@),
        r.1@ == zlib_of(layout@),
{
    let hash = hash_content(layout);
    match compress_content(layout) {
        Ok(c) => (hash, c),
        Err(_) => (hash, Vec::new()),
    }
}

impl BlobObject {
    /// Builds the blob of `raw_content`; it always succeeds.
    pub fn new(raw_content: &str) -> (r: Result<BlobObject, RepoError>)
        ensures
            r is Ok,
            r matches Ok(b) ==> {
                &&& b.hash@ == sha1_of(blob_layout(raw_content@))
                &&& b.compressed_content@ == zlib_of(blob_layout(raw_content@))
                &&& b.raw_content@ == raw_content@
            },
    {
        let layout = frame(ObjectKind::Blob, raw_content.as_bytes());
        let (hash, compressed_content) = seal(layout.as_slice());
        Ok(BlobObject { hash, compressed_content, raw_content: raw_content.to_owned() })
    }
}

impl TreeObject {
    /// Builds the tree of these entries, in the order given: the caller
    /// supplies them in index order. It always succeeds.
    pub fn new(entries: &[IndexEntry]) -> (r: Result<TreeObject, RepoError>)
        ensures
            r is Ok,
            r matches Ok(t) ==> {
                &&& t.raw_content@ == tree_body(entries_view(entries@))
                &&& t.hash@ == sha1_of(tree_layout(entries_view(entries@)))
                &&& t.compressed_content@ == zlib_of(tree_layout(entries_view(entries@)))
            },
    {
        let raw_content = tree_body_bytes(entries);
        let layout = frame(ObjectKind::Tree, raw_content.as_slice());
        let (hash, compressed_content) = seal(layout.as_slice());
        Ok(TreeObject { hash, compressed_content, raw_content })
    }
}

/// Appends one signature line.
fn push_signature(out: &mut Vec<u8>, role: &str, timestamp: i64, offset_secs: i32)
    requires
        -86400 < offset_secs < 86400,
    ensures
        final(out)@ == old(out)@ + signature_line(role.spec_bytes(), timestamp as int, offset_secs as int),
{
    extend_bytes(out, role.as_bytes());
    extend_bytes(out, IDENTITY.as_bytes());
    out.push(SPACE);
    push_signed_decimal(out, timestamp);
    out.push(SPACE);
    let a: i32 = if offset_secs >= 0 {
        out.push(PLUS);
        offset_secs
    } else {
        out.push(MINUS);
        -offset_secs
    };
    push_two_digits(out, (a / 3600) as u32);
    push_two_digits(out, ((a % 3600) / 60) as u32);
    out.push(NEWLINE);
    assert(final(out)@ =~= old(out)@ + signature_line(role.spec_bytes(), timestamp as int, offset_secs as int));
}

impl CommitObject {
    /// Builds a commit stamped with the Unix time `timestamp` and the zone
    /// `offset_secs` seconds east of UTC, written `+HHMM` or `-HHMM`. The
    /// tree address is written as given: whether it names a stored object is
    /// for the repository to check. It always succeeds.
    pub fn new(
        commit_message: &str,
        tree_sha1_hex: &str,
        parent_sha1: Option<&[u8; 20]>,
        timestamp: i64,
        offset_secs: i32,
    ) -> (r: Result<CommitObject, RepoError>)
        requires
            -86400 < offset_secs < 86400,
        ensures
            r is Ok,
            r matches Ok(c) ==> {
                let body = commit_body(
                    tree_sha1_hex@,
                    parent_view(parent_sha1),
                    timestamp as int,
                    offset_secs as int,
                    commit_message@,
                );
                &&& c.raw_content@ == body
                &&& c.hash@ == sha1_of(framed(ObjectKind::Commit, body))
                &&& c.compressed_content@ == zlib_of(framed(ObjectKind::Commit, body))
            },
    {
        let mut raw_content: Vec<u8> = Vec::new();
        extend_bytes(&mut raw_content, "tree ".as_bytes());
        extend_bytes(&mut raw_content, tree_sha1_hex.as_bytes());
        raw_content.push(NEWLINE);
        let ghost before_parent = raw_content@;
        match parent_sha1 {
            Some(p) => {
                extend_bytes(&mut raw_content, "parent ".as_bytes());
                let hex = digest_hex(p);
                extend_bytes(&mut raw_content, hex.as_str().as_bytes());
                raw_content.push(NEWLINE);
            },
            None => {},
        }
        push_signature(&mut raw_content, "author ", timestamp, offset_secs);
        push_signature(&mut raw_content, "committer ", timestamp, offset_secs);
        raw_content.push(NEWLINE);
        extend_bytes(&mut raw_content, commit_message.as_bytes());
        assert(raw_content@ =~= commit_body(
            tree_sha1_hex@,
            parent_view(parent_sha1),
            timestamp as int,
            offset_secs as int,
            commit_message@,
        ));
        let layout = frame(ObjectKind::Commit, raw_content.as_slice());
        let (hash, compressed_content) = seal(layout.as_slice());
        Ok(CommitObject { hash, compressed_content, raw_content })
    }
}

/// A stored object, of any kind.
pub enum GitObjects {
    Blob(BlobObject),
    Tree(TreeObject),
    Commit(CommitObject),
}

/// What a decoded object holds: a blob's text, a tree's body, a commit's body.
pub enum ObjectView {
    Blob(Seq<char>),
    Tree(Seq<u8>),
    Commit(Seq<u8>),
}

/// Decodes a layout: the header names the kind; a blob's body must be
/// UTF-8 text and a tree's body must read as entries; a commit's body is
/// kept as it is. `None` where any of that fails.
pub open spec fn decode_object(b: Seq<u8>) -> Option<ObjectView> {
    match header_of(b) {
        None => None,
        Some((kind, start)) => {
            let payload = b.skip(start as int);
            match kind {
                ObjectKind::Blob => if valid_utf8(payload) {
                    Some(ObjectView::Blob(decode_utf8(payload)))
                } else {
                    None
                },
                ObjectKind::Tree => if parse_tree_spec(payload) is Some {
                    Some(ObjectView::Tree(payload))
                } else {
                    None
                },
                ObjectKind::Commit => Some(ObjectView::Commit(payload)),
            }
        },
    }
}

impl GitObjects {
    pub open spec fn content(&self) -> ObjectView {
        match self {
            GitObjects::Blob(b) => ObjectView::Blob(b.raw_content@),
            GitObjects::Tree(t) => ObjectView::Tree(t.raw_content@),
            GitObjects::Commit(c) => ObjectView::Commit(c.raw_content@),
        }
    }

    pub open spec fn digest(&self) -> Seq<u8> {
        match self {
            GitObjects::Blob(b) => b.hash@,
            GitObjects::Tree(t) => t.hash@,
            GitObjects::Commit(c) => c.hash@,
        }
    }

    pub open spec fn compressed(&self) -> Seq<u8> {
        match self {
            GitObjects::Blob(b) => b.compressed_content@,
            GitObjects::Tree(t) => t.compressed_content@,
            GitObjects::Commit(c) => c.compressed_content@,
        }
    }

    /// The kind of the object.
    pub fn kind(&self) -> (r: ObjectKind)
        ensures
            r == (match self {
                GitObjects::Blob(_) => ObjectKind::Blob,
                GitObjects::Tree(_) => ObjectKind::Tree,
                GitObjects::Commit(_) => ObjectKind::Commit,
            }),
    {
        match self {
            GitObjects::Blob(_) => ObjectKind::Blob,
            GitObjects::Tree(_) => ObjectKind::Tree,
            GitObjects::Commit(_) => ObjectKind::Commit,
        }
    }
}

/// Builds the object that a decompressed layout holds: see `decode_object`.
/// Its digest is that of the layout and its compressed form is `compressed`.
/// Fails with `CorruptObject` where `decode_object` gives `None`.
pub fn parse_object(decompressed: &[u8], compressed: &[u8]) -> (r: Result<GitObjects, RepoError>)
    ensures
        match decode_object(decompressed@) {
            Some(v) => r matches Ok(o) && o.content() == v && o.digest() == sha1_of(decompressed@)
                && o.compressed() == compressed@,
            None => r matches Err(RepoError::CorruptObject),
        },
{
    let (kind, start) = match read_header(decompressed) {
        Some(h) => h,
        None => return Err(RepoError::CorruptObject),
    };
    let payload = slice_to_vec(&decompressed[start..decompressed.len()]);
    assert(payload@ =~= decompressed@.skip(start as int));
    let hash = hash_content(decompressed);
    let compressed_content = slice_to_vec(compressed);
    match kind {
        ObjectKind::Blob => match string_from_utf8(payload) {
            Some(text) => Ok(
                GitObjects::Blob(BlobObject { hash, compressed_content, raw_content: text }),
            ),
            None => Err(RepoError::CorruptObject),
        },
        ObjectKind::Tree => match parse_tree_entries(payload.as_slice()) {
            Ok(_) => Ok(
                GitObjects::Tree(TreeObject { hash, compressed_content, raw_content: payload }),
            ),
            Err(_) => Err(RepoError::CorruptObject),
        },
        ObjectKind::Commit => Ok(
            GitObjects::Commit(CommitObject { hash, compressed_content, raw_content: payload }),
        ),
    }
}

/// The digest of a blob is a function of its content alone: equal contents
/// give equal digests, in every call and every process.
pub proof fn lemma_blob_digest_deterministic(c1: Seq<char>, c2: Seq<char>)
    requires
        c1 == c2,
    ensures
        sha1_of(blob_layout(c1)) == sha1_of(blob_layout(c2)),
{
}

/// A blob's layout decodes to the blob's content, whatever the text holds.
pub proof fn lemma_blob_round_trip(c: Seq<char>)
    ensures
        decode_object(blob_layout(c)) == Some(ObjectView::Blob(c)),
{
    let body = encode_utf8(c);
    let b = blob_layout(c);
    lemma_header_of_framed(ObjectKind::Blob, body);
    let start = kind_tag(ObjectKind::Blob).len() + 1
        + decimal(body.len()).len() + 1;
    assert(b.skip(start as int) =~= body);
    encode_utf8_valid_utf8(c);
    encode_utf8_decode_utf8(c);
}

/// A tree's layout decodes to the tree's body, and that body reads back as
/// the entries it was made of.
pub proof fn lemma_tree_object_round_trip(s: Seq<EntryView>)
    requires
        forall|i: int| 0 <= i < s.len() ==> entry_encodable(#[trigger] s[i]),
    ensures
        decode_object(tree_layout(s)) == Some(ObjectView::Tree(tree_body(s))),
        parse_tree_spec(tree_body(s)) == Some(s),
{
    let body = tree_body(s);
    let b = tree_layout(s);
    lemma_header_of_framed(ObjectKind::Tree, body);
    let start = kind_tag(ObjectKind::Tree).len() + 1
        + decimal(body.len()).len() + 1;
    assert(b.skip(start as int) =~= body);
    lemma_tree_round_trip(s);
}

} // verus!
