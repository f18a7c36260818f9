//! The staging index: the entries that the next tree will hold, kept sorted
//! by (mode, digest, path) with at most one entry per path.
use crate::order::{
    bytes_equal, bytes_less, bytes_lt, lemma_bytes_lt_asymmetric, lemma_bytes_lt_irreflexive,
    lemma_bytes_lt_total, lemma_bytes_lt_transitive,
};
use crate::error::RepoError;
use vstd::prelude::*;
use vstd::utf8::encode_utf8;

verus! {

/// The mode that staging gives every entry: a regular file.
pub const REGULAR_FILE_MODE: u32 = 100644;

/// One staged file: its mode, the digest of its blob and its path.
#[derive(Debug)]
pub struct IndexEntry {
    pub mode: u32,
    pub sha1: [u8; 20],
    pub path: String,
}

/// What an entry stands for: the path is taken as its UTF-8 bytes, which is
/// also how trees lay it out.
pub struct EntryView {
    pub mode: u32,
    pub digest: Seq<u8>,
    pub path: Seq<u8>,
}

impl View for IndexEntry {
    type V = EntryView;

    open spec fn view(&self) -> EntryView {
        EntryView { mode: self.mode, digest: self.sha1@, path: encode_utf8(self.path@) }
    }
}

pub open spec fn entries_view(v: Seq<IndexEntry>) -> Seq<EntryView> {
    v.map_values(|e: IndexEntry| e@)
}

/// The order of the index: by mode, then digest, then path.
pub open spec fn entry_lt(x: EntryView, y: EntryView) -> bool {
    ||| x.mode < y.mode
    ||| x.mode == y.mode && bytes_lt(x.digest, y.digest)
    ||| x.mode == y.mode && x.digest == y.digest && bytes_lt(x.path, y.path)
}

pub open spec fn is_sorted(s: Seq<EntryView>) -> bool {
    forall|i: int, j: int| 0 <= i < j < s.len() ==> entry_lt(#[trigger] s[i], #[trigger] s[j])
}

pub open spec fn paths_unique(s: Seq<EntryView>) -> bool {
    forall|i: int, j: int|
        0 <= i < s.len() && 0 <= j < s.len() && i != j ==> #[trigger] s[i].path != #[trigger] s[j].path
}

/// The invariant of the index: sorted, and no path twice.
pub open spec fn canonical(s: Seq<EntryView>) -> bool {
    is_sorted(s) && paths_unique(s)
}

pub open spec fn has_path(s: Seq<EntryView>, path: Seq<u8>) -> bool {
    exists|i: int| 0 <= i < s.len() && #[trigger] s[i].path == path
}

/// `s` with every entry for `path` left out.
pub open spec fn without_path(s: Seq<EntryView>, path: Seq<u8>) -> Seq<EntryView>
    decreases s.len(),
{
    if s.len() == 0 {
        s
    } else if s[0].path == path {
        without_path(s.drop_first(), path)
    } else {
        seq![s[0]] + without_path(s.drop_first(), path)
    }
}

/// `e` put in front of the first entry of `s` that sorts after it.
pub open spec fn insert_sorted(s: Seq<EntryView>, e: EntryView) -> Seq<EntryView>
    decreases s.len(),
{
    if s.len() == 0 {
        seq![e]
    } else if entry_lt(e, s[0]) {
        seq![e] + s
    } else {
        seq![s[0]] + insert_sorted(s.drop_first(), e)
    }
}

/// The index after staging `digest` under `path`: unchanged if the path is
/// already staged with that digest; otherwise any entry for the path gives
/// way to a regular-file entry with the new digest, in sorted position.
pub open spec fn staged(s: Seq<EntryView>, path: Seq<u8>, digest: Seq<u8>) -> Seq<EntryView> {
    if exists|i: int| 0 <= i < s.len() && #[trigger] s[i].path == path && s[i].digest == digest {
        s
    } else {
        insert_sorted(
            without_path(s, path),
            EntryView { mode: REGULAR_FILE_MODE, digest, path },
        )
    }
}

pub proof fn lemma_entry_lt_facts(x: EntryView, y: EntryView, z: EntryView)
    ensures
        !entry_lt(x, x),
        entry_lt(x, y) ==> !entry_lt(y, x),
        entry_lt(x, y) && entry_lt(y, z) ==> entry_lt(x, z),
        x != y ==> entry_lt(x, y) || entry_lt(y, x),
{
    lemma_bytes_lt_irreflexive(x.digest);
    lemma_bytes_lt_irreflexive(x.path);
    lemma_bytes_lt_asymmetric(x.digest, y.digest);
    lemma_bytes_lt_asymmetric(x.path, y.path);
    lemma_bytes_lt_transitive(x.digest, y.digest, z.digest);
    lemma_bytes_lt_transitive(x.path, y.path, z.path);
    lemma_bytes_lt_total(x.digest, y.digest);
    lemma_bytes_lt_total(x.path, y.path);
}

proof fn lemma_without_absent(s: Seq<EntryView>, path: Seq<u8>)
    requires
        !has_path(s, path),
    ensures
        without_path(s, path) == s,
    decreases s.len(),
{
    if s.len() > 0 {
        assert(!has_path(s.drop_first(), path)) by {
            if has_path(s.drop_first(), path) {
                let i = choose|i: int| 0 <= i < s.len() - 1 && #[trigger] s.drop_first()[i].path == path;
                assert(s[i + 1].path == path);
            }
        }
        lemma_without_absent(s.drop_first(), path);
        assert(s[0].path != path);
        assert(seq![s[0]] + s.drop_first() =~= s);
    }
}

proof fn lemma_without_at(s: Seq<EntryView>, path: Seq<u8>, pos: int)
    requires
        0 <= pos < s.len(),
        s[pos].path == path,
        paths_unique(s),
    ensures
        without_path(s, path) == s.remove(pos),
    decreases s.len(),
{
    let t = s.drop_first();
    assert(paths_unique(t)) by {
        assert forall|i: int, j: int|
            0 <= i < t.len() && 0 <= j < t.len() && i != j implies #[trigger] t[i].path
            != #[trigger] t[j].path by {
            assert(s[i + 1].path != s[j + 1].path);
        }
    }
    if pos == 0 {
        assert(!has_path(t, path)) by {
            if has_path(t, path) {
                let i = choose|i: int| 0 <= i < t.len() && #[trigger] t[i].path == path;
                assert(s[i + 1].path == path);
            }
        }
        lemma_without_absent(t, path);
        assert(s.remove(0) =~= t);
    } else {
        assert(s[0].path != s[pos].path);
        lemma_without_at(t, path, pos - 1);
        assert(seq![s[0]] + t.remove(pos - 1) =~= s.remove(pos));
    }
}

/// Where the first entry that sorts after `e` stands, `insert_sorted` puts `e`.
proof fn lemma_insert_sorted_at(s: Seq<EntryView>, e: EntryView, k: int)
    requires
        0 <= k <= s.len(),
        forall|i: int| 0 <= i < k ==> !entry_lt(e, #[trigger] s[i]),
        k < s.len() ==> entry_lt(e, s[k]),
    ensures
        insert_sorted(s, e) == s.insert(k, e),
    decreases s.len(),
{
    if k == 0 {
        if s.len() == 0 {
            assert(s.insert(0, e) =~= seq![e]);
        } else {
            assert(s.insert(0, e) =~= seq![e] + s);
        }
    } else {
        assert(!entry_lt(e, s[0]));
        let t = s.drop_first();
        assert forall|i: int| 0 <= i < k - 1 implies !entry_lt(e, #[trigger] t[i]) by {
            assert(!entry_lt(e, s[i + 1]));
        }
        lemma_insert_sorted_at(t, e, k - 1);
        assert(seq![s[0]] + t.insert(k - 1, e) =~= s.insert(k, e));
    }
}

/// Inserting at that place keeps a canonical sequence canonical.
proof fn lemma_insert_at_canonical(s: Seq<EntryView>, e: EntryView, k: int)
    requires
        canonical(s),
        !has_path(s, e.path),
        0 <= k <= s.len(),
        forall|i: int| 0 <= i < k ==> !entry_lt(e, #[trigger] s[i]),
        k < s.len() ==> entry_lt(e, s[k]),
    ensures
        canonical(s.insert(k, e)),
{
    let r = s.insert(k, e);
    assert forall|i: int| 0 <= i < s.len() implies #[trigger] s[i].path != e.path by {}
    assert forall|i: int, j: int| 0 <= i < j < r.len() implies entry_lt(
        #[trigger] r[i],
        #[trigger] r[j],
    ) by {
        if i < k && j == k {
            lemma_entry_lt_facts(s[i], e, e);
        } else if i == k {
            lemma_entry_lt_facts(e, s[k], s[j - 1]);
        } else if i < k && j > k {
            lemma_entry_lt_facts(s[i], e, e);
        }
    }
    assert forall|i: int, j: int|
        0 <= i < r.len() && 0 <= j < r.len() && i != j implies #[trigger] r[i].path
        != #[trigger] r[j].path by {}
}

proof fn lemma_remove_canonical(s: Seq<EntryView>, pos: int)
    requires
        canonical(s),
        0 <= pos < s.len(),
    ensures
        canonical(s.remove(pos)),
        !has_path(s.remove(pos), s[pos].path),
{
    let r = s.remove(pos);
    assert forall|i: int, j: int| 0 <= i < j < r.len() implies entry_lt(
        #[trigger] r[i],
        #[trigger] r[j],
    ) by {
        let si = if i < pos { i } else { i + 1 };
        let sj = if j < pos { j } else { j + 1 };
        assert(entry_lt(s[si], s[sj]));
    }
    assert forall|i: int, j: int|
        0 <= i < r.len() && 0 <= j < r.len() && i != j implies #[trigger] r[i].path
        != #[trigger] r[j].path by {
        let si = if i < pos { i } else { i + 1 };
        let sj = if j < pos { j } else { j + 1 };
        assert(s[si].path != s[sj].path);
    }
    if has_path(r, s[pos].path) {
        let i = choose|i: int| 0 <= i < r.len() && #[trigger] r[i].path == s[pos].path;
        let si = if i < pos { i } else { i + 1 };
        assert(s[si].path == s[pos].path);
    }
}

proof fn lemma_insert_position(s: Seq<EntryView>, e: EntryView) -> (k: int)
    ensures
        0 <= k <= s.len(),
        forall|i: int| 0 <= i < k ==> !entry_lt(e, #[trigger] s[i]),
        k < s.len() ==> entry_lt(e, s[k]),
    decreases s.len(),
{
    if s.len() == 0 || entry_lt(e, s[0]) {
        0
    } else {
        let t = s.drop_first();
        let k = lemma_insert_position(t, e);
        assert forall|i: int| 0 <= i < k + 1 implies !entry_lt(e, #[trigger] s[i]) by {
            if i > 0 {
                assert(s[i] == t[i - 1]);
            }
        }
        k + 1
    }
}

proof fn lemma_insert_sorted_contains(s: Seq<EntryView>, e: EntryView)
    ensures
        insert_sorted(s, e).contains(e),
    decreases s.len(),
{
    if s.len() == 0 {
        assert(insert_sorted(s, e)[0] == e);
    } else if entry_lt(e, s[0]) {
        assert(insert_sorted(s, e)[0] == e);
    } else {
        lemma_insert_sorted_contains(s.drop_first(), e);
        let r = insert_sorted(s.drop_first(), e);
        let i = choose|i: int| 0 <= i < r.len() && r[i] == e;
        assert(insert_sorted(s, e)[i + 1] == e);
    }
}

/// Staging keeps the index invariant: from a sorted index with no path
/// twice, staging yields a sorted index with no path twice.
pub proof fn lemma_staged_canonical(s: Seq<EntryView>, path: Seq<u8>, digest: Seq<u8>)
    requires
        canonical(s),
    ensures
        canonical(staged(s, path, digest)),
{
    if !(exists|i: int| 0 <= i < s.len() && #[trigger] s[i].path == path && s[i].digest == digest) {
        let w = without_path(s, path);
        if has_path(s, path) {
            let i = choose|i: int| 0 <= i < s.len() && #[trigger] s[i].path == path;
            lemma_without_at(s, path, i);
            lemma_remove_canonical(s, i);
        } else {
            lemma_without_absent(s, path);
        }
        let e = EntryView { mode: REGULAR_FILE_MODE, digest, path };
        let k = lemma_insert_position(w, e);
        lemma_insert_sorted_at(w, e, k);
        lemma_insert_at_canonical(w, e, k);
    }
}

/// Staging is idempotent: staging the same content under the same path a
/// second time changes nothing.
pub proof fn lemma_stage_idempotent(s: Seq<EntryView>, path: Seq<u8>, digest: Seq<u8>)
    ensures
        staged(staged(s, path, digest), path, digest) == staged(s, path, digest),
{
    let t = staged(s, path, digest);
    if !(exists|i: int| 0 <= i < s.len() && #[trigger] s[i].path == path && s[i].digest == digest) {
        let e = EntryView { mode: REGULAR_FILE_MODE, digest, path };
        lemma_insert_sorted_contains(without_path(s, path), e);
        let i = choose|i: int| 0 <= i < t.len() && t[i] == e;
        assert(t[i].path == path && t[i].digest == digest);
    }
}

/// Compares two entries in index order.
pub fn entry_less(a: &IndexEntry, b: &IndexEntry) -> (r: bool)
    ensures
        r == entry_lt(a@, b@),
{
    if a.mode != b.mode {
        return a.mode < b.mode;
    }
    if !bytes_equal(a.sha1.as_slice(), b.sha1.as_slice()) {
        return bytes_less(a.sha1.as_slice(), b.sha1.as_slice());
    }
    let pa = a.path.as_str().as_bytes();
    let pb = b.path.as_str().as_bytes();
    assert(pa@ == a@.path);
    assert(pb@ == b@.path);
    proof {
        lemma_bytes_lt_irreflexive(a@.digest);
    }
    bytes_less(pa, pb)
}

/// The position of the entry for `path`, if there is one.
fn find_path(entries: &Vec<IndexEntry>, path: &str) -> (r: Option<usize>)
    ensures
        match r {
            Some(i) => i < entries@.len() && entries@[i as int]@.path == encode_utf8(path@),
            None => !has_path(entries_view(entries@), encode_utf8(path@)),
        },
{
    let ghost s = entries_view(entries@);
    let mut i: usize = 0;
    while i < entries.len()
        invariant
            i <= entries@.len(),
            s == entries_view(entries@),
            forall|k: int| 0 <= k < i ==> #[trigger] s[k].path != encode_utf8(path@),
        decreases entries@.len() - i,
    {
        if bytes_equal(entries[i].path.as_str().as_bytes(), path.as_bytes()) {
            return Some(i);
        }
        i = i + 1;
    }
    None
}

/// The position before the first entry that sorts after `e`.
fn insert_position(entries: &Vec<IndexEntry>, e: &IndexEntry) -> (k: usize)
    ensures
        k <= entries@.len(),
        forall|i: int| 0 <= i < k ==> !entry_lt(e@, #[trigger] entries_view(entries@)[i]),
        k < entries@.len() ==> entry_lt(e@, entries_view(entries@)[k as int]),
{
    let ghost s = entries_view(entries@);
    let mut k: usize = 0;
    while k < entries.len()
        invariant
            k <= entries@.len(),
            s == entries_view(entries@),
            forall|i: int| 0 <= i < k ==> !entry_lt(e@, #[trigger] s[i]),
        decreases entries@.len() - k,
    {
        if entry_less(e, &entries[k]) {
            return k;
        }
        k = k + 1;
    }
    k
}

#[verifier::external_type_specification]
#[verifier::external_body]
pub struct ExEncodeError(bincode::error::EncodeError);

#[verifier::external_type_specification]
#[verifier::external_body]
pub struct ExDecodeError(bincode::error::DecodeError);

/// The bincode record, in the standard configuration, of a sequence of
/// entries each written as the tuple (mode, digest, path).
pub uninterp spec fn index_record(s: Seq<EntryView>) -> Seq<u8>;

/// The sequence of (mode, digest, path) tuples that bincode, in the standard
/// configuration with a read limit of one gibibyte, decodes from a byte
/// string; `None` where it reports an error.
pub uninterp spec fn index_decoding(b: Seq<u8>) -> Option<Seq<EntryView>>;

/// The size below which an index record surely reads back within the
/// decoder's one-gibibyte read limit. Decoding claims, per entry, 48 bytes
/// for the tuple, 4 for the mode, 20 for the digest, 8 for the path's length
/// and the path's bytes, plus 8 for the sequence length; every entry takes
/// at least 22 bytes of the record besides its path, so the claims stay
/// below five times the record's size.
pub const INDEX_RECORD_BOUND: usize = 0x0800_0000;

/// Relies on `bincode::encode_to_vec` with `config::standard()`, writing into
/// a `Vec`, which never fails for these tuples: the record of the entries,
/// which starts with the length prefix of the sequence, and which the
/// decoder of `decode_from_slice` reads back while it stays within its
/// read limit.
#[verifier::external_body]
fn encode_to_vec(entries: &Vec<IndexEntry>) -> (r: Result<Vec<u8>, bincode::error::EncodeError>)
    ensures
        r is Ok,
        r matches Ok(b) ==> b@ == index_record(entries_view(entries@)),
        r matches Ok(b) ==> b@.len() > 0,
        r matches Ok(b) ==> (b@.len() < INDEX_RECORD_BOUND ==> index_decoding(b@) == Some(
            entries_view(entries@),
        )),
{
    let tuples: Vec<(u32, [u8; 20], &str)> = entries.iter().map(
        |e| (e.mode, e.sha1, e.path.as_str()),
    ).collect();
    bincode::encode_to_vec(&tuples, bincode::config::standard())
}

/// Relies on `bincode::decode_from_slice` with `config::standard()` and a
/// read limit of one gibibyte, so that a corrupt length prefix is reported
/// instead of allocated; bytes after the record are ignored.
#[verifier::external_body]
fn decode_from_slice(bytes: &[u8]) -> (r: Result<Vec<IndexEntry>, bincode::error::DecodeError>)
    ensures
        r is Ok <==> index_decoding(bytes@) is Some,
        r matches Ok(v) ==> index_decoding(bytes@) == Some(entries_view(v@)),
{
    let config = bincode::config::standard().with_limit::<1073741824>();
    let (tuples, _): (Vec<(u32, [u8; 20], String)>, usize) = bincode::decode_from_slice(
        bytes,
        config,
    )?;
    Ok(tuples.into_iter().map(|(mode, sha1, path)| IndexEntry { mode, sha1, path }).collect())
}

/// The index that the bytes of an index file hold: empty for an empty file,
/// else the decoded entries if they are in canonical order.
pub open spec fn decoded_index(b: Seq<u8>) -> Option<Seq<EntryView>> {
    if b.len() == 0 {
        Some(Seq::empty())
    } else {
        match index_decoding(b) {
            Some(s) => if canonical(s) {
                Some(s)
            } else {
                None
            },
            None => None,
        }
    }
}

/// Tells whether the entries are sorted with no path twice.
fn is_canonical(entries: &Vec<IndexEntry>) -> (r: bool)
    ensures
        r == canonical(entries_view(entries@)),
{
    let ghost s = entries_view(entries@);
    let n = entries.len();
    let mut i: usize = 0;
    while i < n
        invariant
            n == entries@.len() == s.len(),
            s == entries_view(entries@),
            i <= n,
            forall|a: int, b: int| 0 <= a < i && a < b < n ==> entry_lt(#[trigger] s[a], #[trigger] s[b]),
            forall|a: int, b: int|
                0 <= a < i && 0 <= b < n && a != b ==> #[trigger] s[a].path != #[trigger] s[b].path,
        decreases n - i,
    {
        let mut j: usize = i + 1;
        while j < n
            invariant
                n == entries@.len() == s.len(),
                s == entries_view(entries@),
                i < n,
                i + 1 <= j <= n,
                forall|b: int| i < b < j ==> entry_lt(s[i as int], #[trigger] s[b]),
                forall|b: int| i < b < j ==> #[trigger] s[b].path != s[i as int].path,
            decreases n - j,
        {
            if !entry_less(&entries[i], &entries[j]) {
                assert(!is_sorted(s) && i < j) by {
                    assert(!entry_lt(s[i as int], s[j as int]));
                }
                return false;
            }
            let pi = entries[i].path.as_str().as_bytes();
            let pj = entries[j].path.as_str().as_bytes();
            if bytes_equal(pi, pj) {
                assert(!paths_unique(s)) by {
                    assert(s[i as int].path == s[j as int].path);
                }
                return false;
            }
            j = j + 1;
        }
        i = i + 1;
    }
    true
}

/// The staging index.
pub struct IndexFile {
    entries: Vec<IndexEntry>,
}

impl View for IndexFile {
    type V = Seq<EntryView>;

    closed spec fn view(&self) -> Seq<EntryView> {
        entries_view(self.entries@)
    }
}

impl IndexFile {
    /// Sorted by (mode, digest, path), with no path twice.
    pub open spec fn wf(&self) -> bool {
        canonical(self@)
    }

    /// The empty index.
    pub fn new() -> (r: IndexFile)
        ensures
            r@ == Seq::<EntryView>::empty(),
            r.wf(),
    {
        let r = IndexFile { entries: Vec::new() };
        assert(r@ =~= Seq::<EntryView>::empty());
        r
    }

    /// The entries, in index order.
    pub fn entries(&self) -> (r: &Vec<IndexEntry>)
        ensures
            entries_view(r@) == self@,
    {
        &self.entries
    }

    /// Reads the bytes of an index file: see `decoded_index`.
    pub fn load(bytes: &[u8]) -> (r: Result<IndexFile, RepoError>)
        ensures
            match decoded_index(bytes@) {
                Some(s) => r matches Ok(ix) && ix@ == s,
                None => r matches Err(RepoError::CorruptIndex),
            },
            r matches Ok(ix) ==> ix.wf(),
    {
        if bytes.len() == 0 {
            return Ok(IndexFile::new());
        }
        match decode_from_slice(bytes) {
            Ok(entries) => {
                if is_canonical(&entries) {
                    Ok(IndexFile { entries })
                } else {
                    Err(RepoError::CorruptIndex)
                }
            },
            Err(_) => Err(RepoError::CorruptIndex),
        }
    }

    /// The bytes of the index file for this index. Below
    /// `INDEX_RECORD_BOUND` bytes they load back as this index.
    pub fn to_bytes(&self) -> (r: Vec<u8>)
        ensures
            r@ == index_record(self@),
            self.wf() && r@.len() < INDEX_RECORD_BOUND ==> decoded_index(r@) == Some(self@),
    {
        match encode_to_vec(&self.entries) {
            Ok(b) => b,
            Err(_) => Vec::new(),
        }
    }

    /// Stages `digest` under `path`: see `staged`.
    pub fn stage(&mut self, path: String, digest: [u8; 20])
        requires
            old(self).wf(),
        ensures
            final(self).wf(),
            final(self)@ == staged(old(self)@, encode_utf8(path@), digest@),
    {
        let ghost s = self@;
        let ghost p = encode_utf8(path@);
        match find_path(&self.entries, path.as_str()) {
            Some(i) => {
                if bytes_equal(self.entries[i].sha1.as_slice(), digest.as_slice()) {
                    assert(s[i as int].path == p && s[i as int].digest == digest@);
                    return ;
                }
                proof {
                    lemma_without_at(s, p, i as int);
                    lemma_remove_canonical(s, i as int);
                    if exists|j: int|
                        0 <= j < s.len() && #[trigger] s[j].path == p && s[j].digest == digest@ {
                        let j = choose|j: int|
                            0 <= j < s.len() && #[trigger] s[j].path == p && s[j].digest
                                == digest@;
                        assert(j == i);
                    }
                }
                self.entries.remove(i);
                assert(self@ =~= s.remove(i as int));
            },
            None => {
                proof {
                    lemma_without_absent(s, p);
                }
            },
        }
        let ghost w = self@;
        let entry = IndexEntry { mode: REGULAR_FILE_MODE, sha1: digest, path };
        let k = insert_position(&self.entries, &entry);
        proof {
            lemma_insert_sorted_at(w, entry@, k as int);
            lemma_insert_at_canonical(w, entry@, k as int);
        }
        self.entries.insert(k, entry);
        assert(self@ =~= w.insert(k as int, entry@));
    }
}

} // verus!
