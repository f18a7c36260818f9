//! The body of a tree object: for each entry, its decimal mode, a space, its
//! path, a NUL byte and its 20 raw digest bytes.
use crate::decimal::{
    all_digits, decimal, digits_value, is_digit, lemma_decimal, parse_u32_decimal, push_decimal,
};
use crate::error::RepoError;
use crate::index::{entries_view, EntryView, IndexEntry};
use crate::layout::{
    extend_bytes, find_byte, first_index_from, lemma_first_index_at, lemma_first_index_bounds,
    string_from_utf8, NUL, SPACE,
};
use vstd::prelude::*;
use vstd::slice::slice_to_vec;
use vstd::utf8::{decode_utf8_encode_utf8, valid_utf8};

verus! {

/// The bytes of one entry.
pub open spec fn entry_bytes(e: EntryView) -> Seq<u8> {
    decimal(e.mode as nat) + seq![SPACE] + e.path + seq![NUL] + e.digest
}

/// The body of a tree with these entries, in the order given.
pub open spec fn tree_body(s: Seq<EntryView>) -> Seq<u8>
    decreases s.len(),
{
    if s.len() == 0 {
        Seq::empty()
    } else {
        entry_bytes(s[0]) + tree_body(s.drop_first())
    }
}

/// An entry that a tree body can carry and give back: a 20-byte digest and
/// a path that is valid UTF-8 without NUL bytes.
pub open spec fn entry_encodable(e: EntryView) -> bool {
    &&& e.digest.len() == 20
    &&& valid_utf8(e.path)
    &&& !e.path.contains(NUL)
}

/// Reads one entry from the front of `b`: the mode digits up to the first
/// space, the path up to the next NUL, then exactly 20 digest bytes. Gives
/// the entry and the number of bytes it took.
pub open spec fn parse_entry_spec(b: Seq<u8>) -> Option<(EntryView, nat)> {
    match first_index_from(b, 0, SPACE) {
        None => None,
        Some(sp) => {
            let digits = b.take(sp as int);
            if sp == 0 || !all_digits(digits) || digits_value(digits) > u32::MAX {
                None
            } else {
                match first_index_from(b, sp + 1, NUL) {
                    None => None,
                    Some(nul) => {
                        let path = b.subrange((sp + 1) as int, nul as int);
                        if nul + 21 > b.len() || !valid_utf8(path) {
                            None
                        } else {
                            Some(
                                (
                                    EntryView {
                                        mode: digits_value(digits) as u32,
                                        digest: b.subrange((nul + 1) as int, (nul + 21) as int),
                                        path,
                                    },
                                    nul + 21,
                                ),
                            )
                        }
                    },
                }
            }
        },
    }
}

pub proof fn lemma_parse_entry_len(b: Seq<u8>)
    ensures
        parse_entry_spec(b) matches Some((e, n)) ==> 21 <= n <= b.len(),
{
}

/// Reads a whole tree body, entry after entry, until it is used up. `None`
/// if any entry is malformed, a truncated digest included.
pub open spec fn parse_tree_spec(b: Seq<u8>) -> Option<Seq<EntryView>>
    decreases b.len(),
{
    if b.len() == 0 {
        Some(Seq::empty())
    } else {
        match parse_entry_spec(b) {
            None => None,
            Some((e, n)) => {
                proof {
                    lemma_parse_entry_len(b);
                }
                match parse_tree_spec(b.skip(n as int)) {
                    Some(rest) => Some(seq![e] + rest),
                    None => None,
                }
            },
        }
    }
}

proof fn lemma_tree_body_push(s: Seq<EntryView>, e: EntryView)
    ensures
        tree_body(s.push(e)) == tree_body(s) + entry_bytes(e),
    decreases s.len(),
{
    if s.len() == 0 {
        assert(s.push(e).drop_first() =~= Seq::<EntryView>::empty());
        assert(tree_body(s.push(e).drop_first()) == Seq::<u8>::empty());
        assert(tree_body(s.push(e)) =~= entry_bytes(e));
    } else {
        assert(s.push(e).drop_first() =~= s.drop_first().push(e));
        lemma_tree_body_push(s.drop_first(), e);
        assert(tree_body(s.push(e)) =~= tree_body(s) + entry_bytes(e));
    }
}

proof fn lemma_parse_entry_bytes(e: EntryView, rest: Seq<u8>)
    requires
        entry_encodable(e),
    ensures
        parse_entry_spec(entry_bytes(e) + rest) == Some((e, entry_bytes(e).len())),
{
    let d = decimal(e.mode as nat);
    let b = entry_bytes(e) + rest;
    lemma_decimal(e.mode as nat);
    let sp = d.len();
    assert(b[sp as int] == SPACE);
    assert forall|j: int| 0 <= j < sp implies b[j] != SPACE by {
        assert(b[j] == d[j]);
        assert(is_digit(d[j]));
    }
    lemma_first_index_at(b, 0, sp, SPACE);
    assert(b.take(sp as int) =~= d);
    let nul = sp + 1 + e.path.len();
    assert(b[nul as int] == NUL);
    assert forall|j: int| sp + 1 <= j < nul implies b[j] != NUL by {
        assert(b[j] == e.path[j - sp - 1]);
    }
    lemma_first_index_at(b, sp + 1, nul as nat, NUL);
    assert(b.subrange((sp + 1) as int, nul as int) =~= e.path);
    assert(b.subrange((nul + 1) as int, (nul + 21) as int) =~= e.digest);
}

/// Tree bodies read back: parsing the body of a sequence of encodable
/// entries gives exactly that sequence.
pub proof fn lemma_tree_round_trip(s: Seq<EntryView>)
    requires
        forall|i: int| 0 <= i < s.len() ==> entry_encodable(#[trigger] s[i]),
    ensures
        parse_tree_spec(tree_body(s)) == Some(s),
    decreases s.len(),
{
    if s.len() > 0 {
        let t = s.drop_first();
        assert forall|i: int| 0 <= i < t.len() implies entry_encodable(#[trigger] t[i]) by {
            assert(entry_encodable(s[i + 1]));
        }
        lemma_tree_round_trip(t);
        assert(entry_encodable(s[0]));
        lemma_parse_entry_bytes(s[0], tree_body(t));
        let b = tree_body(s);
        assert(b.skip(entry_bytes(s[0]).len() as int) =~= tree_body(t));
        assert(seq![s[0]] + t =~= s);
    }
}

/// Lays out the body of a tree with these entries, in the order given.
pub fn tree_body_bytes(entries: &[IndexEntry]) -> (r: Vec<u8>)
    ensures
        r@ == tree_body(entries_view(entries@)),
{
    let ghost s = entries_view(entries@);
    let mut out: Vec<u8> = Vec::new();
    let mut i: usize = 0;
    assert(s.take(0) =~= Seq::<EntryView>::empty());
    while i < entries.len()
        invariant
            i <= entries@.len(),
            s == entries_view(entries@),
            out@ == tree_body(s.take(i as int)),
        decreases entries@.len() - i,
    {
        let e = &entries[i];
        let ghost before = out@;
        push_decimal(&mut out, e.mode as u64);
        out.push(SPACE);
        extend_bytes(&mut out, e.path.as_str().as_bytes());
        out.push(NUL);
        extend_bytes(&mut out, e.sha1.as_slice());
        proof {
            assert(s.take(i + 1) =~= s.take(i as int).push(s[i as int]));
            lemma_tree_body_push(s.take(i as int), s[i as int]);
            assert(out@ =~= before + entry_bytes(s[i as int]));
        }
        i = i + 1;
    }
    assert(s.take(i as int) =~= s);
    out
}

/// Reads one entry from the front of `b`: see `parse_entry_spec`.
fn parse_entry(b: &[u8]) -> (r: Option<(IndexEntry, usize)>)
    ensures
        match parse_entry_spec(b@) {
            Some((ev, n)) => r matches Some((e, m)) && e@ == ev && m == n,
            None => r is None,
        },
{
    let sp = match find_byte(b, 0, SPACE) {
        Some(i) => i,
        None => return None,
    };
    proof {
        lemma_first_index_bounds(b@, 0, SPACE);
    }
    assert(sp < b.len());
    let mode = match parse_u32_decimal(b, 0, sp) {
        Some(m) => m,
        None => {
            assert(b@.subrange(0, sp as int) =~= b@.take(sp as int));
            return None;
        },
    };
    assert(b@.subrange(0, sp as int) =~= b@.take(sp as int));
    let nul = match find_byte(b, sp + 1, NUL) {
        Some(i) => i,
        None => return None,
    };
    proof {
        lemma_first_index_bounds(b@, (sp + 1) as nat, NUL);
    }
    if b.len() < 21 || nul > b.len() - 21 {
        return None;
    }
    let path_bytes = slice_to_vec(&b[sp + 1..nul]);
    let ghost pb = path_bytes@;
    assert(pb =~= b@.subrange(sp + 1, nul as int));
    let path = match string_from_utf8(path_bytes) {
        Some(p) => p,
        None => return None,
    };
    proof {
        decode_utf8_encode_utf8(pb);
    }
    let mut sha1: [u8; 20] = [0u8; 20];
    let mut k: usize = 0;
    while k < 20
        invariant
            k <= 20,
            nul + 21 <= b.len(),
            sha1@.len() == 20,
            forall|j: int| 0 <= j < k ==> sha1@[j] == b@[nul + 1 + j],
        decreases 20 - k,
    {
        sha1[k] = b[nul + 1 + k];
        k = k + 1;
    }
    assert(sha1@ =~= b@.subrange(nul + 1, nul + 21));
    Some((IndexEntry { mode, sha1, path }, nul + 21))
}

/// Reads a tree body back into its entries: see `parse_tree_spec`. Fails
/// with `CorruptObject` where that gives `None`.
pub fn parse_tree_entries(body: &[u8]) -> (r: Result<Vec<IndexEntry>, RepoError>)
    ensures
        match parse_tree_spec(body@) {
            Some(s) => r matches Ok(v) && entries_view(v@) == s,
            None => r matches Err(RepoError::CorruptObject),
        },
{
    let mut entries: Vec<IndexEntry> = Vec::new();
    let mut pos: usize = 0;
    assert(body@.skip(0) =~= body@);
    assert(entries_view(entries@) =~= Seq::<EntryView>::empty());
    while pos < body.len()
        invariant
            pos <= body@.len(),
            parse_tree_spec(body@) == (match parse_tree_spec(body@.skip(pos as int)) {
                Some(rest) => Some(entries_view(entries@) + rest),
                None => None,
            }),
        decreases body@.len() - pos,
    {
        let rest = &body[pos..body.len()];
        assert(rest@ =~= body@.skip(pos as int));
        let (e, n) = match parse_entry(rest) {
            Some(x) => x,
            None => return Err(RepoError::CorruptObject),
        };
        proof {
            lemma_parse_entry_len(rest@);
            assert(rest@.skip(n as int) =~= body@.skip(pos + n));
            assert(entries_view(entries@.push(e)) =~= entries_view(entries@).push(e@));
            if let Some(tail) = parse_tree_spec(body@.skip(pos + n)) {
                assert(entries_view(entries@).push(e@) + tail =~= entries_view(entries@) + (seq![e@] + tail));
            }
        }
        entries.push(e);
        pos = pos + n;
    }
    assert(body@.skip(pos as int) =~= Seq::<u8>::empty());
    assert(entries_view(entries@) + Seq::<EntryView>::empty() =~= entries_view(entries@));
    Ok(entries)
}

} // verus!
