use mini_git::address::{digest_hex, parse_digest};
use mini_git::decimal::{parse_u32_decimal, push_decimal, push_signed_decimal, push_two_digits};
use mini_git::error::RepoError;
use mini_git::index::{entry_less, IndexEntry, IndexFile, REGULAR_FILE_MODE};
use mini_git::input::trim_trailing_newlines;
use mini_git::order::{bytes_equal, bytes_less};

fn digest_of(hex: &str) -> [u8; 20] {
    parse_digest(hex).unwrap()
}

fn is_sorted_unique(ix: &IndexFile) -> bool {
    let e = ix.entries();
    for i in 0..e.len() {
        for j in i + 1..e.len() {
            if !entry_less(&e[i], &e[j]) || e[i].path == e[j].path {
                return false;
            }
        }
    }
    true
}

#[test]
fn staging_keeps_entries_sorted_and_paths_unique() {
    let mut ix = IndexFile::new();
    let d1 = digest_of("d8263ee9860594d2806b0dfd1bfd17528b0ba2a4");
    let d2 = digest_of("56a6051ca2b02b04ef92d5150c9ef600403cb1de");
    let d3 = digest_of("0000000000000000000000000000000000000001");
    ix.stage("z.txt".to_string(), d1);
    ix.stage("a.txt".to_string(), d1);
    ix.stage("m.txt".to_string(), d2);
    ix.stage("a.txt".to_string(), d3);
    ix.stage("q.txt".to_string(), d3);
    assert!(is_sorted_unique(&ix));
    let paths: Vec<&str> = ix.entries().iter().map(|e| e.path.as_str()).collect();
    assert_eq!(paths, vec!["a.txt", "q.txt", "m.txt", "z.txt"]);
    assert!(ix.entries().iter().all(|e| e.mode == REGULAR_FILE_MODE));
}

#[test]
fn staging_same_content_twice_changes_nothing() {
    let mut ix = IndexFile::new();
    let d = digest_of("ce013625030ba8dba906f756967f9e9ca394464a");
    ix.stage("hello.txt".to_string(), d);
    ix.stage("other.txt".to_string(), digest_of("e69de29bb2d1d6434b8b29ae775ad8c2e48c5391"));
    let before: Vec<(String, [u8; 20])> =
        ix.entries().iter().map(|e| (e.path.clone(), e.sha1)).collect();
    ix.stage("hello.txt".to_string(), d);
    let after: Vec<(String, [u8; 20])> =
        ix.entries().iter().map(|e| (e.path.clone(), e.sha1)).collect();
    assert_eq!(before, after);
    assert_eq!(after.len(), 2);
}

#[test]
fn restaging_changed_content_replaces_the_entry() {
    let mut ix = IndexFile::new();
    ix.stage("f".to_string(), digest_of("ce013625030ba8dba906f756967f9e9ca394464a"));
    ix.stage("f".to_string(), digest_of("e69de29bb2d1d6434b8b29ae775ad8c2e48c5391"));
    assert_eq!(ix.entries().len(), 1);
    assert_eq!(digest_hex(&ix.entries()[0].sha1), "e69de29bb2d1d6434b8b29ae775ad8c2e48c5391");
}

#[test]
fn index_record_is_bincode_of_tuples() {
    let mut ix = IndexFile::new();
    let d = digest_of("56a6051ca2b02b04ef92d5150c9ef600403cb1de");
    ix.stage("a.txt".to_string(), d);
    let bytes = ix.to_bytes();
    let mut expected = vec![1u8, 0xfc, 0x24, 0x89, 0x01, 0x00];
    expected.extend_from_slice(&d);
    expected.push(5);
    expected.extend_from_slice(b"a.txt");
    assert_eq!(bytes, expected);
}

#[test]
fn index_record_loads_back() {
    let mut ix = IndexFile::new();
    ix.stage("b".to_string(), digest_of("d8263ee9860594d2806b0dfd1bfd17528b0ba2a4"));
    ix.stage("a".to_string(), digest_of("56a6051ca2b02b04ef92d5150c9ef600403cb1de"));
    let loaded = IndexFile::load(&ix.to_bytes()).unwrap();
    assert_eq!(loaded.entries().len(), 2);
    for (x, y) in loaded.entries().iter().zip(ix.entries().iter()) {
        assert_eq!(x.path, y.path);
        assert_eq!(x.sha1, y.sha1);
        assert_eq!(x.mode, y.mode);
    }
    assert!(IndexFile::load(b"").unwrap().entries().is_empty());
}

#[test]
fn corrupt_index_bytes_are_refused() {
    assert!(matches!(IndexFile::load(b"\xff\xff\xff"), Err(RepoError::CorruptIndex)));
    assert!(matches!(IndexFile::load(&[5u8, 1, 2]), Err(RepoError::CorruptIndex)));
    let d = digest_of("56a6051ca2b02b04ef92d5150c9ef600403cb1de");
    let mut unsorted = vec![2u8];
    for name in [b"b", b"a"] {
        unsorted.extend_from_slice(&[0xfc, 0x24, 0x89, 0x01, 0x00]);
        unsorted.extend_from_slice(&d);
        unsorted.push(1);
        unsorted.extend_from_slice(name);
    }
    assert!(matches!(IndexFile::load(&unsorted), Err(RepoError::CorruptIndex)));
}

#[test]
fn entry_order_is_mode_then_digest_then_path() {
    let lo = digest_of("0000000000000000000000000000000000000001");
    let hi = digest_of("0000000000000000000000000000000000000002");
    let e = |mode: u32, sha1: [u8; 20], path: &str| IndexEntry { mode, sha1, path: path.to_string() };
    assert!(entry_less(&e(1, hi, "z"), &e(2, lo, "a")));
    assert!(entry_less(&e(5, lo, "z"), &e(5, hi, "a")));
    assert!(entry_less(&e(5, lo, "a"), &e(5, lo, "b")));
    assert!(!entry_less(&e(5, lo, "a"), &e(5, lo, "a")));
}

#[test]
fn byte_order_and_equality() {
    assert!(bytes_less(b"ab", b"b"));
    assert!(bytes_less(b"ab", b"abc"));
    assert!(!bytes_less(b"abc", b"ab"));
    assert!(!bytes_less(b"", b""));
    assert!(bytes_equal(b"xy", b"xy"));
    assert!(!bytes_equal(b"xy", b"xz"));
}

#[test]
fn decimal_numerals() {
    let mut v = Vec::new();
    push_decimal(&mut v, 0);
    push_decimal(&mut v, 100644);
    assert_eq!(v, b"0100644".to_vec());
    let mut w = Vec::new();
    push_signed_decimal(&mut w, i64::MIN);
    assert_eq!(w, b"-9223372036854775808".to_vec());
    let mut t = Vec::new();
    push_two_digits(&mut t, 7);
    assert_eq!(t, b"07".to_vec());
    assert_eq!(parse_u32_decimal(b"x100644 ", 1, 7), Some(100644));
    assert_eq!(parse_u32_decimal(b"4294967295", 0, 10), Some(u32::MAX));
    assert_eq!(parse_u32_decimal(b"4294967296", 0, 10), None);
    assert_eq!(parse_u32_decimal(b"12a", 0, 3), None);
    assert_eq!(parse_u32_decimal(b"", 0, 0), None);
}

#[test]
fn trailing_newlines_are_trimmed() {
    assert_eq!(trim_trailing_newlines("msg\n\n"), "msg");
    assert_eq!(trim_trailing_newlines("a\nb"), "a\nb");
    assert_eq!(trim_trailing_newlines("\n"), "");
    assert_eq!(trim_trailing_newlines("é\n"), "é");
}
