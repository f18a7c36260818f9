use mini_git::address::{digest_hex, is_valid_address, parse_digest};
use mini_git::error::RepoError;
use mini_git::index::{IndexEntry, REGULAR_FILE_MODE};
use mini_git::layout::{frame, kind_name, read_header, ObjectKind};
use mini_git::object::{parse_object, BlobObject, CommitObject, GitObjects, TreeObject};
use mini_git::tree::{parse_tree_entries, tree_body_bytes};
use std::io::Write;

fn zlib(bytes: &[u8]) -> Vec<u8> {
    let mut e = flate2::write::ZlibEncoder::new(Vec::new(), flate2::Compression::default());
    e.write_all(bytes).unwrap();
    e.finish().unwrap()
}

fn unzlib(bytes: &[u8]) -> Vec<u8> {
    let mut d = flate2::write::ZlibDecoder::new(Vec::new());
    d.write_all(bytes).unwrap();
    d.finish().unwrap()
}

fn digest_of(hex: &str) -> [u8; 20] {
    parse_digest(hex).unwrap()
}

#[test]
fn blob_hello_has_reference_digest() {
    let blob = BlobObject::new("hello\n").unwrap();
    assert_eq!(digest_hex(&blob.hash), "ce013625030ba8dba906f756967f9e9ca394464a");
    assert_eq!(blob.raw_content, "hello\n");
    assert_eq!(unzlib(&blob.compressed_content), b"blob 6\0hello\n".to_vec());
}

#[test]
fn blob_digest_is_stable_across_calls() {
    let a = BlobObject::new("some content").unwrap();
    let b = BlobObject::new("some content").unwrap();
    assert_eq!(a.hash, b.hash);
    assert_ne!(a.hash, BlobObject::new("other content").unwrap().hash);
}

#[test]
fn empty_blob_digest() {
    let blob = BlobObject::new("").unwrap();
    assert_eq!(digest_hex(&blob.hash), "e69de29bb2d1d6434b8b29ae775ad8c2e48c5391");
}

#[test]
fn frame_lays_out_header_and_body() {
    assert_eq!(frame(ObjectKind::Blob, b"abc"), b"blob 3\0abc".to_vec());
    assert_eq!(frame(ObjectKind::Tree, b""), b"tree 0\0".to_vec());
    let body = vec![7u8; 123];
    let mut expected = b"commit 123\0".to_vec();
    expected.extend_from_slice(&body);
    assert_eq!(frame(ObjectKind::Commit, &body), expected);
    assert_eq!(kind_name(ObjectKind::Commit), "commit");
}

#[test]
fn read_header_finds_kind_and_body() {
    assert_eq!(read_header(b"blob 3\0abc"), Some((ObjectKind::Blob, 7)));
    assert_eq!(read_header(b"commit 0\0"), Some((ObjectKind::Commit, 9)));
    assert_eq!(read_header(b"blob 3 abc"), None);
    assert_eq!(read_header(b"blob3\0abc"), None);
    assert_eq!(read_header(b"tag 3\0abc"), None);
}

fn two_entries() -> Vec<IndexEntry> {
    vec![
        IndexEntry {
            mode: REGULAR_FILE_MODE,
            sha1: digest_of("56a6051ca2b02b04ef92d5150c9ef600403cb1de"),
            path: "a.txt".to_string(),
        },
        IndexEntry {
            mode: REGULAR_FILE_MODE,
            sha1: digest_of("d8263ee9860594d2806b0dfd1bfd17528b0ba2a4"),
            path: "b.txt".to_string(),
        },
    ]
}

#[test]
fn tree_body_layout_is_exact() {
    let entries = two_entries();
    let mut expected = b"100644 a.txt\0".to_vec();
    expected.extend_from_slice(&entries[0].sha1);
    expected.extend_from_slice(b"100644 b.txt\0");
    expected.extend_from_slice(&entries[1].sha1);
    assert_eq!(tree_body_bytes(&entries), expected);
    let tree = TreeObject::new(&entries).unwrap();
    assert_eq!(tree.raw_content, expected);
    assert_eq!(digest_hex(&tree.hash), "5b5fdeea9d8081facebb01e904a94d0a9144c7ca");
}

#[test]
fn tree_body_parses_back() {
    let entries = two_entries();
    let parsed = parse_tree_entries(&tree_body_bytes(&entries)).unwrap();
    assert_eq!(parsed.len(), 2);
    for (p, e) in parsed.iter().zip(entries.iter()) {
        assert_eq!(p.mode, e.mode);
        assert_eq!(p.sha1, e.sha1);
        assert_eq!(p.path, e.path);
    }
    assert!(parse_tree_entries(b"").unwrap().is_empty());
}

#[test]
fn truncated_tree_digest_is_corrupt() {
    let entries = two_entries();
    let body = tree_body_bytes(&entries);
    let cut = &body[..body.len() - 1];
    assert!(matches!(parse_tree_entries(cut), Err(RepoError::CorruptObject)));
    assert!(matches!(parse_tree_entries(b"100644a.txt"), Err(RepoError::CorruptObject)));
    assert!(matches!(parse_tree_entries(b"10x644 a\0"), Err(RepoError::CorruptObject)));
    assert!(matches!(parse_tree_entries(b"99999999999 a\0"), Err(RepoError::CorruptObject)));
}

#[test]
fn commit_layout_is_exact() {
    let tree = "4b825dc642cb6eb9a060e54bf8d69288fbee4904";
    let c = CommitObject::new("first", tree, None, 1700000000, -5400).unwrap();
    let expected = format!(
        "tree {tree}\nauthor Francis Eugene Casibu <email@example.com> 1700000000 -0130\n\
committer Francis Eugene Casibu <email@example.com> 1700000000 -0130\n\nfirst"
    );
    assert_eq!(String::from_utf8(c.raw_content.clone()).unwrap(), expected);
    assert_eq!(digest_hex(&c.hash), "8051125ef086edd2adb6422cca856df9e895cef8");
}

#[test]
fn commit_with_parent_and_east_offset() {
    let tree = "4b825dc642cb6eb9a060e54bf8d69288fbee4904";
    let parent = digest_of("CE013625030BA8DBA906F756967F9E9CA394464A");
    let c = CommitObject::new("msg", tree, Some(&parent), -5, 19800).unwrap();
    let text = String::from_utf8(c.raw_content).unwrap();
    assert_eq!(
        text,
        format!(
            "tree {tree}\nparent ce013625030ba8dba906f756967f9e9ca394464a\n\
author Francis Eugene Casibu <email@example.com> -5 +0530\n\
committer Francis Eugene Casibu <email@example.com> -5 +0530\n\nmsg"
        )
    );
}

#[test]
fn commit_compressed_form_is_its_layout() {
    let tree = "4b825dc642cb6eb9a060e54bf8d69288fbee4904";
    let c = CommitObject::new("now", tree, None, 1700000000, 0).unwrap();
    let text = String::from_utf8(c.raw_content.clone()).unwrap();
    assert!(text.contains(" 1700000000 +0000\n"));
    let mut layout = format!("commit {}\0", c.raw_content.len()).into_bytes();
    layout.extend_from_slice(&c.raw_content);
    assert_eq!(unzlib(&c.compressed_content), layout);
}

#[test]
fn empty_tree_has_reference_digest() {
    let tree = TreeObject::new(&[]).unwrap();
    assert!(tree.raw_content.is_empty());
    assert_eq!(digest_hex(&tree.hash), "4b825dc642cb6eb9a060e54bf8d69288fbee4904");
}

#[test]
fn parse_object_decodes_each_kind() {
    let layout = b"blob 5\0a\0b c".to_vec();
    let stored = zlib(&layout);
    match parse_object(&layout, &stored).unwrap() {
        GitObjects::Blob(b) => {
            assert_eq!(b.raw_content, "a\0b c");
            assert_eq!(b.compressed_content, stored);
        }
        _ => panic!("expected a blob"),
    }
    let o = parse_object(b"commit 2\0hi", b"x").unwrap();
    assert_eq!(o.kind(), ObjectKind::Commit);
    let body = tree_body_bytes(&two_entries());
    let tree_layout = frame(ObjectKind::Tree, &body);
    match parse_object(&tree_layout, b"y").unwrap() {
        GitObjects::Tree(t) => {
            assert_eq!(t.raw_content, body);
            assert_eq!(digest_hex(&t.hash), "5b5fdeea9d8081facebb01e904a94d0a9144c7ca");
        }
        _ => panic!("expected a tree"),
    }
}

#[test]
fn parse_object_rejects_bad_layouts() {
    assert!(matches!(parse_object(b"blob 3", b""), Err(RepoError::CorruptObject)));
    assert!(matches!(parse_object(b"nospace\0x", b""), Err(RepoError::CorruptObject)));
    assert!(matches!(parse_object(b"tag 1\0x", b""), Err(RepoError::CorruptObject)));
    assert!(matches!(parse_object(b"blob 2\0\xff\xfe", b""), Err(RepoError::CorruptObject)));
    assert!(matches!(parse_object(b"tree 3\0abc", b""), Err(RepoError::CorruptObject)));
}

#[test]
fn addresses_are_validated_and_decoded() {
    assert!(is_valid_address("ce013625030ba8dba906f756967f9e9ca394464a"));
    assert!(is_valid_address("CE013625030BA8DBA906F756967F9E9CA394464A"));
    assert!(!is_valid_address("not-40-hex"));
    assert!(!is_valid_address("ce013625030ba8dba906f756967f9e9ca394464g"));
    assert!(!is_valid_address("ce013625030ba8dba906f756967f9e9ca394464a0"));
    assert!(!is_valid_address(""));
    let d = parse_digest("00ff10a0000000000000000000000000000000ab").unwrap();
    assert_eq!(d[0], 0x00);
    assert_eq!(d[1], 0xff);
    assert_eq!(d[2], 0x10);
    assert_eq!(d[3], 0xa0);
    assert_eq!(d[19], 0xab);
    assert_eq!(digest_hex(&d), "00ff10a0000000000000000000000000000000ab");
    assert!(parse_digest("xyz").is_none());
}
