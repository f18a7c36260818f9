use mini_git::address::digest_hex;
use mini_git::error::RepoError;
use mini_git::index::IndexFile;
use mini_git::object::GitObjects;
use mini_git::repository::{GitObjectsArgs, ObjectWrite, Repository};
use std::io::Write;

fn repo() -> Repository {
    Repository::new("/work")
}

fn store_blob(r: &Repository, text: &str) -> ObjectWrite {
    r.write_object(true, &GitObjectsArgs::Blob(text.to_string())).unwrap()
}

#[test]
fn repository_paths() {
    let r = repo();
    assert_eq!(r.mini_git_dir, "/work/.mini-git");
    assert_eq!(r.objects_dir, "/work/.mini-git/objects");
    assert_eq!(r.index_file, "/work/.mini-git/index");
    assert_eq!(
        r.get_object_path("ce013625030ba8dba906f756967f9e9ca394464a").unwrap(),
        "/work/.mini-git/objects/ce/013625030ba8dba906f756967f9e9ca394464a"
    );
    assert!(matches!(r.get_object_path("abc"), Err(RepoError::InvalidAddress(a)) if a == "abc"));
}

#[test]
fn blob_write_is_sharded_by_address() {
    let r = repo();
    let w = store_blob(&r, "hello\n");
    assert_eq!(w.address, "ce013625030ba8dba906f756967f9e9ca394464a");
    assert_eq!(digest_hex(&w.digest), w.address);
    assert_eq!(w.shard_dir, "/work/.mini-git/objects/ce");
    assert_eq!(w.object_file, "/work/.mini-git/objects/ce/013625030ba8dba906f756967f9e9ca394464a");
}

fn round_trip(text: &str) {
    let r = repo();
    let w = store_blob(&r, text);
    match r.read_object(true, &w.address, Some(&w.compressed)).unwrap() {
        GitObjects::Blob(b) => {
            assert_eq!(b.raw_content, text);
            assert_eq!(b.hash, w.digest);
        }
        _ => panic!("expected a blob"),
    }
}

#[test]
fn blob_store_round_trip() {
    round_trip("hello\n");
    round_trip("");
    round_trip("a\0b\0\0 c\n");
    round_trip("blob 3\0xyz");
}

#[test]
fn get_validates_address_then_presence() {
    let r = repo();
    assert!(matches!(
        r.read_object(true, "not-40-hex", None),
        Err(RepoError::InvalidAddress(a)) if a == "not-40-hex"
    ));
    let absent = "0123456789abcdef0123456789abcdef01234567";
    assert!(matches!(
        r.read_object(true, absent, None),
        Err(RepoError::ObjectNotFound(a)) if a == absent
    ));
}

#[test]
fn uninitialized_repository_refuses_everything() {
    let r = repo();
    assert!(matches!(
        r.write_object(false, &GitObjectsArgs::Blob("x".to_string())),
        Err(RepoError::RepositoryNotInitialized)
    ));
    assert!(matches!(
        r.read_object(false, "not-40-hex", None),
        Err(RepoError::RepositoryNotInitialized)
    ));
    assert!(matches!(r.read_index(false, b""), Err(RepoError::RepositoryNotInitialized)));
    assert!(matches!(
        r.add_to_index(false, "f".to_string(), "x".to_string(), b""),
        Err(RepoError::RepositoryNotInitialized)
    ));
    assert!(matches!(
        r.write_tree(false, &IndexFile::new()),
        Err(RepoError::RepositoryNotInitialized)
    ));
    assert!(matches!(
        r.commit_tree(false, "m".to_string(), "x".to_string(), None, true, true, 1700000000, 3600),
        Err(RepoError::RepositoryNotInitialized)
    ));
}

#[test]
fn corrupt_stored_bytes_are_reported() {
    let r = repo();
    let addr = "0123456789abcdef0123456789abcdef01234567";
    assert!(matches!(
        r.read_object(true, addr, Some(b"not zlib at all")),
        Err(RepoError::CorruptObject)
    ));
    let mut e = flate2::write::ZlibEncoder::new(Vec::new(), flate2::Compression::default());
    e.write_all(b"tree 25\0100644 a\0short").unwrap();
    let truncated_tree = e.finish().unwrap();
    let whole = store_blob(&r, "some text that is long enough to matter").compressed;
    assert!(matches!(
        r.read_object(true, addr, Some(&whole[..whole.len() / 2])),
        Err(RepoError::CorruptObject)
    ));
    assert!(matches!(
        r.read_object(true, addr, Some(&truncated_tree)),
        Err(RepoError::CorruptObject)
    ));
}

#[test]
fn staging_two_files_then_writing_the_tree() {
    let r = repo();
    let u1 = r.add_to_index(true, "a.txt".to_string(), "1".to_string(), b"").unwrap();
    let u2 = r
        .add_to_index(true, "b.txt".to_string(), "2".to_string(), &u1.index_bytes)
        .unwrap();
    assert_eq!(u1.blob.address, "56a6051ca2b02b04ef92d5150c9ef600403cb1de");
    assert_eq!(u2.blob.address, "d8263ee9860594d2806b0dfd1bfd17528b0ba2a4");
    let ix = r.read_index(true, &u2.index_bytes).unwrap();
    let paths: Vec<&str> = ix.entries().iter().map(|e| e.path.as_str()).collect();
    assert_eq!(paths, vec!["a.txt", "b.txt"]);
    let t1 = r.write_tree(true, &ix).unwrap();
    let again = r.read_index(true, &u2.index_bytes).unwrap();
    let t2 = r.write_tree(true, &again).unwrap();
    assert_eq!(t1.address, t2.address);
    assert_eq!(t1.address, "5b5fdeea9d8081facebb01e904a94d0a9144c7ca");
    match r.read_object(true, &t1.address, Some(&t1.compressed)).unwrap() {
        GitObjects::Tree(t) => {
            let entries = mini_git::tree::parse_tree_entries(&t.raw_content).unwrap();
            assert_eq!(entries[0].path, "a.txt");
            assert_eq!(entries[1].path, "b.txt");
        }
        _ => panic!("expected a tree"),
    }
}

#[test]
fn restaging_unchanged_file_keeps_index() {
    let r = repo();
    let u1 = r.add_to_index(true, "a.txt".to_string(), "1".to_string(), b"").unwrap();
    let u2 = r.add_to_index(true, "a.txt".to_string(), "1".to_string(), &u1.index_bytes).unwrap();
    assert_eq!(u1.index_bytes, u2.index_bytes);
    assert_eq!(u2.index.entries().len(), 1);
}

#[test]
fn staging_over_a_corrupt_index_fails() {
    let r = repo();
    assert!(matches!(
        r.add_to_index(true, "a".to_string(), "1".to_string(), b"\xff"),
        Err(RepoError::CorruptIndex)
    ));
}

#[test]
fn commit_tree_checks_references_first() {
    let r = repo();
    let tree = "5b5fdeea9d8081facebb01e904a94d0a9144c7ca";
    assert!(matches!(
        r.commit_tree(true, "m".to_string(), tree.to_string(), None, false, true, 1700000000, 3600),
        Err(RepoError::InvalidReference(a)) if a == tree
    ));
    assert!(matches!(
        r.commit_tree(true, "m".to_string(), "short".to_string(), None, true, true, 1700000000, 3600),
        Err(RepoError::InvalidAddress(_))
    ));
    let parent = mini_git::address::parse_digest("ce013625030ba8dba906f756967f9e9ca394464a");
    assert!(matches!(
        r.commit_tree(true, "m".to_string(), tree.to_string(), parent, true, false, 1700000000, 3600),
        Err(RepoError::InvalidReference(a)) if a == "ce013625030ba8dba906f756967f9e9ca394464a"
    ));
    let w = r.commit_tree(true, "m".to_string(), tree.to_string(), parent, true, true, 1700000000, 3600).unwrap();
    match r.read_object(true, &w.address, Some(&w.compressed)).unwrap() {
        GitObjects::Commit(c) => {
            let text = String::from_utf8(c.raw_content).unwrap();
            assert!(text.starts_with(&format!(
                "tree {tree}\nparent ce013625030ba8dba906f756967f9e9ca394464a\nauthor "
            )));
            assert!(text.contains(" 1700000000 +0100\ncommitter "));
            assert!(text.ends_with("\n\nm"));
        }
        _ => panic!("expected a commit"),
    }
}

#[test]
fn init_plans_layout_and_skips_existing_files() {
    let r = repo();
    let fresh = r.init(false, false, false);
    assert!(!fresh.reinitialized);
    assert_eq!(
        fresh.directories,
        vec![
            "/work/.mini-git/objects".to_string(),
            "/work/.mini-git/refs/heads".to_string(),
            "/work/.mini-git/refs/tags".to_string(),
        ]
    );
    assert_eq!(fresh.files.len(), 2);
    assert_eq!(fresh.files[0].path, "/work/.mini-git/HEAD");
    assert_eq!(fresh.files[0].contents, b"ref: refs/heads/main\n".to_vec());
    assert_eq!(fresh.files[1].path, "/work/.mini-git/index");
    assert!(fresh.files[1].contents.is_empty());
    let again = r.init(true, true, true);
    assert!(again.reinitialized);
    assert!(again.files.is_empty());
    assert_eq!(again.directories.len(), 3);
}
