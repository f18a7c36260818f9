//! The repository façade: where things live under the root, and the
//! decisions of each operation. The filesystem itself is read and written by
//! the caller, who passes in what it found (whether the root exists, the
//! bytes of a file) and performs the writes handed back.
use crate::address::{digest_hex, hex_lower, is_valid_address, valid_address};
use crate::digest::{decompress_content, inflated, sha1_of, zlib_of};
use crate::error::RepoError;
use crate::index::{decoded_index, index_record, staged, IndexFile, INDEX_RECORD_BOUND};
use crate::layout::{extend_bytes, framed, ObjectKind};
use crate::object::{
    blob_layout, commit_body, decode_object, lemma_blob_round_trip, optional_digest, parent_view,
    parse_object, tree_layout, BlobObject, CommitObject, GitObjects, ObjectView, TreeObject,
};
use vstd::prelude::*;
use vstd::string::{StringExecFns, StringSliceAdditionalSpecFns};
use vstd::utf8::encode_utf8;

verus! {

/// A path below a directory.
pub open spec fn join(dir: Seq<char>, name: Seq<char>) -> Seq<char> {
    dir + seq!['/'] + name
}

/// The shard directory of an address: named by its first two characters.
pub open spec fn shard_path(objects_dir: Seq<char>, address: Seq<char>) -> Seq<char> {
    join(objects_dir, address.take(2))
}

/// The file of an address: named by its last 38 characters, in its shard.
pub open spec fn object_path(objects_dir: Seq<char>, address: Seq<char>) -> Seq<char> {
    join(shard_path(objects_dir, address), address.skip(2))
}

/// Joins a name to a directory.
fn join_path(dir: &str, name: &str) -> (r: String)
    ensures
        r@ == join(dir@, name@),
{
    let mut r = dir.to_owned();
    r.append("/");
    r.append(name);
    proof {
        reveal_strlit("/");
    }
    assert(r@ =~= join(dir@, name@));
    r
}

/// The paths under which a repository keeps its parts.
pub struct Repository {
    pub objects_dir: String,
    pub mini_git_dir: String,
    pub index_file: String,
}

/// The write that stores an object: its digest and address, the shard
/// directory to create if absent, the file to write and the bytes.
pub struct ObjectWrite {
    pub digest: [u8; 20],
    pub address: String,
    pub shard_dir: String,
    pub object_file: String,
    pub compressed: Vec<u8>,
}

/// What to store.
pub enum GitObjectsArgs<'a> {
    /// A blob of this text.
    Blob(String),
    /// A tree of the entries of this index.
    Tree(&'a IndexFile),
    /// A commit of this tree address, with this parent if any, stamped with
    /// this Unix time and this zone offset in seconds east of UTC.
    Commit {
        message: String,
        tree_hash: String,
        parent_hash: Option<[u8; 20]>,
        timestamp: i64,
        offset_secs: i32,
    },
}

/// The result of staging a file: the blob to store, the new index and the
/// bytes of the new index file.
pub struct IndexUpdate {
    pub blob: ObjectWrite,
    pub index: IndexFile,
    pub index_bytes: Vec<u8>,
}

/// A file to create, with its contents.
pub struct PendingFile {
    pub path: String,
    pub contents: Vec<u8>,
}

/// What setting up a repository takes: whether it existed already, the
/// directories to create (with their parents, keeping those that exist)
/// and the files to create.
pub struct InitPlan {
    pub reinitialized: bool,
    pub directories: Vec<String>,
    pub files: Vec<PendingFile>,
}

impl Repository {
    /// The repository whose root is `.mini-git` in `work_dir`.
    pub fn new(work_dir: &str) -> (r: Repository)
        ensures
            r.mini_git_dir@ == join(work_dir@, ".mini-git"@),
            r.objects_dir@ == join(r.mini_git_dir@, "objects"@),
            r.index_file@ == join(r.mini_git_dir@, "index"@),
    {
        let mini_git_dir = join_path(work_dir, ".mini-git");
        let objects_dir = join_path(mini_git_dir.as_str(), "objects");
        let index_file = join_path(mini_git_dir.as_str(), "index");
        Repository { objects_dir, mini_git_dir, index_file }
    }

    /// `w` stores the object whose layout is `layout`, under its address.
    pub open spec fn writes(&self, w: ObjectWrite, layout: Seq<u8>) -> bool {
        &&& w.digest@ == sha1_of(layout)
        &&& w.compressed@ == zlib_of(layout)
        &&& w.address@ == hex_lower(w.digest@)
        &&& w.shard_dir@ == shard_path(self.objects_dir@, w.address@)
        &&& w.object_file@ == object_path(self.objects_dir@, w.address@)
    }

    /// `w` stores the commit of this tree, parent, stamp and message.
    pub open spec fn commit_written(
        &self,
        w: ObjectWrite,
        tree_hex: Seq<char>,
        parent: Option<Seq<u8>>,
        timestamp: int,
        offset: int,
        message: Seq<char>,
    ) -> bool {
        self.writes(
            w,
            framed(ObjectKind::Commit, commit_body(tree_hex, parent, timestamp, offset, message)),
        )
    }

    /// The file of an address; `InvalidAddress` unless it is exactly 40
    /// hexadecimal characters.
    pub fn get_object_path(&self, hash_str: &str) -> (r: Result<String, RepoError>)
        ensures
            valid_address(hash_str@) ==> (r matches Ok(p) && p@ == object_path(
                self.objects_dir@,
                hash_str@,
            )),
            !valid_address(hash_str@) ==> (r matches Err(RepoError::InvalidAddress(a)) && a@
                == hash_str@),
    {
        if !is_valid_address(hash_str) {
            return Err(RepoError::InvalidAddress(hash_str.to_owned()));
        }
        let (_, file) = self.locate(hash_str);
        Ok(file)
    }

    /// The shard directory and the file of a valid address.
    fn locate(&self, address: &str) -> (r: (String, String))
        requires
            valid_address(address@),
        ensures
            r.0@ == shard_path(self.objects_dir@, address@),
            r.1@ == object_path(self.objects_dir@, address@),
    {
        let shard = join_path(self.objects_dir.as_str(), address.substring_char(0, 2));
        let file = join_path(shard.as_str(), address.substring_char(2, 40));
        assert(address@.subrange(0, 2) =~= address@.take(2));
        assert(address@.subrange(2, 40) =~= address@.skip(2));
        (shard, file)
    }

    /// The write for an object of digest `digest` and compressed form
    /// `compressed`.
    fn placed(&self, digest: [u8; 20], compressed: Vec<u8>) -> (w: ObjectWrite)
        ensures
            w.digest == digest,
            w.compressed == compressed,
            w.address@ == hex_lower(digest@),
            w.shard_dir@ == shard_path(self.objects_dir@, w.address@),
            w.object_file@ == object_path(self.objects_dir@, w.address@),
    {
        let address = digest_hex(&digest);
        let (shard_dir, object_file) = self.locate(address.as_str());
        ObjectWrite { digest, address, shard_dir, object_file, compressed }
    }

    /// Builds an object and the write that stores it. `initialized` tells
    /// whether the objects directory exists: if not, nothing is built.
    pub fn write_object(&self, initialized: bool, object_args: &GitObjectsArgs) -> (r: Result<
        ObjectWrite,
        RepoError,
    >)
        requires
            object_args matches GitObjectsArgs::Commit { offset_secs, .. } ==> -86400
                < *offset_secs < 86400,
        ensures
            !initialized ==> r matches Err(RepoError::RepositoryNotInitialized),
            initialized ==> r is Ok,
            r matches Ok(w) ==> match object_args {
                GitObjectsArgs::Blob(data) => self.writes(w, blob_layout(data@)),
                GitObjectsArgs::Tree(index) => self.writes(w, tree_layout(index@)),
                GitObjectsArgs::Commit {
                    message,
                    tree_hash,
                    parent_hash,
                    timestamp,
                    offset_secs,
                } => self.commit_written(
                    w,
                    tree_hash@,
                    optional_digest(*parent_hash),
                    *timestamp as int,
                    *offset_secs as int,
                    message@,
                ),
            },
    {
        if !initialized {
            return Err(RepoError::RepositoryNotInitialized);
        }
        match object_args {
            GitObjectsArgs::Blob(data) => {
                let blob = BlobObject::new(data.as_str())?;
                Ok(self.placed(blob.hash, blob.compressed_content))
            },
            GitObjectsArgs::Tree(index) => {
                let tree = TreeObject::new(index.entries().as_slice())?;
                Ok(self.placed(tree.hash, tree.compressed_content))
            },
            GitObjectsArgs::Commit { message, tree_hash, parent_hash, timestamp, offset_secs } => {
                let parent = parent_hash.as_ref();
                let commit = CommitObject::new(
                    message.as_str(),
                    tree_hash.as_str(),
                    parent,
                    *timestamp,
                    *offset_secs,
                )?;
                assert(parent_view(parent) == optional_digest(*parent_hash));
                Ok(self.placed(commit.hash, commit.compressed_content))
            },
        }
    }
}

/// How a read of the stored bytes `compressed`, whose decompressed layout
/// is `layout`, comes out: the decoded object, with the layout's digest and
/// the stored bytes, or `CorruptObject`.
pub open spec fn decodes_to(
    r: Result<GitObjects, RepoError>,
    layout: Seq<u8>,
    compressed: Seq<u8>,
) -> bool {
    match decode_object(layout) {
        Some(v) => r matches Ok(o) && o.content() == v && o.digest() == sha1_of(layout)
            && o.compressed() == compressed,
        None => r matches Err(RepoError::CorruptObject),
    }
}

/// The directories that setting up a repository rooted at `root` creates.
pub open spec fn init_directories(root: Seq<char>) -> Seq<Seq<char>> {
    seq![
        join(root, "objects"@),
        join(join(root, "refs"@), "heads"@),
        join(join(root, "refs"@), "tags"@),
    ]
}

/// The files that setting up a repository creates, leaving alone those
/// that exist: `HEAD` pointing at the main branch, and an empty index.
pub open spec fn init_files(
    root: Seq<char>,
    index_file: Seq<char>,
    head_exists: bool,
    index_exists: bool,
) -> Seq<(Seq<char>, Seq<u8>)> {
    (if head_exists {
        Seq::empty()
    } else {
        seq![(join(root, "HEAD"@), "ref: refs/heads/main\n".spec_bytes())]
    }) + (if index_exists {
        Seq::empty()
    } else {
        seq![(index_file, Seq::<u8>::empty())]
    })
}

impl Repository {
    /// Reads an object back from the bytes stored under its address.
    /// `initialized` tells whether the objects directory exists; `stored`
    /// holds the bytes of the address's file, `None` if there is no such
    /// file.
    pub fn read_object(&self, initialized: bool, object_hash_str: &str, stored: Option<&[u8]>) -> (r:
        Result<GitObjects, RepoError>)
        ensures
            !initialized ==> r matches Err(RepoError::RepositoryNotInitialized),
            initialized && !valid_address(object_hash_str@) ==> (r matches Err(
                RepoError::InvalidAddress(a),
            ) && a@ == object_hash_str@),
            initialized && valid_address(object_hash_str@) && stored is None ==> (r matches Err(
                RepoError::ObjectNotFound(a),
            ) && a@ == object_hash_str@),
            initialized && valid_address(object_hash_str@) && stored is Some ==> (r is Ok
                || r matches Err(RepoError::CorruptObject)),
            initialized && valid_address(object_hash_str@) ==> (stored matches Some(b)
                ==> match inflated(b@) {
                Some(x) => decodes_to(r, x, b@),
                None => r matches Err(RepoError::CorruptObject),
            }),
            initialized && valid_address(object_hash_str@) ==> (stored matches Some(b)
                ==> forall|x: Seq<u8>| #[trigger] zlib_of(x) == b@ ==> decodes_to(r, x, b@)),
    {
        if !initialized {
            return Err(RepoError::RepositoryNotInitialized);
        }
        if !is_valid_address(object_hash_str) {
            return Err(RepoError::InvalidAddress(object_hash_str.to_owned()));
        }
        match stored {
            None => Err(RepoError::ObjectNotFound(object_hash_str.to_owned())),
            Some(b) => match decompress_content(b) {
                Ok(d) => parse_object(d.as_slice(), b),
                Err(_) => Err(RepoError::CorruptObject),
            },
        }
    }

    /// Builds the tree of the index's entries and the write that stores it.
    pub fn write_tree(&self, initialized: bool, index: &IndexFile) -> (r: Result<
        ObjectWrite,
        RepoError,
    >)
        ensures
            !initialized ==> r matches Err(RepoError::RepositoryNotInitialized),
            initialized ==> r is Ok,
            r matches Ok(w) ==> self.writes(w, tree_layout(index@)),
    {
        self.write_object(initialized, &GitObjectsArgs::Tree(index))
    }

    /// Builds a commit of `tree_hash`, with `parent_hash` as parent if given,
    /// stamped with the Unix time `timestamp` and the zone `offset_secs`
    /// seconds east of UTC, and the write that stores it. `tree_exists` and
    /// `parent_exists` tell whether an object is stored under the tree's
    /// address and under the parent's. Every check comes before anything is
    /// built.
    pub fn commit_tree(
        &self,
        initialized: bool,
        message: String,
        tree_hash: String,
        parent_hash: Option<[u8; 20]>,
        tree_exists: bool,
        parent_exists: bool,
        timestamp: i64,
        offset_secs: i32,
    ) -> (r: Result<ObjectWrite, RepoError>)
        requires
            -86400 < offset_secs < 86400,
        ensures
            !initialized ==> r matches Err(RepoError::RepositoryNotInitialized),
            initialized && !valid_address(tree_hash@) ==> (r matches Err(
                RepoError::InvalidAddress(a),
            ) && a@ == tree_hash@),
            initialized && valid_address(tree_hash@) && !tree_exists ==> (r matches Err(
                RepoError::InvalidReference(a),
            ) && a@ == tree_hash@),
            initialized && valid_address(tree_hash@) && tree_exists && !parent_exists
                ==> (parent_hash matches Some(p) ==> (r matches Err(RepoError::InvalidReference(a))
                && a@ == hex_lower(p@))),
            initialized && valid_address(tree_hash@) && tree_exists && (parent_hash is None
                || parent_exists) ==> r is Ok,
            r matches Ok(w) ==> self.commit_written(
                w,
                tree_hash@,
                optional_digest(parent_hash),
                timestamp as int,
                offset_secs as int,
                message@,
            ),
    {
        if !initialized {
            return Err(RepoError::RepositoryNotInitialized);
        }
        if !is_valid_address(tree_hash.as_str()) {
            return Err(RepoError::InvalidAddress(tree_hash));
        }
        if !tree_exists {
            return Err(RepoError::InvalidReference(tree_hash));
        }
        match &parent_hash {
            Some(p) => {
                if !parent_exists {
                    return Err(RepoError::InvalidReference(digest_hex(p)));
                }
            },
            None => {},
        }
        self.write_object(
            initialized,
            &GitObjectsArgs::Commit { message, tree_hash, parent_hash, timestamp, offset_secs },
        )
    }

    /// Reads the index from the bytes of the index file. `initialized` tells
    /// whether the index file exists.
    pub fn read_index(&self, initialized: bool, index_data: &[u8]) -> (r: Result<
        IndexFile,
        RepoError,
    >)
        ensures
            !initialized ==> r matches Err(RepoError::RepositoryNotInitialized),
            initialized ==> match decoded_index(index_data@) {
                Some(s) => r matches Ok(ix) && ix@ == s,
                None => r matches Err(RepoError::CorruptIndex),
            },
            r matches Ok(ix) ==> ix.wf(),
    {
        if !initialized {
            return Err(RepoError::RepositoryNotInitialized);
        }
        IndexFile::load(index_data)
    }

    /// Stages the text `data` of the file `file_path`: the blob to store, and
    /// the index read from `index_data` with the blob's digest staged under
    /// the path. `initialized` tells whether the index file exists.
    pub fn add_to_index(
        &self,
        initialized: bool,
        file_path: String,
        data: String,
        index_data: &[u8],
    ) -> (r: Result<IndexUpdate, RepoError>)
        ensures
            !initialized ==> r matches Err(RepoError::RepositoryNotInitialized),
            initialized && decoded_index(index_data@) is None ==> r matches Err(
                RepoError::CorruptIndex,
            ),
            initialized && decoded_index(index_data@) is Some ==> r is Ok,
            r matches Ok(u) ==> {
                &&& self.writes(u.blob, blob_layout(data@))
                &&& u.index.wf()
                &&& decoded_index(index_data@) matches Some(s) && u.index@ == staged(
                    s,
                    encode_utf8(file_path@),
                    u.blob.digest@,
                )
                &&& u.index_bytes@ == index_record(u.index@)
                &&& u.index_bytes@.len() < INDEX_RECORD_BOUND ==> decoded_index(u.index_bytes@)
                    == Some(u.index@)
            },
    {
        let mut index = self.read_index(initialized, index_data)?;
        let blob = self.write_object(initialized, &GitObjectsArgs::Blob(data))?;
        index.stage(file_path, blob.digest);
        let index_bytes = index.to_bytes();
        Ok(IndexUpdate { blob, index, index_bytes })
    }

    /// What setting up the repository takes, given whether its root, its
    /// `HEAD` file and its index file exist already.
    pub fn init(&self, root_exists: bool, head_exists: bool, index_exists: bool) -> (r: InitPlan)
        ensures
            r.reinitialized == root_exists,
            r.directories@.map_values(|d: String| d@) == init_directories(self.mini_git_dir@),
            r.files@.map_values(|f: PendingFile| (f.path@, f.contents@)) == init_files(
                self.mini_git_dir@,
                self.index_file@,
                head_exists,
                index_exists,
            ),
    {
        let root = self.mini_git_dir.as_str();
        let refs = join_path(root, "refs");
        let mut directories: Vec<String> = Vec::new();
        directories.push(join_path(root, "objects"));
        directories.push(join_path(refs.as_str(), "heads"));
        directories.push(join_path(refs.as_str(), "tags"));
        let mut files: Vec<PendingFile> = Vec::new();
        if !head_exists {
            let mut contents: Vec<u8> = Vec::new();
            extend_bytes(&mut contents, "ref: refs/heads/main\n".as_bytes());
            files.push(PendingFile { path: join_path(root, "HEAD"), contents });
        }
        if !index_exists {
            files.push(PendingFile { path: self.index_file.clone(), contents: Vec::new() });
        }
        assert(directories@.map_values(|d: String| d@) =~= init_directories(self.mini_git_dir@));
        assert(files@.map_values(|f: PendingFile| (f.path@, f.contents@)) =~= init_files(
            self.mini_git_dir@,
            self.index_file@,
            head_exists,
            index_exists,
        ));
        InitPlan { reinitialized: root_exists, directories, files }
    }
}

/// What is stored for a blob reads back as that blob: a read whose stored
/// bytes are the compressed layout of a blob of `c` gives a blob of `c`.
pub proof fn lemma_blob_store_round_trip(c: Seq<char>, r: Result<GitObjects, RepoError>)
    requires
        decodes_to(r, blob_layout(c), zlib_of(blob_layout(c))),
    ensures
        r matches Ok(o) && o.content() == ObjectView::Blob(c),
{
    lemma_blob_round_trip(c);
}

} // verus!
