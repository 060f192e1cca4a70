//! Walks over directory trees: what is counted, refused, recorded and digested.

use vstd::prelude::*;
use vstd::string::*;
use crate::bounded::{
    at_end, copy_bounded_reader, copy_failed, copy_failure, digest_bounded_reader_with_tree,
    digest_bounded_stage_file, drained, gained, length_failure, read_up_to, reading_failure,
    tree_permitted, tree_reading, BoundedDigest, ByteSink, ByteSource, MAX_OWNED_FILE_BYTES,
    MAX_PURGE_BYTES,
};
use crate::digest::{absorbed, finish_hex, sha256_start, sha256_text, sha256_update, Sha256State};
use crate::error::{fail, failure, failure_text, or_else, Failure, ManagedResult};
use crate::guard::{directory_safe, validate_opened_directory, FileFacts};
use crate::layout::path_views;
use crate::lists::{lemma_filter_alike, lemma_filter_has};
use crate::order::{
    bytes_less, law_sorting_puts_in_order, lemma_sorted_map, lemma_sorting_keeps_items,
    lemma_sorting_keeps_members, location_key, sort_located, sorted_by, Keyed, SortOrder,
};
use crate::path::{absolute_normal_failure, require_absolute_normal, FsPath};
use crate::rescue::{byte_views, stage_file_key, MAX_PURGE_ENTRIES};
use crate::snapshot::{
    dir_key, dir_views, file_views, DirView, OwnedDirectory, OwnedStageFile, SnapshotView,
    StageFileView, StageSnapshot,
};

verus! {

/// The most directories that lie in one another.
pub const MAX_PURGE_DEPTH: usize = 64;

impl Keyed for Vec<u8> {
    open spec fn location(&self) -> Seq<u8> {
        self@
    }

    fn key_bytes(&self) -> (r: &[u8]) {
        self.as_slice()
    }
}

/// The names that stand for a directory itself and the one above it.
pub open spec fn dot_name(name: Seq<u8>) -> bool {
    name == seq![46u8] || name == seq![46u8, 46u8]
}

fn is_dot_name(name: &Vec<u8>) -> (r: bool)
    ensures
        r == dot_name(name@),
{
    if name.len() == 1 && name[0] == 46 {
        assert(name@ =~= seq![46u8]);
        return true;
    }
    if name.len() == 2 && name[0] == 46 && name[1] == 46 {
        assert(name@ =~= seq![46u8, 46u8]);
        return true;
    }
    false
}

/// The names of the entries of a directory.
pub open spec fn real_names(names: Seq<Seq<u8>>) -> Seq<Seq<u8>> {
    names.filter(|n: Seq<u8>| !dot_name(n))
}

/// The names of the entries of a directory, in order.
pub open spec fn ordered_names(names: Seq<Seq<u8>>) -> Seq<Seq<u8>> {
    sorted_by(SortOrder::ByBytes, real_names(names), crate::layout::itself())
}

/// Drops the names that stand for no entry and sorts the others.
fn order_names(names: Vec<Vec<u8>>) -> (r: Vec<Vec<u8>>)
    ensures
        byte_views(r@) == ordered_names(byte_views(names@)),
{
    let ghost views = byte_views(names@);
    let ghost keep = |n: Seq<u8>| !dot_name(n);
    let mut kept: Vec<Vec<u8>> = Vec::new();
    let mut i: usize = 0;
    proof {
        reveal(Seq::filter);
        assert(byte_views(kept@) =~= views.take(0).filter(keep));
    }
    while i < names.len()
        invariant
            i <= names.len(),
            views == byte_views(names@),
            keep == (|n: Seq<u8>| !dot_name(n)),
            byte_views(kept@) == views.take(i as int).filter(keep),
        decreases names.len() - i,
    {
        let ghost before = kept@;
        proof {
            crate::pi::lemma_filter_next(views, keep, i as int);
            assert(views[i as int] == names@[i as int]@);
        }
        if !is_dot_name(&names[i]) {
            kept.push(names[i].clone());
            assert(byte_views(kept@) =~= byte_views(before).push(views[i as int]));
        }
        i += 1;
    }
    assert(views.take(i as int) =~= views);
    proof {
        lemma_sorted_map(
            SortOrder::ByBytes,
            kept@,
            |n: Vec<u8>| n@,
            location_key::<Vec<u8>>(),
            crate::layout::itself(),
        );
    }
    sort_located(SortOrder::ByBytes, kept)
}

/// Counts the entries of a directory and gives their names in order, unless there
/// are too many in all.
fn admit_names(
    counted: usize,
    names: Vec<Vec<u8>>,
    code: &'static str,
    message: &str,
) -> (r: ManagedResult<Vec<Vec<u8>>>)
    ensures
        failure(r) == if counted + real_names(byte_views(names@)).len() > MAX_PURGE_ENTRIES {
            Some((code@, message@))
        } else {
            None
        },
        r is Ok ==> byte_views(r->Ok_0@) == ordered_names(byte_views(names@)) && r->Ok_0@.len()
            == real_names(byte_views(names@)).len(),
{
    let ghost named = real_names(byte_views(names@));
    let ordered = order_names(names);
    proof {
        crate::order::lemma_sorting_keeps_items(
            SortOrder::ByBytes,
            named,
            crate::layout::itself(),
        );
        assert(byte_views(ordered@).len() == ordered@.len());
    }
    if counted > MAX_PURGE_ENTRIES || ordered.len() > MAX_PURGE_ENTRIES - counted {
        return fail(code, message);
    }
    Ok(ordered)
}

/// A walk over a staged tree: what it has counted and recorded.
#[derive(Debug)]
pub struct StageWalkState {
    pub entries: usize,
    pub total_bytes: u64,
    pub directories: Vec<OwnedDirectory>,
    pub files: Vec<OwnedStageFile>,
}

/// A private directory of the user.
pub open spec fn stage_directory_safe(f: FileFacts, uid: u32) -> bool {
    f.is_dir && f.uid == uid && f.mode & 0o777u32 == 0o700
}

/// A private file of the user that is not too large.
pub open spec fn stage_file_safe(f: FileFacts, uid: u32) -> bool {
    f.is_file && f.uid == uid && f.nlink == 1 && (f.mode & 0o777u32 == 0o600 || f.mode & 0o777u32
        == 0o700) && f.len <= MAX_OWNED_FILE_BYTES
}

/// What an entry of a staged tree turned out to be.
#[derive(Clone, Copy, Debug, PartialEq, Eq, Structural)]
pub enum StageVisit {
    Directory,
    File,
}

/// What an entry of a staged tree is, or why the tree is refused.
pub open spec fn stage_visit(f: FileFacts, uid: u32, depth: usize) -> Result<StageVisit, Failure> {
    if f.is_dir {
        if depth >= MAX_PURGE_DEPTH || !stage_directory_safe(f, uid) {
            Err(
                (
                    "recovery_needed"@,
                    "transaction stage contains an unsafe or over-depth directory"@,
                ),
            )
        } else {
            Ok(StageVisit::Directory)
        }
    } else if stage_file_safe(f, uid) {
        Ok(StageVisit::File)
    } else {
        Err(("recovery_needed"@, "transaction stage contains an unsafe entry"@))
    }
}

impl StageWalkState {
    /// Begins a walk at its root.
    pub fn start(root: &FsPath, f: &FileFacts, uid: u32) -> (r: ManagedResult<StageWalkState>)
        ensures
            failure(r) == or_else(
                absolute_normal_failure(root@, "transaction stage root"@),
                if stage_directory_safe(*f, uid) {
                    None
                } else {
                    Some(
                        (
                            "recovery_needed"@,
                            "transaction stage contains an unsafe root directory"@,
                        ),
                    )
                },
            ),
            r is Ok ==> r->Ok_0.entries == 1 && r->Ok_0.total_bytes == 0 && dir_views(
                r->Ok_0.directories@,
            ) == seq![
                DirView { path: root@, device: f.device, inode: f.inode, mode: 0o700 },
            ] && r->Ok_0.files@.len() == 0,
    {
        match require_absolute_normal(root, "transaction stage root") {
            Ok(_) => {},
            Err(e) => {
                return Err(e);
            },
        }
        if !f.is_dir || f.uid != uid || f.mode & 0o777u32 != 0o700 {
            return fail("recovery_needed", "transaction stage contains an unsafe root directory");
        }
        let mut directories: Vec<OwnedDirectory> = Vec::new();
        directories.push(
            OwnedDirectory { path: root.copy(), device: f.device, inode: f.inode, mode: 0o700 },
        );
        assert(dir_views(directories@) =~= seq![
            DirView { path: root@, device: f.device, inode: f.inode, mode: 0o700 },
        ]);
        Ok(StageWalkState { entries: 1, total_bytes: 0, directories, files: Vec::new() })
    }

    /// Counts the entries of a directory and gives their names in order.
    pub fn enter(&mut self, names: Vec<Vec<u8>>) -> (r: ManagedResult<Vec<Vec<u8>>>)
        ensures
            failure(r) == if old(self).entries + real_names(byte_views(names@)).len()
                > MAX_PURGE_ENTRIES {
                Some(
                    (
                        "recovery_needed"@,
                        "transaction stage exceeds bounded traversal limits"@,
                    ),
                )
            } else {
                None
            },
            r is Ok ==> byte_views(r->Ok_0@) == ordered_names(byte_views(names@)) && final(
                self).entries == old(self).entries + r->Ok_0@.len(),
            final(self).directories == old(self).directories,
            final(self).files == old(self).files,
            final(self).total_bytes == old(self).total_bytes,
            r is Err ==> final(self).entries == old(self).entries,
    {
        let ordered = admit_names(
            self.entries,
            names,
            "recovery_needed",
            "transaction stage exceeds bounded traversal limits",
        )?;
        self.entries = self.entries + ordered.len();
        Ok(ordered)
    }

    /// Looks at an entry; a directory is recorded.
    pub fn visit(&mut self, path: &FsPath, f: &FileFacts, uid: u32, depth: usize) -> (r:
        ManagedResult<StageVisit>)
        ensures
            (match r {
                Ok(v) => Ok::<StageVisit, Failure>(v),
                Err(e) => Err(e@),
            }) == stage_visit(*f, uid, depth),
            dir_views(final(self).directories@) == if r is Ok && r->Ok_0 == StageVisit::Directory {
                dir_views(old(self).directories@).push(
                    DirView { path: path@, device: f.device, inode: f.inode, mode: 0o700 },
                )
            } else {
                dir_views(old(self).directories@)
            },
            final(self).files == old(self).files,
            final(self).entries == old(self).entries,
            final(self).total_bytes == old(self).total_bytes,
    {
        if f.is_dir {
            if depth >= MAX_PURGE_DEPTH || f.uid != uid || f.mode & 0o777u32 != 0o700 {
                return fail(
                    "recovery_needed",
                    "transaction stage contains an unsafe or over-depth directory",
                );
            }
            let ghost before = dir_views(self.directories@);
            self.directories.push(
                OwnedDirectory { path: path.copy(), device: f.device, inode: f.inode, mode: 0o700 },
            );
            assert(dir_views(self.directories@) =~= before.push(
                DirView { path: path@, device: f.device, inode: f.inode, mode: 0o700 },
            ));
            return Ok(StageVisit::Directory);
        }
        let permissions: u32 = f.mode & 0o777u32;
        if f.is_file && f.uid == uid && f.nlink == 1 && (permissions == 0o600 || permissions
            == 0o700) && f.len <= MAX_OWNED_FILE_BYTES {
            return Ok(StageVisit::File);
        }
        fail("recovery_needed", "transaction stage contains an unsafe entry")
    }

    /// Records a file once it has been read; it must have the length that was
    /// reported for it.
    pub fn record_file(&mut self, path: &FsPath, f: &FileFacts, digest: BoundedDigest) -> (r:
        ManagedResult<()>)
        ensures
            failure(r) == if digest.bytes != f.len {
                Some(
                    (
                        "recovery_needed"@,
                        "transaction stage file size changed while it was read"@,
                    ),
                )
            } else {
                None
            },
            file_views(final(self).files@) == if r is Ok {
                file_views(old(self).files@).push(
                    StageFileView {
                        path: path@,
                        device: f.device,
                        inode: f.inode,
                        mode: f.mode & 0o777u32,
                        sha256: digest.sha256@,
                    },
                )
            } else {
                file_views(old(self).files@)
            },
            final(self).directories == old(self).directories,
            final(self).entries == old(self).entries,
            final(self).total_bytes == old(self).total_bytes,
    {
        if digest.bytes != f.len {
            return fail(
                "recovery_needed",
                "transaction stage file size changed while it was read",
            );
        }
        let ghost before = file_views(self.files@);
        let ghost added = StageFileView {
            path: path@,
            device: f.device,
            inode: f.inode,
            mode: f.mode & 0o777u32,
            sha256: digest.sha256@,
        };
        self.files.push(
            OwnedStageFile {
                path: path.copy(),
                device: f.device,
                inode: f.inode,
                mode: f.mode & 0o777u32,
                sha256: digest.sha256,
            },
        );
        assert(file_views(self.files@) =~= before.push(added));
        Ok(())
    }

    /// Reads a file and records it with its digest.
    pub fn digest_file<S: ByteSource>(&mut self, path: &FsPath, f: &FileFacts, source: &mut S) -> (r:
        ManagedResult<()>)
        ensures
            old(source).given().is_prefix_of(final(source).given()),
            r is Ok ==> read_up_to(
                old(source).rest(),
                gained(old(source).given(), final(source).given()),
                final(source).rest(),
            ),
            r is Ok ==> ({
                let came = gained(old(source).given(), final(source).given());
                &&& came.len() == f.len && at_end(final(source).last())
                &&& final(self).total_bytes == old(self).total_bytes + f.len
                &&& file_views(final(self).files@) == file_views(old(self).files@).push(
                    read_file(path@, *f, came),
                )
            }),
            r is Err ==> file_views(final(self).files@) == file_views(old(self).files@),
            failure(r) == ({
                let came = gained(old(source).given(), final(source).given());
                or_else(
                    reading_failure(
                        came.len(),
                        final(source).last(),
                        tree_permitted(
                            MAX_OWNED_FILE_BYTES,
                            old(self).total_bytes,
                            MAX_PURGE_BYTES,
                        ),
                        "recovery_needed"@,
                        "cannot read opened transaction stage file"@,
                        "transaction stage exceeds its actual-read byte limit"@,
                    ),
                    if came.len() != f.len {
                        Some(
                            (
                                "recovery_needed"@,
                                "transaction stage file size changed while it was read"@,
                            ),
                        )
                    } else {
                        None
                    },
                )
            }),
            match tree_reading(
                old(source).rest(),
                MAX_OWNED_FILE_BYTES,
                old(self).total_bytes,
                MAX_PURGE_BYTES,
            ) {
                None => true,
                Some(what) => failure(r) == or_else(
                    drained(
                        what,
                        "recovery_needed"@,
                        "cannot read opened transaction stage file"@,
                        "transaction stage exceeds its actual-read byte limit"@,
                    ),
                    length_failure(
                        what,
                        f.len,
                        "recovery_needed"@,
                        "transaction stage file size changed while it was read"@,
                    ),
                ) && (r is Ok ==> file_views(final(self).files@) == file_views(
                    old(self).files@,
                ).push(read_file(path@, *f, what->Whole_0))),
            },
            final(self).directories == old(self).directories,
            final(self).entries == old(self).entries,
            old(self).total_bytes <= MAX_PURGE_BYTES ==> final(self).total_bytes
                <= MAX_PURGE_BYTES,
            r is Err ==> r->Err_0.code@ == "recovery_needed"@,
    {
        let mut total: u64 = self.total_bytes;
        let read = digest_bounded_stage_file(
            source,
            MAX_OWNED_FILE_BYTES,
            &mut total,
            MAX_PURGE_BYTES,
            "recovery_needed",
        );
        self.total_bytes = total;
        match read {
            Ok(digest) => self.record_file(path, f, digest),
            Err(e) => Err(e),
        }
    }

    /// Ends the walk: the snapshot has its entries in the order of their paths.
    pub fn finish(self) -> (r: StageSnapshot)
        ensures
            r@ == (SnapshotView {
                directories: sorted_by(
                    SortOrder::ByPath,
                    dir_views(self.directories@),
                    dir_key(),
                ),
                files: sorted_by(SortOrder::ByPath, file_views(self.files@), stage_file_key()),
            }),
    {
        proof {
            lemma_sorted_map(
                SortOrder::ByPath,
                self.directories@,
                |d: OwnedDirectory| d@,
                location_key::<OwnedDirectory>(),
                dir_key(),
            );
            lemma_sorted_map(
                SortOrder::ByPath,
                self.files@,
                |f: OwnedStageFile| f@,
                location_key::<OwnedStageFile>(),
                stage_file_key(),
            );
        }
        let directories = sort_located(SortOrder::ByPath, self.directories);
        let files = sort_located(SortOrder::ByPath, self.files);
        StageSnapshot { directories, files }
    }
}

/// A file of a staged tree as it is recorded once these bytes of it were read.
pub open spec fn read_file(path: Seq<u8>, f: FileFacts, bytes: Seq<u8>) -> StageFileView {
    StageFileView {
        path,
        device: f.device,
        inode: f.inode,
        mode: f.mode & 0o777u32,
        sha256: sha256_text(bytes),
    }
}

/// What a package tree is walked for.
#[derive(Clone, Copy, Debug, PartialEq, Eq, Structural)]
pub enum TreePurpose {
    Digest,
    Copy,
}

/// The messages by which a walk over a package tree fails.
pub open spec fn too_many(purpose: TreePurpose) -> Seq<char> {
    match purpose {
        TreePurpose::Digest => "package tree exceeds bounded traversal limits"@,
        TreePurpose::Copy => "bundle tree exceeds bounded traversal limits"@,
    }
}

/// The message for a file that is not safe.
pub open spec fn unsafe_file(purpose: TreePurpose) -> Seq<char> {
    match purpose {
        TreePurpose::Digest => "opened package file has unsafe identity, mode, link count, or size"@,
        TreePurpose::Copy => "opened bundle file has unsafe identity, mode, link count, or size"@,
    }
}

/// The message for something that is neither a directory nor a file.
pub open spec fn unsupported(purpose: TreePurpose) -> Seq<char> {
    match purpose {
        TreePurpose::Digest => "package tree contains an unsupported entry"@,
        TreePurpose::Copy => "bundle tree contains an unsupported entry"@,
    }
}

/// The message for a file whose length changed.
pub open spec fn resized(purpose: TreePurpose) -> Seq<char> {
    match purpose {
        TreePurpose::Digest => "package file size changed while it was read"@,
        TreePurpose::Copy => "bundle file size changed while it was copied"@,
    }
}

/// A walk over a package tree: what it has counted, recorded and taken into the
/// digest of the tree.
pub struct TreeWalkState {
    pub purpose: TreePurpose,
    pub entries: usize,
    pub total_bytes: u64,
    pub files: Vec<FsPath>,
    pub hasher: Sha256State,
}

/// What an entry of a package tree is, or why the tree is refused.
pub open spec fn tree_visit(purpose: TreePurpose, f: FileFacts, uid: u32, depth: usize) -> Result<
    StageVisit,
    Failure,
> {
    if f.is_dir {
        if depth >= MAX_PURGE_DEPTH {
            Err(("bundle_invalid"@, too_many(purpose)))
        } else if !directory_safe(f, uid, false) {
            Err(
                (
                    "bundle_invalid"@,
                    failure_text(
                        (
                            "unsafe_install_path"@,
                            "directory chain contains an unsafe opened descriptor"@,
                        ),
                    ),
                ),
            )
        } else {
            Ok(StageVisit::Directory)
        }
    } else if f.is_file {
        if f.uid != uid || f.nlink != 1 || f.mode & 0o022u32 != 0 || f.len > MAX_OWNED_FILE_BYTES {
            Err(("bundle_invalid"@, unsafe_file(purpose)))
        } else {
            Ok(StageVisit::File)
        }
    } else {
        Err(("bundle_invalid"@, unsupported(purpose)))
    }
}

/// A number as eight bytes, most significant first.
pub open spec fn big_endian(n: nat) -> Seq<u8> {
    seq![
        (n / 0x100_0000_0000_0000 % 256) as u8,
        (n / 0x1_0000_0000_0000 % 256) as u8,
        (n / 0x100_0000_0000 % 256) as u8,
        (n / 0x1_0000_0000 % 256) as u8,
        (n / 0x100_0000 % 256) as u8,
        (n / 0x1_0000 % 256) as u8,
        (n / 0x100 % 256) as u8,
        (n % 256) as u8,
    ]
}

fn big_endian_bytes(n: u64) -> (r: Vec<u8>)
    ensures
        r@ == big_endian(n as nat),
{
    let mut out: Vec<u8> = Vec::new();
    out.push((n / 0x100_0000_0000_0000 % 256) as u8);
    out.push((n / 0x1_0000_0000_0000 % 256) as u8);
    out.push((n / 0x100_0000_0000 % 256) as u8);
    out.push((n / 0x1_0000_0000 % 256) as u8);
    out.push((n / 0x100_0000 % 256) as u8);
    out.push((n / 0x1_0000 % 256) as u8);
    out.push((n / 0x100 % 256) as u8);
    out.push((n % 256) as u8);
    assert(out@ =~= big_endian(n as nat));
    out
}

/// What the digest of a tree takes in before the bytes of a file: the length of
/// its relative path and the path.
pub open spec fn tree_frame(relative: Seq<u8>) -> Seq<u8> {
    big_endian(relative.len()) + relative
}

/// What the digest of a tree takes in: for each file its frame and its bytes.
pub open spec fn tree_bytes(files: Seq<(Seq<u8>, Seq<u8>)>) -> Seq<u8>
    decreases files.len(),
{
    if files.len() == 0 {
        Seq::empty()
    } else {
        tree_bytes(files.drop_last()) + tree_frame(files.last().0) + files.last().1
    }
}

/// The relative paths of files.
pub open spec fn tree_paths(files: Seq<(Seq<u8>, Seq<u8>)>) -> Seq<Seq<u8>> {
    files.map_values(|f: (Seq<u8>, Seq<u8>)| f.0)
}

proof fn lemma_tree_grows(files: Seq<(Seq<u8>, Seq<u8>)>, relative: Seq<u8>, content: Seq<u8>)
    ensures
        tree_bytes(files.push((relative, content))) == tree_bytes(files) + tree_frame(relative)
            + content,
        tree_paths(files.push((relative, content))) == tree_paths(files).push(relative),
{
    let grown = files.push((relative, content));
    assert(grown.drop_last() =~= files);
    assert(tree_paths(grown) =~= tree_paths(files).push(relative));
}

impl TreeWalkState {
    /// The walk has taken in these files, each a relative path and its bytes, in this
    /// order and nothing else.
    pub open spec fn covers(&self, files: Seq<(Seq<u8>, Seq<u8>)>) -> bool {
        absorbed(self.hasher) == tree_bytes(files) && path_views(self.files@) == tree_paths(files)
    }

    /// Begins a walk.
    pub fn start(purpose: TreePurpose) -> (r: TreeWalkState)
        ensures
            r.purpose == purpose,
            r.entries == 0,
            r.total_bytes == 0,
            r.files@.len() == 0,
            absorbed(r.hasher) == Seq::<u8>::empty(),
            r.covers(Seq::empty()),
    {
        let state = TreeWalkState {
            purpose,
            entries: 0,
            total_bytes: 0,
            files: Vec::new(),
            hasher: sha256_start(),
        };
        assert(path_views(state.files@) =~= tree_paths(Seq::empty()));
        state
    }

    /// Counts the entries of a directory and gives their names in order.
    pub fn enter(&mut self, names: Vec<Vec<u8>>) -> (r: ManagedResult<Vec<Vec<u8>>>)
        ensures
            failure(r) == if old(self).entries + real_names(byte_views(names@)).len()
                > MAX_PURGE_ENTRIES {
                Some(("bundle_invalid"@, too_many(old(self).purpose)))
            } else {
                None
            },
            r is Ok ==> byte_views(r->Ok_0@) == ordered_names(byte_views(names@)) && final(
                self).entries == old(self).entries + r->Ok_0@.len(),
            r is Err ==> final(self).entries == old(self).entries,
            final(self).purpose == old(self).purpose,
            final(self).total_bytes == old(self).total_bytes,
            final(self).files == old(self).files,
            final(self).hasher == old(self).hasher,
    {
        let message = match self.purpose {
            TreePurpose::Digest => "package tree exceeds bounded traversal limits",
            TreePurpose::Copy => "bundle tree exceeds bounded traversal limits",
        };
        let ordered = admit_names(self.entries, names, "bundle_invalid", message)?;
        self.entries = self.entries + ordered.len();
        Ok(ordered)
    }

    /// Looks at an entry.
    pub fn visit(&self, f: &FileFacts, uid: u32, depth: usize) -> (r: ManagedResult<StageVisit>)
        ensures
            (match r {
                Ok(v) => Ok::<StageVisit, Failure>(v),
                Err(e) => Err(e@),
            }) == tree_visit(self.purpose, *f, uid, depth),
    {
        if f.is_dir {
            if depth >= MAX_PURGE_DEPTH {
                let message = match self.purpose {
                    TreePurpose::Digest => "package tree exceeds bounded traversal limits",
                    TreePurpose::Copy => "bundle tree exceeds bounded traversal limits",
                };
                return fail("bundle_invalid", message);
            }
            match validate_opened_directory(f, uid, false) {
                Ok(_) => {},
                Err(e) => {
                    return Err(e.recode("bundle_invalid"));
                },
            }
            return Ok(StageVisit::Directory);
        }
        if f.is_file {
            if f.uid != uid || f.nlink != 1 || f.mode & 0o022u32 != 0 || f.len
                > MAX_OWNED_FILE_BYTES {
                let message = match self.purpose {
                    TreePurpose::Digest => "opened package file has unsafe identity, mode, link count, or size",
                    TreePurpose::Copy => "opened bundle file has unsafe identity, mode, link count, or size",
                };
                return fail("bundle_invalid", message);
            }
            return Ok(StageVisit::File);
        }
        let message = match self.purpose {
            TreePurpose::Digest => "package tree contains an unsupported entry",
            TreePurpose::Copy => "bundle tree contains an unsupported entry",
        };
        fail("bundle_invalid", message)
    }

    /// Takes the relative path of a file into the digest, before its bytes.
    pub fn begin_file(&mut self, relative: &FsPath)
        ensures
            absorbed(final(self).hasher) == absorbed(old(self).hasher) + tree_frame(relative@),
            final(self).purpose == old(self).purpose,
            final(self).entries == old(self).entries,
            final(self).total_bytes == old(self).total_bytes,
            final(self).files == old(self).files,
    {
        let ghost before = absorbed(self.hasher);
        let frame = big_endian_bytes(relative.bytes.len() as u64);
        sha256_update(&mut self.hasher, frame.as_slice());
        sha256_update(&mut self.hasher, relative.bytes.as_slice());
        assert(absorbed(self.hasher) =~= before + tree_frame(relative@));
    }

    /// Records a file once its bytes have been taken into the digest; it must have
    /// the length that was reported for it.
    pub fn end_file(&mut self, relative: &FsPath, read: u64, reported: u64) -> (r: ManagedResult<()>)
        ensures
            failure(r) == if read != reported {
                Some(("bundle_invalid"@, resized(old(self).purpose)))
            } else {
                None
            },
            path_views(final(self).files@) == if r is Ok {
                path_views(old(self).files@).push(relative@)
            } else {
                path_views(old(self).files@)
            },
            final(self).hasher == old(self).hasher,
            final(self).purpose == old(self).purpose,
            final(self).entries == old(self).entries,
            final(self).total_bytes == old(self).total_bytes,
    {
        if read != reported {
            let message = match self.purpose {
                TreePurpose::Digest => "package file size changed while it was read",
                TreePurpose::Copy => "bundle file size changed while it was copied",
            };
            return fail("bundle_invalid", message);
        }
        let ghost before = path_views(self.files@);
        self.files.push(relative.copy());
        assert(path_views(self.files@) =~= before.push(relative@));
        Ok(())
    }

    /// Reads a file of the tree, and takes its path and its bytes into the digest.
    pub fn digest_file<S: ByteSource>(
        &mut self,
        relative: &FsPath,
        source: &mut S,
        reported: u64,
    ) -> (r: ManagedResult<()>)
        ensures
            old(source).given().is_prefix_of(final(source).given()),
            r is Ok ==> read_up_to(
                old(source).rest(),
                gained(old(source).given(), final(source).given()),
                final(source).rest(),
            ),
            r is Ok ==> ({
                let came = gained(old(source).given(), final(source).given());
                &&& came.len() == reported && at_end(final(source).last())
                &&& final(self).total_bytes == old(self).total_bytes + reported
                &&& forall|files: Seq<(Seq<u8>, Seq<u8>)>|
                    #![trigger old(self).covers(files)]
                    old(self).covers(files) ==> final(self).covers(files.push((relative@, came)))
            }),
            r is Err ==> path_views(final(self).files@) == path_views(old(self).files@),
            failure(r) == ({
                let came = gained(old(source).given(), final(source).given());
                or_else(
                    reading_failure(
                        came.len(),
                        final(source).last(),
                        tree_permitted(
                            MAX_OWNED_FILE_BYTES,
                            old(self).total_bytes,
                            MAX_PURGE_BYTES,
                        ),
                        "bundle_invalid"@,
                        "cannot read opened package file"@,
                        "package tree exceeds its actual-read byte limit"@,
                    ),
                    if came.len() != reported {
                        Some(("bundle_invalid"@, resized(old(self).purpose)))
                    } else {
                        None
                    },
                )
            }),
            match tree_reading(
                old(source).rest(),
                MAX_OWNED_FILE_BYTES,
                old(self).total_bytes,
                MAX_PURGE_BYTES,
            ) {
                None => true,
                Some(what) => failure(r) == or_else(
                    drained(
                        what,
                        "bundle_invalid"@,
                        "cannot read opened package file"@,
                        "package tree exceeds its actual-read byte limit"@,
                    ),
                    length_failure(what, reported, "bundle_invalid"@, resized(old(self).purpose)),
                ) && (r is Ok ==> gained(old(source).given(), final(source).given())
                    == what->Whole_0),
            },
            final(self).purpose == old(self).purpose,
            final(self).entries == old(self).entries,
            old(self).total_bytes <= MAX_PURGE_BYTES ==> final(self).total_bytes
                <= MAX_PURGE_BYTES,
            r is Err ==> r->Err_0.code@ == "bundle_invalid"@,
    {
        self.begin_file(relative);
        let ghost framed = absorbed(self.hasher);
        let mut total: u64 = self.total_bytes;
        let read = digest_bounded_reader_with_tree(
            source,
            MAX_OWNED_FILE_BYTES,
            &mut total,
            MAX_PURGE_BYTES,
            &mut self.hasher,
        );
        self.total_bytes = total;
        match read {
            Ok(count) => {
                let ended = self.end_file(relative, count, reported);
                proof {
                    let came = gained(old(source).given(), source.given());
                    assert(absorbed(self.hasher) =~= framed + came);
                    assert forall|files: Seq<(Seq<u8>, Seq<u8>)>|
                        #![trigger old(self).covers(files)]
                        ended is Ok && old(self).covers(files) implies self.covers(
                        files.push((relative@, came)),
                    ) by {
                        lemma_tree_grows(files, relative@, came);
                    }
                }
                ended
            },
            Err(e) => Err(e),
        }
    }

    /// Copies a file of the tree, and takes its path and its bytes into the digest.
    pub fn copy_file<S: ByteSource, W: ByteSink>(
        &mut self,
        relative: &FsPath,
        source: &mut S,
        sink: &mut W,
        reported: u64,
    ) -> (r: ManagedResult<()>)
        ensures
            old(source).given().is_prefix_of(final(source).given()),
            r is Ok ==> read_up_to(
                old(source).rest(),
                gained(old(source).given(), final(source).given()),
                final(source).rest(),
            ),
            r is Ok ==> ({
                let came = gained(old(source).given(), final(source).given());
                &&& came.len() == reported && at_end(final(source).last())
                &&& final(self).total_bytes == old(self).total_bytes + reported
                &&& forall|files: Seq<(Seq<u8>, Seq<u8>)>|
                    #![trigger old(self).covers(files)]
                    old(self).covers(files) ==> final(self).covers(files.push((relative@, came)))
                &&& gained(old(sink).taken(), final(sink).taken()) == came
            }),
            r is Err ==> path_views(final(self).files@) == path_views(old(self).files@),
            ({
                let came = gained(old(source).given(), final(source).given());
                copy_failed(
                    r,
                    or_else(
                        copy_failure(
                            came.len(),
                            final(source).last(),
                            tree_permitted(
                                MAX_OWNED_FILE_BYTES,
                                old(self).total_bytes,
                                MAX_PURGE_BYTES,
                            ),
                        ),
                        if at_end(final(source).last()) && came.len() != reported {
                            Some(("bundle_invalid"@, resized(old(self).purpose)))
                        } else {
                            None
                        },
                    ),
                    final(sink).refusal(),
                )
            }),
            old(sink).taken().is_prefix_of(final(sink).taken()),
            old(sink).takes_all() ==> match tree_reading(
                old(source).rest(),
                MAX_OWNED_FILE_BYTES,
                old(self).total_bytes,
                MAX_PURGE_BYTES,
            ) {
                None => true,
                Some(what) => failure(r) == or_else(
                    drained(
                        what,
                        "bundle_invalid"@,
                        "cannot read opened bundle file"@,
                        "bundle tree exceeds its actual-copy byte limit"@,
                    ),
                    length_failure(what, reported, "bundle_invalid"@, resized(old(self).purpose)),
                ) && (r is Ok ==> gained(old(source).given(), final(source).given())
                    == what->Whole_0),
            },
            final(self).purpose == old(self).purpose,
            final(self).entries == old(self).entries,
            old(self).total_bytes <= MAX_PURGE_BYTES ==> final(self).total_bytes
                <= MAX_PURGE_BYTES,
            r is Err ==> r->Err_0.code@ == "bundle_invalid"@ || (r->Err_0.code@
                == "generation_failed"@ && !old(sink).takes_all()),
    {
        self.begin_file(relative);
        let ghost framed = absorbed(self.hasher);
        let mut total: u64 = self.total_bytes;
        let read = copy_bounded_reader(
            source,
            sink,
            MAX_OWNED_FILE_BYTES,
            &mut total,
            MAX_PURGE_BYTES,
            &mut self.hasher,
        );
        self.total_bytes = total;
        match read {
            Ok(count) => {
                let ended = self.end_file(relative, count, reported);
                proof {
                    let came = gained(old(source).given(), source.given());
                    assert(absorbed(self.hasher) =~= framed + came);
                    assert forall|files: Seq<(Seq<u8>, Seq<u8>)>|
                        #![trigger old(self).covers(files)]
                        ended is Ok && old(self).covers(files) implies self.covers(
                        files.push((relative@, came)),
                    ) by {
                        lemma_tree_grows(files, relative@, came);
                    }
                }
                ended
            },
            Err(e) => Err(e),
        }
    }

    /// Ends the walk: the relative paths of the files and the digest of the tree.
    pub fn finish(self) -> (r: (Vec<FsPath>, String))
        ensures
            r.0 == self.files,
            r.1@ == sha256_text(absorbed(self.hasher)),
            forall|files: Seq<(Seq<u8>, Seq<u8>)>| #[trigger]
                self.covers(files) ==> path_views(r.0@) == tree_paths(files) && r.1@
                    == sha256_text(tree_bytes(files)),
            crate::digest::digest_ok(r.1@),
    {
        let digest = finish_hex(self.hasher);
        (self.files, digest)
    }
}

/// What is wrong with a tree that must be an adapter package.
pub fn validate_external_tree(files: &Vec<FsPath>) -> (r: ManagedResult<()>)
    ensures
        failure(r) == if exists|i: int|
            0 <= i < files@.len() && crate::path::same_path(
                (#[trigger] files@[i])@,
                crate::text::utf8("package.json"@),
            ) {
            None
        } else {
            Some(("bundle_invalid"@, "Pi bundle is empty or has no package.json"@))
        },
{
    let manifest = FsPath::from_text("package.json");
    let mut i: usize = 0;
    while i < files.len()
        invariant
            i <= files.len(),
            manifest@ == crate::text::utf8("package.json"@),
            forall|k: int| 0 <= k < i ==> !crate::path::same_path((#[trigger] files@[k])@, manifest@),
        decreases files.len() - i,
    {
        if files[i].same(&manifest) {
            return Ok(());
        }
        i += 1;
    }
    fail("bundle_invalid", "Pi bundle is empty or has no package.json")
}

/// A directory is walked by the names of its entries, without the one and the two dots,
/// each as often as it was read, in the order of their bytes.
pub proof fn law_directories_are_walked_in_order(names: Seq<Seq<u8>>, name: Seq<u8>)
    ensures
        ordered_names(names).contains(name) <==> names.contains(name) && name != seq![0x2eu8]
            && name != seq![0x2eu8, 0x2eu8],
        forall|i: int, j: int|
            0 <= i < j < ordered_names(names).len() ==> !bytes_less(
                #[trigger] ordered_names(names)[j],
                #[trigger] ordered_names(names)[i],
            ),
        ordered_names(names).len() == names.filter(
            |n: Seq<u8>| n != seq![0x2eu8] && n != seq![0x2eu8, 0x2eu8],
        ).len(),
{
    let own = |n: Seq<u8>| !dot_name(n);
    let other = |n: Seq<u8>| n != seq![0x2eu8] && n != seq![0x2eu8, 0x2eu8];
    lemma_filter_has(names, own, name);
    lemma_filter_alike(names, own, other);
    lemma_sorting_keeps_members(SortOrder::ByBytes, real_names(names), crate::layout::itself());
    lemma_sorting_keeps_items(SortOrder::ByBytes, real_names(names), crate::layout::itself());
    assert forall|i: int, j: int| 0 <= i < j < ordered_names(names).len() implies !bytes_less(
        #[trigger] ordered_names(names)[j],
        #[trigger] ordered_names(names)[i],
    ) by {
        law_sorting_puts_in_order(
            SortOrder::ByBytes,
            real_names(names),
            crate::layout::itself(),
            i,
            j,
        );
    }
}

/// A staged tree holds private directories of the user down to 64 levels, and private
/// files of the user with one name and of bounded length; anything else stops its walk.
pub proof fn law_staged_entries_are_private(f: FileFacts, uid: u32, depth: usize)
    ensures
        stage_visit(f, uid, depth) == Ok::<StageVisit, Failure>(StageVisit::Directory) <==> (
        f.is_dir && f.uid == uid && f.mode & 0o777u32 == 0o700 && depth < 64),
        stage_visit(f, uid, depth) == Ok::<StageVisit, Failure>(StageVisit::File) <==> (!f.is_dir
            && f.is_file && f.uid == uid && f.nlink == 1 && (f.mode & 0o777u32 == 0o600 || f.mode
            & 0o777u32 == 0o700) && f.len <= MAX_OWNED_FILE_BYTES),
        stage_visit(f, uid, depth) is Err ==> stage_visit(f, uid, depth)->Err_0.0
            == "recovery_needed"@,
{
}

/// A package tree holds safe directories down to 64 levels, and files of the user with one
/// name that nobody else may write, of bounded length; anything else stops its walk.
pub proof fn law_package_entries_are_safe(
    purpose: TreePurpose,
    f: FileFacts,
    uid: u32,
    depth: usize,
)
    ensures
        tree_visit(purpose, f, uid, depth) == Ok::<StageVisit, Failure>(StageVisit::Directory)
            <==> (f.is_dir && depth < 64 && directory_safe(f, uid, false)),
        tree_visit(purpose, f, uid, depth) == Ok::<StageVisit, Failure>(StageVisit::File) <==> (
        !f.is_dir && f.is_file && f.uid == uid && f.nlink == 1 && f.mode & 0o022u32 == 0 && f.len
            <= MAX_OWNED_FILE_BYTES),
        tree_visit(purpose, f, uid, depth) is Err ==> tree_visit(purpose, f, uid, depth)->Err_0.0
            == "bundle_invalid"@,
{
}

/// A file is recorded under its identity, with its permissions alone and the digest of the
/// bytes that were read.
pub proof fn law_files_are_recorded_as_read(path: Seq<u8>, f: FileFacts, bytes: Seq<u8>)
    ensures
        ({
            let r = read_file(path, f, bytes);
            &&& r.path == path
            &&& (r.device, r.inode) == (f.device, f.inode)
            &&& r.mode == f.mode & 0o777u32
            &&& r.sha256 == sha256_text(bytes)
        }),
{
}

/// The eight bytes of a number give the number back, most significant first.
pub proof fn law_lengths_are_read_back(n: nat)
    requires
        n <= u64::MAX,
    ensures
        ({
            let b = big_endian(n);
            &&& b.len() == 8
            &&& n == b[7] + 0x100 * (b[6] + 0x100 * (b[5] + 0x100 * (b[4] + 0x100 * (b[3] + 0x100 * (
            b[2] + 0x100 * (b[1] + 0x100 * b[0]))))))
        }),
{
    let n1 = n / 0x100;
    let n2 = n1 / 0x100;
    let n3 = n2 / 0x100;
    let n4 = n3 / 0x100;
    let n5 = n4 / 0x100;
    let n6 = n5 / 0x100;
    let n7 = n6 / 0x100;
    assert(n2 == n / 0x1_0000);
    assert(n3 == n / 0x100_0000);
    assert(n4 == n / 0x1_0000_0000);
    assert(n5 == n / 0x100_0000_0000);
    assert(n6 == n / 0x1_0000_0000_0000);
    assert(n7 == n / 0x100_0000_0000_0000);
    assert(n7 < 0x100);
}

/// The digest of a tree takes in, file by file, the length of the path, the path and the
/// bytes: with one more file, those follow all that was taken in before.
pub proof fn law_tree_digests_take_in_paths_and_bytes(
    files: Seq<(Seq<u8>, Seq<u8>)>,
    path: Seq<u8>,
    bytes: Seq<u8>,
)
    ensures
        tree_bytes(files.push((path, bytes))) == tree_bytes(files) + big_endian(path.len()) + path
            + bytes,
        tree_bytes(Seq::empty()) == Seq::<u8>::empty(),
{
    assert(files.push((path, bytes)).drop_last() =~= files);
    assert(tree_bytes(files.push((path, bytes))) =~= tree_bytes(files) + big_endian(path.len())
        + path + bytes);
}

} // verus!
