//! Snapshots of staged directory trees.

use vstd::prelude::*;
use vstd::string::*;
use crate::digest::{digest_ok, valid_digest};
use crate::error::{fail, failure, Failure, ManagedResult};
use crate::order::{
    law_sorting_puts_in_order, lemma_sorted_map, lemma_sorting_keeps_items, location_key,
    sort_located, sorted_by, Keyed, Located, SortOrder,
};
use crate::path::{
    absolute_normal, absolute_normal_failure, is_absolute, join, law_moving_keeps_what_is_below,
    law_path_is_made_of_its_components, law_what_is_below_goes_on_in_steps, lemma_joined_render,
    lemma_later_components, lemma_no_components, parts, path_text, path_text_failure, path_under,
    relative_to, render, require_absolute_normal, same_path, step_ok, strip_prefix, FsPath,
    PathPart,
};
use crate::pathset::PathSet;
use crate::text::{text_eq, utf8};

verus! {

/// A directory of a tree: where it is and which one.
#[derive(Debug)]
pub struct OwnedDirectory {
    pub path: FsPath,
    pub device: u64,
    pub inode: u64,
    pub mode: u32,
}

/// What a directory entry says.
pub struct DirView {
    pub path: Seq<u8>,
    pub device: u64,
    pub inode: u64,
    pub mode: u32,
}

impl View for OwnedDirectory {
    type V = DirView;

    open spec fn view(&self) -> DirView {
        DirView { path: self.path@, device: self.device, inode: self.inode, mode: self.mode }
    }
}

impl Keyed for OwnedDirectory {
    open spec fn location(&self) -> Seq<u8> {
        self.path@
    }

    fn key_bytes(&self) -> (r: &[u8]) {
        self.path.bytes.as_slice()
    }
}

impl Located for OwnedDirectory {
    fn path_ref(&self) -> (r: &FsPath) {
        &self.path
    }
}

/// A file of a tree: where it is, which one, and what it holds.
#[derive(Debug)]
pub struct OwnedStageFile {
    pub path: FsPath,
    pub device: u64,
    pub inode: u64,
    pub mode: u32,
    pub sha256: String,
}

/// What a file entry says.
pub struct StageFileView {
    pub path: Seq<u8>,
    pub device: u64,
    pub inode: u64,
    pub mode: u32,
    pub sha256: Seq<char>,
}

impl View for OwnedStageFile {
    type V = StageFileView;

    open spec fn view(&self) -> StageFileView {
        StageFileView {
            path: self.path@,
            device: self.device,
            inode: self.inode,
            mode: self.mode,
            sha256: self.sha256@,
        }
    }
}

impl Keyed for OwnedStageFile {
    open spec fn location(&self) -> Seq<u8> {
        self.path@
    }

    fn key_bytes(&self) -> (r: &[u8]) {
        self.path.bytes.as_slice()
    }
}

impl Located for OwnedStageFile {
    fn path_ref(&self) -> (r: &FsPath) {
        &self.path
    }
}

/// A tree: its directories and its files.
#[derive(Debug)]
pub struct StageSnapshot {
    pub directories: Vec<OwnedDirectory>,
    pub files: Vec<OwnedStageFile>,
}

/// What a snapshot says.
pub struct SnapshotView {
    pub directories: Seq<DirView>,
    pub files: Seq<StageFileView>,
}

/// The directory entries that some values stand for.
pub open spec fn dir_views(s: Seq<OwnedDirectory>) -> Seq<DirView> {
    s.map_values(|d: OwnedDirectory| d@)
}

/// The file entries that some values stand for.
pub open spec fn file_views(s: Seq<OwnedStageFile>) -> Seq<StageFileView> {
    s.map_values(|f: OwnedStageFile| f@)
}

impl View for StageSnapshot {
    type V = SnapshotView;

    open spec fn view(&self) -> SnapshotView {
        SnapshotView {
            directories: dir_views(self.directories@),
            files: file_views(self.files@),
        }
    }
}

/// The snapshot in an optional snapshot.
pub open spec fn opt_snapshot(s: Option<StageSnapshot>) -> Option<SnapshotView> {
    match s {
        Some(s) => Some(s@),
        None => None,
    }
}

/// The file in an optional file.
pub open spec fn opt_file(f: Option<OwnedStageFile>) -> Option<StageFileView> {
    match f {
        Some(f) => Some(f@),
        None => None,
    }
}

/// Two entries for the same directory.
pub open spec fn same_dir(a: DirView, b: DirView) -> bool {
    same_path(a.path, b.path) && a.device == b.device && a.inode == b.inode && a.mode == b.mode
}

/// Two entries for the same file.
pub open spec fn same_file(a: StageFileView, b: StageFileView) -> bool {
    same_path(a.path, b.path) && a.device == b.device && a.inode == b.inode && a.mode == b.mode
        && a.sha256 == b.sha256
}

/// Two snapshots with equal entries in the same order.
pub open spec fn same_snapshot(a: SnapshotView, b: SnapshotView) -> bool {
    &&& a.directories.len() == b.directories.len()
    &&& forall|i: int|
        0 <= i < a.directories.len() ==> same_dir(#[trigger] a.directories[i], b.directories[i])
    &&& a.files.len() == b.files.len()
    &&& forall|i: int| 0 <= i < a.files.len() ==> same_file(#[trigger] a.files[i], b.files[i])
}

impl OwnedDirectory {
    /// A copy of the entry.
    pub fn copy(&self) -> (r: OwnedDirectory)
        ensures
            r@ == self@,
    {
        OwnedDirectory {
            path: self.path.copy(),
            device: self.device,
            inode: self.inode,
            mode: self.mode,
        }
    }

    /// Whether two entries are for the same directory.
    pub fn same(&self, other: &OwnedDirectory) -> (r: bool)
        ensures
            r == same_dir(self@, other@),
    {
        self.device == other.device && self.inode == other.inode && self.mode == other.mode
            && self.path.same(&other.path)
    }
}

impl OwnedStageFile {
    /// A copy of the entry.
    pub fn copy(&self) -> (r: OwnedStageFile)
        ensures
            r@ == self@,
    {
        OwnedStageFile {
            path: self.path.copy(),
            device: self.device,
            inode: self.inode,
            mode: self.mode,
            sha256: self.sha256.clone(),
        }
    }

    /// Whether two entries are for the same file.
    pub fn same(&self, other: &OwnedStageFile) -> (r: bool)
        ensures
            r == same_file(self@, other@),
    {
        self.device == other.device && self.inode == other.inode && self.mode == other.mode
            && self.path.same(&other.path) && text_eq(self.sha256.as_str(), other.sha256.as_str())
    }
}

impl StageSnapshot {
    /// A copy of the snapshot.
    pub fn copy(&self) -> (r: StageSnapshot)
        ensures
            r@ == self@,
    {
        let mut directories: Vec<OwnedDirectory> = Vec::new();
        let mut i: usize = 0;
        while i < self.directories.len()
            invariant
                i <= self.directories.len(),
                directories@.len() == i,
                forall|k: int|
                    0 <= k < i ==> (#[trigger] directories@[k])@ == self.directories@[k]@,
            decreases self.directories.len() - i,
        {
            directories.push(self.directories[i].copy());
            i += 1;
        }
        assert(dir_views(directories@) =~= dir_views(self.directories@));
        let mut files: Vec<OwnedStageFile> = Vec::new();
        let mut j: usize = 0;
        while j < self.files.len()
            invariant
                j <= self.files.len(),
                files@.len() == j,
                forall|k: int| 0 <= k < j ==> (#[trigger] files@[k])@ == self.files@[k]@,
            decreases self.files.len() - j,
        {
            files.push(self.files[j].copy());
            j += 1;
        }
        assert(file_views(files@) =~= file_views(self.files@));
        StageSnapshot { directories, files }
    }

    /// Whether two snapshots have equal entries in the same order.
    pub fn same(&self, other: &StageSnapshot) -> (r: bool)
        ensures
            r == same_snapshot(self@, other@),
    {
        if self.directories.len() != other.directories.len() || self.files.len()
            != other.files.len() {
            return false;
        }
        let mut i: usize = 0;
        while i < self.directories.len()
            invariant
                i <= self.directories.len(),
                self.directories.len() == other.directories.len(),
                forall|k: int|
                    0 <= k < i ==> same_dir(
                        #[trigger] self@.directories[k],
                        other@.directories[k],
                    ),
            decreases self.directories.len() - i,
        {
            if !self.directories[i].same(&other.directories[i]) {
                assert(!same_dir(self@.directories[i as int], other@.directories[i as int]));
                return false;
            }
            i += 1;
        }
        let mut j: usize = 0;
        while j < self.files.len()
            invariant
                j <= self.files.len(),
                self.files.len() == other.files.len(),
                forall|k: int|
                    0 <= k < j ==> same_file(#[trigger] self@.files[k], other@.files[k]),
            decreases self.files.len() - j,
        {
            if !self.files[j].same(&other.files[j]) {
                assert(!same_file(self@.files[j as int], other@.files[j as int]));
                return false;
            }
            j += 1;
        }
        true
    }
}

/// The component lists of some directories.
pub open spec fn dir_parts(dirs: Seq<DirView>) -> Seq<Seq<PathPart>> {
    dirs.map_values(|d: DirView| parts(d.path))
}

/// The component lists of some files.
pub open spec fn file_parts(files: Seq<StageFileView>) -> Seq<Seq<PathPart>> {
    files.map_values(|f: StageFileView| parts(f.path))
}

/// A 64-digit hexadecimal text, in either case of letters.
pub open spec fn hex_digits(s: Seq<char>) -> bool {
    utf8(s).len() == 64 && forall|i: int|
        0 <= i < utf8(s).len() ==> any_hex(#[trigger] utf8(s)[i])
}

/// A hexadecimal digit in either case.
pub open spec fn any_hex(b: u8) -> bool {
    48 <= b <= 57 || 97 <= b <= 102 || 65 <= b <= 70
}

fn is_hex_digits(s: &str) -> (r: bool)
    ensures
        r == hex_digits(s@),
{
    let bytes = s.as_bytes();
    if bytes.len() != 64 {
        return false;
    }
    let mut i: usize = 0;
    while i < bytes.len()
        invariant
            i <= bytes.len(),
            bytes@ == utf8(s@),
            forall|k: int| 0 <= k < i ==> any_hex(#[trigger] utf8(s@)[k]),
        decreases bytes.len() - i,
    {
        let b: u8 = bytes[i];
        if !((48 <= b && b <= 57) || (97 <= b && b <= 102) || (65 <= b && b <= 70)) {
            assert(!any_hex(utf8(s@)[i as int]));
            return false;
        }
        i += 1;
    }
    true
}

/// What is wrong with the last of some directories, in the eyes of a check that
/// has accepted the others.
pub open spec fn dirs_failure(dirs: Seq<DirView>, root: Seq<u8>) -> Option<Failure>
    decreases dirs.len(),
{
    if dirs.len() == 0 {
        None
    } else {
        let d = dirs.last();
        match dirs_failure(dirs.drop_last(), root) {
            Some(f) => Some(f),
            None => match absolute_normal_failure(d.path, "transaction stage directory"@) {
                Some(f) => Some(f),
                None => if d.mode != 0o700 || !path_under(d.path, root) || dir_parts(
                    dirs.drop_last(),
                ).contains(parts(d.path)) {
                    Some(
                        (
                            "recovery_needed"@,
                            "transaction stage directory inventory is invalid"@,
                        ),
                    )
                } else {
                    None
                },
            },
        }
    }
}

/// What is wrong with some files beside directories that were accepted.
pub open spec fn files_failure(
    files: Seq<StageFileView>,
    dirs: Seq<DirView>,
    root: Seq<u8>,
) -> Option<Failure>
    decreases files.len(),
{
    if files.len() == 0 {
        None
    } else {
        let f = files.last();
        match files_failure(files.drop_last(), dirs, root) {
            Some(f) => Some(f),
            None => match absolute_normal_failure(f.path, "transaction stage file"@) {
                Some(f) => Some(f),
                None => if (f.mode != 0o600 && f.mode != 0o700) || !hex_digits(f.sha256)
                    || !path_under(f.path, root) || dir_parts(dirs).contains(parts(f.path))
                    || file_parts(files.drop_last()).contains(parts(f.path)) {
                    Some(("recovery_needed"@, "transaction stage file inventory is invalid"@))
                } else {
                    None
                },
            },
        }
    }
}

/// The snapshot lists the root of its tree.
pub open spec fn lists_root(s: SnapshotView, root: Seq<u8>) -> bool {
    exists|i: int|
        0 <= i < s.directories.len() && same_path(#[trigger] s.directories[i].path, root)
}

/// What is wrong with a snapshot of the tree at `root`.
pub open spec fn snapshot_failure(root: Seq<u8>, s: SnapshotView) -> Option<Failure> {
    if !lists_root(s, root) {
        Some(("recovery_needed"@, "transaction stage snapshot has no root directory"@))
    } else {
        match dirs_failure(s.directories, root) {
            Some(f) => Some(f),
            None => files_failure(s.files, s.directories, root),
        }
    }
}

proof fn lemma_dirs_failure_stays(dirs: Seq<DirView>, root: Seq<u8>, n: int)
    requires
        0 <= n <= dirs.len(),
        dirs_failure(dirs.take(n), root) is Some,
    ensures
        dirs_failure(dirs, root) == dirs_failure(dirs.take(n), root),
    decreases dirs.len() - n,
{
    if n == dirs.len() {
        assert(dirs.take(n) =~= dirs);
    } else {
        assert(dirs.take(n + 1).drop_last() =~= dirs.take(n));
        lemma_dirs_failure_stays(dirs, root, n + 1);
    }
}

proof fn lemma_files_failure_stays(
    files: Seq<StageFileView>,
    dirs: Seq<DirView>,
    root: Seq<u8>,
    n: int,
)
    requires
        0 <= n <= files.len(),
        files_failure(files.take(n), dirs, root) is Some,
    ensures
        files_failure(files, dirs, root) == files_failure(files.take(n), dirs, root),
    decreases files.len() - n,
{
    if n == files.len() {
        assert(files.take(n) =~= files);
    } else {
        assert(files.take(n + 1).drop_last() =~= files.take(n));
        lemma_files_failure_stays(files, dirs, root, n + 1);
    }
}

/// Membership in a list that is put together from two.
proof fn lemma_joined_contains(
    a: Seq<Seq<PathPart>>,
    b: Seq<Seq<PathPart>>,
    x: Seq<PathPart>,
)
    ensures
        (a + b).contains(x) == (a.contains(x) || b.contains(x)),
{
    if a.contains(x) {
        let k = choose|k: int| 0 <= k < a.len() && a[k] == x;
        assert((a + b)[k] == x);
    }
    if b.contains(x) {
        let k = choose|k: int| 0 <= k < b.len() && b[k] == x;
        assert((a + b)[a.len() + k] == x);
    }
    if (a + b).contains(x) {
        let k = choose|k: int| 0 <= k < (a + b).len() && (a + b)[k] == x;
        if k < a.len() {
            assert(a[k] == x);
        } else {
            assert(b[k - a.len()] == x);
        }
    }
}

/// Checks a snapshot of the tree at `root`: the root is listed, every path is
/// absolute, normalized, below the root and listed once, and modes and digests
/// are in shape.
pub fn validate_stage_snapshot_semantics(root: &FsPath, snapshot: &StageSnapshot) -> (r:
    ManagedResult<()>)
    ensures
        failure(r) == snapshot_failure(root@, snapshot@),
{
    let ghost dirs = snapshot@.directories;
    let ghost files = snapshot@.files;
    let mut listed = false;
    let mut i: usize = 0;
    while i < snapshot.directories.len()
        invariant
            i <= snapshot.directories.len(),
            dirs == snapshot@.directories,
            listed == exists|k: int|
                0 <= k < i && same_path(#[trigger] dirs[k].path, root@),
        decreases snapshot.directories.len() - i,
    {
        assert(dirs[i as int] == snapshot.directories@[i as int]@);
        if snapshot.directories[i].path.same(root) {
            assert(same_path(dirs[i as int].path, root@));
            listed = true;
        }
        i += 1;
    }
    if !listed {
        return fail("recovery_needed", "transaction stage snapshot has no root directory");
    }
    assert(lists_root(snapshot@, root@));
    let mut paths = PathSet::new();
    let mut j: usize = 0;
    assert(paths@ =~= dir_parts(dirs.take(0)));
    while j < snapshot.directories.len()
        invariant
            j <= snapshot.directories.len(),
            dirs == snapshot@.directories,
            lists_root(snapshot@, root@),
            dirs_failure(dirs.take(j as int), root@) is None,
            paths@ == dir_parts(dirs.take(j as int)),
        decreases snapshot.directories.len() - j,
    {
        let directory = &snapshot.directories[j];
        proof {
            assert(dirs[j as int] == directory@);
            assert(dirs.take(j + 1).drop_last() =~= dirs.take(j as int));
            assert(dirs.take(j + 1).last() == directory@);
            assert(dir_parts(dirs.take(j + 1)) =~= dir_parts(dirs.take(j as int)).push(
                parts(directory.path@),
            ));
            if dirs_failure(dirs.take(j + 1), root@) is Some {
                lemma_dirs_failure_stays(dirs, root@, j + 1);
            }
        }
        match require_absolute_normal(&directory.path, "transaction stage directory") {
            Ok(_) => {},
            Err(e) => {
                return Err(e);
            },
        }
        if directory.mode != 0o700 || !directory.path.starts_with(root) || !paths.insert(
            &directory.path,
        ) {
            return fail("recovery_needed", "transaction stage directory inventory is invalid");
        }
        j += 1;
    }
    assert(dirs.take(j as int) =~= dirs);
    let ghost listed_dirs = paths@;
    let mut k: usize = 0;
    assert(file_parts(files.take(0)) =~= Seq::<Seq<PathPart>>::empty());
    assert(paths@ =~= dir_parts(dirs) + file_parts(files.take(0)));
    while k < snapshot.files.len()
        invariant
            k <= snapshot.files.len(),
            dirs == snapshot@.directories,
            files == snapshot@.files,
            lists_root(snapshot@, root@),
            dirs_failure(dirs, root@) is None,
            files_failure(files.take(k as int), dirs, root@) is None,
            paths@ == dir_parts(dirs) + file_parts(files.take(k as int)),
        decreases snapshot.files.len() - k,
    {
        let file = &snapshot.files[k];
        proof {
            assert(files[k as int] == file@);
            assert(files.take(k + 1).drop_last() =~= files.take(k as int));
            assert(files.take(k + 1).last() == file@);
            assert(file_parts(files.take(k + 1)) =~= file_parts(files.take(k as int)).push(
                parts(file.path@),
            ));
            assert((dir_parts(dirs) + file_parts(files.take(k as int))).push(parts(file.path@))
                =~= dir_parts(dirs) + file_parts(files.take(k + 1)));
            lemma_joined_contains(
                dir_parts(dirs),
                file_parts(files.take(k as int)),
                parts(file.path@),
            );
            if files_failure(files.take(k + 1), dirs, root@) is Some {
                lemma_files_failure_stays(files, dirs, root@, k + 1);
            }
        }
        match require_absolute_normal(&file.path, "transaction stage file") {
            Ok(_) => {},
            Err(e) => {
                return Err(e);
            },
        }
        if (file.mode != 0o600 && file.mode != 0o700) || !is_hex_digits(file.sha256.as_str())
            || !file.path.starts_with(root) || !paths.insert(&file.path) {
            return fail("recovery_needed", "transaction stage file inventory is invalid");
        }
        k += 1;
    }
    assert(files.take(k as int) =~= files);
    Ok(())
}

/// What is wrong with the recorded snapshot of one file.
pub open spec fn owned_snapshot_failure(
    snapshot: Option<StageFileView>,
    path: Seq<u8>,
    mode: u32,
    digest: Seq<char>,
) -> Option<Failure> {
    match snapshot {
        None => Some(("recovery_needed"@, "transaction inode snapshot is absent"@)),
        Some(s) => match absolute_normal_failure(s.path, "transaction-owned file"@) {
            Some(f) => Some(f),
            None => match path_text_failure(s.path) {
                Some(f) => Some(f),
                None => if !same_path(s.path, path) || s.mode != mode || s.sha256 != digest
                    || !digest_ok(s.sha256) {
                    Some(("recovery_needed"@, "transaction inode snapshot is not exact"@))
                } else {
                    None
                },
            },
        },
    }
}

/// Checks the recorded snapshot of one file against what it must be.
pub fn validate_owned_snapshot_semantics(
    snapshot: &Option<OwnedStageFile>,
    path: &FsPath,
    mode: u32,
    digest: &str,
) -> (r: ManagedResult<()>)
    ensures
        failure(r) == owned_snapshot_failure(opt_file(*snapshot), path@, mode, digest@),
{
    match snapshot {
        None => fail("recovery_needed", "transaction inode snapshot is absent"),
        Some(s) => {
            match require_absolute_normal(&s.path, "transaction-owned file") {
                Ok(_) => {},
                Err(e) => {
                    return Err(e);
                },
            }
            match path_text(&s.path) {
                Ok(_) => {},
                Err(e) => {
                    return Err(e);
                },
            }
            if !s.path.same(path) || s.mode != mode || !text_eq(s.sha256.as_str(), digest)
                || !valid_digest(s.sha256.as_str()) {
                return fail("recovery_needed", "transaction inode snapshot is not exact");
            }
            Ok(())
        },
    }
}

/// The position of the first directory with the fewest components.
pub open spec fn shallowest(dirs: Seq<DirView>) -> int
    decreases dirs.len(),
{
    if dirs.len() <= 1 {
        0
    } else {
        let best = shallowest(dirs.drop_last());
        if parts(dirs.last().path).len() < parts(dirs[best].path).len() {
            dirs.len() - 1
        } else {
            best
        }
    }
}

/// The root of a snapshot: its first directory with the fewest components.
pub open spec fn snapshot_root(s: SnapshotView) -> Option<Seq<u8>> {
    if s.directories.len() == 0 {
        None
    } else {
        Some(s.directories[shallowest(s.directories)].path)
    }
}

/// The root of a snapshot.
pub fn stage_snapshot_root(snapshot: &StageSnapshot) -> (r: ManagedResult<FsPath>)
    ensures
        failure(r) == if snapshot@.directories.len() == 0 {
            Some(("recovery_needed"@, "stage snapshot is empty"@))
        } else {
            None
        },
        r is Ok ==> Some(r->Ok_0@) == snapshot_root(snapshot@),
{
    let ghost dirs = snapshot@.directories;
    if snapshot.directories.len() == 0 {
        return fail("recovery_needed", "stage snapshot is empty");
    }
    let mut best: usize = 0;
    let mut i: usize = 1;
    assert(shallowest(dirs.take(1)) == 0);
    while i < snapshot.directories.len()
        invariant
            1 <= i <= snapshot.directories.len(),
            dirs == snapshot@.directories,
            best < i,
            best == shallowest(dirs.take(i as int)),
        decreases snapshot.directories.len() - i,
    {
        assert(dirs.take(i + 1).drop_last() =~= dirs.take(i as int));
        assert(dirs[i as int] == snapshot.directories@[i as int]@);
        assert(dirs[best as int] == snapshot.directories@[best as int]@);
        assert(dirs.take(i + 1)[best as int] == dirs[best as int]);
        assert(dirs.take(i as int)[best as int] == dirs[best as int]);
        if snapshot.directories[i].path.depth() < snapshot.directories[best].path.depth() {
            best = i;
        }
        i += 1;
    }
    assert(dirs.take(i as int) =~= dirs);
    assert(dirs[best as int] == snapshot.directories@[best as int]@);
    Ok(snapshot.directories[best].path.copy())
}

/// A directory entry stands in a list.
pub open spec fn has_dir(dirs: Seq<DirView>, d: DirView) -> bool {
    exists|i: int| 0 <= i < dirs.len() && same_dir(#[trigger] dirs[i], d)
}

/// A file entry stands in a list.
pub open spec fn has_file(files: Seq<StageFileView>, f: StageFileView) -> bool {
    exists|i: int| 0 <= i < files.len() && same_file(#[trigger] files[i], f)
}

/// Two snapshots of trees at the same root.
pub open spec fn same_root(a: SnapshotView, b: SnapshotView) -> bool {
    snapshot_root(a) is Some && snapshot_root(b) is Some && same_path(
        snapshot_root(a)->0,
        snapshot_root(b)->0,
    )
}

/// A tree that has nothing but entries of an expected tree at the same root.
pub open spec fn exact_subset(expected: SnapshotView, current: SnapshotView) -> bool {
    &&& same_root(expected, current)
    &&& forall|i: int|
        0 <= i < current.directories.len() ==> has_dir(
            expected.directories,
            #[trigger] current.directories[i],
        )
    &&& forall|i: int|
        0 <= i < current.files.len() ==> has_file(expected.files, #[trigger] current.files[i])
}

fn contains_dir(dirs: &Vec<OwnedDirectory>, d: &OwnedDirectory) -> (r: bool)
    ensures
        r == has_dir(dir_views(dirs@), d@),
{
    let ghost views = dir_views(dirs@);
    let mut i: usize = 0;
    while i < dirs.len()
        invariant
            i <= dirs.len(),
            views == dir_views(dirs@),
            forall|k: int| 0 <= k < i ==> !same_dir(#[trigger] views[k], d@),
        decreases dirs.len() - i,
    {
        assert(views[i as int] == dirs@[i as int]@);
        if dirs[i].same(d) {
            return true;
        }
        i += 1;
    }
    false
}

fn contains_file(files: &Vec<OwnedStageFile>, f: &OwnedStageFile) -> (r: bool)
    ensures
        r == has_file(file_views(files@), f@),
{
    let ghost views = file_views(files@);
    let mut i: usize = 0;
    while i < files.len()
        invariant
            i <= files.len(),
            views == file_views(files@),
            forall|k: int| 0 <= k < i ==> !same_file(#[trigger] views[k], f@),
        decreases files.len() - i,
    {
        assert(views[i as int] == files@[i as int]@);
        if files[i].same(f) {
            return true;
        }
        i += 1;
    }
    false
}

fn roots_equal(a: &StageSnapshot, b: &StageSnapshot) -> (r: bool)
    ensures
        r == same_root(a@, b@),
{
    match stage_snapshot_root(a) {
        Ok(x) => match stage_snapshot_root(b) {
            Ok(y) => x.same(&y),
            Err(_) => false,
        },
        Err(_) => false,
    }
}

/// The key by which directories are sorted.
pub open spec fn dir_key() -> spec_fn(DirView) -> Seq<u8> {
    |d: DirView| d.path
}

/// The order in which the directories of a tree are removed: the deepest first.
pub open spec fn removal_order(s: SnapshotView) -> Seq<DirView> {
    sorted_by(SortOrder::DeepestFirst, s.directories, dir_key())
}

/// Plans the removal of a tree: its root, and its directories in the order in which
/// they go once its files are gone.
pub fn plan_stage_removal(snapshot: StageSnapshot) -> (r: ManagedResult<
    (FsPath, Vec<OwnedStageFile>, Vec<OwnedDirectory>),
>)
    ensures
        failure(r) == if snapshot@.directories.len() == 0 {
            Some(("recovery_needed"@, "stage snapshot is empty"@))
        } else {
            None
        },
        r is Ok ==> Some(r->Ok_0.0@) == snapshot_root(snapshot@),
        r is Ok ==> r->Ok_0.1 == snapshot.files,
        r is Ok ==> dir_views(r->Ok_0.2@) == removal_order(snapshot@),
{
    proof {
        lemma_sorted_map(
            SortOrder::DeepestFirst,
            snapshot.directories@,
            |d: OwnedDirectory| d@,
            location_key::<OwnedDirectory>(),
            dir_key(),
        );
    }
    let root = stage_snapshot_root(&snapshot)?;
    let directories = sort_located(SortOrder::DeepestFirst, snapshot.directories);
    Ok((root, snapshot.files, directories))
}

/// Whether a tree has nothing but entries of an expected tree at the same root.
pub fn stage_is_exact_subset(expected: &StageSnapshot, current: &StageSnapshot) -> (r: bool)
    ensures
        r == exact_subset(expected@, current@),
{
    if !roots_equal(expected, current) {
        return false;
    }
    let mut i: usize = 0;
    while i < current.directories.len()
        invariant
            i <= current.directories.len(),
            forall|k: int|
                0 <= k < i ==> has_dir(
                    expected@.directories,
                    #[trigger] current@.directories[k],
                ),
        decreases current.directories.len() - i,
    {
        if !contains_dir(&expected.directories, &current.directories[i]) {
            assert(!has_dir(expected@.directories, current@.directories[i as int]));
            return false;
        }
        i += 1;
    }
    let mut j: usize = 0;
    while j < current.files.len()
        invariant
            j <= current.files.len(),
            forall|k: int|
                0 <= k < j ==> has_file(expected@.files, #[trigger] current@.files[k]),
        decreases current.files.len() - j,
    {
        if !contains_file(&expected.files, &current.files[j]) {
            assert(!has_file(expected@.files, current@.files[j as int]));
            return false;
        }
        j += 1;
    }
    true
}

/// A snapshot of a tree that is yet to be made: no entry has an identity.
pub open spec fn planned_only(s: SnapshotView) -> bool {
    &&& forall|i: int|
        0 <= i < s.directories.len() ==> (#[trigger] s.directories[i]).device == 0
            && s.directories[i].inode == 0
    &&& forall|i: int|
        0 <= i < s.files.len() ==> (#[trigger] s.files[i]).device == 0 && s.files[i].inode == 0
}

/// Whether a snapshot is of a tree that is yet to be made.
pub fn rescue_stage_snapshot_is_planned(snapshot: &StageSnapshot) -> (r: bool)
    ensures
        r == planned_only(snapshot@),
{
    let mut i: usize = 0;
    while i < snapshot.directories.len()
        invariant
            i <= snapshot.directories.len(),
            forall|k: int|
                0 <= k < i ==> (#[trigger] snapshot@.directories[k]).device == 0
                    && snapshot@.directories[k].inode == 0,
        decreases snapshot.directories.len() - i,
    {
        assert(snapshot@.directories[i as int] == snapshot.directories@[i as int]@);
        if snapshot.directories[i].device != 0 || snapshot.directories[i].inode != 0 {
            return false;
        }
        i += 1;
    }
    let mut j: usize = 0;
    while j < snapshot.files.len()
        invariant
            j <= snapshot.files.len(),
            forall|k: int|
                0 <= k < j ==> (#[trigger] snapshot@.files[k]).device == 0
                    && snapshot@.files[k].inode == 0,
        decreases snapshot.files.len() - j,
    {
        assert(snapshot@.files[j as int] == snapshot.files@[j as int]@);
        if snapshot.files[j].device != 0 || snapshot.files[j].inode != 0 {
            return false;
        }
        j += 1;
    }
    true
}

/// A directory is planned at a path, with a mode.
pub open spec fn plans_dir(dirs: Seq<DirView>, d: DirView) -> bool {
    exists|i: int|
        0 <= i < dirs.len() && same_path((#[trigger] dirs[i]).path, d.path) && dirs[i].mode
            == d.mode
}

/// A file is planned at a path, with a mode.
pub open spec fn plans_file(files: Seq<StageFileView>, f: StageFileView) -> bool {
    exists|i: int|
        0 <= i < files.len() && same_path((#[trigger] files[i]).path, f.path) && files[i].mode
            == f.mode
}

/// A tree that has nothing but what was planned for the same root.
pub open spec fn planned_subset(planned: SnapshotView, current: SnapshotView) -> bool {
    &&& planned_only(planned)
    &&& same_root(planned, current)
    &&& forall|i: int|
        0 <= i < current.directories.len() ==> plans_dir(
            planned.directories,
            #[trigger] current.directories[i],
        )
    &&& forall|i: int|
        0 <= i < current.files.len() ==> plans_file(planned.files, #[trigger] current.files[i])
}

fn is_planned_dir(dirs: &Vec<OwnedDirectory>, d: &OwnedDirectory) -> (r: bool)
    ensures
        r == plans_dir(dir_views(dirs@), d@),
{
    let ghost views = dir_views(dirs@);
    let mut i: usize = 0;
    while i < dirs.len()
        invariant
            i <= dirs.len(),
            views == dir_views(dirs@),
            forall|k: int|
                0 <= k < i ==> !(same_path((#[trigger] views[k]).path, d@.path) && views[k].mode
                    == d@.mode),
        decreases dirs.len() - i,
    {
        assert(views[i as int] == dirs@[i as int]@);
        if dirs[i].mode == d.mode && dirs[i].path.same(&d.path) {
            return true;
        }
        i += 1;
    }
    false
}

fn is_planned_file(files: &Vec<OwnedStageFile>, f: &OwnedStageFile) -> (r: bool)
    ensures
        r == plans_file(file_views(files@), f@),
{
    let ghost views = file_views(files@);
    let mut i: usize = 0;
    while i < files.len()
        invariant
            i <= files.len(),
            views == file_views(files@),
            forall|k: int|
                0 <= k < i ==> !(same_path((#[trigger] views[k]).path, f@.path) && views[k].mode
                    == f@.mode),
        decreases files.len() - i,
    {
        assert(views[i as int] == files@[i as int]@);
        if files[i].mode == f.mode && files[i].path.same(&f.path) {
            return true;
        }
        i += 1;
    }
    false
}

/// Whether a tree has nothing but what was planned for the same root.
pub fn planned_stage_is_exact_subset(planned: &StageSnapshot, current: &StageSnapshot) -> (r: bool)
    ensures
        r == planned_subset(planned@, current@),
{
    if !roots_equal(planned, current) || !rescue_stage_snapshot_is_planned(planned) {
        return false;
    }
    let mut i: usize = 0;
    while i < current.directories.len()
        invariant
            i <= current.directories.len(),
            forall|k: int|
                0 <= k < i ==> plans_dir(
                    planned@.directories,
                    #[trigger] current@.directories[k],
                ),
        decreases current.directories.len() - i,
    {
        if !is_planned_dir(&planned.directories, &current.directories[i]) {
            assert(!plans_dir(planned@.directories, current@.directories[i as int]));
            return false;
        }
        i += 1;
    }
    let mut j: usize = 0;
    while j < current.files.len()
        invariant
            j <= current.files.len(),
            forall|k: int|
                0 <= k < j ==> plans_file(planned@.files, #[trigger] current@.files[k]),
        decreases current.files.len() - j,
    {
        if !is_planned_file(&planned.files, &current.files[j]) {
            assert(!plans_file(planned@.files, current@.files[j as int]));
            return false;
        }
        j += 1;
    }
    true
}

/// A file is listed at a path with a mode and a digest.
pub open spec fn lists_file(files: Seq<StageFileView>, f: StageFileView) -> bool {
    exists|i: int|
        0 <= i < files.len() && same_path((#[trigger] files[i]).path, f.path) && files[i].mode
            == f.mode && files[i].sha256 == f.sha256
}

/// Two snapshots of as many entries in which every entry of the first has one in
/// the second, whatever their identities.
pub open spec fn inventory_matches(left: SnapshotView, right: SnapshotView) -> bool {
    &&& left.directories.len() == right.directories.len()
    &&& left.files.len() == right.files.len()
    &&& forall|i: int|
        0 <= i < left.directories.len() ==> plans_dir(
            right.directories,
            #[trigger] left.directories[i],
        )
    &&& forall|i: int|
        0 <= i < left.files.len() ==> lists_file(right.files, #[trigger] left.files[i])
}

fn is_listed_file(files: &Vec<OwnedStageFile>, f: &OwnedStageFile) -> (r: bool)
    ensures
        r == lists_file(file_views(files@), f@),
{
    let ghost views = file_views(files@);
    let mut i: usize = 0;
    while i < files.len()
        invariant
            i <= files.len(),
            views == file_views(files@),
            forall|k: int|
                0 <= k < i ==> !(same_path((#[trigger] views[k]).path, f@.path) && views[k].mode
                    == f@.mode && views[k].sha256 == f@.sha256),
        decreases files.len() - i,
    {
        assert(views[i as int] == files@[i as int]@);
        if files[i].mode == f.mode && files[i].path.same(&f.path) && text_eq(
            files[i].sha256.as_str(),
            f.sha256.as_str(),
        ) {
            return true;
        }
        i += 1;
    }
    false
}

/// Whether two snapshots list the same, whatever the identities.
pub fn rescue_snapshot_inventory_matches(left: &StageSnapshot, right: &StageSnapshot) -> (r: bool)
    ensures
        r == inventory_matches(left@, right@),
{
    if left.directories.len() != right.directories.len() || left.files.len() != right.files.len() {
        return false;
    }
    let mut i: usize = 0;
    while i < left.directories.len()
        invariant
            i <= left.directories.len(),
            forall|k: int|
                0 <= k < i ==> plans_dir(right@.directories, #[trigger] left@.directories[k]),
        decreases left.directories.len() - i,
    {
        if !is_planned_dir(&right.directories, &left.directories[i]) {
            assert(!plans_dir(right@.directories, left@.directories[i as int]));
            return false;
        }
        i += 1;
    }
    let mut j: usize = 0;
    while j < left.files.len()
        invariant
            j <= left.files.len(),
            forall|k: int| 0 <= k < j ==> lists_file(right@.files, #[trigger] left@.files[k]),
        decreases left.files.len() - j,
    {
        if !is_listed_file(&right.files, &left.files[j]) {
            assert(!lists_file(right@.files, left@.files[j as int]));
            return false;
        }
        j += 1;
    }
    true
}

/// A path moved from below one directory to below another.
pub open spec fn moved(p: Seq<u8>, source: Seq<u8>, destination: Seq<u8>) -> Seq<u8> {
    join(destination, relative_to(p, source))
}

/// A snapshot moved from below one directory to below another.
pub open spec fn moved_snapshot(s: SnapshotView, source: Seq<u8>, destination: Seq<u8>) -> SnapshotView {
    SnapshotView {
        directories: s.directories.map_values(
            |d: DirView| DirView { path: moved(d.path, source, destination), ..d },
        ),
        files: s.files.map_values(
            |f: StageFileView| StageFileView { path: moved(f.path, source, destination), ..f },
        ),
    }
}

/// Every entry of a snapshot lies at or below a directory.
pub open spec fn all_under(s: SnapshotView, base: Seq<u8>) -> bool {
    &&& forall|i: int|
        0 <= i < s.directories.len() ==> path_under((#[trigger] s.directories[i]).path, base)
    &&& forall|i: int| 0 <= i < s.files.len() ==> path_under((#[trigger] s.files[i]).path, base)
}

/// What a snapshot becomes when its tree is moved, or why it cannot be moved.
pub open spec fn relocation(s: SnapshotView, source: Seq<u8>, destination: Seq<u8>) -> Result<
    SnapshotView,
    Failure,
> {
    if all_under(s, source) {
        Ok(moved_snapshot(s, source, destination))
    } else {
        Err(
            (
                "recovery_needed"@,
                "transaction snapshot path escaped its publication source"@,
            ),
        )
    }
}

/// Two paths below a directory have different components after a move if they had
/// different ones before.
proof fn lemma_moved_apart(a: Seq<u8>, b: Seq<u8>, source: Seq<u8>, destination: Seq<u8>)
    requires
        absolute_normal(a),
        absolute_normal(b),
        is_absolute(source),
        path_under(a, source),
        path_under(b, source),
        absolute_normal(destination),
    ensures
        same_path(moved(a, source, destination), moved(b, source, destination)) == same_path(a, b),
{
    law_moving_keeps_what_is_below(a, source, destination);
    law_moving_keeps_what_is_below(b, source, destination);
    let n = parts(source).len() as int;
    let d = parts(destination);
    if same_path(moved(a, source, destination), moved(b, source, destination)) {
        let x = d + parts(a).skip(n);
        let y = d + parts(b).skip(n);
        assert(parts(a).skip(n) =~= x.skip(d.len() as int));
        assert(parts(b).skip(n) =~= y.skip(d.len() as int));
        assert(parts(a) =~= parts(a).take(n) + parts(a).skip(n));
        assert(parts(b) =~= parts(b).take(n) + parts(b).skip(n));
    }
}

pub proof fn lemma_sound_dirs(dirs: Seq<DirView>, root: Seq<u8>, i: int)
    requires
        dirs_failure(dirs, root) is None,
        0 <= i < dirs.len(),
    ensures
        absolute_normal(dirs[i].path),
        dirs[i].mode == 0o700,
        path_under(dirs[i].path, root),
    decreases dirs.len(),
{
    if i < dirs.len() - 1 {
        lemma_sound_dirs(dirs.drop_last(), root, i);
        assert(dirs.drop_last()[i] == dirs[i]);
    }
}

proof fn lemma_sound_files(files: Seq<StageFileView>, dirs: Seq<DirView>, root: Seq<u8>, i: int)
    requires
        files_failure(files, dirs, root) is None,
        0 <= i < files.len(),
    ensures
        absolute_normal(files[i].path),
        path_under(files[i].path, root),
    decreases files.len(),
{
    if i < files.len() - 1 {
        lemma_sound_files(files.drop_last(), dirs, root, i);
        assert(files.drop_last()[i] == files[i]);
    }
}

/// Directories that were moved.
pub open spec fn moved_dirs(dirs: Seq<DirView>, source: Seq<u8>, destination: Seq<u8>) -> Seq<
    DirView,
> {
    dirs.map_values(|d: DirView| DirView { path: moved(d.path, source, destination), ..d })
}

/// Files that were moved.
pub open spec fn moved_files(files: Seq<StageFileView>, source: Seq<u8>, destination: Seq<u8>) -> Seq<
    StageFileView,
> {
    files.map_values(
        |f: StageFileView| StageFileView { path: moved(f.path, source, destination), ..f },
    )
}

proof fn lemma_moved_dirs(dirs: Seq<DirView>, source: Seq<u8>, destination: Seq<u8>)
    requires
        is_absolute(source),
        absolute_normal(destination),
        dirs_failure(dirs, source) is None,
    ensures
        dirs_failure(moved_dirs(dirs, source, destination), destination) is None,
    decreases dirs.len(),
{
    let there = moved_dirs(dirs, source, destination);
    if dirs.len() > 0 {
        let front = dirs.drop_last();
        lemma_moved_dirs(front, source, destination);
        assert(there.drop_last() =~= moved_dirs(front, source, destination));
        let d = dirs.last();
        law_moving_keeps_what_is_below(d.path, source, destination);
        let before = dir_parts(there.drop_last());
        if before.contains(parts(there.last().path)) {
            let k = choose|k: int| 0 <= k < before.len() && before[k] == parts(there.last().path);
            lemma_sound_dirs(front, source, k);
            lemma_moved_apart(front[k].path, d.path, source, destination);
            assert(dir_parts(front)[k] == parts(front[k].path));
            assert(dir_parts(front).contains(parts(d.path)));
        }
    }
}

proof fn lemma_moved_files(
    files: Seq<StageFileView>,
    dirs: Seq<DirView>,
    source: Seq<u8>,
    destination: Seq<u8>,
)
    requires
        is_absolute(source),
        absolute_normal(destination),
        dirs_failure(dirs, source) is None,
        files_failure(files, dirs, source) is None,
    ensures
        files_failure(
            moved_files(files, source, destination),
            moved_dirs(dirs, source, destination),
            destination,
        ) is None,
    decreases files.len(),
{
    let there = moved_files(files, source, destination);
    let dirs_there = moved_dirs(dirs, source, destination);
    if files.len() > 0 {
        let front = files.drop_last();
        lemma_moved_files(front, dirs, source, destination);
        assert(there.drop_last() =~= moved_files(front, source, destination));
        let f = files.last();
        law_moving_keeps_what_is_below(f.path, source, destination);
        let before = file_parts(there.drop_last());
        if before.contains(parts(there.last().path)) {
            let k = choose|k: int| 0 <= k < before.len() && before[k] == parts(there.last().path);
            lemma_sound_files(front, dirs, source, k);
            lemma_moved_apart(front[k].path, f.path, source, destination);
            assert(file_parts(front)[k] == parts(front[k].path));
            assert(file_parts(front).contains(parts(f.path)));
        }
        let beside = dir_parts(dirs_there);
        if beside.contains(parts(there.last().path)) {
            let k = choose|k: int| 0 <= k < beside.len() && beside[k] == parts(there.last().path);
            lemma_sound_dirs(dirs, source, k);
            lemma_moved_apart(dirs[k].path, f.path, source, destination);
            assert(dir_parts(dirs)[k] == parts(dirs[k].path));
            assert(dir_parts(dirs).contains(parts(f.path)));
        }
    }
}

/// A tree that is moved as a whole stays a sound one: a snapshot that is valid for a
/// directory is valid, moved, for the directory that this becomes.
pub proof fn law_moved_snapshot_stays_valid(
    s: SnapshotView,
    source: Seq<u8>,
    destination: Seq<u8>,
)
    requires
        is_absolute(source),
        absolute_normal(destination),
        snapshot_failure(source, s) is None,
    ensures
        relocation(s, source, destination) == Ok::<SnapshotView, Failure>(
            moved_snapshot(s, source, destination),
        ),
        snapshot_failure(destination, moved_snapshot(s, source, destination)) is None,
{
    let there = moved_snapshot(s, source, destination);
    assert(there.directories =~= moved_dirs(s.directories, source, destination));
    assert(there.files =~= moved_files(s.files, source, destination));
    lemma_moved_dirs(s.directories, source, destination);
    lemma_moved_files(s.files, s.directories, source, destination);
    assert forall|i: int| 0 <= i < s.directories.len() implies path_under(
        (#[trigger] s.directories[i]).path,
        source,
    ) by {
        lemma_sound_dirs(s.directories, source, i);
    }
    assert forall|i: int| 0 <= i < s.files.len() implies path_under(
        (#[trigger] s.files[i]).path,
        source,
    ) by {
        lemma_sound_files(s.files, s.directories, source, i);
    }
    let k = choose|k: int|
        0 <= k < s.directories.len() && same_path(#[trigger] s.directories[k].path, source);
    lemma_sound_dirs(s.directories, source, k);
    law_moving_keeps_what_is_below(s.directories[k].path, source, destination);
    assert(parts(destination) + parts(s.directories[k].path).skip(parts(source).len() as int)
        =~= parts(destination));
    assert(same_path(there.directories[k].path, destination));
}

/// A path that starts with a step, so that it means the same wherever it is appended.
pub open spec fn starts_with_step(p: Seq<u8>) -> bool {
    parts(p).len() > 0 ==> step_ok(parts(p)[0])
}

/// Every entry of a snapshot has a path that starts with a step.
pub open spec fn all_steps(s: SnapshotView) -> bool {
    &&& forall|i: int|
        0 <= i < s.directories.len() ==> starts_with_step((#[trigger] s.directories[i]).path)
    &&& forall|i: int| 0 <= i < s.files.len() ==> starts_with_step((#[trigger] s.files[i]).path)
}

proof fn lemma_moved_back(p: Seq<u8>, source: Seq<u8>, destination: Seq<u8>)
    requires
        path_under(p, source),
        source.len() > 0 || destination.len() == 0 || starts_with_step(p),
    ensures
        path_under(moved(p, source, destination), destination),
        same_path(moved(moved(p, source, destination), destination, source), p),
{
    let at = parts(source).len() as int;
    let below = parts(p).skip(at);
    let there = moved(p, source, destination);
    let onward = parts(there).skip(parts(destination).len() as int);
    if source.len() > 0 || starts_with_step(p) {
        assert forall|i: int| 0 <= i < below.len() implies step_ok(#[trigger] below[i]) by {
            assert(below[i] == parts(p)[at + i]);
            if source.len() > 0 {
                law_what_is_below_goes_on_in_steps(p, source, at + i);
            } else if i + at > 0 {
                lemma_later_components(p, at + i);
            }
        }
        lemma_joined_render(destination, below);
        assert(onward =~= below);
        lemma_joined_render(source, below);
        assert(parts(source) + below =~= parts(p));
        assert(parts(there).take(parts(destination).len() as int) =~= parts(destination));
    } else {
        lemma_no_components();
        assert(source =~= Seq::<u8>::empty());
        assert(destination =~= Seq::<u8>::empty());
        assert(below =~= parts(p));
        law_path_is_made_of_its_components(p);
        assert(there =~= render(parts(p)));
        assert(onward =~= parts(p));
        assert(moved(there, destination, source) =~= there);
    }
}

/// A snapshot that is moved to another directory and back is the snapshot that it was.
/// It is left open only where what is moved lies below no directory at all and its
/// paths start elsewhere.
pub proof fn law_moving_back_restores_the_snapshot(
    s: SnapshotView,
    source: Seq<u8>,
    destination: Seq<u8>,
)
    requires
        all_under(s, source),
        source.len() > 0 || destination.len() == 0 || all_steps(s),
    ensures
        relocation(s, source, destination) == Ok::<SnapshotView, Failure>(
            moved_snapshot(s, source, destination),
        ),
        relocation(moved_snapshot(s, source, destination), destination, source) is Ok,
        same_snapshot(
            relocation(moved_snapshot(s, source, destination), destination, source)->Ok_0,
            s,
        ),
{
    let there = moved_snapshot(s, source, destination);
    assert forall|i: int| 0 <= i < there.directories.len() implies path_under(
        (#[trigger] there.directories[i]).path,
        destination,
    ) by {
        lemma_moved_back(s.directories[i].path, source, destination);
    }
    assert forall|i: int| 0 <= i < there.files.len() implies path_under(
        (#[trigger] there.files[i]).path,
        destination,
    ) by {
        lemma_moved_back(s.files[i].path, source, destination);
    }
    let back = moved_snapshot(there, destination, source);
    assert forall|i: int| 0 <= i < s.directories.len() implies same_dir(
        #[trigger] back.directories[i],
        s.directories[i],
    ) by {
        lemma_moved_back(s.directories[i].path, source, destination);
    }
    assert forall|i: int| 0 <= i < s.files.len() implies same_file(
        #[trigger] back.files[i],
        s.files[i],
    ) by {
        lemma_moved_back(s.files[i].path, source, destination);
    }
}

fn relocate_path(p: &FsPath, source: &FsPath, destination: &FsPath) -> (r: Option<FsPath>)
    ensures
        r is Some == path_under(p@, source@),
        r is Some ==> r->0@ == moved(p@, source@, destination@),
{
    match strip_prefix(p, source) {
        Some(relative) => Some(destination.join_bytes(relative.bytes.as_slice())),
        None => None,
    }
}

/// What a snapshot becomes when its tree is moved.
pub fn relocate_stage_snapshot(
    snapshot: &StageSnapshot,
    source: &FsPath,
    destination: &FsPath,
) -> (r: ManagedResult<StageSnapshot>)
    ensures
        crate::error::outcome(r) == relocation(snapshot@, source@, destination@),
{
    let ghost expected = moved_snapshot(snapshot@, source@, destination@);
    let mut directories: Vec<OwnedDirectory> = Vec::new();
    let mut i: usize = 0;
    while i < snapshot.directories.len()
        invariant
            i <= snapshot.directories.len(),
            directories@.len() == i,
            expected == moved_snapshot(snapshot@, source@, destination@),
            forall|k: int|
                0 <= k < i ==> path_under(
                    (#[trigger] snapshot@.directories[k]).path,
                    source@,
                ),
            forall|k: int| 0 <= k < i ==> (#[trigger] directories@[k])@ == expected.directories[k],
        decreases snapshot.directories.len() - i,
    {
        let directory = &snapshot.directories[i];
        assert(snapshot@.directories[i as int] == directory@);
        let Some(path) = relocate_path(&directory.path, source, destination) else {
            return fail(
                "recovery_needed",
                "transaction snapshot path escaped its publication source",
            );
        };
        directories.push(
            OwnedDirectory {
                path,
                device: directory.device,
                inode: directory.inode,
                mode: directory.mode,
            },
        );
        i += 1;
    }
    let mut files: Vec<OwnedStageFile> = Vec::new();
    let mut j: usize = 0;
    while j < snapshot.files.len()
        invariant
            j <= snapshot.files.len(),
            files@.len() == j,
            expected == moved_snapshot(snapshot@, source@, destination@),
            forall|k: int|
                0 <= k < j ==> path_under((#[trigger] snapshot@.files[k]).path, source@),
            forall|k: int| 0 <= k < j ==> (#[trigger] files@[k])@ == expected.files[k],
        decreases snapshot.files.len() - j,
    {
        let file = &snapshot.files[j];
        assert(snapshot@.files[j as int] == file@);
        let Some(path) = relocate_path(&file.path, source, destination) else {
            return fail(
                "recovery_needed",
                "transaction snapshot path escaped its publication source",
            );
        };
        files.push(
            OwnedStageFile {
                path,
                device: file.device,
                inode: file.inode,
                mode: file.mode,
                sha256: file.sha256.clone(),
            },
        );
        j += 1;
    }
    assert(dir_views(directories@) =~= expected.directories);
    assert(file_views(files@) =~= expected.files);
    Ok(StageSnapshot { directories, files })
}

/// A tree of which entries were removed, but not the root, still has nothing but
/// entries of the expected tree.
pub proof fn law_subset_survives_removals(
    expected: SnapshotView,
    current: SnapshotView,
    later: SnapshotView,
)
    requires
        exact_subset(expected, current),
        same_root(current, later),
        forall|i: int|
            0 <= i < later.directories.len() ==> has_dir(
                current.directories,
                #[trigger] later.directories[i],
            ),
        forall|i: int|
            0 <= i < later.files.len() ==> has_file(current.files, #[trigger] later.files[i]),
    ensures
        exact_subset(expected, later),
{
    assert forall|i: int| 0 <= i < later.directories.len() implies has_dir(
        expected.directories,
        #[trigger] later.directories[i],
    ) by {
        let d = later.directories[i];
        let j = choose|j: int|
            0 <= j < current.directories.len() && same_dir(#[trigger] current.directories[j], d);
        let k = choose|k: int|
            0 <= k < expected.directories.len() && same_dir(
                #[trigger] expected.directories[k],
                current.directories[j],
            );
        assert(same_dir(expected.directories[k], d));
    }
    assert forall|i: int| 0 <= i < later.files.len() implies has_file(
        expected.files,
        #[trigger] later.files[i],
    ) by {
        let f = later.files[i];
        let j = choose|j: int|
            0 <= j < current.files.len() && same_file(#[trigger] current.files[j], f);
        let k = choose|k: int|
            0 <= k < expected.files.len() && same_file(
                #[trigger] expected.files[k],
                current.files[j],
            );
        assert(same_file(expected.files[k], f));
    }
}

/// A tree is a subset of itself, so a cleanup that has removed nothing yet may
/// go on.
pub proof fn law_tree_is_its_own_subset(s: SnapshotView)
    requires
        s.directories.len() > 0,
    ensures
        exact_subset(s, s),
{
    assert forall|i: int| 0 <= i < s.directories.len() implies has_dir(
        s.directories,
        #[trigger] s.directories[i],
    ) by {
        assert(same_dir(s.directories[i], s.directories[i]));
    }
    assert forall|i: int| 0 <= i < s.files.len() implies has_file(
        s.files,
        #[trigger] s.files[i],
    ) by {
        assert(same_file(s.files[i], s.files[i]));
    }
}

/// Cleanup never touches an entry that the expected tree does not list: a tree
/// with such a file is no subset.
pub proof fn law_unowned_file_blocks_cleanup(expected: SnapshotView, current: SnapshotView, i: int)
    requires
        0 <= i < current.files.len(),
        !has_file(expected.files, current.files[i]),
    ensures
        !exact_subset(expected, current),
{
}

/// Two directories or two files are the same just when they are so but for how their
/// paths are spelled.
pub proof fn law_entries_are_compared_whole(
    a: DirView,
    b: DirView,
    f: StageFileView,
    g: StageFileView,
)
    ensures
        same_dir(a, b) <==> parts(a.path) == parts(b.path) && b == (DirView { path: b.path, ..a }),
        same_file(f, g) <==> parts(f.path) == parts(g.path) && g == (StageFileView {
            path: g.path,
            ..f
        }),
{
}

/// A sound snapshot lists the root of its tree, and directories and files at or below it
/// alone, all at different absolute paths; its directories are private, and so are its
/// files, each with a digest.
pub proof fn law_sound_snapshots_are_of_one_tree(root: Seq<u8>, s: SnapshotView)
    ensures
        snapshot_failure(root, s) is None <==> {
            &&& exists|i: int|
                0 <= i < s.directories.len() && parts((#[trigger] s.directories[i]).path) == parts(
                    root,
                )
            &&& forall|i: int|
                0 <= i < s.directories.len() ==> absolute_normal((#[trigger] s.directories[i]).path)
                    && s.directories[i].mode == 0o700 && path_under(s.directories[i].path, root)
            &&& forall|i: int|
                0 <= i < s.files.len() ==> absolute_normal((#[trigger] s.files[i]).path) && (
                s.files[i].mode == 0o600 || s.files[i].mode == 0o700) && hex_digits(
                    s.files[i].sha256,
                ) && path_under(s.files[i].path, root)
            &&& forall|i: int, j: int|
                0 <= i < j < s.directories.len() ==> parts((#[trigger] s.directories[i]).path)
                    != parts((#[trigger] s.directories[j]).path)
            &&& forall|i: int, j: int|
                0 <= i < j < s.files.len() ==> parts((#[trigger] s.files[i]).path) != parts(
                    (#[trigger] s.files[j]).path,
                )
            &&& forall|i: int, j: int|
                0 <= i < s.directories.len() && 0 <= j < s.files.len() ==> parts(
                    (#[trigger] s.directories[i]).path,
                ) != parts((#[trigger] s.files[j]).path)
        },
{
    lemma_dirs_of_one_tree(s.directories, root);
    lemma_files_of_one_tree(s.files, s.directories, root);
    assert(forall|i: int|
        0 <= i < s.directories.len() ==> (#[trigger] s.directories[i].path)
            == s.directories[i].path);
    if exists|i: int|
        0 <= i < s.directories.len() && parts((#[trigger] s.directories[i]).path) == parts(root) {
        let i = choose|i: int|
            0 <= i < s.directories.len() && parts((#[trigger] s.directories[i]).path) == parts(
                root,
            );
        assert(same_path(s.directories[i].path, root));
    }
    if lists_root(s, root) {
        let i = choose|i: int|
            0 <= i < s.directories.len() && same_path(#[trigger] s.directories[i].path, root);
        assert(parts((s.directories[i]).path) == parts(root));
    }
}

proof fn lemma_dirs_of_one_tree(dirs: Seq<DirView>, root: Seq<u8>)
    ensures
        dirs_failure(dirs, root) is None <==> ((forall|i: int|
            0 <= i < dirs.len() ==> absolute_normal((#[trigger] dirs[i]).path) && dirs[i].mode
                == 0o700 && path_under(dirs[i].path, root)) && (forall|i: int, j: int|
            0 <= i < j < dirs.len() ==> parts((#[trigger] dirs[i]).path) != parts(
                (#[trigger] dirs[j]).path,
            ))),
    decreases dirs.len(),
{
    if dirs.len() > 0 {
        let front = dirs.drop_last();
        let last = dirs.last();
        let n = dirs.len() - 1;
        lemma_dirs_of_one_tree(front, root);
        assert(forall|i: int| 0 <= i < n ==> #[trigger] front[i] == dirs[i]);
        assert(dirs[n] == last);
        let paths = dir_parts(front);
        assert(paths.contains(parts(last.path)) <==> exists|i: int|
            0 <= i < n && parts((#[trigger] dirs[i]).path) == parts(last.path)) by {
            if paths.contains(parts(last.path)) {
                let i = paths.index_of(parts(last.path));
                assert(parts(dirs[i].path) == parts(last.path));
            }
            if exists|i: int| 0 <= i < n && parts((#[trigger] dirs[i]).path) == parts(last.path) {
                let i = choose|i: int|
                    0 <= i < n && parts((#[trigger] dirs[i]).path) == parts(last.path);
                assert(paths[i] == parts(last.path));
            }
        }
        if dirs_failure(dirs, root) is None {
            assert forall|i: int, j: int| 0 <= i < j < dirs.len() implies parts(
                (#[trigger] dirs[i]).path,
            ) != parts((#[trigger] dirs[j]).path) by {
                if j < n {
                    assert(front[i] == dirs[i] && front[j] == dirs[j]);
                }
            }
            assert forall|i: int| 0 <= i < dirs.len() implies absolute_normal(
                (#[trigger] dirs[i]).path,
            ) && dirs[i].mode == 0o700 && path_under(dirs[i].path, root) by {
                if i < n {
                    assert(front[i] == dirs[i]);
                }
            }
        }
    }
}

proof fn lemma_files_of_one_tree(files: Seq<StageFileView>, dirs: Seq<DirView>, root: Seq<u8>)
    ensures
        files_failure(files, dirs, root) is None <==> ((forall|i: int|
            0 <= i < files.len() ==> absolute_normal((#[trigger] files[i]).path) && (files[i].mode
                == 0o600 || files[i].mode == 0o700) && hex_digits(files[i].sha256) && path_under(
                files[i].path,
                root,
            )) && (forall|i: int, j: int|
            0 <= i < j < files.len() ==> parts((#[trigger] files[i]).path) != parts(
                (#[trigger] files[j]).path,
            )) && (forall|i: int, j: int|
            0 <= i < dirs.len() && 0 <= j < files.len() ==> parts((#[trigger] dirs[i]).path)
                != parts((#[trigger] files[j]).path))),
    decreases files.len(),
{
    if files.len() > 0 {
        let front = files.drop_last();
        let last = files.last();
        let n = files.len() - 1;
        lemma_files_of_one_tree(front, dirs, root);
        assert(forall|i: int| 0 <= i < n ==> #[trigger] front[i] == files[i]);
        assert(files[n] == last);
        let paths = file_parts(front);
        assert(paths.contains(parts(last.path)) <==> exists|i: int|
            0 <= i < n && parts((#[trigger] files[i]).path) == parts(last.path)) by {
            if paths.contains(parts(last.path)) {
                let i = paths.index_of(parts(last.path));
                assert(parts(files[i].path) == parts(last.path));
            }
            if exists|i: int| 0 <= i < n && parts((#[trigger] files[i]).path) == parts(last.path) {
                let i = choose|i: int|
                    0 <= i < n && parts((#[trigger] files[i]).path) == parts(last.path);
                assert(paths[i] == parts(last.path));
            }
        }
        let above = dir_parts(dirs);
        assert(above.contains(parts(last.path)) <==> exists|i: int|
            0 <= i < dirs.len() && parts((#[trigger] dirs[i]).path) == parts(last.path)) by {
            if above.contains(parts(last.path)) {
                let i = above.index_of(parts(last.path));
                assert(parts(dirs[i].path) == parts(last.path));
            }
            if exists|i: int|
                0 <= i < dirs.len() && parts((#[trigger] dirs[i]).path) == parts(last.path) {
                let i = choose|i: int|
                    0 <= i < dirs.len() && parts((#[trigger] dirs[i]).path) == parts(last.path);
                assert(above[i] == parts(last.path));
            }
        }
        if files_failure(files, dirs, root) is None {
            assert forall|i: int| 0 <= i < files.len() implies absolute_normal(
                (#[trigger] files[i]).path,
            ) && (files[i].mode == 0o600 || files[i].mode == 0o700) && hex_digits(files[i].sha256)
                && path_under(files[i].path, root) by {
                if i < n {
                    assert(front[i] == files[i]);
                }
            }
            assert forall|i: int, j: int| 0 <= i < j < files.len() implies parts(
                (#[trigger] files[i]).path,
            ) != parts((#[trigger] files[j]).path) by {
                if j < n {
                    assert(front[i] == files[i] && front[j] == files[j]);
                }
            }
            assert forall|i: int, j: int| 0 <= i < dirs.len() && 0 <= j < files.len() implies parts(
                (#[trigger] dirs[i]).path,
            ) != parts((#[trigger] files[j]).path) by {
                if j < n {
                    assert(front[j] == files[j]);
                }
            }
        }
    }
}

/// The snapshot of one file is exact just when it is at the wanted path, which can be
/// stored, and has the wanted mode and the wanted digest.
pub proof fn law_exact_files_are_the_wanted_ones(
    snapshot: Option<StageFileView>,
    path: Seq<u8>,
    mode: u32,
    digest: Seq<char>,
)
    ensures
        owned_snapshot_failure(snapshot, path, mode, digest) is None <==> (snapshot is Some
            && absolute_normal(snapshot->0.path) && path_text_failure(snapshot->0.path) is None
            && parts(snapshot->0.path) == parts(path) && snapshot->0.mode == mode
            && snapshot->0.sha256 == digest && digest_ok(digest)),
{
}

/// The root of a snapshot is the path of one of its directories, and no directory has
/// fewer components.
pub proof fn law_the_root_lies_above(s: SnapshotView, i: int)
    requires
        0 <= i < s.directories.len(),
    ensures
        snapshot_root(s) is Some,
        exists|k: int|
            0 <= k < s.directories.len() && (#[trigger] s.directories[k]).path == snapshot_root(
                s,
            )->0,
        parts(snapshot_root(s)->0).len() <= parts(s.directories[i].path).len(),
{
    lemma_shallowest_first(s.directories, i);
    assert(s.directories[shallowest(s.directories)].path == snapshot_root(s)->0);
}

proof fn lemma_shallowest_first(dirs: Seq<DirView>, i: int)
    requires
        0 <= i < dirs.len(),
    ensures
        0 <= shallowest(dirs) < dirs.len(),
        parts(dirs[shallowest(dirs)].path).len() <= parts(dirs[i].path).len(),
    decreases dirs.len(),
{
    if dirs.len() > 1 {
        let front = dirs.drop_last();
        if i < front.len() {
            lemma_shallowest_first(front, i);
        } else {
            lemma_shallowest_first(front, 0);
        }
        assert(front[shallowest(front)] == dirs[shallowest(front)]);
    }
}

/// A part of a tree has each of its entries from the tree, the very same; a part of a
/// plan has its entries where they are planned and with the modes that are planned.
pub proof fn law_parts_of_trees_have_nothing_else(
    expected: SnapshotView,
    current: SnapshotView,
    i: int,
)
    ensures
        exact_subset(expected, current) && 0 <= i < current.directories.len() ==> exists|k: int|
            0 <= k < expected.directories.len() && same_dir(
                #[trigger] expected.directories[k],
                current.directories[i],
            ),
        exact_subset(expected, current) && 0 <= i < current.files.len() ==> exists|k: int|
            0 <= k < expected.files.len() && same_file(
                #[trigger] expected.files[k],
                current.files[i],
            ),
        planned_subset(expected, current) && 0 <= i < current.directories.len() ==> exists|k: int|
            0 <= k < expected.directories.len() && parts(
                (#[trigger] expected.directories[k]).path,
            ) == parts(current.directories[i].path) && expected.directories[k].mode
                == current.directories[i].mode,
        planned_subset(expected, current) && 0 <= i < current.files.len() ==> exists|k: int|
            0 <= k < expected.files.len() && parts((#[trigger] expected.files[k]).path) == parts(
                current.files[i].path,
            ) && expected.files[k].mode == current.files[i].mode,
        exact_subset(expected, current) || planned_subset(expected, current) ==> snapshot_root(
            expected,
        ) is Some && snapshot_root(current) is Some && parts(snapshot_root(expected)->0) == parts(
            snapshot_root(current)->0,
        ),
        planned_subset(expected, current) ==> (forall|k: int|
            0 <= k < expected.files.len() ==> (#[trigger] expected.files[k]).inode == 0
                && expected.files[k].device == 0),
{
    if exact_subset(expected, current) && 0 <= i < current.directories.len() {
        assert(has_dir(expected.directories, current.directories[i]));
    }
    if exact_subset(expected, current) && 0 <= i < current.files.len() {
        assert(has_file(expected.files, current.files[i]));
    }
    if planned_subset(expected, current) && 0 <= i < current.directories.len() {
        assert(plans_dir(expected.directories, current.directories[i]));
    }
    if planned_subset(expected, current) && 0 <= i < current.files.len() {
        assert(plans_file(expected.files, current.files[i]));
    }
}

/// Snapshots with the same inventory have as many entries, and each entry of the one is
/// in the other with its mode and, for a file, its digest.
pub proof fn law_equal_inventories_have_the_same_files(
    left: SnapshotView,
    right: SnapshotView,
    i: int,
)
    requires
        inventory_matches(left, right),
    ensures
        left.directories.len() == right.directories.len(),
        left.files.len() == right.files.len(),
        0 <= i < left.directories.len() ==> exists|k: int|
            0 <= k < right.directories.len() && parts((#[trigger] right.directories[k]).path)
                == parts(left.directories[i].path) && right.directories[k].mode
                == left.directories[i].mode,
        0 <= i < left.files.len() ==> exists|k: int|
            0 <= k < right.files.len() && parts((#[trigger] right.files[k]).path) == parts(
                left.files[i].path,
            ) && right.files[k].mode == left.files[i].mode && right.files[k].sha256
                == left.files[i].sha256,
{
    if 0 <= i < left.directories.len() {
        assert(plans_dir(right.directories, left.directories[i]));
    }
    if 0 <= i < left.files.len() {
        assert(lists_file(right.files, left.files[i]));
    }
}

/// A snapshot that is moved keeps every entry, with its identity, its mode and its
/// digest; only the paths change.
pub proof fn law_moving_keeps_identities(
    s: SnapshotView,
    source: Seq<u8>,
    destination: Seq<u8>,
    i: int,
)
    ensures
        relocation(s, source, destination) is Ok <==> all_under(s, source),
        relocation(s, source, destination) is Ok ==> ({
            let after = relocation(s, source, destination)->Ok_0;
            &&& after.directories.len() == s.directories.len()
            &&& after.files.len() == s.files.len()
            &&& 0 <= i < s.directories.len() ==> (DirView {
                path: s.directories[i].path,
                ..after.directories[i]
            }) == s.directories[i] && after.directories[i].path == join(
                destination,
                relative_to(s.directories[i].path, source),
            )
            &&& 0 <= i < s.files.len() ==> (StageFileView {
                path: s.files[i].path,
                ..after.files[i]
            }) == s.files[i] && after.files[i].path == join(
                destination,
                relative_to(s.files[i].path, source),
            )
        }),
{
}

/// The directories of a tree are removed all, each as often as it is listed, and none
/// before one of more components.
pub proof fn law_directories_are_removed_from_below(s: SnapshotView, i: int, j: int)
    requires
        0 <= i < j < removal_order(s).len(),
    ensures
        removal_order(s).to_multiset() == s.directories.to_multiset(),
        parts(removal_order(s)[j].path).len() <= parts(removal_order(s)[i].path).len(),
{
    lemma_sorting_keeps_items(SortOrder::DeepestFirst, s.directories, dir_key());
    law_sorting_puts_in_order(SortOrder::DeepestFirst, s.directories, dir_key(), i, j);
}

/// A tree has the inventory of every tree with the same entries, in particular its own; and
/// what is planned is part of the plan.
pub proof fn law_equal_trees_have_equal_inventories(a: SnapshotView, b: SnapshotView)
    ensures
        same_snapshot(a, b) ==> inventory_matches(a, b),
        planned_only(a) && snapshot_root(a) is Some ==> planned_subset(a, a),
{
    if same_snapshot(a, b) {
        assert forall|i: int| 0 <= i < a.directories.len() implies plans_dir(
            b.directories,
            #[trigger] a.directories[i],
        ) by {
            assert(same_dir(a.directories[i], b.directories[i]));
            assert(same_path(b.directories[i].path, a.directories[i].path));
        }
        assert forall|i: int| 0 <= i < a.files.len() implies lists_file(
            b.files,
            #[trigger] a.files[i],
        ) by {
            assert(same_file(a.files[i], b.files[i]));
            assert(same_path(b.files[i].path, a.files[i].path));
        }
    }
    if planned_only(a) {
        assert forall|i: int| 0 <= i < a.directories.len() implies plans_dir(
            a.directories,
            #[trigger] a.directories[i],
        ) by {
            assert(same_path(a.directories[i].path, a.directories[i].path));
        }
        assert forall|i: int| 0 <= i < a.files.len() implies plans_file(
            a.files,
            #[trigger] a.files[i],
        ) by {
            assert(same_path(a.files[i].path, a.files[i].path));
        }
    }
}

} // verus!
