//! Which directories and files are safe to use, by what the system says of them.

use vstd::prelude::*;
use vstd::string::*;
use crate::error::{fail, failure, or_else, Failure, ManagedError, ManagedResult};
use crate::path::{
    absolute_normal, absolute_normal_failure, child, file_name, normal_components,
    normal_components_failure, normal_names, parent, parts, path_under, require_absolute_normal, FsPath,
};
use crate::snapshot::{OwnedDirectory, OwnedStageFile};
use crate::text::{utf8, utf8_str};

verus! {

/// What the system says of a directory or a file.
#[derive(Clone, Copy, Debug)]
pub struct FileFacts {
    pub is_dir: bool,
    pub is_file: bool,
    pub uid: u32,
    pub mode: u32,
    pub nlink: u64,
    pub len: u64,
    pub device: u64,
    pub inode: u64,
}

/// A failure of a path that is not safe to install to.
pub open spec fn unsafe_path(message: Seq<char>) -> Option<Failure> {
    Some(("unsafe_install_path"@, message))
}

/// A directory that only its owner and the system can change: it belongs to the
/// user or to the system and is not writable by others, unless it is a sticky
/// directory of the system; a private one has mode 0700.
pub open spec fn directory_safe(f: FileFacts, uid: u32, private: bool) -> bool {
    &&& f.is_dir
    &&& f.uid == 0 || f.uid == uid
    &&& f.mode & 0o022u32 == 0 || (!private && f.uid == 0 && f.mode & 0o1000u32 != 0)
    &&& private ==> f.mode & 0o777u32 == 0o700
}

/// Checks a directory on the way to something.
pub fn validate_opened_directory(f: &FileFacts, uid: u32, private: bool) -> (r: ManagedResult<()>)
    ensures
        failure(r) == if directory_safe(*f, uid, private) {
            None
        } else {
            unsafe_path("directory chain contains an unsafe opened descriptor"@)
        },
{
    let sticky_root = !private && f.uid == 0 && f.mode & 0o1000u32 != 0;
    if !f.is_dir || (f.uid != 0 && f.uid != uid) || (f.mode & 0o022u32 != 0 && !sticky_root) || (
    private && f.mode & 0o777u32 != 0o700) {
        return fail(
            "unsafe_install_path",
            "directory chain contains an unsafe opened descriptor",
        );
    }
    Ok(())
}

/// The mode that a directory of the user is given: the one that is asked for, or
/// its own without the group's right to write.
pub open spec fn protected_mode(f: FileFacts, required: Option<u32>) -> u32 {
    match required {
        Some(mode) => mode,
        None => (f.mode & 0o7777u32) & !0o020u32,
    }
}

/// The mode that a directory of the user is to be given, if it has another one;
/// or why it cannot be used.
pub open spec fn hardening(f: FileFacts, uid: u32, required: Option<u32>) -> Result<
    Option<u32>,
    Failure,
> {
    if !f.is_dir || f.uid != uid || f.mode & 0o002u32 != 0 {
        Err(
            (
                "unsafe_install_path"@,
                "managed directory is not exclusively controlled by the current user"@,
            ),
        )
    } else if f.mode & 0o7777u32 == protected_mode(f, required) {
        Ok(None)
    } else if protected_mode(f, required) > 65535 {
        Err(("unsafe_install_path"@, "managed directory mode is invalid"@))
    } else {
        Ok(Some(protected_mode(f, required)))
    }
}

/// Decides which mode a directory of the user is to be given.
pub fn harden_opened_managed_directory(f: &FileFacts, uid: u32, required: Option<u32>) -> (r:
    ManagedResult<Option<u32>>)
    ensures
        (match r {
            Ok(v) => Ok::<Option<u32>, Failure>(v),
            Err(e) => Err(e@),
        }) == hardening(*f, uid, required),
{
    if !f.is_dir || f.uid != uid || f.mode & 0o002u32 != 0 {
        return fail(
            "unsafe_install_path",
            "managed directory is not exclusively controlled by the current user",
        );
    }
    let current: u32 = f.mode & 0o7777u32;
    let protected: u32 = match required {
        Some(mode) => mode,
        None => current & !0o020u32,
    };
    if current == protected {
        return Ok(None);
    }
    if protected > 65535 {
        return fail("unsafe_install_path", "managed directory mode is invalid");
    }
    Ok(Some(protected))
}

/// A file of a bundle that only the user can change.
pub open spec fn external_file_safe(f: FileFacts, uid: u32, executable: bool) -> bool {
    &&& f.is_file
    &&& f.uid == uid
    &&& f.nlink == 1
    &&& f.mode & 0o022u32 == 0
    &&& executable ==> f.mode & 0o100u32 != 0
}

/// Checks a file of a bundle.
pub fn validate_opened_external_file(f: &FileFacts, uid: u32, executable: bool) -> (r: ManagedResult<
    (),
>)
    ensures
        failure(r) == if external_file_safe(*f, uid, executable) {
            None
        } else {
            Some(("bundle_invalid"@, "the bundle contains an unsafe file"@))
        },
{
    if !f.is_file || f.uid != uid || f.nlink != 1 || f.mode & 0o022u32 != 0 || (executable && f.mode
        & 0o100u32 == 0) {
        return fail("bundle_invalid", "the bundle contains an unsafe file");
    }
    Ok(())
}

/// A regular file of the user, with one name and exactly a mode.
pub open spec fn owned_file_safe(f: FileFacts, uid: u32, mode: u32) -> bool {
    f.is_file && f.uid == uid && f.nlink == 1 && f.mode & 0o777u32 == mode
}

/// Whether a file is a regular file of the user, with one name and exactly a mode.
pub fn is_owned_file_safe(f: &FileFacts, uid: u32, mode: u32) -> (r: bool)
    ensures
        r == owned_file_safe(*f, uid, mode),
{
    f.is_file && f.uid == uid && f.nlink == 1 && f.mode & 0o777u32 == mode
}

/// Checks a file of the installation.
pub fn validate_opened_owned_regular_file(
    f: &FileFacts,
    uid: u32,
    mode: u32,
    code: &'static str,
) -> (r: ManagedResult<()>)
    ensures
        failure(r) == if owned_file_safe(*f, uid, mode) {
            None
        } else {
            Some((code@, "opened owned file has unsafe identity or permissions"@))
        },
{
    if !is_owned_file_safe(f, uid, mode) {
        return fail(code, "opened owned file has unsafe identity or permissions");
    }
    Ok(())
}

/// What is wrong with a file that must have a digest.
pub open spec fn owned_digest_failure(
    f: FileFacts,
    uid: u32,
    mode: u32,
    found: ManagedResult<String>,
    expected: Seq<char>,
    code: Seq<char>,
) -> Option<Failure> {
    if !owned_file_safe(f, uid, mode) {
        Some((code, "opened owned file has unsafe identity or permissions"@))
    } else if f.len > crate::bounded::MAX_OWNED_FILE_BYTES {
        Some((code, "owned file exceeds the hashing limit"@))
    } else {
        match found {
            Err(e) => Some(e@),
            Ok(digest) => if digest@ == expected {
                None
            } else {
                Some((code, "a recorded owned file changed"@))
            },
        }
    }
}

/// Checks a file of the installation and its digest. The digest is the one that
/// was found, or why none was.
pub fn validate_owned_file_digest(
    f: &FileFacts,
    uid: u32,
    mode: u32,
    found: &ManagedResult<String>,
    expected: &str,
    code: &'static str,
) -> (r: ManagedResult<()>)
    ensures
        failure(r) == owned_digest_failure(*f, uid, mode, *found, expected@, code@),
{
    validate_opened_owned_regular_file(f, uid, mode, code)?;
    if f.len > crate::bounded::MAX_OWNED_FILE_BYTES {
        return fail(code, "owned file exceeds the hashing limit");
    }
    match found {
        Err(e) => Err(e.copy()),
        Ok(digest) => {
            if !crate::text::text_eq(digest.as_str(), expected) {
                return fail(code, "a recorded owned file changed");
            }
            Ok(())
        },
    }
}

/// Why a file of the user is not given a mode.
pub open spec fn unprotectable(f: FileFacts, uid: u32, mode: u32, code: Seq<char>) -> Option<Failure> {
    if !f.is_file || f.uid != uid || f.nlink != 1 || f.mode & 0o002u32 != 0 {
        Some((code, "owned file inode is unsafe"@))
    } else if mode > 65535 {
        Some((code, "owned file mode is invalid"@))
    } else {
        None
    }
}

/// Checks a file that is about to be given a mode.
pub fn check_before_protecting(f: &FileFacts, uid: u32, mode: u32, code: &'static str) -> (r:
    ManagedResult<()>)
    ensures
        failure(r) == unprotectable(*f, uid, mode, code@),
{
    if !f.is_file || f.uid != uid || f.nlink != 1 || f.mode & 0o002u32 != 0 {
        return fail(code, "owned file inode is unsafe");
    }
    if mode > 65535 {
        return fail(code, "owned file mode is invalid");
    }
    Ok(())
}

/// Checks a file that was just given a mode.
pub fn check_after_protecting(f: &FileFacts, uid: u32, mode: u32, code: &'static str) -> (r:
    ManagedResult<()>)
    ensures
        failure(r) == if owned_file_safe(*f, uid, mode) {
            None
        } else {
            Some((code@, "protected owned file failed revalidation"@))
        },
{
    if !is_owned_file_safe(f, uid, mode) {
        return fail(code, "protected owned file failed revalidation");
    }
    Ok(())
}

/// What is wrong with the lock of an installation.
pub open spec fn lock_failure(opened: FileFacts, named: FileFacts, uid: u32) -> Option<Failure> {
    if !owned_file_safe(opened, uid, 0o600) {
        Some(("installer_lock_failed"@, "opened lock inode is unsafe"@))
    } else if !named.is_file || named.device != opened.device || named.inode != opened.inode {
        Some(("installer_lock_failed"@, "lock directory entry was replaced"@))
    } else {
        None
    }
}

/// Checks the lock of the installation: the file that was opened is safe, and it
/// is still the one that has the name.
pub fn check_install_lock(opened: &FileFacts, named: &FileFacts, uid: u32) -> (r: ManagedResult<()>)
    ensures
        failure(r) == lock_failure(*opened, *named, uid),
{
    if !is_owned_file_safe(opened, uid, 0o600) {
        return fail("installer_lock_failed", "opened lock inode is unsafe");
    }
    if !named.is_file || named.device != opened.device || named.inode != opened.inode {
        return fail("installer_lock_failed", "lock directory entry was replaced");
    }
    Ok(())
}

/// Makes the snapshot of a file that is about to be replaced.
pub fn snapshot_owned_file(
    path: &FsPath,
    f: &FileFacts,
    uid: u32,
    mode: u32,
    digest: ManagedResult<String>,
) -> (r: ManagedResult<OwnedStageFile>)
    ensures
        failure(r) == if !owned_file_safe(*f, uid, mode) {
            Some(("recovery_needed"@, "transaction-owned file metadata is unsafe"@))
        } else {
            failure(digest)
        },
        r is Ok ==> r->Ok_0@ == (crate::snapshot::StageFileView {
            path: path@,
            device: f.device,
            inode: f.inode,
            mode,
            sha256: digest->Ok_0@,
        }),
{
    if !is_owned_file_safe(f, uid, mode) {
        return fail("recovery_needed", "transaction-owned file metadata is unsafe");
    }
    let sha256 = digest?;
    Ok(OwnedStageFile { path: path.copy(), device: f.device, inode: f.inode, mode, sha256 })
}

/// A staged file is another one than was recorded.
pub open spec fn stage_file_changed(expected: OwnedStageFile, f: FileFacts) -> Option<Failure> {
    if f.device == expected.device && f.inode == expected.inode && f.nlink == 1
        && f.mode & 0o777u32 == expected.mode {
        None
    } else {
        Some(("recovery_needed"@, "transaction stage file changed before unlink"@))
    }
}

/// Checks a staged file just before it is unlinked.
pub fn check_stage_file_unchanged(expected: &OwnedStageFile, f: &FileFacts) -> (r: ManagedResult<()>)
    ensures
        failure(r) == stage_file_changed(*expected, *f),
{
    if f.device != expected.device || f.inode != expected.inode || f.nlink != 1 || f.mode & 0o777u32
        != expected.mode {
        return fail("recovery_needed", "transaction stage file changed before unlink");
    }
    Ok(())
}

/// A staged directory is another one than was recorded.
pub open spec fn stage_directory_changed(expected: OwnedDirectory, f: FileFacts) -> Option<Failure> {
    if f.device == expected.device && f.inode == expected.inode && f.mode
        & 0o777u32 == expected.mode {
        None
    } else {
        Some(("recovery_needed"@, "transaction stage directory changed before removal"@))
    }
}

/// Checks a staged directory just before it is removed.
pub fn check_stage_directory_unchanged(expected: &OwnedDirectory, f: &FileFacts) -> (r:
    ManagedResult<()>)
    ensures
        failure(r) == stage_directory_changed(*expected, *f),
{
    if f.device != expected.device || f.inode != expected.inode || f.mode & 0o777u32
        != expected.mode {
        return fail("recovery_needed", "transaction stage directory changed before removal");
    }
    Ok(())
}

/// An owned file is another one than was recorded, or was replaced since it was opened.
pub open spec fn owned_file_changed(opened: FileFacts, named: FileFacts, mode: u32, digest: Seq<char>, recorded: Seq<char>) -> Option<Failure> {
    if digest != recorded {
        Some(("owned_asset_modified"@, "a recorded owned file changed during removal"@))
    } else if named.device != opened.device || named.inode != opened.inode || named.nlink != 1
        || named.mode & 0o777u32 != mode {
        Some(("owned_asset_modified"@, "a recorded owned file changed before unlink"@))
    } else {
        None
    }
}

/// Checks a recorded file just before it is unlinked: its digest is the recorded
/// one, and the name still stands for the file that was read.
pub fn check_owned_file_unchanged(
    opened: &FileFacts,
    named: &FileFacts,
    mode: u32,
    digest: &str,
    recorded: &str,
) -> (r: ManagedResult<()>)
    ensures
        failure(r) == owned_file_changed(*opened, *named, mode, digest@, recorded@),
{
    if !crate::text::text_eq(digest, recorded) {
        return fail("owned_asset_modified", "a recorded owned file changed during removal");
    }
    if named.device != opened.device || named.inode != opened.inode || named.nlink != 1
        || named.mode & 0o777u32 != mode {
        return fail("owned_asset_modified", "a recorded owned file changed before unlink");
    }
    Ok(())
}

/// A path some steps up, if there is one.
pub open spec fn up(p: Seq<u8>, n: nat) -> Option<Seq<u8>>
    decreases n,
{
    if n == 0 {
        Some(p)
    } else {
        match up(p, (n - 1) as nat) {
            Some(q) => parent(q),
            None => None,
        }
    }
}

/// The last name of a path some steps up.
pub open spec fn name_up(p: Seq<u8>, n: nat) -> Option<Seq<u8>> {
    match up(p, n) {
        Some(q) => file_name(q),
        None => None,
    }
}

/// A path in a temporary checkout of a plugin repository: the names above it are
/// those that such a checkout has.
pub open spec fn checkout_layout(p: Seq<u8>) -> bool {
    &&& name_up(p, 0) == Some(utf8("herdr"@))
    &&& name_up(p, 1) == Some(utf8("plugins"@))
    &&& name_up(p, 2) == Some(utf8("checkout"@))
    &&& name_up(p, 3) is Some
    &&& crate::text::utf8(".tmp-install-"@).is_prefix_of(name_up(p, 3)->0)
    &&& name_up(p, 3)->0.len() > utf8(".tmp-install-"@).len()
    &&& vstd::utf8::valid_utf8(name_up(p, 3)->0)
    &&& name_up(p, 4) == Some(utf8("plugins"@))
    &&& name_up(p, 5) == Some(utf8("herdr"@))
}

fn parent_of(p: &Option<FsPath>) -> (r: Option<FsPath>)
    ensures
        (match r {
            Some(q) => Some(q@),
            None => None,
        }) == match p {
            Some(q) => parent(q@),
            None => None,
        },
{
    match p {
        Some(q) => q.parent(),
        None => None,
    }
}

fn named(p: &Option<FsPath>, name: &str) -> (r: bool)
    ensures
        r == ((match p {
            Some(q) => file_name(q@),
            None => None,
        }) == Some(utf8(name@))),
{
    match p {
        Some(q) => q.file_name_is(name),
        None => false,
    }
}

fn is_temporary_name(p: &Option<FsPath>) -> (r: bool)
    ensures
        r == match p {
            Some(q) => file_name(q@) is Some && utf8(".tmp-install-"@).is_prefix_of(
                file_name(q@)->0,
            ) && file_name(q@)->0.len() > utf8(".tmp-install-"@).len()
                && vstd::utf8::valid_utf8(file_name(q@)->0),
            None => false,
        },
{
    match p {
        Some(q) => match crate::transaction::name_after(q, ".tmp-install-") {
            Some(rest) => {
                let utf8_name = match q.file_name() {
                    Some(name) => utf8_str(name.as_slice()).is_some(),
                    None => false,
                };
                rest.len() > 0 && utf8_name
            },
            None => false,
        },
        None => false,
    }
}

/// The configuration directory above a plugin root in a temporary checkout.
pub fn managed_plugin_config_boundary(path: &FsPath) -> (r: ManagedResult<FsPath>)
    ensures
        failure(r) == if checkout_layout(path@) {
            None
        } else {
            unsafe_path(
                "managed plugin root does not match the Herdr temporary checkout layout"@,
            )
        },
        r is Ok ==> Some(r->Ok_0@) == up(path@, 5),
{
    reveal_with_fuel(up, 6);
    let plugin = Some(path.copy());
    let repository = parent_of(&plugin);
    let checkout = parent_of(&repository);
    let temporary = parent_of(&checkout);
    let managed = parent_of(&temporary);
    let config = parent_of(&managed);
    if !named(&plugin, "herdr") || !named(&repository, "plugins") || !named(&checkout, "checkout")
        || !named(&managed, "plugins") || !named(&config, "herdr") || !is_temporary_name(
        &temporary,
    ) {
        return fail(
            "unsafe_install_path",
            "managed plugin root does not match the Herdr temporary checkout layout",
        );
    }
    match config {
        Some(config) => Ok(config),
        None => fail(
            "unsafe_install_path",
            "managed plugin root does not match the Herdr temporary checkout layout",
        ),
    }
}

/// What is done with one directory on the way to a managed one.
#[derive(Clone, Copy, Debug, PartialEq, Eq, Structural)]
pub enum ChainCheck {
    /// It only has to be safe.
    Validate,
    /// It has to belong to the user and loses the group's right to write.
    Harden,
    /// It has to belong to the user and is given a mode.
    HardenTo(u32),
}

/// One directory on the way to a managed one.
#[derive(Debug)]
pub struct ChainStep {
    pub name: Vec<u8>,
    pub check: ChainCheck,
}

/// What is done with the directory at a place on the way.
pub open spec fn chain_check(at: int, boundary: int, total: int, final_mode: Option<u32>) -> ChainCheck {
    if at + 1 < boundary {
        ChainCheck::Validate
    } else if at + 1 == total && final_mode is Some {
        ChainCheck::HardenTo(final_mode->0)
    } else {
        ChainCheck::Harden
    }
}

/// What stands in the way of walking to a managed directory.
pub open spec fn chain_failure(path: Seq<u8>, boundary: Seq<u8>) -> Option<Failure> {
    or_else(
        absolute_normal_failure(path, "directory"@),
        or_else(
            absolute_normal_failure(boundary, "managed boundary"@),
            if !path_under(path, boundary) {
                unsafe_path("managed boundary is outside the directory path"@)
            } else {
                or_else(normal_components_failure(boundary), normal_components_failure(path))
            },
        ),
    )
}

/// The directories on the way to a managed one: down to the boundary they only
/// have to be safe, from there on they are the user's.
pub open spec fn chain_steps(
    path: Seq<u8>,
    boundary: Seq<u8>,
    final_mode: Option<u32>,
) -> Seq<(Seq<u8>, ChainCheck)> {
    Seq::new(
        normal_names(path).len(),
        |i: int|
            (
                normal_names(path)[i],
                chain_check(
                    i,
                    normal_names(boundary).len() as int,
                    normal_names(path).len() as int,
                    final_mode,
                ),
            ),
    )
}

/// The steps that some values stand for.
pub open spec fn step_views(steps: Seq<ChainStep>) -> Seq<(Seq<u8>, ChainCheck)> {
    steps.map_values(|s: ChainStep| (s.name@, s.check))
}

/// Plans the way to a managed directory.
pub fn validate_or_harden_directory_chain(
    path: &FsPath,
    boundary: &FsPath,
    final_mode: Option<u32>,
) -> (r: ManagedResult<Vec<ChainStep>>)
    ensures
        failure(r) == chain_failure(path@, boundary@),
        r is Ok ==> step_views(r->Ok_0@) == chain_steps(path@, boundary@, final_mode),
{
    match require_absolute_normal(path, "directory") {
        Ok(_) => {},
        Err(e) => {
            return Err(e);
        },
    }
    match require_absolute_normal(boundary, "managed boundary") {
        Ok(_) => {},
        Err(e) => {
            return Err(e);
        },
    }
    if !path.starts_with(boundary) {
        return fail("unsafe_install_path", "managed boundary is outside the directory path");
    }
    let limits = normal_components(boundary)?;
    let names = normal_components(path)?;
    let ghost views = names@.map_values(|v: Vec<u8>| v@);
    let ghost limit_views = limits@.map_values(|v: Vec<u8>| v@);
    assert(views.len() == names@.len());
    assert(limit_views.len() == limits@.len());
    let ghost expected = chain_steps(path@, boundary@, final_mode);
    let mut steps: Vec<ChainStep> = Vec::new();
    let mut i: usize = 0;
    while i < names.len()
        invariant
            i <= names.len(),
            views == names@.map_values(|v: Vec<u8>| v@),
            views == normal_names(path@),
            limits@.len() == normal_names(boundary@).len(),
            names@.len() == normal_names(path@).len(),
            expected == chain_steps(path@, boundary@, final_mode),
            steps@.len() == i,
            forall|k: int|
                0 <= k < i ==> ((#[trigger] steps@[k]).name@, steps@[k].check) == expected[k],
        decreases names.len() - i,
    {
        let check = if i + 1 < limits.len() {
            ChainCheck::Validate
        } else if i + 1 == names.len() {
            match final_mode {
                Some(mode) => ChainCheck::HardenTo(mode),
                None => ChainCheck::Harden,
            }
        } else {
            ChainCheck::Harden
        };
        assert(views[i as int] == names@[i as int]@);
        steps.push(ChainStep { name: names[i].clone(), check });
        i += 1;
    }
    assert(step_views(steps@) =~= expected);
    Ok(steps)
}

/// How the root of a plugin is made safe.
#[derive(Debug)]
pub enum PluginRootPlan {
    /// In a temporary checkout: by the way from the configuration directory down.
    Chain(Vec<ChainStep>),
    /// Elsewhere: the directories above only have to be safe, and the root is
    /// given mode 0700.
    Private,
}

/// How the root of a plugin is made safe, or why it cannot be.
pub open spec fn plugin_root_failure(path: Seq<u8>, managed_install: bool) -> Option<Failure> {
    or_else(
        absolute_normal_failure(path, "plugin root"@),
        if !managed_install {
            None
        } else if !checkout_layout(path) {
            unsafe_path(
                "managed plugin root does not match the Herdr temporary checkout layout"@,
            )
        } else {
            chain_failure(path, up(path, 5)->0)
        },
    )
}

/// Plans how the root of a plugin is made safe.
pub fn validate_plugin_root(path: &FsPath, managed_install: bool) -> (r: ManagedResult<
    PluginRootPlan,
>)
    ensures
        failure(r) == plugin_root_failure(path@, managed_install),
        r is Ok ==> match r->Ok_0 {
            PluginRootPlan::Chain(steps) => managed_install && step_views(steps@) == chain_steps(
                path@,
                up(path@, 5)->0,
                Some(0o700u32),
            ),
            PluginRootPlan::Private => !managed_install,
        },
{
    match require_absolute_normal(path, "plugin root") {
        Ok(_) => {},
        Err(e) => {
            return Err(e);
        },
    }
    if managed_install {
        let boundary = managed_plugin_config_boundary(path)?;
        let steps = validate_or_harden_directory_chain(path, &boundary, Some(0o700))?;
        return Ok(PluginRootPlan::Chain(steps));
    }
    Ok(PluginRootPlan::Private)
}

/// Checks that a directory that is to be made private belongs to the user.
pub fn check_private_owner(f: &FileFacts, uid: u32, label: &str) -> (r: ManagedResult<()>)
    ensures
        failure(r) == if f.uid == uid {
            None
        } else {
            unsafe_path("the "@ + label@ + " is not owned by the current user"@)
        },
{
    if f.uid != uid {
        let mut message = "the ".to_owned();
        message.append(label);
        message.append(" is not owned by the current user");
        return Err(ManagedError::with_message("unsafe_install_path", message));
    }
    Ok(())
}

/// The plugin root of a managed installation is always left private: the last
/// step of its plan gives it mode 0700.
pub proof fn law_plugin_root_ends_private(path: Seq<u8>, boundary: Seq<u8>)
    requires
        normal_names(path).len() > 0,
        normal_names(boundary).len() <= normal_names(path).len(),
    ensures
        chain_steps(path, boundary, Some(0o700u32)).last().1 == ChainCheck::HardenTo(0o700),
{
}

/// The directories that are made for a private directory, outermost first, when some
/// of the innermost are missing.
pub open spec fn missing_chain(path: Seq<u8>, missing: nat) -> Seq<Seq<u8>>
    decreases missing,
{
    if missing == 0 {
        Seq::empty()
    } else {
        seq![up(path, (missing - 1) as nat)->0] + missing_chain(path, (missing - 1) as nat)
    }
}

/// Plans a private directory, of whose path some of the innermost directories are
/// missing: what is there already, and what is made, outermost first.
pub fn create_private_directory(path: &FsPath, missing: usize) -> (r: ManagedResult<
    (FsPath, Vec<FsPath>),
>)
    ensures
        failure(r) == if up(path@, missing as nat) is None {
            unsafe_path("private root has no existing parent"@)
        } else {
            None
        },
        r is Ok ==> Some(r->Ok_0.0@) == up(path@, missing as nat),
        r is Ok ==> crate::layout::path_views(r->Ok_0.1@) == missing_chain(path@, missing as nat),
{
    let mut existing = path.copy();
    let mut create: Vec<FsPath> = Vec::new();
    let mut i: usize = 0;
    assert(crate::layout::path_views(create@) =~= missing_chain(path@, 0));
    while i < missing
        invariant
            i <= missing,
            Some(existing@) == up(path@, i as nat),
            crate::layout::path_views(create@) == missing_chain(path@, i as nat),
        decreases missing - i,
    {
        let next = existing.parent();
        let ghost before = create@;
        let ghost made = existing@;
        match next {
            Some(p) => {
                create.insert(0, existing);
                assert(crate::layout::path_views(create@) =~= seq![made]
                    + crate::layout::path_views(before));
                existing = p;
            },
            None => {
                proof {
                    lemma_nothing_above(path@, (i + 1) as nat, missing as nat);
                }
                return fail("unsafe_install_path", "private root has no existing parent");
            },
        }
        i += 1;
    }
    Ok((existing, create))
}

proof fn lemma_nothing_above(path: Seq<u8>, low: nat, high: nat)
    requires
        low <= high,
        up(path, low) is None,
    ensures
        up(path, high) is None,
    decreases high,
{
    if low < high {
        lemma_nothing_above(path, low, (high - 1) as nat);
    }
}

/// Checks the file with the settings of Pi.
pub fn check_settings_file(f: &FileFacts, uid: u32) -> (r: ManagedResult<()>)
    ensures
        failure(r) == if owned_file_safe(*f, uid, 0o600) {
            None
        } else {
            Some(("pi_settings_unsafe"@, "Pi settings inode is unsafe"@))
        },
{
    if !is_owned_file_safe(f, uid, 0o600) {
        return fail("pi_settings_unsafe", "Pi settings inode is unsafe");
    }
    Ok(())
}

/// What was found at a place where a program may be.
#[derive(Debug)]
pub struct ProgramFound {
    pub directory: FsPath,
    pub file: Option<FileFacts>,
}

/// A program is in a directory of the search path: only absolute ones count.
pub open spec fn program_in(found: ProgramFound) -> bool {
    crate::path::is_absolute(found.directory@) && found.file is Some && found.file->0.is_file
        && found.file->0.mode & 0o111u32 != 0
}

/// The first of some places with a program.
pub open spec fn first_program(found: Seq<ProgramFound>) -> Option<Seq<u8>>
    decreases found.len(),
{
    if found.len() == 0 {
        None
    } else if program_in(found[0]) {
        Some(found[0].directory@)
    } else {
        first_program(found.skip(1))
    }
}

/// Finds a program on the search path.
pub fn find_in_path(found: &Vec<ProgramFound>, name: &str) -> (r: Option<FsPath>)
    ensures
        match first_program(found@) {
            None => r is None,
            Some(directory) => r is Some && r->0@ == child(directory, name@),
        },
{
    let ghost all = found@;
    let mut i: usize = 0;
    assert(all.skip(0) =~= all);
    while i < found.len()
        invariant
            i <= found.len(),
            all == found@,
            first_program(all) == first_program(all.skip(i as int)),
        decreases found.len() - i,
    {
        proof {
            assert(all.skip(i as int)[0] == found@[i as int]);
            assert(all.skip(i as int).skip(1) =~= all.skip(i + 1));
        }
        let place = &found[i];
        let is_program = match &place.file {
            Some(f) => f.is_file && f.mode & 0o111u32 != 0,
            None => false,
        };
        if crate::path::path_is_absolute(place.directory.bytes.as_slice()) && is_program {
            return Some(place.directory.join(name));
        }
        i += 1;
    }
    assert(all.skip(i as int).len() == 0);
    None
}

/// A directory is safe just when it belongs to the user or to the system and nobody else
/// may write to it; a sticky directory of the system may be written to by others, unless
/// the directory must be private, and then it must be its owner's alone.
pub proof fn law_safe_directories_are_not_writable_by_others(
    f: FileFacts,
    uid: u32,
    private: bool,
)
    ensures
        directory_safe(f, uid, false) <==> (f.is_dir && (f.uid == 0 || f.uid == uid) && (f.mode
            & 0o022u32 == 0 || (f.uid == 0 && f.mode & 0o1000u32 != 0))),
        directory_safe(f, uid, true) <==> (f.is_dir && (f.uid == 0 || f.uid == uid) && f.mode
            & 0o022u32 == 0 && f.mode & 0o777u32 == 0o700),
        directory_safe(f, uid, private) && f.uid != 0 ==> f.uid == uid && f.mode & 0o022u32 == 0,
{
}

/// A directory of the user that others may not write to is given the mode that is asked
/// for, or else loses the right of its group to write; one that has that mode already is
/// left as it is. Any other directory is refused.
pub proof fn law_hardened_directories_are_the_users(
    f: FileFacts,
    uid: u32,
    required: Option<u32>,
)
    ensures
        ({
            let own = f.is_dir && f.uid == uid && f.mode & 0o002u32 == 0;
            let wanted = if required is Some {
                required->0
            } else {
                f.mode & 0o7757u32
            };
            let r = hardening(f, uid, required);
            &&& !own ==> r is Err
            &&& r == Ok::<Option<u32>, Failure>(None) <==> own && f.mode & 0o7777u32 == wanted
            &&& r is Ok && r->Ok_0 is Some ==> (r->Ok_0)->0 == wanted && own
            &&& own && wanted <= 65535 ==> r is Ok
            &&& r is Err ==> r->Err_0.0 == "unsafe_install_path"@
        }),
{
    let mode = f.mode;
    assert((mode & 0o7777u32) & !0o020u32 == mode & 0o7757u32) by (bit_vector);
}

/// A file of a bundle is safe just when it is a regular file of the user with one name
/// that nobody else may write, and that may be run where it must; a managed file has
/// exactly its mode.
pub proof fn law_safe_files_are_the_users(f: FileFacts, uid: u32, executable: bool, mode: u32)
    ensures
        external_file_safe(f, uid, executable) <==> (f.is_file && f.uid == uid && f.nlink == 1
            && f.mode & 0o022u32 == 0 && (!executable || f.mode & 0o100u32 != 0)),
        owned_file_safe(f, uid, mode) <==> (f.is_file && f.uid == uid && f.nlink == 1 && f.mode
            & 0o777u32 == mode),
{
}

/// A directory above the boundary only has to be safe; the boundary and all below it are
/// the user's, and the last one is given the final mode, where there is one.
pub proof fn law_directories_below_the_boundary_are_hardened(
    path: Seq<u8>,
    boundary: Seq<u8>,
    final_mode: Option<u32>,
    i: int,
)
    requires
        0 <= i < normal_names(path).len(),
    ensures
        ({
            let steps = chain_steps(path, boundary, final_mode);
            &&& steps.len() == normal_names(path).len()
            &&& steps[i].0 == normal_names(path)[i]
            &&& steps[i].1 is Validate <==> i < normal_names(boundary).len() - 1
            &&& i >= normal_names(boundary).len() - 1 && i == steps.len() - 1 && final_mode is Some
                ==> steps[i].1 == ChainCheck::HardenTo(final_mode->0)
            &&& i >= normal_names(boundary).len() - 1 && (i < steps.len() - 1 || final_mode is None)
                ==> steps[i].1 is Harden
        }),
{
}

/// A way to a managed directory is walked just when both paths are absolute and of plain
/// names, and the directory lies at or below the boundary.
pub proof fn law_managed_directories_lie_below_their_boundary(path: Seq<u8>, boundary: Seq<u8>)
    ensures
        chain_failure(path, boundary) is None <==> (absolute_normal(path) && absolute_normal(
            boundary,
        ) && parts(boundary).is_prefix_of(parts(path)) && normal_components_failure(boundary)
            is None && normal_components_failure(path) is None),
{
}

/// The root of a plugin that is installed by itself needs only an absolute path; one of a
/// managed installation lies in a temporary checkout, five names below the configuration
/// directory.
pub proof fn law_managed_plugins_come_from_a_checkout(path: Seq<u8>)
    ensures
        plugin_root_failure(path, false) is None <==> absolute_normal(path),
        plugin_root_failure(path, true) is None <==> (absolute_normal(path) && checkout_layout(path)
            && chain_failure(path, up(path, 5)->0) is None),
        checkout_layout(path) ==> {
            &&& file_name(path) == Some(utf8("herdr"@))
            &&& parent(path) is Some && file_name(parent(path)->0) == Some(utf8("plugins"@))
            &&& up(path, 2) is Some && file_name(up(path, 2)->0) == Some(utf8("checkout"@))
            &&& up(path, 3) is Some && file_name(up(path, 3)->0) is Some && utf8(
                ".tmp-install-"@,
            ).is_prefix_of(file_name(up(path, 3)->0)->0) && file_name(up(path, 3)->0)->0.len()
                > utf8(".tmp-install-"@).len()
            &&& up(path, 4) is Some && file_name(up(path, 4)->0) == Some(utf8("plugins"@))
            &&& up(path, 5) is Some && file_name(up(path, 5)->0) == Some(utf8("herdr"@))
        },
{
    assert(up(path, 0) == Some(path));
    assert(up(path, 1) == parent(path));
}

/// The directories that are made are the missing ones, each right above the next, from the
/// outermost to the directory itself.
pub proof fn law_missing_directories_are_made_from_above(path: Seq<u8>, missing: nat, i: int)
    requires
        0 <= i < missing,
    ensures
        missing_chain(path, missing).len() == missing,
        missing_chain(path, missing)[i] == up(path, (missing - 1 - i) as nat)->0,
        missing_chain(path, missing).last() == path,
    decreases missing,
{
    assert(up(path, 0) == Some(path));
    if missing > 1 {
        let rest = missing_chain(path, (missing - 1) as nat);
        law_missing_directories_are_made_from_above(
            path,
            (missing - 1) as nat,
            if i > 0 {
                i - 1
            } else {
                0
            },
        );
        assert(missing_chain(path, missing).last() == rest.last());
    } else {
        assert(missing_chain(path, 0).len() == 0);
    }
}

/// A program is taken from the first absolute directory of the search path that holds it
/// as a regular file that may be run; relative directories never count.
pub proof fn law_programs_come_from_absolute_directories(found: Seq<ProgramFound>, k: int)
    requires
        0 <= k < found.len(),
        forall|i: int| 0 <= i < k ==> !program_in(#[trigger] found[i]),
    ensures
        program_in(found[k]) ==> first_program(found) == Some(found[k].directory@),
        program_in(found[k]) <==> (crate::path::is_absolute(found[k].directory@) && found[k].file
            is Some && found[k].file->0.is_file && found[k].file->0.mode & 0o111u32 != 0),
        k == found.len() - 1 && !program_in(found[k]) ==> first_program(found) is None,
    decreases k,
{
    if k > 0 {
        assert(!program_in(found[0]));
        assert forall|i: int| 0 <= i < k - 1 implies !program_in(#[trigger] found.skip(1)[i]) by {
            assert(found.skip(1)[i] == found[i + 1]);
        }
        law_programs_come_from_absolute_directories(found.skip(1), k - 1);
    } else if found.len() == 1 {
        assert(first_program(found.skip(1)) is None);
    }
}

/// A file is given a mode only where it is a regular file of the user with one name that
/// others may not write.
pub proof fn law_only_the_users_files_are_protected(
    f: FileFacts,
    uid: u32,
    mode: u32,
    code: Seq<char>,
)
    ensures
        unprotectable(f, uid, mode, code) is None <==> (f.is_file && f.uid == uid && f.nlink == 1
            && f.mode & 0o002u32 == 0 && mode <= 65535),
{
}

/// A staged entry may go just when it is the one that was recorded: on the same device,
/// under the same number, with the same permissions, and, for a file, with one name.
pub proof fn law_replaced_entries_stay(
    file: OwnedStageFile,
    directory: OwnedDirectory,
    f: FileFacts,
)
    ensures
        stage_file_changed(file, f) is None <==> ((f.device, f.inode) == (file.device, file.inode)
            && f.nlink == 1 && f.mode & 0o777u32 == file.mode),
        stage_directory_changed(directory, f) is None <==> ((f.device, f.inode) == (
            directory.device,
            directory.inode,
        ) && f.mode & 0o777u32 == directory.mode),
{
}

/// An owned file may go just when it has the recorded digest and its name still leads to
/// the file that was opened, as its only name and with the recorded permissions.
pub proof fn law_changed_files_stay(
    opened: FileFacts,
    named: FileFacts,
    mode: u32,
    digest: Seq<char>,
    recorded: Seq<char>,
)
    ensures
        owned_file_changed(opened, named, mode, digest, recorded) is None <==> (digest == recorded
            && (named.device, named.inode) == (opened.device, opened.inode) && named.nlink == 1
            && named.mode & 0o777u32 == mode),
        owned_file_changed(opened, named, mode, digest, recorded) is Some ==> (
        owned_file_changed(opened, named, mode, digest, recorded)->0).0 == "owned_asset_modified"@,
{
}

/// A file has its digest just when it is the user's, with its mode and within the limit,
/// and the digest that was read is the expected one.
pub proof fn law_files_are_known_by_their_digest(
    f: FileFacts,
    uid: u32,
    mode: u32,
    found: ManagedResult<String>,
    expected: Seq<char>,
    code: Seq<char>,
)
    ensures
        owned_digest_failure(f, uid, mode, found, expected, code) is None <==> (f.is_file && f.uid
            == uid && f.nlink == 1 && f.mode & 0o777u32 == mode && f.len <= 67_108_864 && found
            is Ok && found->Ok_0@ == expected),
{
}

/// A lock is held just when the file that was opened is a private one of the user and its
/// name still leads to it.
pub proof fn law_locks_are_not_replaced(opened: FileFacts, named: FileFacts, uid: u32)
    ensures
        lock_failure(opened, named, uid) is None <==> (opened.is_file && opened.uid == uid
            && opened.nlink == 1 && opened.mode & 0o777u32 == 0o600 && named.is_file && (
            named.device,
            named.inode,
        ) == (opened.device, opened.inode)),
        lock_failure(opened, named, uid) is Some ==> (lock_failure(opened, named, uid)->0).0
            == "installer_lock_failed"@,
{
}

} // verus!
