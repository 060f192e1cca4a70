//! Where things are, by what the environment says.

use vstd::prelude::*;
use vstd::string::*;
use crate::error::{fail, failure, failure_text, outcome, recoded, Failure, ManagedResult};
use crate::guard::{name_up, up};
use crate::path::{
    absolute_normal, absolute_normal_failure, child, parent, parts, path_under,
    require_absolute_normal, same_path, FsPath,
};
use crate::pi::opt_path;
use crate::record::{OwnershipRecord, RecordView};
use crate::text::utf8;

verus! {

/// A path that the environment must give, or what is wrong with it. An empty
/// value counts as none.
pub open spec fn given_path(value: Option<Seq<u8>>, missing: Seq<char>, label: Seq<char>) -> Result<
    Seq<u8>,
    Failure,
> {
    match value {
        Some(p) if p.len() > 0 => match absolute_normal_failure(p, label) {
            Some(f) => Err(f),
            None => Ok(p),
        },
        _ => Err(("unsafe_install_path"@, missing)),
    }
}

fn require_given(value: &Option<FsPath>, missing: &str, label: &str) -> (r: ManagedResult<FsPath>)
    ensures
        outcome(r) == given_path(opt_path(*value), missing@, label@),
{
    match value {
        Some(p) => {
            if p.is_empty() {
                return fail("unsafe_install_path", missing);
            }
            require_absolute_normal(p, label)
        },
        None => fail("unsafe_install_path", missing),
    }
}

/// The home directory.
pub open spec fn home_of(home: Option<Seq<u8>>) -> Result<Seq<u8>, Failure> {
    given_path(home, "HOME is required"@, "HOME"@)
}

/// The home directory.
pub fn required_home(home: &Option<FsPath>) -> (r: ManagedResult<FsPath>)
    ensures
        outcome(r) == home_of(opt_path(*home)),
{
    require_given(home, "HOME is required", "HOME")
}

/// The root of a plugin that is being installed.
pub fn required_plugin_root(value: &Option<FsPath>) -> (r: ManagedResult<FsPath>)
    ensures
        outcome(r) == given_path(
            opt_path(*value),
            "HERDR_A2A_PLUGIN_ROOT is required during install"@,
            "HERDR_A2A_PLUGIN_ROOT"@,
        ),
{
    require_given(
        value,
        "HERDR_A2A_PLUGIN_ROOT is required during install",
        "HERDR_A2A_PLUGIN_ROOT",
    )
}

/// The state directory of a plugin that is being installed.
pub fn required_plugin_state_root(value: &Option<FsPath>) -> (r: ManagedResult<FsPath>)
    ensures
        outcome(r) == given_path(
            opt_path(*value),
            "HERDR_PLUGIN_STATE_DIR is required during install"@,
            "HERDR_PLUGIN_STATE_DIR"@,
        ),
{
    require_given(
        value,
        "HERDR_PLUGIN_STATE_DIR is required during install",
        "HERDR_PLUGIN_STATE_DIR",
    )
}

/// The root of the managed installation: below the data directory that the
/// environment names, or in its usual place below the home directory.
pub open spec fn stable_root_of(
    macos: bool,
    data_home: Option<Seq<u8>>,
    home: Option<Seq<u8>>,
) -> Result<Seq<u8>, Failure> {
    let named = if macos {
        match home_of(home) {
            Err(f) => Err(f),
            Ok(h) => Ok(child(h, "Library/Application Support/herdr-a2a"@)),
        }
    } else {
        match data_home {
            Some(d) if d.len() > 0 => match absolute_normal_failure(d, "XDG_DATA_HOME"@) {
                Some(f) => Err(f),
                None => Ok(child(d, "herdr-a2a"@)),
            },
            _ => match home_of(home) {
                Err(f) => Err(f),
                Ok(h) => Ok(child(h, ".local/share/herdr-a2a"@)),
            },
        }
    };
    match named {
        Err(f) => Err(f),
        Ok(root) => match absolute_normal_failure(root, "stable data root"@) {
            Some(f) => Err(f),
            None => Ok(root),
        },
    }
}

/// The root of the managed installation.
pub fn stable_root(macos: bool, data_home: &Option<FsPath>, home: &Option<FsPath>) -> (r:
    ManagedResult<FsPath>)
    ensures
        outcome(r) == stable_root_of(macos, opt_path(*data_home), opt_path(*home)),
{
    let root = if macos {
        required_home(home)?.join("Library/Application Support/herdr-a2a")
    } else {
        let named = match data_home {
            Some(d) => !d.is_empty(),
            None => false,
        };
        if named {
            match data_home {
                Some(d) => require_absolute_normal(d, "XDG_DATA_HOME")?.join("herdr-a2a"),
                None => FsPath::empty(),
            }
        } else {
            required_home(home)?.join(".local/share/herdr-a2a")
        }
    };
    require_absolute_normal(&root, "stable data root")
}

/// The settings file of Pi and the directory above it that belongs to Pi.
pub open spec fn settings_place(agent_dir: Option<Seq<u8>>, home: Option<Seq<u8>>) -> Result<
    (Seq<u8>, Seq<u8>),
    Failure,
> {
    match agent_dir {
        Some(d) if d.len() > 0 => match absolute_normal_failure(d, "PI_CODING_AGENT_DIR"@) {
            Some(f) => Err(f),
            None => Ok((child(d, "settings.json"@), d)),
        },
        _ => match home_of(home) {
            Err(f) => Err(f),
            Ok(h) => Ok(
                (child(child(child(h, ".pi"@), "agent"@), "settings.json"@), child(h, ".pi"@)),
            ),
        },
    }
}

/// The settings file of Pi and the directory above it that belongs to Pi.
pub fn pi_settings_location(agent_dir: &Option<FsPath>, home: &Option<FsPath>) -> (r: ManagedResult<
    (FsPath, FsPath),
>)
    ensures
        (match r {
            Ok(v) => Ok::<(Seq<u8>, Seq<u8>), Failure>((v.0@, v.1@)),
            Err(e) => Err(e@),
        }) == settings_place(opt_path(*agent_dir), opt_path(*home)),
{
    if let Some(d) = agent_dir {
        if !d.is_empty() {
            let dir = require_absolute_normal(d, "PI_CODING_AGENT_DIR")?;
            let settings = dir.join("settings.json");
            return Ok((settings, dir));
        }
    }
    let root = required_home(home)?.join(".pi");
    let settings = root.join("agent").join("settings.json");
    Ok((settings, root))
}

/// The settings file of Pi.
pub fn pi_settings_path(agent_dir: &Option<FsPath>, home: &Option<FsPath>) -> (r: ManagedResult<
    FsPath,
>)
    ensures
        outcome(r) == match settings_place(opt_path(*agent_dir), opt_path(*home)) {
            Ok(v) => Ok::<Seq<u8>, Failure>(v.0),
            Err(f) => Err(f),
        },
{
    let (settings, _) = pi_settings_location(agent_dir, home)?;
    Ok(settings)
}

/// The kind of an installation, or why there is none.
pub open spec fn install_kind_of(value: Option<Seq<char>>) -> Result<Seq<char>, Failure> {
    match value {
        None => Ok("managed"@),
        Some(kind) => if crate::layout::known_kind(kind) {
            Ok(kind)
        } else {
            Err(
                (
                    "invalid_install_kind"@,
                    "HERDR_A2A_INSTALL_KIND must be managed or linked-dev"@,
                ),
            )
        },
    }
}

/// The kind of an installation; without a value it is a managed one.
pub fn install_kind(value: Option<&str>) -> (r: ManagedResult<String>)
    ensures
        crate::layout::text_outcome(r) == install_kind_of(
            match value {
                Some(v) => Some(v@),
                None => None,
            },
        ),
{
    match value {
        None => Ok("managed".to_owned()),
        Some(kind) => {
            if !crate::layout::is_known_kind(kind) {
                return fail(
                    "invalid_install_kind",
                    "HERDR_A2A_INSTALL_KIND must be managed or linked-dev",
                );
            }
            Ok(kind.to_owned())
        },
    }
}

/// What is wrong with the state directory of a managed plugin.
pub open spec fn state_root_failure(p: Seq<u8>) -> Option<Failure> {
    if name_up(p, 0) != Some(utf8("herdr.a2a"@)) || name_up(p, 1) != Some(utf8("plugins"@))
        || name_up(p, 2) != Some(utf8("herdr"@)) {
        Some(
            (
                "unsafe_install_path"@,
                "managed plugin-state root does not match the Herdr plugin namespace"@,
            ),
        )
    } else if up(p, 3) is None {
        Some(("unsafe_install_path"@, "managed plugin-state root has no strict parent"@))
    } else {
        None
    }
}

/// The directory above the part of a plugin's state directory that is made if it
/// is absent: `herdr`, `plugins` and `herdr.a2a` below it.
pub fn prepare_managed_plugin_state_root(path: &FsPath) -> (r: ManagedResult<FsPath>)
    ensures
        failure(r) == state_root_failure(path@),
        r is Ok ==> Some(r->Ok_0@) == up(path@, 3),
{
    reveal_with_fuel(up, 4);
    let plugins = path.parent();
    let herdr = match &plugins {
        Some(p) => p.parent(),
        None => None,
    };
    let above = match &herdr {
        Some(p) => p.parent(),
        None => None,
    };
    let plugins_named = match &plugins {
        Some(p) => p.file_name_is("plugins"),
        None => false,
    };
    let herdr_named = match &herdr {
        Some(p) => p.file_name_is("herdr"),
        None => false,
    };
    if !path.file_name_is("herdr.a2a") || !plugins_named || !herdr_named {
        return fail(
            "unsafe_install_path",
            "managed plugin-state root does not match the Herdr plugin namespace",
        );
    }
    match above {
        Some(parent) => Ok(parent),
        None => fail(
            "unsafe_install_path",
            "managed plugin-state root has no strict parent",
        ),
    }
}

/// A failure of state that is not safe to purge.
pub open spec fn unsafe_state(message: Seq<char>) -> Option<Failure> {
    Some(("unsafe_owned_state"@, message))
}

/// What stands in the way of purging a state directory.
pub open spec fn purge_root_failure(
    record: RecordView,
    stable: Seq<u8>,
    state_dir: Option<Seq<u8>>,
    home: Option<Seq<u8>>,
    check: Option<Failure>,
) -> Option<Failure> {
    if !record.purge_authority {
        unsafe_state("purge authority is not established by authenticated ownership"@)
    } else {
        match state_dir {
            None => unsafe_state("HERDR_PLUGIN_STATE_DIR is required for purge"@),
            Some(root) => match absolute_normal_failure(root, "HERDR_PLUGIN_STATE_DIR"@) {
                Some(f) => unsafe_state(failure_text(f)),
                None => if !same_path(root, record.plugin_state_root) {
                    unsafe_state("purge root does not match authenticated ownership"@)
                } else {
                    match home_of(home) {
                        Err(f) => Some(f),
                        Ok(home) => if same_path(root, utf8("/"@)) || same_path(root, home)
                            || path_under(root, stable) {
                            unsafe_state(
                                "purge root overlaps a forbidden broad or installation path"@,
                            )
                        } else {
                            recoded(check, "unsafe_owned_state"@)
                        },
                    }
                },
            },
        }
    }
}

/// Checks a state directory that is to be purged: it must be the one that the
/// record names, and neither the root, the home directory nor a part of the
/// installation.
pub fn validate_purge_root(
    record: &OwnershipRecord,
    stable_root: &FsPath,
    state_dir: &Option<FsPath>,
    home: &Option<FsPath>,
    check: &ManagedResult<()>,
) -> (r: ManagedResult<FsPath>)
    ensures
        failure(r) == purge_root_failure(
            record@,
            stable_root@,
            opt_path(*state_dir),
            opt_path(*home),
            failure(*check),
        ),
        r is Ok ==> same_path(r->Ok_0@, record.plugin_state_root@) && Some(r->Ok_0@) == opt_path(
            *state_dir,
        ),
{
    if !record.purge_authority {
        return fail(
            "unsafe_owned_state",
            "purge authority is not established by authenticated ownership",
        );
    }
    let Some(value) = state_dir else {
        return fail("unsafe_owned_state", "HERDR_PLUGIN_STATE_DIR is required for purge");
    };
    let root = match require_absolute_normal(value, "HERDR_PLUGIN_STATE_DIR") {
        Ok(root) => root,
        Err(e) => {
            return Err(e.recode("unsafe_owned_state"));
        },
    };
    if !root.same(&record.plugin_state_root) {
        return fail("unsafe_owned_state", "purge root does not match authenticated ownership");
    }
    let home = required_home(home)?;
    if root.same(&FsPath::from_text("/")) || root.same(&home) || root.starts_with(stable_root) {
        return fail(
            "unsafe_owned_state",
            "purge root overlaps a forbidden broad or installation path",
        );
    }
    match check {
        Ok(_) => Ok(root),
        Err(e) => Err(e.copy().recode("unsafe_owned_state")),
    }
}

/// A purge never reaches the installation or the home directory, whatever the
/// environment says.
pub proof fn law_purge_stays_in_the_recorded_state(
    record: RecordView,
    stable: Seq<u8>,
    state_dir: Option<Seq<u8>>,
    home: Option<Seq<u8>>,
    check: Option<Failure>,
)
    requires
        purge_root_failure(record, stable, state_dir, home, check) is None,
    ensures
        record.purge_authority,
        state_dir is Some,
        same_path(state_dir->0, record.plugin_state_root),
        !path_under(state_dir->0, stable),
        home_of(home) is Ok && !same_path(state_dir->0, home_of(home)->Ok_0),
{
}

/// A path of the environment is taken as it is just when it is there, is not empty and is
/// absolute.
pub proof fn law_given_paths_are_absolute(
    value: Option<Seq<u8>>,
    missing: Seq<char>,
    label: Seq<char>,
    p: Seq<u8>,
)
    ensures
        given_path(value, missing, label) == Ok::<Seq<u8>, Failure>(p) <==> (value == Some(p)
            && p.len() > 0 && absolute_normal(p)),
        given_path(value, missing, label) is Err ==> given_path(value, missing, label)->Err_0.0
            == "unsafe_install_path"@,
        home_of(value) == Ok::<Seq<u8>, Failure>(p) <==> (value == Some(p) && p.len() > 0
            && absolute_normal(p)),
{
}

/// An installation lies below the data directory that the environment names, but on macOS
/// always, and elsewhere where it names none, below the home directory. A directory that is
/// named but not absolute is refused and not passed over.
pub proof fn law_installs_lie_below_data_or_home(
    macos: bool,
    data_home: Option<Seq<u8>>,
    home: Option<Seq<u8>>,
)
    ensures
        ({
            let r = stable_root_of(macos, data_home, home);
            let named = !macos && data_home is Some && data_home->0.len() > 0;
            &&& named && !absolute_normal(data_home->0) ==> r is Err
            &&& named && r is Ok ==> r->Ok_0 == child(data_home->0, "herdr-a2a"@)
            &&& !named && home_of(home) is Err ==> r == home_of(home)
            &&& macos && r is Ok ==> r->Ok_0 == child(
                home->0,
                "Library/Application Support/herdr-a2a"@,
            )
            &&& !macos && !named && r is Ok ==> r->Ok_0 == child(
                home->0,
                ".local/share/herdr-a2a"@,
            )
            &&& r is Ok ==> absolute_normal(r->Ok_0)
        }),
{
}

/// The settings of Pi lie in the directory that the environment names for it, or else in
/// `.pi/agent` below the home directory; the directory that belongs to Pi is then the one
/// named, or `.pi`.
pub proof fn law_settings_lie_in_the_directory_of_pi(
    agent_dir: Option<Seq<u8>>,
    home: Option<Seq<u8>>,
)
    ensures
        ({
            let r = settings_place(agent_dir, home);
            let named = agent_dir is Some && agent_dir->0.len() > 0;
            &&& named ==> (r is Ok <==> absolute_normal(agent_dir->0))
            &&& !named ==> (r is Ok <==> home_of(home) is Ok)
            &&& named && r is Ok ==> r->Ok_0 == (
                child(agent_dir->0, "settings.json"@),
                agent_dir->0,
            )
            &&& !named && r is Ok ==> (r->Ok_0).1 == child(home->0, ".pi"@) && (r->Ok_0).0 == child(
                child((r->Ok_0).1, "agent"@),
                "settings.json"@,
            )
        }),
{
}

/// An installation is a managed one unless the environment says otherwise, and it may say
/// only what is known.
pub proof fn law_install_kinds_are_known(value: Option<Seq<char>>)
    ensures
        value is None ==> install_kind_of(value) == Ok::<Seq<char>, Failure>("managed"@),
        value is Some ==> (install_kind_of(value) is Ok <==> value->0 == "managed"@ || value->0
            == "linked-dev"@),
        value is Some && install_kind_of(value) is Ok ==> install_kind_of(value)->Ok_0 == value->0,
        install_kind_of(value) is Err ==> install_kind_of(value)->Err_0.0
            == "invalid_install_kind"@,
{
}

/// A state directory of a managed plugin is `herdr.a2a` in `plugins` in `herdr`, below some
/// directory.
pub proof fn law_state_directories_are_of_the_plugin(p: Seq<u8>)
    ensures
        state_root_failure(p) is None <==> (name_up(p, 0) == Some(utf8("herdr.a2a"@)) && name_up(
            p,
            1,
        ) == Some(utf8("plugins"@)) && name_up(p, 2) == Some(utf8("herdr"@)) && up(p, 3) is Some),
{
}

/// A state directory is purged just when the record has authority over it, the environment
/// names the same one, it is neither the root of the file system nor the home directory
/// nor in the installation, and its own check passes.
pub proof fn law_only_the_recorded_state_is_purged(
    record: RecordView,
    stable: Seq<u8>,
    state_dir: Option<Seq<u8>>,
    home: Option<Seq<u8>>,
    check: Option<Failure>,
)
    ensures
        purge_root_failure(record, stable, state_dir, home, check) is None <==> (
        record.purge_authority && state_dir is Some && absolute_normal(state_dir->0) && parts(
            state_dir->0,
        ) == parts(record.plugin_state_root) && home_of(home) is Ok && parts(state_dir->0) != parts(
            utf8("/"@),
        ) && parts(state_dir->0) != parts(home_of(home)->Ok_0) && !parts(stable).is_prefix_of(
            parts(state_dir->0),
        ) && check is None),
{
}

} // verus!
