use herdr_a2a_cli::archive::{extract_validated_tar, parse_tar_octal, plan_release};
use herdr_a2a_cli::bounded::{
    collect_output, copy_bounded_reader, copy_owned_file, digest_bounded_reader,
    digest_bounded_stage_file, digest_opened_owned_file, next_request, parse_bounded_opened_json,
    read_bounded_opened_bytes, read_bounded_opened_utf8, ByteSink, ByteSource, MemorySink,
    MemorySource,
};
use herdr_a2a_cli::digest::{hex, sha256_bytes, valid_digest};
use herdr_a2a_cli::error::{ManagedError, ManagedResult};
use herdr_a2a_cli::guard::{
    check_after_protecting, check_before_protecting, check_install_lock,
    check_owned_file_unchanged, check_private_owner, check_settings_file,
    check_stage_directory_unchanged, check_stage_file_unchanged, create_private_directory,
    find_in_path, harden_opened_managed_directory, managed_plugin_config_boundary,
    snapshot_owned_file, validate_opened_directory, validate_opened_external_file,
    validate_owned_file_digest, validate_plugin_root, ChainCheck, FileFacts, PluginRootPlan,
    ProgramFound,
};
use herdr_a2a_cli::json::{encode_json, parse_json, Json};
use herdr_a2a_cli::order::{is_path_less, sort_located, SortOrder};
use herdr_a2a_cli::path::{
    check_stored_path, is_absolute_normal, normal_components, path_text, strip_prefix, FsPath,
};
use herdr_a2a_cli::pi::{
    absolute_managed_pi_entry, authenticated_managed_pi_entry, check_legacy_digests,
    expected_post_pi_entries, first_install_owned_entry, legacy_source, managed_pi_entry,
    pi_entry_matches_path, plan_legacy_replacement, plan_pi_install, plan_pi_removal,
    read_pi_settings, resolve_pi_entry_path, run_pi_checked, same_json_multiset,
    validate_pi_entry_if_present, validate_ready_pi, PiSettings,
};
use herdr_a2a_cli::places::{
    install_kind, pi_settings_path, prepare_managed_plugin_state_root, required_home,
    required_plugin_root, required_plugin_state_root, stable_root, validate_purge_root,
};
use herdr_a2a_cli::record::{InstallState, OwnershipRecord};
use herdr_a2a_cli::registry::{
    bind_managed_process_start_broker, drain_step, drop_reservations_of,
    expected_generation_for_record, read_process_registry, read_starting_process_registry,
    register_managed_process, reserve_managed_process_start, unregister_managed_process,
    unregister_managed_process_start, write_process_registry, write_starting_process_registry,
    DrainStep, ManagedProcessEntry, ManagedStartingBrokerProof, ManagedStartingProcessEntry,
};
use herdr_a2a_cli::snapshot::OwnedDirectory;
use herdr_a2a_cli::version::{
    event_is_pi, event_names_pi, read_adapter_contract, read_plugin_version,
    validate_install_compatibility, validate_repair_compatibility, AdapterContract,
    ComponentsFound, ProcessOutput,
};
use herdr_a2a_cli::walk::{validate_external_tree, StageVisit, StageWalkState, TreePurpose, TreeWalkState};

fn path(text: &str) -> FsPath {
    FsPath::from_text(text)
}

fn text_of(path: &FsPath) -> String {
    String::from_utf8(path.bytes.clone()).unwrap()
}

fn broken<T>() -> ManagedResult<T> {
    Err(ManagedError::new("broken", "seen by the caller"))
}

#[test]
fn digests_are_sha256_in_hexadecimal() {
    assert_eq!(
        sha256_bytes(b"abc"),
        "ba7816bf8f01cfea414140de5dae2223b00361a396177a9cb410ff61f20015ad"
    );
    assert_eq!(hex(&[0, 15, 255]), "000fff");
    assert!(valid_digest(&sha256_bytes(b"")));
    assert!(!valid_digest(&"A".repeat(64)));
    assert!(!valid_digest("ab"));
}

#[test]
fn json_documents_read_and_write_back() {
    let value = parse_json(r#" {"b":[1,-2,1.50,null,true],"a":"é"} "#.as_bytes()).unwrap();
    assert_eq!(encode_json(&value), "{\"a\":\"é\",\"b\":[1,-2,1.5,null,true]}".as_bytes());
    assert!(value.same(&value.copy()));
    assert!(!value.same(&Json::Null));
    assert_eq!(value.get_text("a").unwrap(), "é");
    assert!(parse_json(b"{\"a\":1} x").is_err());
}

#[test]
fn paths_are_compared_by_their_components() {
    assert!(path("/a//b/./c/").same(&path("/a/b/c")));
    assert!(!path("a").same(&path("/a")));
    assert!(!path("./a").same(&path("a")));
    assert!(path("/a/b").starts_with(&path("/a/")));
    assert!(!path("/ab").starts_with(&path("/a")));
    assert_eq!(text_of(&path("/a/b/").parent().unwrap()), "/a");
    assert_eq!(text_of(&path("/a/b/.").parent().unwrap()), "/a");
    assert!(path("/").parent().is_none());
    assert_eq!(text_of(&path("a").parent().unwrap()), "");
    assert_eq!(path("/a/b").file_name().unwrap(), b"b");
    assert!(path("/a/..").file_name().is_none());
    assert_eq!(text_of(&path("/a").join("b/c")), "/a/b/c");
    assert_eq!(text_of(&path("/a").join("/b")), "/b");
    assert!(is_absolute_normal(&path("/a/b")));
    assert!(!is_absolute_normal(&path("/a/../b")));
    assert!(!is_absolute_normal(&path("a")));
    assert_eq!(text_of(&strip_prefix(&path("/a/b/c"), &path("/a")).unwrap()), "b/c");
    assert!(strip_prefix(&path("/a"), &path("/b")).is_none());
    assert_eq!(normal_components(&path("/a/b")).unwrap(), [b"a".to_vec(), b"b".to_vec()]);
    assert!(normal_components(&path("a")).is_err());
    assert_eq!(path_text(&path("/a")).unwrap(), "/a");
    assert!(path_text(&FsPath::from_bytes(vec![255])).is_err());
    assert!(check_stored_path(&path("/a"), "x").is_ok());
    assert!(check_stored_path(&path("/a\nb"), "x").is_err());
}

#[test]
fn paths_are_sorted_by_components_or_depth() {
    assert!(is_path_less(b"/a/b", b"/a.b"));
    assert!(!is_path_less(b"/a.b", b"/a/b"));
    let sorted = sort_located(
        SortOrder::DeepestFirst,
        vec![path("/a"), path("/a/b/c"), path("/z/y"), path("/a/b")],
    );
    let names: Vec<String> = sorted.iter().map(text_of).collect();
    assert_eq!(names, ["/a/b/c", "/z/y", "/a/b", "/a"]);
}

struct Pieces(Vec<Result<Vec<u8>, String>>);

impl ByteSource for Pieces {
    fn read(&mut self, _max: usize) -> Result<Vec<u8>, String> {
        if self.0.is_empty() {
            Ok(Vec::new())
        } else {
            self.0.remove(0)
        }
    }
}

struct Collected(Vec<u8>);

impl ByteSink for Collected {
    fn write(&mut self, bytes: &[u8]) -> Result<(), String> {
        self.0.extend_from_slice(bytes);
        Ok(())
    }
}

fn pieces() -> Pieces {
    Pieces(vec![Ok(b"ab".to_vec()), Ok(b"c".to_vec())])
}

#[test]
fn reads_digest_what_they_read() {
    let mut total = 5;
    let digest = digest_bounded_stage_file(&mut pieces(), 10, &mut total, 100, "c").unwrap();
    assert_eq!(digest.bytes, 3);
    assert_eq!(digest.sha256, sha256_bytes(b"abc"));
    assert_eq!(total, 8);
    assert_eq!(
        digest_opened_owned_file(&mut pieces(), 3, "c").unwrap(),
        sha256_bytes(b"abc")
    );
    assert_eq!(
        digest_opened_owned_file(&mut pieces(), 4, "c").unwrap_err().message,
        "owned file size changed while it was hashed"
    );
    assert_eq!(read_bounded_opened_bytes(&mut pieces(), 3, 10, "c").unwrap(), b"abc");
    assert!(read_bounded_opened_bytes(&mut pieces(), 3, 2, "c").is_err());
    assert_eq!(
        read_bounded_opened_bytes(&mut Pieces(vec![Err("gone".to_owned())]), 3, 10, "c")
            .unwrap_err()
            .message,
        "cannot read a managed text file: gone"
    );
    let mut output = b"12".to_vec();
    assert!(collect_output(&mut output, b"3".to_vec(), 3));
    assert!(!collect_output(&mut output, b"4".to_vec(), 3));
    assert_eq!(output, b"123");
}

#[test]
fn copies_digest_what_they_write() {
    let mut walk = TreeWalkState::start(TreePurpose::Copy);
    let mut total = 0;
    let mut sink = Collected(Vec::new());
    let copied =
        copy_bounded_reader(&mut pieces(), &mut sink, 10, &mut total, 10, &mut walk.hasher).unwrap();
    assert_eq!(copied, 3);
    assert_eq!(sink.0, b"abc");
    let mut more = Collected(Vec::new());
    assert!(
        copy_bounded_reader(&mut pieces(), &mut more, 2, &mut total, 10, &mut walk.hasher).is_err()
    );
    assert_eq!(more.0, b"ab");
}

fn memory(bytes: &[u8]) -> MemorySource {
    MemorySource::new(bytes.to_vec())
}

#[test]
fn bytes_in_memory_are_read_whole() {
    let mut source = memory(b"abcdef");
    assert_eq!(source.read(4).unwrap(), b"abcd");
    assert_eq!(source.read(4).unwrap(), b"ef");
    assert_eq!(source.read(4).unwrap(), b"");
    let long = vec![7_u8; 20_000];
    assert_eq!(read_bounded_opened_bytes(&mut memory(&long), 20_000, 20_000, "c").unwrap(), long);
    let mut total = 0;
    assert_eq!(digest_bounded_reader(&mut memory(&long), 20_000, &mut total, 30_000).unwrap(), 20_000);
    assert_eq!(total, 20_000);
    assert_eq!(
        digest_bounded_reader(&mut memory(&long), 20_000, &mut total, 30_000).unwrap_err().message,
        "package tree exceeds its actual-read byte limit"
    );
    assert!(total <= 30_000);
    assert_eq!(
        digest_opened_owned_file(&mut memory(&long), 20_000, "c").unwrap(),
        sha256_bytes(&long)
    );
}

#[test]
fn reads_of_whole_files_are_refused_by_their_length() {
    let message = |expected: u64, limit: u64| {
        read_bounded_opened_bytes(&mut memory(b"abc"), expected, limit, "c").unwrap_err().message
    };
    assert_eq!(message(9, 8), "managed file exceeds its limit");
    assert_eq!(message(2, 8), "managed file size changed while it was read");
    assert_eq!(message(4, 8), "managed file size changed while it was read");
    assert_eq!(message(2, 2), "managed file size changed while it was read");
    assert_eq!(
        digest_opened_owned_file(&mut memory(b""), u64::MAX, "c").unwrap_err().message,
        "owned file exceeds the hashing limit"
    );
    assert_eq!(read_bounded_opened_utf8(&mut memory("\u{e4}".as_bytes()), 2, 8, "c").unwrap(), "\u{e4}");
    assert_eq!(
        read_bounded_opened_utf8(&mut memory(&[0xff]), 1, 8, "c").unwrap_err().message,
        "managed text file is not valid UTF-8"
    );
    assert!(matches!(
        parse_bounded_opened_json(&mut memory(b"[1]"), 3, 8, "c").unwrap(),
        Json::Array(items) if matches!(items.as_slice(), [Json::UInt(1)])
    ));
    assert!(parse_bounded_opened_json(&mut memory(b"[1"), 2, 8, "c").is_err());
    assert_eq!(next_request(0, 5), 5);
    assert_eq!(next_request(2, 5), 3);
    assert_eq!(next_request(5, 5), 0);
    assert_eq!(next_request(0, u64::MAX), 8192);
}

#[test]
fn a_read_over_the_limit_takes_one_byte_more() {
    let mut source = memory(b"abcdefgh");
    assert!(read_bounded_opened_bytes(&mut source, 3, 3, "c").is_err());
    assert_eq!(source.read(9).unwrap(), b"efgh");
    let mut untouched = memory(b"abc");
    assert!(read_bounded_opened_bytes(&mut untouched, 4, 3, "c").is_err());
    assert_eq!(untouched.read(9).unwrap(), b"abc");
}

#[test]
fn files_of_a_bundle_are_copied_whole_or_refused() {
    let mut sink = MemorySink::new();
    copy_owned_file(&mut memory(b"abc"), &mut sink, 3).unwrap();
    assert_eq!(sink.bytes, b"abc");
    let message = |source: &[u8], reported: u64| {
        copy_owned_file(&mut memory(source), &mut MemorySink::new(), reported).unwrap_err().message
    };
    assert_eq!(message(b"abc", 2), "bundle file size changed while it was copied");
    assert_eq!(message(b"abc", u64::MAX), "bundle file exceeds the copy limit");
    let mut broken = Pieces(vec![Ok(b"ab".to_vec()), Err("gone".to_owned())]);
    let mut sink = MemorySink::new();
    assert_eq!(
        copy_owned_file(&mut broken, &mut sink, 3).unwrap_err().message,
        "cannot read opened bundle file: gone"
    );
    assert_eq!(sink.bytes, b"ab");
}

struct Full;

impl ByteSink for Full {
    fn write(&mut self, _bytes: &[u8]) -> Result<(), String> {
        Err("full".to_owned())
    }
}

#[test]
fn copies_fail_where_the_sink_refuses() {
    let error = copy_owned_file(&mut memory(b"abc"), &mut Full, 3).unwrap_err();
    assert_eq!(error.code, "generation_failed");
    assert_eq!(error.message, "cannot write owned tree file: full");
    copy_owned_file(&mut memory(b""), &mut Full, 0).unwrap();
    let mut walk = TreeWalkState::start(TreePurpose::Copy);
    assert!(walk.copy_file(&path("a"), &mut memory(b"abc"), &mut Full, 3).is_err());
    assert_eq!(walk.total_bytes, 0);
}

#[test]
fn copied_and_digested_trees_have_the_same_digest() {
    let contents: [(&str, &[u8]); 2] = [("a", b"abc"), ("b/c", b"")];
    let mut framed = Vec::new();
    let mut digested = TreeWalkState::start(TreePurpose::Digest);
    let mut copied = TreeWalkState::start(TreePurpose::Copy);
    for (name, bytes) in contents {
        framed.extend_from_slice(&(name.len() as u64).to_be_bytes());
        framed.extend_from_slice(name.as_bytes());
        framed.extend_from_slice(bytes);
        let length = bytes.len() as u64;
        digested.digest_file(&path(name), &mut memory(bytes), length).unwrap();
        let mut sink = MemorySink::new();
        copied.copy_file(&path(name), &mut memory(bytes), &mut sink, length).unwrap();
        assert_eq!(sink.bytes, bytes);
    }
    assert_eq!(copied.total_bytes, 3);
    let (files, digest) = digested.finish();
    let names: Vec<String> = files.iter().map(text_of).collect();
    assert_eq!(names, ["a", "b/c"]);
    assert_eq!(digest, sha256_bytes(&framed));
    assert_eq!(copied.finish().1, digest);
    let mut walk = TreeWalkState::start(TreePurpose::Copy);
    assert_eq!(
        walk.copy_file(&path("a"), &mut memory(b"abc"), &mut MemorySink::new(), 4)
            .unwrap_err()
            .message,
        "bundle file size changed while it was copied"
    );
    assert!(walk.files.is_empty());
    assert_eq!(
        TreeWalkState::start(TreePurpose::Digest)
            .digest_file(&path("a"), &mut memory(b"abc"), 2)
            .unwrap_err()
            .message,
        "package file size changed while it was read"
    );
}

fn facts(is_dir: bool, mode: u32) -> FileFacts {
    FileFacts { is_dir, is_file: !is_dir, uid: 7, mode, nlink: 1, len: 3, device: 1, inode: 2 }
}

#[test]
fn only_private_things_are_safe() {
    assert!(validate_opened_directory(&facts(true, 0o700), 7, true).is_ok());
    assert!(validate_opened_directory(&facts(true, 0o755), 7, true).is_err());
    assert!(validate_opened_directory(&facts(true, 0o755), 7, false).is_ok());
    assert!(validate_opened_directory(&facts(false, 0o700), 7, false).is_err());
    assert_eq!(
        harden_opened_managed_directory(&facts(true, 0o770), 7, None).unwrap(),
        Some(0o750)
    );
    assert!(validate_opened_external_file(&facts(false, 0o755), 7, true).is_ok());
    assert!(validate_opened_external_file(&facts(false, 0o644), 7, true).is_err());
    assert!(check_settings_file(&facts(false, 0o600), 7).is_ok());
    assert!(check_settings_file(&facts(false, 0o640), 7).is_err());
    assert!(check_before_protecting(&facts(false, 0o640), 7, 0o600, "c").is_ok());
    assert!(check_after_protecting(&facts(false, 0o640), 7, 0o600, "c").is_err());
    assert!(check_private_owner(&facts(true, 0o700), 7, "plugin root").is_ok());
    assert_eq!(
        check_private_owner(&facts(true, 0o700), 8, "plugin root").unwrap_err().message,
        "the plugin root is not owned by the current user"
    );
    assert!(
        validate_owned_file_digest(&facts(false, 0o600), 7, 0o600, &Ok("d".to_owned()), "d", "c")
            .is_ok()
    );
    assert!(
        validate_owned_file_digest(&facts(false, 0o600), 7, 0o600, &Ok("e".to_owned()), "d", "c")
            .is_err()
    );
    assert!(check_install_lock(&facts(false, 0o600), &facts(false, 0o600), 7).is_ok());
    let mut other = facts(false, 0o600);
    other.inode = 3;
    assert!(check_install_lock(&facts(false, 0o600), &other, 7).is_err());
}

#[test]
fn what_is_removed_must_be_what_was_seen() {
    let seen =
        snapshot_owned_file(&path("/f"), &facts(false, 0o600), 7, 0o600, Ok("d".repeat(64)))
            .unwrap();
    assert!(check_stage_file_unchanged(&seen, &facts(false, 0o600)).is_ok());
    assert!(check_stage_file_unchanged(&seen, &facts(false, 0o644)).is_err());
    let dir = OwnedDirectory { path: path("/d"), device: 1, inode: 2, mode: 0o700 };
    assert!(check_stage_directory_unchanged(&dir, &facts(true, 0o700)).is_ok());
    assert!(check_stage_directory_unchanged(&dir, &facts(true, 0o755)).is_err());
    let file = facts(false, 0o600);
    assert!(check_owned_file_unchanged(&file, &file, 0o600, "d", "d").is_ok());
    assert!(check_owned_file_unchanged(&file, &file, 0o600, "d", "e").is_err());
}

#[test]
fn plugin_roots_are_hardened_from_their_boundary() {
    let managed = path("/home/u/.config/herdr/plugins/.tmp-install-9/checkout/plugins/herdr");
    assert_eq!(
        text_of(&managed_plugin_config_boundary(&managed).unwrap()),
        "/home/u/.config/herdr"
    );
    match validate_plugin_root(&managed, true).unwrap() {
        PluginRootPlan::Chain(steps) => {
            assert_eq!(steps.last().unwrap().name, b"herdr");
            assert_eq!(steps.last().unwrap().check, ChainCheck::HardenTo(0o700));
        }
        other => panic!("{other:?}"),
    }
    assert!(validate_plugin_root(&path("/home/u/elsewhere"), true).is_err());
    assert!(matches!(
        validate_plugin_root(&path("/home/u/elsewhere"), false),
        Ok(PluginRootPlan::Private)
    ));
    assert!(validate_plugin_root(&path("relative"), false).is_err());
    let (existing, create) = create_private_directory(&path("/a/b/c"), 2).unwrap();
    assert_eq!(text_of(&existing), "/a");
    let names: Vec<String> = create.iter().map(text_of).collect();
    assert_eq!(names, ["/a/b", "/a/b/c"]);
    assert!(create_private_directory(&path("/a"), 3).is_err());
}

#[test]
fn programs_are_found_in_absolute_directories() {
    let place = |directory: &str, file: Option<FileFacts>| ProgramFound {
        directory: path(directory),
        file,
    };
    let found = vec![
        place("bin", Some(facts(false, 0o755))),
        place("/none", None),
        place("/data", Some(facts(false, 0o644))),
        place("/usr/bin", Some(facts(false, 0o755))),
    ];
    assert_eq!(text_of(&find_in_path(&found, "pi").unwrap()), "/usr/bin/pi");
    assert!(find_in_path(&Vec::new(), "pi").is_none());
}

#[test]
fn stages_are_walked_in_order() {
    let root = path("/s");
    let mut walk = StageWalkState::start(&root, &facts(true, 0o700), 7).unwrap();
    let names = walk
        .enter(vec![b"b".to_vec(), b".".to_vec(), b"..".to_vec(), b"a".to_vec()])
        .unwrap();
    assert_eq!(names, [b"a".to_vec(), b"b".to_vec()]);
    assert_eq!(
        walk.visit(&root.join("b"), &facts(true, 0o700), 7, 0).unwrap(),
        StageVisit::Directory
    );
    assert_eq!(walk.visit(&root.join("a"), &facts(false, 0o600), 7, 0).unwrap(), StageVisit::File);
    assert!(walk.visit(&root.join("a"), &facts(false, 0o644), 7, 0).is_err());
    assert!(walk.visit(&root.join("b"), &facts(true, 0o700), 7, 64).is_err());
    let file = facts(false, 0o600);
    walk.digest_file(&root.join("a"), &file, &mut pieces()).unwrap();
    assert_eq!(
        walk.digest_file(&root.join("c"), &file, &mut memory(b"abcd")).unwrap_err().message,
        "transaction stage file size changed while it was read"
    );
    assert_eq!(walk.files.len(), 1);
    let snapshot = walk.finish();
    assert_eq!(snapshot.directories.len(), 2);
    assert_eq!(snapshot.files[0].sha256, sha256_bytes(b"abc"));
    assert!(StageWalkState::start(&root, &facts(true, 0o755), 7).is_err());
}

#[test]
fn package_trees_are_digested_by_path_and_bytes() {
    let mut walk = TreeWalkState::start(TreePurpose::Digest);
    walk.enter(vec![b"a".to_vec()]).unwrap();
    assert_eq!(walk.visit(&facts(false, 0o644), 7, 0).unwrap(), StageVisit::File);
    assert!(walk.visit(&facts(false, 0o666), 7, 0).is_err());
    walk.begin_file(&path("a"));
    let mut total = 0;
    let mut sink = Collected(Vec::new());
    let read =
        copy_bounded_reader(&mut pieces(), &mut sink, 10, &mut total, 10, &mut walk.hasher).unwrap();
    walk.end_file(&path("a"), read, 3).unwrap();
    let (files, digest) = walk.finish();
    assert_eq!(files.len(), 1);
    let mut framed = vec![0, 0, 0, 0, 0, 0, 0, 1, b'a'];
    framed.extend_from_slice(b"abc");
    assert_eq!(digest, sha256_bytes(&framed));
    assert!(validate_external_tree(&files).is_err());
    assert!(validate_external_tree(&Vec::new()).is_err());
}

#[test]
fn zero_is_zero_whatever_its_sign() {
    let value = |text: &str| parse_json(text.as_bytes()).unwrap();
    assert!(value("[0.0]").same(&value("[-0.0]")));
    assert!(value(r#"{"a":-0.0}"#).same(&value(r#"{"a":0.0}"#)));
    assert!(!value("0.0").same(&value("0")));
    assert!(!value("1.5").same(&value("-1.5")));
    assert_ne!(encode_json(&value("0.0")), encode_json(&value("-0.0")));
}

fn header(name: &str, directory: bool, mode: u32, size: usize) -> Vec<u8> {
    let mut block = vec![0_u8; 512];
    block[..name.len()].copy_from_slice(name.as_bytes());
    block[100..108].copy_from_slice(format!("{mode:07o}\0").as_bytes());
    block[124..136].copy_from_slice(format!("{size:011o}\0").as_bytes());
    block[148..156].copy_from_slice(b"        ");
    block[156] = if directory { b'5' } else { b'0' };
    let sum: u32 = block.iter().map(|byte| u32::from(*byte)).sum();
    block[148..156].copy_from_slice(format!("{sum:06o}\0 ").as_bytes());
    block
}

fn release(skip: Option<usize>, mode_of_first: u32) -> Vec<u8> {
    let entries = [
        ("bin/", true, mode_of_first),
        ("bin/herdr-a2a", false, 0o700),
        ("metadata/", true, 0o700),
        ("metadata/ownership-template.json", false, 0o600),
        ("pi/", true, 0o700),
        ("pi/extensions/", true, 0o700),
        ("pi/extensions/herdr-a2a.ts", false, 0o600),
        ("pi/package.json", false, 0o600),
        ("pi/src/", true, 0o700),
        ("pi/src/inbox-pump.ts", false, 0o600),
        ("pi/src/session-client.ts", false, 0o600),
        ("pi/src/team-command.ts", false, 0o600),
        ("pi/skills/", true, 0o700),
        ("pi/skills/herdr-a2a/", true, 0o700),
        ("pi/skills/herdr-a2a/SKILL.md", false, 0o600),
        ("scripts/", true, 0o700),
        ("scripts/dispatch.sh", false, 0o700),
        ("scripts/uninstall.sh", false, 0o600),
    ];
    let mut bytes = Vec::new();
    for (index, (name, directory, mode)) in entries.into_iter().enumerate() {
        if Some(index) == skip {
            continue;
        }
        let content: &[u8] = if directory { b"" } else { b"hello" };
        bytes.extend_from_slice(&header(name, directory, mode, content.len()));
        if !directory {
            let mut block = content.to_vec();
            block.resize(512, 0);
            bytes.extend_from_slice(&block);
        }
    }
    bytes.resize(bytes.len() + 1024, 0);
    bytes
}

#[test]
fn releases_hold_exactly_the_listed_entries() {
    let bytes = release(None, 0o700);
    let entries = extract_validated_tar(&bytes).unwrap();
    assert_eq!(entries.len(), 18);
    assert_eq!(entries[1].name, b"bin/herdr-a2a");
    assert_eq!(&bytes[entries[1].start..entries[1].end], b"hello");
    let message = |bytes: &[u8]| extract_validated_tar(bytes).unwrap_err().message;
    assert_eq!(message(&release(Some(3), 0o700)), "release archive manifest is incomplete");
    assert_eq!(
        message(&release(None, 0o755)),
        "release archive entry has an unsafe type, size, or mode"
    );
    let mut spoiled = release(None, 0o700);
    spoiled[0] = b'x';
    assert_eq!(message(&spoiled), "release archive header checksum is invalid");
    let mut foreign = header("evil", false, 0o600, 0);
    foreign.resize(512 + 1024, 0);
    assert_eq!(message(&foreign), "release archive contains an unexpected entry");
    let mut twice = header("bin/", true, 0o700, 0);
    twice.extend_from_slice(&header("bin/", true, 0o700, 0));
    assert_eq!(message(&twice), "release archive contains a duplicate entry");
    assert_eq!(
        message(&release(None, 0o700)[..512 * 3]),
        "release archive has no complete two-block end marker"
    );
    let mut cut = header("bin/herdr-a2a", false, 0o700, 600);
    cut.resize(1024, 0);
    assert_eq!(message(&cut), "truncated release entry");
    assert_eq!(parse_tar_octal(b"0000644\0").unwrap(), 0o644);
    assert!(parse_tar_octal(b"00x0644\0").is_err());
}

#[test]
fn releases_go_where_nothing_is() {
    let plan = |exists: bool| {
        plan_release(&path("/r/a.tgz"), &path("/d/new"), &Ok(()), exists)
    };
    assert_eq!(text_of(&plan(false).unwrap()), "/d");
    assert_eq!(plan(true).unwrap_err().message, "release destination already exists");
    assert!(plan_release(&path("a.tgz"), &path("/d/new"), &Ok(()), false).is_err());
    assert_eq!(
        plan_release(&path("/a.tgz"), &path("/d/new"), &broken(), true).unwrap_err().code,
        "broken"
    );
}

#[test]
fn places_follow_the_environment() {
    let home = Some(path("/home/u"));
    assert_eq!(text_of(&required_home(&home).unwrap()), "/home/u");
    assert!(required_home(&None).is_err());
    assert_eq!(
        text_of(&stable_root(false, &None, &home).unwrap()),
        "/home/u/.local/share/herdr-a2a"
    );
    assert_eq!(
        text_of(&stable_root(false, &Some(path("/data")), &home).unwrap()),
        "/data/herdr-a2a"
    );
    assert!(text_of(&stable_root(true, &None, &home).unwrap()).contains("Library"));
    assert_eq!(
        text_of(&pi_settings_path(&None, &home).unwrap()),
        "/home/u/.pi/agent/settings.json"
    );
    assert!(required_plugin_root(&Some(path("rel"))).is_err());
    assert!(required_plugin_state_root(&None).is_err());
    assert_eq!(install_kind(None).unwrap(), "managed");
    assert_eq!(install_kind(Some("linked-dev")).unwrap(), "linked-dev");
    assert_eq!(install_kind(Some("x")).unwrap_err().code, "invalid_install_kind");
    assert!(prepare_managed_plugin_state_root(&path("/")).is_err());
}

fn settings(entries: Vec<Json>) -> PiSettings {
    PiSettings { path: path("/home/u/.pi/agent/settings.json"), entries }
}

#[test]
fn entries_lead_back_to_their_packages() {
    let source = path("/home/u/.local/share/x/pi");
    let at = path("/home/u/.pi/agent/settings.json");
    let relative = managed_pi_entry(&at, &source).unwrap();
    assert_eq!(relative.as_text().unwrap(), "../../.local/share/x/pi");
    assert!(resolve_pi_entry_path(&at, &relative).unwrap().same(&source));
    let same = managed_pi_entry(&at, &path("/home/u/.pi/agent")).unwrap();
    assert_eq!(same.as_text().unwrap(), ".");
    assert!(pi_entry_matches_path(&same, &at, &path("/home/u/.pi/agent")));
    let absolute = absolute_managed_pi_entry(&source).unwrap();
    assert!(pi_entry_matches_path(&absolute, &at, &source));
    let object = Json::Object(vec![("source".to_owned(), relative.copy())]);
    assert!(pi_entry_matches_path(&object, &at, &source));
    assert!(!pi_entry_matches_path(&Json::Null, &at, &source));
    assert_eq!(
        resolve_pi_entry_path(&at, &Json::Text("../../../../../x".to_owned())).unwrap_err().code,
        "pi_settings_invalid"
    );
    let stored =
        authenticated_managed_pi_entry(&vec![Json::Text("npm:x".to_owned()), relative.copy()], &at, &source)
            .unwrap();
    assert!(stored.same(&relative));
    assert!(
        authenticated_managed_pi_entry(&vec![relative.copy(), absolute.copy()], &at, &source)
            .is_err()
    );
    assert!(same_json_multiset(
        &vec![relative.copy(), absolute.copy()],
        &vec![absolute.copy(), relative.copy()]
    ));
    assert!(!same_json_multiset(&vec![relative.copy()], &vec![relative.copy(), relative.copy()]));
    let after = expected_post_pi_entries(
        &vec![absolute.copy(), Json::Text("npm:x".to_owned())],
        &Some(absolute.copy()),
        &relative,
    );
    assert_eq!(after.len(), 2);
    assert!(!after.iter().any(|entry| entry.same(&absolute)));
}

#[test]
fn settings_hold_usable_sources() {
    let read = |text: &[u8]| {
        read_pi_settings(path("/s.json"), Some(Ok(parse_json(text).unwrap())))
    };
    assert_eq!(read(br#"{"packages":["npm:x",{"source":"y"}]}"#).unwrap().entries.len(), 2);
    assert!(read(b"{}").unwrap().entries.is_empty());
    assert_eq!(
        read(br#"{"packages":[1]}"#).unwrap_err().message,
        "Pi package entry has no valid source"
    );
    assert_eq!(
        read(br#"{"packages":["a\nb"]}"#).unwrap_err().message,
        "Pi package source contains a line break"
    );
    assert!(read_pi_settings(path("/s.json"), None).unwrap().entries.is_empty());
    assert_eq!(read_pi_settings(path("/s.json"), Some(broken())).unwrap_err().code, "broken");
    assert!(run_pi_checked("install", true).is_ok());
    assert_eq!(run_pi_checked("install", false).unwrap_err().message, "Pi install command failed");
}

#[test]
fn installs_replace_what_they_own() {
    let plugin = path("/p");
    let legacy = Json::Text(text_of(&legacy_source(&plugin)));
    let digest = "b".repeat(64);
    let first = |entries: Vec<Json>, found: Option<String>| {
        first_install_owned_entry(&entries, &plugin, &found, &digest).unwrap()
    };
    assert!(first(vec![legacy.copy()], Some(digest.clone())).unwrap().same(&legacy));
    assert!(first(vec![legacy.copy()], None).is_none());
    assert!(first(vec![legacy.copy(), legacy.copy()], Some(digest.clone())).is_none());
    assert!(plan_legacy_replacement(&vec![legacy.copy()], &None, &plugin).unwrap());
    assert!(!plan_legacy_replacement(&Vec::new(), &None, &plugin).unwrap());
    assert!(
        plan_legacy_replacement(&vec![legacy.copy(), legacy.copy()], &None, &plugin).is_err()
    );
    assert!(check_legacy_digests(&digest, &digest, &digest).is_ok());
    assert!(check_legacy_digests("x", &digest, &digest).is_err());
    let source = path("/new/pi");
    assert!(plan_pi_install(&settings(Vec::new()), &source, &None).unwrap());
    assert!(plan_pi_removal(&settings(Vec::new()), &source, &None, false, &plugin).is_none());
}

fn record() -> OwnershipRecord {
    OwnershipRecord {
        schema_version: 3,
        state: InstallState::Ready,
        plugin_version: "0.1.0".to_owned(),
        broker_digest: "a".repeat(64),
        pi_package_digest: "b".repeat(64),
        pi_package_source: path("/s/generations/0123456789abcdef0123456789abcdef/pi"),
        pi_config_path: path("/home/u/.pi/agent/settings.json"),
        pi_package_entry: managed_pi_entry(
            &path("/home/u/.pi/agent/settings.json"),
            &path("/s/generations/0123456789abcdef0123456789abcdef/pi"),
        )
        .unwrap(),
        purge_authority: true,
        plugin_state_root: path("/home/u/state/herdr.a2a"),
        rescue_path: path("/s/rescue/uninstall.sh"),
        rescue_marker_digest: "c".repeat(64),
        install_kind: "managed".to_owned(),
        plugin_root: path("/p"),
        stable_binary: path("/s/generations/0123456789abcdef0123456789abcdef/bin/herdr-a2a"),
        ownership_path: path("/s/ownership.json"),
        owned_files: Vec::new(),
        last_error: None,
    }
}

#[test]
fn a_ready_pi_has_exactly_the_recorded_entry() {
    let record = record();
    assert!(validate_ready_pi(&record, &settings(vec![record.pi_package_entry.copy()])).is_ok());
    assert!(validate_ready_pi(&record, &settings(Vec::new())).is_err());
    assert!(validate_pi_entry_if_present(&record, &settings(Vec::new())).is_ok());
    let absolute = absolute_managed_pi_entry(&record.pi_package_source).unwrap();
    assert!(validate_pi_entry_if_present(&record, &settings(vec![absolute])).is_err());
    assert!(
        validate_purge_root(&record, &path("/s"), &None, &Some(path("/home/u")), &Ok(())).is_err()
    );
}

fn process(scope: char) -> ManagedProcessEntry {
    ManagedProcessEntry {
        runtime_root: path("/run/u/herdr"),
        session_key: "e".repeat(64),
        workspace_id: "w1".to_owned(),
        scope_key: scope.to_string().repeat(64),
        coordinator_pid: 10,
        coordinator_start: "100".to_owned(),
        broker_pid: 11,
        broker_start: "101".to_owned(),
        broker_instance_id: "instance".to_owned(),
        executable_path: path("/s/generations/0123456789abcdef0123456789abcdef/bin/herdr-a2a"),
        executable_digest: "a".repeat(64),
        control_port: 4312,
        control_nonce: "nonce".to_owned(),
    }
}

#[test]
fn registries_read_back_what_was_written() {
    let record = record();
    let entries = vec![process('1'), process('2')];
    let text = write_process_registry(&entries, &record).unwrap();
    assert!(text.starts_with("HERDR_A2A_PROCESS_REGISTRY_V1\n"));
    let read = read_process_registry(&text, &record).unwrap();
    assert_eq!(read.len(), 2);
    assert!(read[0].same(&entries[0]) && read[1].same(&entries[1]));
    let empty = write_process_registry(&Vec::new(), &record).unwrap();
    assert!(read_process_registry(&empty, &record).unwrap().is_empty());
    assert!(read_process_registry("V0\n", &record).is_err());
    let line = text.lines().nth(1).unwrap();
    let doubled = format!("{text}{line}\n");
    assert!(read_process_registry(&doubled, &record).is_err());
    let mut foreign = process('3');
    foreign.executable_digest = "9".repeat(64);
    assert!(write_process_registry(&vec![foreign], &record).is_err());
}

fn starting(scope: char) -> ManagedStartingProcessEntry {
    ManagedStartingProcessEntry {
        runtime_root: path("/run/u/herdr"),
        session_key: "e".repeat(64),
        workspace_id: "w1".to_owned(),
        scope_key: scope.to_string().repeat(64),
        coordinator_pid: 10,
        coordinator_start: "100".to_owned(),
        executable_path: path("/s/generations/0123456789abcdef0123456789abcdef/bin/herdr-a2a"),
        executable_digest: "a".repeat(64),
        expected_generation: expected_generation_for_record(&record()).unwrap(),
        control_port: 4312,
        control_nonce: "nonce".to_owned(),
        broker: None,
    }
}

#[test]
fn starts_are_reserved_bound_and_let_go() {
    let record = record();
    let (entries, changed) = reserve_managed_process_start(
        &record,
        &Ok(()),
        &Vec::new(),
        Vec::new(),
        starting('1'),
    )
    .unwrap();
    assert!(changed);
    assert!(read_starting_process_registry(1, &entries, &record).is_ok());
    assert!(read_starting_process_registry(2, &entries, &record).is_err());
    assert!(write_starting_process_registry(&entries, &record).is_ok());
    assert!(
        reserve_managed_process_start(
            &record,
            &Ok(()),
            &vec![process('1')],
            Vec::new(),
            starting('1')
        )
        .is_err()
    );
    let broker = ManagedStartingBrokerProof {
        broker_pid: 11,
        broker_start: "101".to_owned(),
        executable_path: path("/s/generations/0123456789abcdef0123456789abcdef/bin/herdr-a2a"),
        executable_digest: "a".repeat(64),
    };
    let bound =
        bind_managed_process_start_broker(&record, entries, &starting('1'), broker).unwrap();
    assert!(bound[0].broker.is_some());
    let (registered, left) =
        register_managed_process(&record, &Ok(()), Vec::new(), bound, process('1')).unwrap();
    assert_eq!(registered.len(), 1);
    assert!(left.is_empty());
    let (after, changed) = unregister_managed_process(registered, &process('1'));
    assert!(changed && after.is_empty());
    let (after, changed) = unregister_managed_process_start(vec![starting('2')], &starting('3'));
    assert!(!changed && after.len() == 1);
    assert!(!drop_reservations_of(vec![starting('2')], &process('1')).1);
    assert_eq!(drain_step(0, 0, false, 5, 1).unwrap(), DrainStep::Done);
    assert_eq!(drain_step(1, 0, true, 0, 1).unwrap(), DrainStep::Stop);
    assert!(drain_step(1, 0, true, 1, 1).is_err());
}

#[test]
fn registries_keep_one_entry_for_a_scope() {
    let record = record();
    let reserve = |entries: Vec<ManagedStartingProcessEntry>, scope: char| {
        let none = Vec::new();
        reserve_managed_process_start(&record, &Ok(()), &none, entries, starting(scope))
    };
    let (entries, _) = reserve(Vec::new(), '2').unwrap();
    let (entries, _) = reserve(entries, '1').unwrap();
    let (entries, changed) = reserve(entries, '2').unwrap();
    assert!(!changed);
    let scopes: Vec<String> = entries.iter().map(|entry| entry.scope_key.clone()).collect();
    assert_eq!(scopes, ["1".repeat(64), "2".repeat(64)]);
    let mut other = starting('1');
    other.coordinator_pid = 99;
    let none = Vec::new();
    assert!(
        reserve_managed_process_start(&record, &Ok(()), &none, vec![starting('1')], other).is_err()
    );
    assert!(write_starting_process_registry(&entries, &record).is_ok());
    assert!(read_starting_process_registry(1, &entries, &record).is_ok());
    let broker = ManagedStartingBrokerProof {
        broker_pid: 11,
        broker_start: "101".to_owned(),
        executable_path: path("/s/generations/0123456789abcdef0123456789abcdef/bin/herdr-a2a"),
        executable_digest: "a".repeat(64),
    };
    let bound =
        bind_managed_process_start_broker(&record, entries, &starting('1'), broker).unwrap();
    let (registered, left) =
        register_managed_process(&record, &Ok(()), vec![process('3')], bound, process('1')).unwrap();
    assert_eq!(registered[0].scope_key, "1".repeat(64));
    assert_eq!(registered[1].scope_key, "3".repeat(64));
    assert_eq!(left.len(), 1);
    assert_eq!(left[0].scope_key, "2".repeat(64));
    let text = write_process_registry(&registered, &record).unwrap();
    assert_eq!(read_process_registry(&text, &record).unwrap().len(), 2);
    let doubled = vec![starting('1'), starting('1')];
    assert!(write_starting_process_registry(&doubled, &record).is_ok());
    assert!(read_starting_process_registry(1, &doubled, &record).is_err());
}

fn components() -> ComponentsFound {
    ComponentsFound {
        plugin_version: Ok("0.1.0".to_owned()),
        binary: Ok(ProcessOutput { success: true, stdout: b"herdr-a2a 0.1.0\n".to_vec() }),
        adapter: Ok(AdapterContract {
            name: "@herdr/a2a-pi".to_owned(),
            version: "0.1.0".to_owned(),
            pi_peer: ">=0.84.2".to_owned(),
            typebox_peer: ">=1.3.7 <1.4.0".to_owned(),
        }),
        pi: Some(Ok(ProcessOutput { success: true, stdout: b"1.0.0".to_vec() })),
    }
}

#[test]
fn components_share_one_version() {
    assert!(validate_install_compatibility(&components(), "0.1.0").is_ok());
    assert!(validate_repair_compatibility("0.1.0", &components(), "0.1.0").is_ok());
    assert_eq!(
        validate_install_compatibility(&components(), "0.2.0").unwrap_err().message,
        "the Herdr plugin and native installer versions differ"
    );
    assert!(validate_repair_compatibility("0.0.9", &components(), "0.1.0").is_err());
    let mut old_pi = components();
    old_pi.pi = Some(Ok(ProcessOutput { success: true, stdout: b"0.84.1".to_vec() }));
    assert_eq!(
        validate_install_compatibility(&old_pi, "0.1.0").unwrap_err().message,
        "managed A2A requires Pi >=0.84.2"
    );
    let mut binary = components();
    binary.binary = Ok(ProcessOutput { success: true, stdout: b"herdr-a2a 0.1.1".to_vec() });
    assert_eq!(
        validate_install_compatibility(&binary, "0.1.0").unwrap_err().message,
        "the managed native binary version differs from the plugin version"
    );
    let mut adapter = components();
    adapter.adapter = Ok(AdapterContract {
        name: "other".to_owned(),
        version: "0.1.0".to_owned(),
        pi_peer: ">=0.84.2".to_owned(),
        typebox_peer: ">=1.3.7 <1.4.0".to_owned(),
    });
    assert!(
        validate_install_compatibility(&adapter, "0.1.0")
            .unwrap_err()
            .message
            .starts_with("managed A2A requires component version 0.1.0, Pi >=0.84.2")
    );
    let mut no_pi = components();
    no_pi.pi = None;
    assert!(validate_install_compatibility(&no_pi, "0.1.0").is_ok());
}

#[test]
fn manifests_say_their_version() {
    assert_eq!(read_plugin_version("version = \"0.1.0\"\nname = \"x\"\n").unwrap(), "0.1.0");
    assert_eq!(
        read_plugin_version("name = \"x\"\n").unwrap_err().message,
        "plugin manifest version is missing"
    );
    assert!(read_plugin_version("version = 3\n").is_err());
    assert_eq!(read_plugin_version("version = \n").unwrap_err().code, "bundle_invalid");
    let adapter = read_adapter_contract(
        br#"{"name":"@herdr/a2a-pi","version":"0.1.0","peerDependencies":{"@earendil-works/pi-coding-agent":">=0.84.2","typebox":">=1.3.7 <1.4.0"}}"#,
        "c",
    )
    .unwrap();
    assert_eq!(adapter.typebox_peer, ">=1.3.7 <1.4.0");
    assert!(read_adapter_contract(br#"{"name":"n","version":"1"}"#, "c").is_err());
    assert_eq!(read_adapter_contract(b"no", "c").unwrap_err().code, "c");
}

#[test]
fn events_name_pi_or_not() {
    assert!(event_is_pi(Some(r#"{"pane":{"agent_kind":"pi"}}"#)).unwrap());
    assert!(!event_is_pi(Some(r#"{"pane":{"harness":"other"}}"#)).unwrap());
    assert!(event_is_pi(None).is_err());
    assert!(event_is_pi(Some("{")).is_err());
    assert!(event_names_pi(&parse_json(br#"{"kind":"pi"}"#).unwrap()));
}
