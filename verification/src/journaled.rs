//! A journal that an installation begins is one that its recovery accepts.

use vstd::prelude::*;
use vstd::string::*;
use vstd::utf8::*;
use crate::accepted::{
    lemma_generation_places, lemma_joined_names, lemma_names, lemma_pieces, named, storable,
};
use crate::digest::{
    digest_ok, hex_text, is_hex_char, lemma_hex_chars_are_bytes, lemma_hex_text_shape, sha256_text,
};
use crate::error::Failure;
use crate::install::{begun, generation_files, JournalInputs};
use crate::json::{json_views, law_texts_are_equal_to_themselves_alone, JsonView};
use crate::layout::{helper_path, itself, path_views, pointer_path, record_failure};
use crate::order::{
    distinct_by, lemma_sorting_keeps_distinct, lemma_sorting_keeps_members, sorted_by, SortOrder,
};
use crate::path::{
    child, file_name, is_absolute, join, law_joining_a_name_appends_it,
    law_joining_appends_components, law_parent_drops_the_last_component, ordinary_name, parts,
    path_text_failure, path_under, same_path, PathPart,
};
use crate::pathset::{all_parts, path_set};
use crate::pi::{
    allowed_entries, entry_allowed, entry_source, first_owned_entry, legacy_package,
    lemma_relative_text, naming, opt_json, sources_failure,
};
use crate::record::{opt_record, owned_for, InstallState, OwnershipRecord, OWNERSHIP_SCHEMA};
use crate::rollback::normalized_entry;
use crate::snapshot::{opt_file, owned_snapshot_failure};
use crate::text::{lower_hex, one_line, utf8};
use crate::transaction::{
    directly_in, enumeration_failure, equal_to, generation_dir, generation_name, generation_seed,
    generation_stage_failure, has_new_record, has_new_snapshots, journal_entries_failure,
    journal_failure, journal_paths_failure, journal_places_failure, journal_token_failure,
    kept_rescue_failure, live_prior, new_record_failure, new_record_planned,
    new_snapshots_failure, occurrences,
    phase_shape_failure, planned_files_failure, plugin_in_progress, plugin_stage_failure,
    prior_entry_failure, prior_generation_failure, prior_state_failure, unrecovered,
    InstallTransaction, TransactionPhase, MAX_EVENT_BYTES,
};

verus! {

pub(crate) proof fn lemma_prefixed(prefix: Seq<char>, random: Seq<u8>)
    requires
        is_ascii_chars(prefix),
        prefix.len() > 0,
        forall|i: int| 0 <= i < prefix.len() ==> #[trigger] prefix[i] != '/',
        random.len() == 16,
    ensures
        utf8(prefix + hex_text(random)) == utf8(prefix) + utf8(hex_text(random)),
        ordinary_name(utf8(prefix + hex_text(random))),
        utf8(hex_text(random)).len() == 32,
        lower_hex(utf8(hex_text(random))),
{
    let token = hex_text(random);
    let whole = prefix + token;
    lemma_hex_text_shape(random);
    lemma_hex_chars_are_bytes(token);
    assert(is_ascii_chars(token)) by {
        assert forall|i: int| 0 <= i < token.len() implies '\0' <= #[trigger] token[i]
            <= '\u{7f}' by {
            assert(is_hex_char(token[i]));
        }
    }
    assert forall|i: int| 0 <= i < whole.len() implies '\0' <= #[trigger] whole[i] <= '\u{7f}'
        && whole[i] != '/' by {
        if i < prefix.len() {
            assert(whole[i] == prefix[i]);
        } else {
            assert(whole[i] == token[i - prefix.len()]);
            assert(is_hex_char(token[i - prefix.len()]));
        }
    }
    crate::accepted::lemma_plain_name(whole);
    is_ascii_chars_encode_utf8(whole);
    is_ascii_chars_encode_utf8(prefix);
    is_ascii_chars_encode_utf8(token);
    assert(utf8(whole) =~= utf8(prefix) + utf8(token)) by {
        assert forall|i: int| 0 <= i < utf8(whole).len() implies utf8(whole)[i] == (utf8(prefix)
            + utf8(token))[i] by {
            assert(whole[i] as u8 == utf8(whole)[i]);
            if i < prefix.len() {
                assert(whole[i] == prefix[i]);
                assert(prefix[i] as u8 == utf8(prefix)[i]);
            } else {
                assert(whole[i] == token[i - prefix.len()]);
                assert(token[i - prefix.len()] as u8 == utf8(token)[i - prefix.len()]);
            }
        }
    }
}

/// A name below a directory: it is directly in it, and it is the last name.
proof fn lemma_directly_in(above: Seq<u8>, name: Seq<u8>)
    requires
        is_absolute(above),
        ordinary_name(name),
    ensures
        is_absolute(join(above, name)),
        directly_in(join(above, name), above),
        file_name(join(above, name)) == Some(name),
        parts(join(above, name)) == parts(above).push(PathPart::Normal(name)),
{
    law_joining_a_name_appends_it(above, name);
    law_parent_drops_the_last_component(join(above, name));
    assert(parts(above).push(PathPart::Normal(name)).drop_last() =~= parts(above));
    assert(parts(above).push(PathPart::Normal(name)).last() == PathPart::Normal(name));
    assert(parts(above).len() >= 1) by {
        assert(parts(above)[0] == PathPart::Root);
    }
}

proof fn lemma_generation_name(broker: Seq<char>, package: Seq<char>)
    requires
        digest_ok(sha256_text(utf8(generation_seed(broker, package)))),
    ensures
        ordinary_name(generation_name(broker, package)),
{
    let digest = utf8(sha256_text(utf8(generation_seed(broker, package))));
    let name = generation_name(broker, package);
    assert(name.len() == 32);
    assert forall|i: int| 0 <= i < name.len() implies name[i] != 47u8 by {
        assert(name[i] == digest[i]);
        assert(crate::text::is_lower_hex(digest[i]));
    }
}

proof fn lemma_fixed_places(stable: Seq<u8>, plugin_root: Seq<u8>)
    requires
        is_absolute(stable),
        is_absolute(plugin_root),
    ensures
        is_absolute(child(stable, "generations"@)),
        is_absolute(child(plugin_root, "libexec"@)),
        directly_in(helper_path(plugin_root), child(plugin_root, "libexec"@)),
{
    lemma_names();
    lemma_joined_names(plugin_root);
    lemma_directly_in(stable, utf8("generations"@));
    lemma_directly_in(plugin_root, utf8("libexec"@));
    lemma_directly_in(child(plugin_root, "libexec"@), utf8("herdr-a2a-dispatch"@));
}

/// A name that carries a token, below a directory.
pub(crate) proof fn lemma_token_place(above: Seq<u8>, prefix: Seq<char>, random: Seq<u8>)
    requires
        is_absolute(above),
        is_ascii_chars(prefix),
        prefix.len() > 0,
        forall|i: int| 0 <= i < prefix.len() ==> #[trigger] prefix[i] != '/',
        random.len() == 16,
    ensures
        directly_in(child(above, prefix + hex_text(random)), above),
        file_name(child(above, prefix + hex_text(random))) == Some(
            utf8(prefix) + utf8(hex_text(random)),
        ),
{
    lemma_prefixed(prefix, random);
    lemma_directly_in(above, utf8(prefix + hex_text(random)));
}

proof fn lemma_token_places(
    generations: Seq<u8>,
    plugin_root: Seq<u8>,
    libexec: Seq<u8>,
    random: Seq<u8>,
)
    requires
        is_absolute(generations),
        is_absolute(plugin_root),
        is_absolute(libexec),
        random.len() == 16,
    ensures
        ({
            let text = hex_text(random);
            let token = utf8(text);
            &&& token.len() == 32 && lower_hex(token)
            &&& directly_in(child(generations, ".stage-"@ + text), generations)
            &&& file_name(child(generations, ".stage-"@ + text)) == Some(
                utf8(".stage-"@) + token,
            )
            &&& directly_in(child(plugin_root, ".managed-stage-"@ + text), plugin_root)
            &&& file_name(child(plugin_root, ".managed-stage-"@ + text)) == Some(
                utf8(".managed-stage-"@) + token,
            )
            &&& directly_in(child(libexec, ".herdr-a2a-backup-"@ + text), libexec)
            &&& file_name(child(libexec, ".herdr-a2a-backup-"@ + text)) == Some(
                utf8(".herdr-a2a-backup-"@) + token,
            )
            &&& directly_in(child(plugin_root, ".stable-bin-backup-"@ + text), plugin_root)
            &&& file_name(child(plugin_root, ".stable-bin-backup-"@ + text)) == Some(
                utf8(".stable-bin-backup-"@) + token,
            )
        }),
{
    reveal_strlit(".stage-");
    reveal_strlit(".managed-stage-");
    reveal_strlit(".herdr-a2a-backup-");
    reveal_strlit(".stable-bin-backup-");
    lemma_prefixed(".stage-"@, random);
    lemma_token_place(generations, ".stage-"@, random);
    lemma_token_place(plugin_root, ".managed-stage-"@, random);
    lemma_token_place(libexec, ".herdr-a2a-backup-"@, random);
    lemma_token_place(plugin_root, ".stable-bin-backup-"@, random);
}

proof fn lemma_journal_places(
    t: InstallTransaction,
    stable: Seq<u8>,
    plugin_root: Seq<u8>,
    random: Seq<u8>,
    inputs: JournalInputs,
)
    requires
        is_absolute(stable),
        is_absolute(plugin_root),
        random.len() == 16,
        begun(t, stable, plugin_root, hex_text(random), inputs),
        inputs.generation@ == generation_dir(
            stable,
            inputs.broker_digest@,
            inputs.pi_package_digest@,
        ),
        digest_ok(
            sha256_text(
                utf8(generation_seed(inputs.broker_digest@, inputs.pi_package_digest@)),
            ),
        ),
        digest_ok(inputs.broker_digest@),
        digest_ok(inputs.pi_package_digest@),
    ensures
        journal_places_failure(
            t,
            stable,
            plugin_root,
            Ok::<Seq<u8>, Failure>(inputs.pi_settings.path@),
        ) is None,
        journal_token_failure(t) is None,
        is_absolute(t.generation@),
        directly_in(t.generation@, child(stable, "generations"@)),
{
    let token = utf8(hex_text(random));
    let generations = child(stable, "generations"@);
    let libexec = child(plugin_root, "libexec"@);
    lemma_generation_name(inputs.broker_digest@, inputs.pi_package_digest@);
    lemma_fixed_places(stable, plugin_root);
    lemma_directly_in(
        generations,
        generation_name(inputs.broker_digest@, inputs.pi_package_digest@),
    );
    lemma_token_places(generations, plugin_root, libexec, random);
    assert(file_name(t.plugin_stage@) == Some(utf8(".managed-stage-"@) + token));
    assert((utf8(".managed-stage-"@) + token).skip(utf8(".managed-stage-"@).len() as int)
        =~= token);
    assert(utf8(".managed-stage-"@).is_prefix_of(utf8(".managed-stage-"@) + token));
    assert(utf8(".stage-"@).is_prefix_of(utf8(".stage-"@) + token));
}

/// The files of a package, as paths relative to it: where they will be in a
/// generation can be stored, none is there twice, and the manifest is among them.
pub open spec fn package_fits(relative: Seq<Seq<u8>>, generation: Seq<u8>) -> bool {
    let package = child(generation, "pi"@);
    let placed = relative.map_values(|p: Seq<u8>| join(package, p));
    &&& forall|i: int|
        0 <= i < relative.len() ==> !is_absolute(#[trigger] relative[i]) && storable(
            join(package, relative[i]),
        )
    &&& distinct_by(placed, itself())
    &&& relative.contains(utf8("package.json"@))
}

proof fn lemma_sound_files(files: Seq<Seq<u8>>, generation: Seq<u8>, n: int)
    requires
        0 <= n <= files.len(),
        distinct_by(files, itself()),
        forall|i: int|
            0 <= i < files.len() ==> storable(#[trigger] files[i]) && path_under(
                files[i],
                generation,
            ),
    ensures
        planned_files_failure(files, generation, n) is None,
    decreases n,
{
    if n > 0 {
        lemma_sound_files(files, generation, n - 1);
        let before = all_parts(files.take(n - 1));
        if before.contains(parts(files[n - 1])) {
            let k = choose|k: int| 0 <= k < before.len() && before[k] == parts(files[n - 1]);
            assert(before[k] == parts(files[k]));
            assert(!same_path(itself()(files[k]), itself()(files[n - 1])));
        }
    }
}

proof fn lemma_member_in_set(files: Seq<Seq<u8>>, p: Seq<u8>)
    requires
        files.contains(p),
    ensures
        path_set(files).contains(parts(p)),
{
    let k = choose|k: int| 0 <= k < files.len() && files[k] == p;
    assert(all_parts(files)[k] == parts(p));
}

proof fn lemma_placed_files(
    relative: Seq<Seq<u8>>,
    stable: Seq<u8>,
    generation: Seq<u8>,
)
    requires
        is_absolute(stable),
        crate::accepted::in_generations(generation, stable),
        package_fits(relative, generation),
        storable(child(generation, "bin/herdr-a2a"@)),
    ensures
        ({
            let package = child(generation, "pi"@);
            let all = seq![child(generation, "bin/herdr-a2a"@)] + relative.map_values(
                |p: Seq<u8>| join(package, p),
            );
            &&& distinct_by(all, itself())
            &&& all.contains(child(generation, "bin/herdr-a2a"@))
            &&& all.contains(child(generation, "pi/package.json"@))
            &&& forall|i: int|
                0 <= i < all.len() ==> storable(#[trigger] all[i]) && path_under(
                    all[i],
                    generation,
                )
        }),
{
    let package = child(generation, "pi"@);
    let binary = child(generation, "bin/herdr-a2a"@);
    let placed = relative.map_values(|p: Seq<u8>| join(package, p));
    let all = seq![binary] + placed;
    lemma_generation_places(stable, generation);
    let n = parts(generation).len() as int;
    assert(parts(binary)[n] == named("bin"@));
    assert(parts(generation).is_prefix_of(parts(binary))) by {
        assert(parts(binary).take(n) =~= parts(generation));
    }
    assert forall|i: int| 0 <= i < placed.len() implies storable(#[trigger] placed[i])
        && path_under(placed[i], generation) && parts(placed[i]).len() > n && parts(placed[i])[n]
        == named("pi"@) by {
        assert(placed[i] == join(package, relative[i]));
        law_joining_appends_components(package, relative[i]);
        assert(parts(placed[i]).take(n) =~= parts(generation));
    }
    assert forall|i: int| 0 <= i < all.len() implies storable(#[trigger] all[i]) && path_under(
        all[i],
        generation,
    ) by {
        if i > 0 {
            assert(all[i] == placed[i - 1]);
        }
    }
    assert forall|i: int, j: int| 0 <= i < j < all.len() implies !same_path(
        itself()(#[trigger] all[i]),
        itself()(#[trigger] all[j]),
    ) by {
        assert(all[j] == placed[j - 1]);
        if i > 0 {
            assert(all[i] == placed[i - 1]);
        }
    }
    assert(all[0] == binary);
    let k = choose|k: int| 0 <= k < relative.len() && relative[k] == utf8("package.json"@);
    assert(all[k + 1] == placed[k]);
    lemma_manifest(generation);
    assert(placed[k] == child(generation, "pi/package.json"@));
}

proof fn lemma_manifest(generation: Seq<u8>)
    ensures
        child(generation, "pi/package.json"@) == child(
            child(generation, "pi"@),
            "package.json"@,
        ),
{
    reveal_strlit("pi/package.json");
    reveal_strlit("pi");
    reveal_strlit("package.json");
    assert("pi/package.json"@ =~= "pi"@.push('/') + "package.json"@);
    lemma_pieces("pi/package.json"@, "pi"@, "package.json"@, generation);
}

proof fn lemma_planned_files(
    t: InstallTransaction,
    relative: Seq<Seq<u8>>,
    stable: Seq<u8>,
)
    requires
        is_absolute(stable),
        crate::accepted::in_generations(t.generation@, stable),
        package_fits(relative, t.generation@),
        storable(child(t.generation@, "bin/herdr-a2a"@)),
        path_views(t.generation_files@) == generation_files(t.generation@, relative),
    ensures
        enumeration_failure(t) is None,
{
    let generation = t.generation@;
    let package = child(generation, "pi"@);
    let all = seq![child(generation, "bin/herdr-a2a"@)] + relative.map_values(
        |p: Seq<u8>| join(package, p),
    );
    let files = sorted_by(SortOrder::ByPath, all, itself());
    lemma_placed_files(relative, stable, generation);
    lemma_sorting_keeps_members(SortOrder::ByPath, all, itself());
    lemma_sorting_keeps_distinct(SortOrder::ByPath, all, itself());
    assert(files == path_views(t.generation_files@));
    assert forall|i: int| 0 <= i < files.len() implies storable(#[trigger] files[i])
        && path_under(files[i], generation) by {
        assert(files.contains(files[i]));
        assert(all.contains(files[i]));
        let k = choose|k: int| 0 <= k < all.len() && all[k] == files[i];
        assert(storable(all[k]));
    }
    lemma_sound_files(files, generation, files.len() as int);
    assert(files.contains(child(generation, "bin/herdr-a2a"@)));
    assert(files.contains(child(generation, "pi/package.json"@)));
    lemma_member_in_set(files, child(generation, "bin/herdr-a2a"@));
    lemma_member_in_set(files, child(generation, "pi/package.json"@));
}

/// The entries of Pi name sources, each on one line.
pub open spec fn entries_name_sources(entries: Seq<JsonView>) -> bool {
    forall|i: int|
        0 <= i < entries.len() ==> entry_source(#[trigger] entries[i]) is Some && one_line(
            entry_source(entries[i])->0,
        )
}

proof fn lemma_sound_sources(
    entries: Seq<JsonView>,
    code: Seq<char>,
    missing: Seq<char>,
    broken: Seq<char>,
)
    requires
        entries_name_sources(entries),
    ensures
        sources_failure(entries, code, missing, broken) is None,
    decreases entries.len(),
{
    if entries.len() > 0 {
        let front = entries.drop_last();
        assert forall|i: int| 0 <= i < front.len() implies entry_source(
            #[trigger] front[i],
        ) is Some && one_line(entry_source(front[i])->0) by {
            assert(front[i] == entries[i]);
        }
        lemma_sound_sources(front, code, missing, broken);
        assert(entry_source(entries[entries.len() - 1]) is Some);
    }
}

/// Of the entries that name a source, as many equal one of them as of all entries.
proof fn lemma_occurrences(entries: Seq<JsonView>, source: Seq<char>, entry: JsonView)
    requires
        entry == JsonView::Text(source),
        entry_source(entry) == Some(source),
    ensures
        occurrences(entries, entry) == occurrences(naming(entries, source), entry),
    decreases entries.len(),
{
    reveal(Seq::filter);
    if entries.len() > 0 {
        let front = entries.drop_last();
        lemma_occurrences(front, source, entry);
        let named_front = naming(front, source);
        if entry_source(entries.last()) == Some(source) {
            assert(naming(entries, source) == named_front.push(entries.last()));
            assert(named_front.push(entries.last()).drop_last() =~= named_front);
        } else {
            law_texts_are_equal_to_themselves_alone(entries.last(), source);
            assert(naming(entries, source) == named_front);
        }
    }
}

proof fn lemma_first_entry(
    t: InstallTransaction,
    plugin_root: Seq<u8>,
    legacy_digest: Option<Seq<char>>,
    package_digest: Seq<char>,
)
    requires
        t.prior_record is None,
        first_owned_entry(
            json_views(t.prior_pi_entries@),
            plugin_root,
            legacy_digest,
            package_digest,
        ) == Ok::<Option<JsonView>, Failure>(opt_json(t.prior_owned_pi_entry)),
    ensures
        prior_entry_failure(t, plugin_root) is None,
{
    if t.prior_owned_pi_entry is Some {
        let entries = json_views(t.prior_pi_entries@);
        let legacy = legacy_package(plugin_root);
        let source = decode_utf8(legacy);
        let entry = JsonView::Text(source);
        lemma_decoded_is_not_empty(legacy);
        assert(entry_source(entry) == Some(source));
        lemma_occurrences(entries, source, entry);
        reveal(Seq::filter);
        let found = naming(entries, source);
        assert(found =~= seq![entry]);
        assert(found.drop_last() =~= Seq::<JsonView>::empty());
        assert(found.drop_last().filter(equal_to(entry)).len() == 0);
        assert(found.last() == entry);
        assert(occurrences(found, entry) == 1);
    }
}

proof fn lemma_decoded_is_not_empty(bytes: Seq<u8>)
    requires
        path_text_failure(bytes) is None,
    ensures
        decode_utf8(bytes).len() > 0,
        utf8(decode_utf8(bytes)) == bytes,
{
    decode_utf8_encode_utf8(bytes);
    if decode_utf8(bytes).len() == 0 {
        assert(utf8(decode_utf8(bytes)).len() == 0);
    }
}

/// What was found of the installation of before fits its record: the record is
/// accepted as it stands, its generation and its plugin files were taken as it
/// lists them, and Pi has its entry once.
pub open spec fn prior_fits(
    inputs: JournalInputs,
    stable: Seq<u8>,
    plugin_root: Seq<u8>,
    legacy_digest: Option<Seq<char>>,
) -> bool {
    let entries = json_views(inputs.pi_settings.entries@);
    match opt_record(inputs.prior) {
        None => {
            &&& inputs.prior_helper_snapshot is None
            &&& inputs.prior_pointer_snapshot is None
            &&& inputs.prior_generation_snapshot is None
            &&& first_owned_entry(
                entries,
                plugin_root,
                legacy_digest,
                inputs.pi_package_digest@,
            ) == Ok::<Option<JsonView>, Failure>(opt_json(inputs.prior_owned_pi_entry))
        },
        Some(record) => {
            &&& record_failure(
                record,
                stable,
                plugin_root,
                Ok::<Seq<u8>, Failure>(inputs.pi_settings.path@),
            ) is None
            &&& !(record.schema_version == 2 && record.purge_authority)
            &&& if record.state == InstallState::Removed {
                &&& inputs.prior_helper_snapshot is None
                &&& inputs.prior_pointer_snapshot is None
                &&& inputs.prior_generation_snapshot is None
                &&& inputs.prior_owned_pi_entry is None
            } else {
                &&& inputs.prior_generation_snapshot is Some
                &&& prior_generation_failure(record, inputs.prior_generation_snapshot->0@) is None
                &&& owned_snapshot_failure(
                    opt_file(inputs.prior_helper_snapshot),
                    helper_path(plugin_root),
                    0o700,
                    record.broker_digest,
                ) is None
                &&& owned_for(record.owned_files, pointer_path(plugin_root)) is Some
                &&& owned_snapshot_failure(
                    opt_file(inputs.prior_pointer_snapshot),
                    pointer_path(plugin_root),
                    0o600,
                    owned_for(record.owned_files, pointer_path(plugin_root))->0.sha256,
                ) is None
                &&& opt_json(inputs.prior_owned_pi_entry) == Some(record.pi_package_entry)
                &&& entry_source(record.pi_package_entry) is Some
                &&& occurrences(entries, record.pi_package_entry) == 1
            }
        },
    }
}

/// A journal that an installation begins is accepted when it is read back, as it
/// was written: for a first installation, and for one over an installation whose
/// files were found as its record lists them.
pub proof fn law_begun_journal_is_accepted(
    t: InstallTransaction,
    stable: Seq<u8>,
    plugin_root: Seq<u8>,
    random: Seq<u8>,
    inputs: JournalInputs,
    relative: Seq<Seq<u8>>,
    legacy_digest: Option<Seq<char>>,
)
    requires
        random.len() == 16,
        begun(t, stable, plugin_root, hex_text(random), inputs),
        inputs.generation@ == generation_dir(
            stable,
            inputs.broker_digest@,
            inputs.pi_package_digest@,
        ),
        path_views(inputs.generation_files@) == generation_files(inputs.generation@, relative),
        package_fits(relative, inputs.generation@),
        digest_ok(inputs.broker_digest@),
        digest_ok(inputs.pi_package_digest@),
        digest_ok(
            sha256_text(
                utf8(generation_seed(inputs.broker_digest@, inputs.pi_package_digest@)),
            ),
        ),
        storable(stable),
        storable(plugin_root),
        storable(child(inputs.generation@, "bin/herdr-a2a"@)),
        storable(child(inputs.generation@, "pi"@)),
        journal_paths_failure(t) is None,
        entries_name_sources(json_views(inputs.pi_settings.entries@)),
        prior_fits(inputs, stable, plugin_root, legacy_digest),
    ensures
        normalized_entry(t) == Ok::<JsonView, Failure>(t.new_pi_entry@),
        journal_failure(
            t,
            stable,
            Ok::<Seq<u8>, Failure>(plugin_root),
            None,
            Ok::<Seq<u8>, Failure>(inputs.pi_settings.path@),
        ) is None,
{
    let settings = Ok::<Seq<u8>, Failure>(inputs.pi_settings.path@);
    let package = child(t.generation@, "pi"@);
    lemma_journal_places(t, stable, plugin_root, random, inputs);
    lemma_planned_files(t, relative, stable);
    lemma_relative_text(t.pi_config_path@, package);
    lemma_decoded_is_not_empty(package);
    assert(entry_allowed(t.new_pi_entry@, t.pi_config_path@, package) == Ok::<bool, Failure>(
        true,
    )) by {
        let allowed = allowed_entries(t.pi_config_path@, package)->Ok_0;
        assert(allowed.last() == t.new_pi_entry@);
        assert(allowed.contains(allowed[allowed.len() - 1]));
    }
    lemma_sound_sources(
        json_views(t.prior_pi_entries@),
        "recovery_needed"@,
        "transaction prior Pi entry is invalid"@,
        "transaction prior Pi source contains a line break"@,
    );
    if t.prior_record is None {
        lemma_first_entry(t, plugin_root, legacy_digest, inputs.pi_package_digest@);
    }
    assert(prior_entry_failure(t, plugin_root) is None);
    assert(journal_entries_failure(t, plugin_root) is None);
    assert(prior_state_failure(t, stable, plugin_root, settings) is None);
}

/// A journal later than another one: the same plan for the same installation of
/// before, with what became known since.
pub open spec fn later_journal(t: InstallTransaction, u: InstallTransaction) -> bool {
    u == (InstallTransaction {
        phase: u.phase,
        new_record: u.new_record,
        prior_rescue_notice: u.prior_rescue_notice,
        prior_rescue_marker: u.prior_rescue_marker,
        generation_stage_snapshot: u.generation_stage_snapshot,
        plugin_stage_snapshot: u.plugin_stage_snapshot,
        new_helper_snapshot: u.new_helper_snapshot,
        new_pointer_snapshot: u.new_pointer_snapshot,
        new_pi_entry: u.new_pi_entry,
        ..t
    })
}

/// Once a journal was accepted, a later one is accepted where what it adds is sound:
/// the stages that were taken, the plugin files that were published, the entry that
/// Pi stored, the new record, and each of them in its phase.
pub proof fn law_later_journals_are_accepted(
    t: InstallTransaction,
    u: InstallTransaction,
    stable: Seq<u8>,
    plugin_root: Seq<u8>,
    settings: Result<Seq<u8>, Failure>,
)
    requires
        later_journal(t, u),
        journal_failure(t, stable, Ok::<Seq<u8>, Failure>(plugin_root), None, settings) is None,
        generation_stage_failure(u) is None,
        plugin_stage_failure(u) is None,
        phase_shape_failure(u, stable) is None,
        new_snapshots_failure(u) is None,
        entry_allowed(u.new_pi_entry@, u.pi_config_path@, child(u.generation@, "pi"@)) == Ok::<
            bool,
            Failure,
        >(true),
        new_record_failure(u, stable, plugin_root, settings) is None,
    ensures
        journal_failure(u, stable, Ok::<Seq<u8>, Failure>(plugin_root), None, settings) is None,
{
    assert(journal_paths_failure(u) is None);
    assert(journal_token_failure(u) is None);
    assert(enumeration_failure(u) is None);
    assert(prior_state_failure(u, stable, plugin_root, settings) is None);
    assert(journal_entries_failure(u, plugin_root) is None);
}

/// The phases that differ in what was done and not in what the journal holds.
pub open spec fn same_contents(a: TransactionPhase, b: TransactionPhase) -> bool {
    ||| a == TransactionPhase::Intent && b == TransactionPhase::GenerationPublishing
    ||| plugin_in_progress(a) && plugin_in_progress(b)
    ||| has_new_snapshots(a) && has_new_snapshots(b) && !has_new_record(a) && !has_new_record(b)
    ||| has_new_record(a) && has_new_record(b) && b != TransactionPhase::RescuePublishing
}

/// A journal that is accepted stays so where it only moves on to a phase with the
/// same contents: an installation that stops after such a step is recovered from
/// what it wrote.
pub proof fn law_moving_on_keeps_a_journal_accepted(
    t: InstallTransaction,
    phase: TransactionPhase,
    stable: Seq<u8>,
    plugin_root: Result<Seq<u8>, Failure>,
    plugin_root_check: Option<Failure>,
    settings: Result<Seq<u8>, Failure>,
)
    requires
        same_contents(t.phase, phase),
        journal_failure(t, stable, plugin_root, plugin_root_check, settings) is None,
    ensures
        journal_failure(
            InstallTransaction { phase, ..t },
            stable,
            plugin_root,
            plugin_root_check,
            settings,
        ) is None,
{
    let u = InstallTransaction { phase, ..t };
    assert(journal_paths_failure(u) is None);
    assert(enumeration_failure(u) is None);
    assert(phase_shape_failure(u, stable) is None);
    assert(plugin_stage_failure(u) is None);
}

/// A journal of an installation whose plugin files are published takes in the new
/// record, and the rescue files of before, and is accepted with them.
pub proof fn law_the_new_record_joins_an_accepted_journal(
    t: InstallTransaction,
    record: OwnershipRecord,
    notice: Option<Vec<u8>>,
    marker: Option<Vec<u8>>,
    stable: Seq<u8>,
    plugin_root: Seq<u8>,
    plugin_root_check: Option<Failure>,
    settings: Result<Seq<u8>, Failure>,
)
    requires
        has_new_snapshots(t.phase) && !has_new_record(t.phase),
        journal_failure(
            t,
            stable,
            Ok::<Seq<u8>, Failure>(plugin_root),
            plugin_root_check,
            settings,
        ) is None,
        record_failure(record@, stable, plugin_root, settings) is None,
        record.schema_version == OWNERSHIP_SCHEMA,
        new_record_planned(t, record@),
        match (notice, marker) {
            (None, None) => live_prior(t) is None,
            (Some(n), Some(m)) => live_prior(t) is Some && n@.len() <= MAX_EVENT_BYTES && m@.len()
                <= MAX_EVENT_BYTES && kept_rescue_failure(
                live_prior(t)->0,
                stable,
                n@,
                m@,
                unrecovered("transaction prior rescue snapshot is not authenticated"@),
            ) is None,
            _ => false,
        },
    ensures
        journal_failure(
            InstallTransaction {
                phase: TransactionPhase::RescuePublishing,
                new_record: Some(record),
                prior_rescue_notice: notice,
                prior_rescue_marker: marker,
                ..t
            },
            stable,
            Ok::<Seq<u8>, Failure>(plugin_root),
            plugin_root_check,
            settings,
        ) is None,
{
    let u = InstallTransaction {
        phase: TransactionPhase::RescuePublishing,
        new_record: Some(record),
        prior_rescue_notice: notice,
        prior_rescue_marker: marker,
        ..t
    };
    assert(journal_paths_failure(u) is None);
    assert(journal_token_failure(u) is None);
    assert(enumeration_failure(u) is None);
    assert(generation_stage_failure(u) is None);
    assert(plugin_stage_failure(u) is None);
    assert(phase_shape_failure(u, stable) is None);
    assert(prior_state_failure(u, stable, plugin_root, settings) is None);
    assert(new_snapshots_failure(u) is None);
    assert(journal_entries_failure(u, plugin_root) is None);
    assert(new_record_planned(u, record@));
}

} // verus!
