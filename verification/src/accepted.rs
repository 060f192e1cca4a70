//! What an installation writes down is what it accepts when it reads it back.

use vstd::prelude::*;
use vstd::string::*;
use vstd::utf8::*;
use crate::assets::{
    entries_failure, expected_below, expected_plan, expected_table, mode_in, record_inner_failure,
    slot, tabulated, RecordAssets,
};
use crate::digest::{digest_ok, sha256_text};
use crate::error::{failure, Failure, ManagedResult};
use crate::install::{built_record, marked, noticed, RecordInputsView};
use crate::json::JsonView;
use crate::layout::{
    fills_role, helper_path, inventory_complete, inventory_failure, known_kind, layout_of,
    marker_of, owned_failure, owned_parts, path_views, pointer_digest, pointer_path, record_failure,
    record_head_ok, record_paths_failure, record_values_ok, rescue_dir, rescue_helper, rescue_marker_file, rescue_notice,
    role_filled, role_of, OwnedRole, RescueLayout,
};
use crate::order::{
    distinct_by, in_order, lemma_push_distinct, lemma_sorted_in_order,
    lemma_sorting_keeps_distinct, lemma_sorting_keeps_items, lemma_sorting_keeps_members,
    sorted_by, SortOrder,
};
use crate::path::{
    absolute_normal, child, is_absolute, law_joining_a_name_appends_it,
    law_parent_drops_the_last_component, ordinary_name, parent, parts, path_text_failure,
    path_under, same_path, PathPart,
};
use crate::pathset::all_parts;
use crate::pi::entry_allowed;
use crate::record::{
    other_than, owned_for, owned_key, InstallState, OwnedFileView, RecordView, OWNERSHIP_SCHEMA,
};
use crate::text::utf8;

verus! {

/// A path that can be stored.
pub open spec fn storable(p: Seq<u8>) -> bool {
    absolute_normal(p) && path_text_failure(p) is None
}

/// No two entries are for the same file.
pub open spec fn distinct_files(files: Seq<OwnedFileView>) -> bool {
    distinct_by(files, owned_key())
}

/// An entry is for the binary, the helper, the pointer or a file of the package.
pub open spec fn entry_in_place(
    f: OwnedFileView,
    generation: Seq<u8>,
    plugin_root: Seq<u8>,
    broker: Seq<char>,
) -> bool {
    ||| f == binary_entry(generation, broker)
    ||| f == helper_entry(plugin_root, broker)
    ||| f == pointer_entry(plugin_root, generation)
    ||| path_under(f.path, child(generation, "pi"@)) && f.mode == 0o600
}

/// The entry of the binary of a generation.
pub open spec fn binary_entry(generation: Seq<u8>, broker: Seq<char>) -> OwnedFileView {
    OwnedFileView { path: child(generation, "bin/herdr-a2a"@), sha256: broker, mode: 0o700 }
}

/// The entry of the helper in a plugin root.
pub open spec fn helper_entry(plugin_root: Seq<u8>, broker: Seq<char>) -> OwnedFileView {
    OwnedFileView { path: helper_path(plugin_root), sha256: broker, mode: 0o700 }
}

/// The entry of the pointer in a plugin root.
pub open spec fn pointer_entry(plugin_root: Seq<u8>, generation: Seq<u8>) -> OwnedFileView {
    OwnedFileView {
        path: pointer_path(plugin_root),
        sha256: pointer_digest(child(generation, "bin/herdr-a2a"@)),
        mode: 0o600,
    }
}

/// The files of a new installation are in place: the binary, the helper, the
/// pointer and the files of the package with its manifest, each listed once with a
/// path that can be stored.
pub open spec fn inventory_in_place(
    owned: Seq<OwnedFileView>,
    generation: Seq<u8>,
    plugin_root: Seq<u8>,
    broker: Seq<char>,
) -> bool {
    &&& forall|i: int|
        0 <= i < owned.len() ==> entry_in_place(
            #[trigger] owned[i],
            generation,
            plugin_root,
            broker,
        ) && storable(owned[i].path) && digest_ok(owned[i].sha256)
    &&& distinct_files(owned)
    &&& owned.contains(binary_entry(generation, broker))
    &&& owned.contains(helper_entry(plugin_root, broker))
    &&& owned.contains(pointer_entry(plugin_root, generation))
    &&& exists|i: int|
        0 <= i < owned.len() && (#[trigger] owned[i]).path == child(
            child(generation, "pi"@),
            "package.json"@,
        ) && owned[i].mode == 0o600
}

pub(crate) proof fn lemma_plain_name(name: Seq<char>)
    requires
        is_ascii_chars(name),
        name.len() > 2,
        forall|i: int| 0 <= i < name.len() ==> #[trigger] name[i] != '/',
    ensures
        ordinary_name(utf8(name)),
        utf8(name).len() == name.len(),
{
    is_ascii_chars_encode_utf8(name);
    assert forall|i: int| 0 <= i < utf8(name).len() implies utf8(name)[i] != 47u8 by {
        assert(name[i] as u8 == utf8(name)[i]);
        assert('\0' <= name[i] <= '\u{7f}');
    }
}

pub(crate) proof fn lemma_names()
    ensures
        ordinary_name(utf8("uninstall.sh"@)),
        ordinary_name(utf8("owner-v1"@)),
        ordinary_name(utf8("herdr-a2a-rescue"@)),
        ordinary_name(utf8("herdr-a2a-dispatch"@)),
        ordinary_name(utf8("stable-bin-path"@)),
        ordinary_name(utf8("herdr-a2a"@)),
        ordinary_name(utf8("libexec"@)),
        ordinary_name(utf8("rescue"@)),
        ordinary_name(utf8("bin"@)),
        ordinary_name(utf8("package.json"@)),
        ordinary_name(utf8("generations"@)),
        utf8("uninstall.sh"@).len() == 12,
        utf8("owner-v1"@).len() == 8,
        utf8("herdr-a2a-rescue"@).len() == 16,
        utf8("herdr-a2a-dispatch"@).len() == 18,
        utf8("stable-bin-path"@).len() == 15,
        utf8("herdr-a2a"@).len() == 9,
        utf8("package.json"@).len() == 12,
{
    reveal_strlit("uninstall.sh");
    reveal_strlit("owner-v1");
    reveal_strlit("herdr-a2a-rescue");
    reveal_strlit("herdr-a2a-dispatch");
    reveal_strlit("stable-bin-path");
    reveal_strlit("herdr-a2a");
    reveal_strlit("libexec");
    reveal_strlit("rescue");
    reveal_strlit("bin");
    reveal_strlit("package.json");
    reveal_strlit("generations");
    lemma_plain_name("uninstall.sh"@);
    lemma_plain_name("owner-v1"@);
    lemma_plain_name("herdr-a2a-rescue"@);
    lemma_plain_name("herdr-a2a-dispatch"@);
    lemma_plain_name("stable-bin-path"@);
    lemma_plain_name("herdr-a2a"@);
    lemma_plain_name("libexec"@);
    lemma_plain_name("rescue"@);
    lemma_plain_name("bin"@);
    lemma_plain_name("package.json"@);
    lemma_plain_name("generations"@);
}

proof fn lemma_pi_name()
    ensures
        ordinary_name(utf8("pi"@)),
        utf8("pi"@) != utf8("bin"@),
{
    reveal_strlit("pi");
    reveal_strlit("bin");
    is_ascii_chars_encode_utf8("pi"@);
    is_ascii_chars_encode_utf8("bin"@);
    assert("pi"@[0] as u8 == utf8("pi"@)[0]);
    assert("pi"@[1] as u8 == utf8("pi"@)[1]);
    assert(utf8("pi"@)[0] == 112u8 && utf8("pi"@)[1] == 105u8);
    assert(seq![46u8, 46u8][0] == 46u8);
}

pub(crate) proof fn lemma_pieces(whole: Seq<char>, a: Seq<char>, b: Seq<char>, p: Seq<u8>)
    requires
        whole == a.push('/') + b,
        is_ascii_chars(a),
        is_ascii_chars(b),
        a.len() > 0,
        a.last() != '/',
        a[0] != '/',
        b.len() > 0,
        b[0] != '/',
    ensures
        child(p, whole) == child(child(p, a), b),
{
    assert(is_ascii_chars(whole)) by {
        assert forall|i: int| 0 <= i < whole.len() implies '\0' <= #[trigger] whole[i]
            <= '\u{7f}' by {
            if i < a.len() {
                assert(whole[i] == a[i]);
            } else if i > a.len() {
                assert(whole[i] == b[i - a.len() - 1]);
            }
        }
    }
    is_ascii_chars_encode_utf8(whole);
    is_ascii_chars_encode_utf8(a);
    is_ascii_chars_encode_utf8(b);
    let w = utf8(whole);
    let x = utf8(a);
    let y = utf8(b);
    assert(w =~= x.push(47) + y) by {
        assert forall|i: int| 0 <= i < w.len() implies w[i] == (x.push(47) + y)[i] by {
            assert(whole[i] as u8 == w[i]);
            if i < a.len() {
                assert(whole[i] == a[i]);
                assert(a[i] as u8 == x[i]);
            } else if i > a.len() {
                assert(whole[i] == b[i - a.len() - 1]);
                assert(b[i - a.len() - 1] as u8 == y[i - a.len() - 1]);
            } else {
                assert(whole[i] == '/');
            }
        }
    }
    assert(a[0] as u8 == x[0] && a[a.len() - 1] as u8 == x[x.len() - 1] && b[0] as u8 == y[0]);
    assert('\0' <= a[0] <= '\u{7f}' && '\0' <= a[a.len() - 1] <= '\u{7f}' && '\0' <= b[0]
        <= '\u{7f}');
    assert(w[0] == x[0]);
    assert(child(p, whole) =~= child(child(p, a), b));
}

pub(crate) proof fn lemma_joined_names(p: Seq<u8>)
    ensures
        child(p, "rescue/uninstall.sh"@) == child(child(p, "rescue"@), "uninstall.sh"@),
        child(p, "bin/herdr-a2a"@) == child(child(p, "bin"@), "herdr-a2a"@),
        child(p, "libexec/herdr-a2a-dispatch"@) == child(
            child(p, "libexec"@),
            "herdr-a2a-dispatch"@,
        ),
{
    reveal_strlit("rescue/uninstall.sh");
    reveal_strlit("rescue");
    reveal_strlit("uninstall.sh");
    assert("rescue/uninstall.sh"@ =~= "rescue"@.push('/') + "uninstall.sh"@);
    lemma_pieces("rescue/uninstall.sh"@, "rescue"@, "uninstall.sh"@, p);
    reveal_strlit("bin/herdr-a2a");
    reveal_strlit("bin");
    reveal_strlit("herdr-a2a");
    assert("bin/herdr-a2a"@ =~= "bin"@.push('/') + "herdr-a2a"@);
    lemma_pieces("bin/herdr-a2a"@, "bin"@, "herdr-a2a"@, p);
    reveal_strlit("libexec/herdr-a2a-dispatch");
    reveal_strlit("libexec");
    reveal_strlit("herdr-a2a-dispatch");
    assert("libexec/herdr-a2a-dispatch"@ =~= "libexec"@.push('/') + "herdr-a2a-dispatch"@);
    lemma_pieces("libexec/herdr-a2a-dispatch"@, "libexec"@, "herdr-a2a-dispatch"@, p);
}

/// A directory directly in the directory of the generations.
pub open spec fn in_generations(generation: Seq<u8>, stable: Seq<u8>) -> bool {
    is_absolute(generation) && parent(generation) is Some && same_path(
        parent(generation)->0,
        child(stable, "generations"@),
    )
}

/// The name of a component.
pub(crate) open spec fn named(name: Seq<char>) -> PathPart {
    PathPart::Normal(utf8(name))
}

pub(crate) proof fn lemma_rescue_places(stable: Seq<u8>)
    requires
        is_absolute(stable),
    ensures
        child(stable, "rescue/uninstall.sh"@) == rescue_notice(stable),
        parts(rescue_notice(stable)) == parts(stable).push(named("rescue"@)).push(
            named("uninstall.sh"@),
        ),
        parts(rescue_marker_file(stable)) == parts(stable).push(named("rescue"@)).push(
            named("owner-v1"@),
        ),
        parts(rescue_helper(stable)) == parts(stable).push(named("rescue"@)).push(
            named("herdr-a2a-rescue"@),
        ),
{
    lemma_names();
    lemma_joined_names(stable);
    law_joining_a_name_appends_it(stable, utf8("rescue"@));
    law_joining_a_name_appends_it(rescue_dir(stable), utf8("uninstall.sh"@));
    law_joining_a_name_appends_it(rescue_dir(stable), utf8("owner-v1"@));
    law_joining_a_name_appends_it(rescue_dir(stable), utf8("herdr-a2a-rescue"@));
}

pub(crate) proof fn lemma_generation_places(stable: Seq<u8>, generation: Seq<u8>)
    requires
        is_absolute(stable),
        in_generations(generation, stable),
    ensures
        parts(generation).len() == parts(stable).len() + 2,
        parts(child(generation, "pi"@)) == parts(generation).push(named("pi"@)),
        parts(child(child(generation, "pi"@), "package.json"@)) == parts(generation).push(
            named("pi"@),
        ).push(named("package.json"@)),
        parts(child(generation, "bin/herdr-a2a"@)) == parts(generation).push(named("bin"@)).push(
            named("herdr-a2a"@),
        ),
        named("pi"@) != named("bin"@),
        is_absolute(child(generation, "pi"@)),
{
    lemma_names();
    lemma_pi_name();
    lemma_joined_names(generation);
    law_joining_a_name_appends_it(stable, utf8("generations"@));
    law_parent_drops_the_last_component(generation);
    law_joining_a_name_appends_it(generation, utf8("pi"@));
    law_joining_a_name_appends_it(child(generation, "pi"@), utf8("package.json"@));
    law_joining_a_name_appends_it(generation, utf8("bin"@));
    law_joining_a_name_appends_it(child(generation, "bin"@), utf8("herdr-a2a"@));
}

proof fn lemma_plugin_places(plugin_root: Seq<u8>)
    requires
        is_absolute(plugin_root),
    ensures
        parts(helper_path(plugin_root)).len() > 0,
        parts(helper_path(plugin_root)).last() == named("herdr-a2a-dispatch"@),
        parts(pointer_path(plugin_root)).len() > 0,
        parts(pointer_path(plugin_root)).last() == named("stable-bin-path"@),
{
    lemma_names();
    lemma_joined_names(plugin_root);
    law_joining_a_name_appends_it(plugin_root, utf8("libexec"@));
    law_joining_a_name_appends_it(child(plugin_root, "libexec"@), utf8("herdr-a2a-dispatch"@));
    law_joining_a_name_appends_it(plugin_root, utf8("stable-bin-path"@));
}

pub(crate) proof fn lemma_names_differ()
    ensures
        named("uninstall.sh"@) != named("owner-v1"@),
        named("uninstall.sh"@) != named("herdr-a2a-rescue"@),
        named("owner-v1"@) != named("herdr-a2a-rescue"@),
        named("herdr-a2a-dispatch"@) != named("uninstall.sh"@),
        named("herdr-a2a-dispatch"@) != named("owner-v1"@),
        named("herdr-a2a-dispatch"@) != named("herdr-a2a-rescue"@),
        named("herdr-a2a-dispatch"@) != named("stable-bin-path"@),
        named("herdr-a2a-dispatch"@) != named("herdr-a2a"@),
        named("herdr-a2a-dispatch"@) != named("package.json"@),
        named("stable-bin-path"@) != named("uninstall.sh"@),
        named("stable-bin-path"@) != named("owner-v1"@),
        named("stable-bin-path"@) != named("herdr-a2a-rescue"@),
        named("stable-bin-path"@) != named("herdr-a2a"@),
        named("stable-bin-path"@) != named("package.json"@),
{
    lemma_names();
}

/// No entry in place is for a file of the rescue directory.
proof fn lemma_in_place_is_not_rescue(
    f: OwnedFileView,
    stable: Seq<u8>,
    generation: Seq<u8>,
    plugin_root: Seq<u8>,
    broker: Seq<char>,
)
    requires
        is_absolute(stable),
        is_absolute(plugin_root),
        in_generations(generation, stable),
        entry_in_place(f, generation, plugin_root, broker),
    ensures
        !same_path(f.path, rescue_notice(stable)),
        !same_path(f.path, rescue_marker_file(stable)),
        !same_path(f.path, rescue_helper(stable)),
{
    lemma_rescue_places(stable);
    lemma_generation_places(stable, generation);
    lemma_plugin_places(plugin_root);
    lemma_names_differ();
    let rescue = parts(stable).push(named("rescue"@));
    assert(rescue.push(named("uninstall.sh"@)).last() == named("uninstall.sh"@));
    assert(rescue.push(named("owner-v1"@)).last() == named("owner-v1"@));
    assert(rescue.push(named("herdr-a2a-rescue"@)).last() == named("herdr-a2a-rescue"@));
    if path_under(f.path, child(generation, "pi"@)) {
        assert(parts(f.path).len() >= parts(stable).len() + 3);
    }
}

proof fn lemma_nothing_left_out(files: Seq<OwnedFileView>, path: Seq<u8>)
    requires
        forall|i: int| 0 <= i < files.len() ==> !same_path(#[trigger] files[i].path, path),
    ensures
        other_than(files, path) == files,
    decreases files.len(),
{
    reveal(Seq::filter);
    if files.len() > 0 {
        let front = files.drop_last();
        assert forall|i: int| 0 <= i < front.len() implies !same_path(
            #[trigger] front[i].path,
            path,
        ) by {
            assert(front[i] == files[i]);
        }
        lemma_nothing_left_out(front, path);
        assert(!same_path(files[files.len() - 1].path, path));
        assert(front.push(files.last()) =~= files);
    }
    assert(other_than(files, path) =~= files);
}

/// The entry of the rescue notice.
spec fn notice_entry(stable: Seq<u8>, notice: Seq<u8>) -> OwnedFileView {
    OwnedFileView { path: rescue_notice(stable), sha256: sha256_text(notice), mode: 0o600 }
}

/// The entry of the rescue marker.
spec fn marker_entry(stable: Seq<u8>, digest: Seq<char>) -> OwnedFileView {
    OwnedFileView { path: rescue_marker_file(stable), sha256: digest, mode: 0o600 }
}

proof fn lemma_entry_added(files: Seq<OwnedFileView>, f: OwnedFileView)
    requires
        distinct_files(files),
        forall|i: int| 0 <= i < files.len() ==> !same_path(#[trigger] files[i].path, f.path),
    ensures
        distinct_files(sorted_by(SortOrder::ByPath, files.push(f), owned_key())),
        forall|g: OwnedFileView| #[trigger]
            sorted_by(SortOrder::ByPath, files.push(f), owned_key()).contains(g)
                <==> files.contains(g) || g == f,
        sorted_by(SortOrder::ByPath, files.push(f), owned_key()).len() == files.len() + 1,
{
    lemma_sorting_keeps_items(SortOrder::ByPath, files.push(f), owned_key());
    lemma_push_distinct(files, f, owned_key());
    lemma_sorting_keeps_members(SortOrder::ByPath, files.push(f), owned_key());
    lemma_sorting_keeps_distinct(SortOrder::ByPath, files.push(f), owned_key());
    let added = sorted_by(SortOrder::ByPath, files.push(f), owned_key());
    assert forall|g: OwnedFileView| #[trigger] added.contains(g) <==> files.contains(g) || g
        == f by {
        assert(files.push(f).contains(g) == added.contains(g));
    }
}

/// Entries that are all in place, in any order.
spec fn all_in_place(
    files: Seq<OwnedFileView>,
    generation: Seq<u8>,
    plugin_root: Seq<u8>,
    broker: Seq<char>,
) -> bool {
    forall|i: int|
        0 <= i < files.len() ==> entry_in_place(
            #[trigger] files[i],
            generation,
            plugin_root,
            broker,
        )
}

proof fn lemma_first_inventory(
    owned: Seq<OwnedFileView>,
    generation: Seq<u8>,
    plugin_root: Seq<u8>,
    broker: Seq<char>,
)
    requires
        inventory_in_place(owned, generation, plugin_root, broker),
    ensures
        ({
            let first = sorted_by(SortOrder::ByPath, owned, owned_key());
            &&& distinct_files(first)
            &&& all_in_place(first, generation, plugin_root, broker)
            &&& forall|f: OwnedFileView| #[trigger] first.contains(f) <==> owned.contains(f)
            &&& first.len() == owned.len()
        }),
{
    let first = sorted_by(SortOrder::ByPath, owned, owned_key());
    lemma_sorting_keeps_items(SortOrder::ByPath, owned, owned_key());
    lemma_sorting_keeps_members(SortOrder::ByPath, owned, owned_key());
    lemma_sorting_keeps_distinct(SortOrder::ByPath, owned, owned_key());
    assert forall|i: int| 0 <= i < first.len() implies entry_in_place(
        #[trigger] first[i],
        generation,
        plugin_root,
        broker,
    ) by {
        assert(first.contains(first[i]));
        assert(owned.contains(first[i]));
        let k = choose|k: int| 0 <= k < owned.len() && owned[k] == first[i];
        assert(entry_in_place(owned[k], generation, plugin_root, broker));
    }
    assert forall|f: OwnedFileView| #[trigger] first.contains(f) <==> owned.contains(f) by {
        assert(owned.contains(f) == first.contains(f));
    }
}

proof fn lemma_noticed_inventory(
    first: Seq<OwnedFileView>,
    stable: Seq<u8>,
    generation: Seq<u8>,
    plugin_root: Seq<u8>,
    broker: Seq<char>,
    n: OwnedFileView,
)
    requires
        is_absolute(stable),
        is_absolute(plugin_root),
        in_generations(generation, stable),
        distinct_files(first),
        all_in_place(first, generation, plugin_root, broker),
        n.path == rescue_notice(stable),
    ensures
        other_than(other_than(first, rescue_notice(stable)), rescue_marker_file(stable)) == first,
        ({
            let second = sorted_by(SortOrder::ByPath, first.push(n), owned_key());
            &&& distinct_files(second)
            &&& second.len() == first.len() + 1
            &&& forall|f: OwnedFileView| #[trigger]
                second.contains(f) <==> first.contains(f) || f == n
            &&& forall|i: int|
                0 <= i < second.len() ==> !same_path(
                    #[trigger] second[i].path,
                    rescue_marker_file(stable),
                )
        }),
{
    assert forall|i: int| 0 <= i < first.len() implies !same_path(
        #[trigger] first[i].path,
        rescue_notice(stable),
    ) && !same_path(first[i].path, rescue_marker_file(stable)) by {
        lemma_in_place_is_not_rescue(first[i], stable, generation, plugin_root, broker);
    }
    lemma_nothing_left_out(first, rescue_notice(stable));
    lemma_nothing_left_out(first, rescue_marker_file(stable));
    lemma_entry_added(first, n);
    let second = sorted_by(SortOrder::ByPath, first.push(n), owned_key());
    assert(!same_path(n.path, rescue_marker_file(stable))) by {
        lemma_rescue_places(stable);
        lemma_names_differ();
        let rescue = parts(stable).push(named("rescue"@));
        assert(rescue.push(named("uninstall.sh"@)).last() == named("uninstall.sh"@));
        assert(rescue.push(named("owner-v1"@)).last() == named("owner-v1"@));
    }
    assert forall|i: int| 0 <= i < second.len() implies !same_path(
        #[trigger] second[i].path,
        rescue_marker_file(stable),
    ) by {
        assert(second.contains(second[i]));
        if second[i] != n {
            let k = choose|k: int| 0 <= k < first.len() && first[k] == second[i];
            assert(!same_path(first[k].path, rescue_marker_file(stable)));
        }
    }
}

proof fn lemma_whole_inventory(
    made: RecordView,
    owned: Seq<OwnedFileView>,
    stable: Seq<u8>,
    generation: Seq<u8>,
    plugin_root: Seq<u8>,
    broker: Seq<char>,
    notice: Seq<u8>,
    marker: Seq<char>,
)
    requires
        is_absolute(stable),
        is_absolute(plugin_root),
        in_generations(generation, stable),
        inventory_in_place(owned, generation, plugin_root, broker),
        made.owned_files == sorted_by(SortOrder::ByPath, owned, owned_key()),
    ensures
        ({
            let files = marked(noticed(made, stable, notice), stable, marker).owned_files;
            let digest = sha256_text(utf8(marker));
            &&& distinct_files(files)
            &&& files.len() == owned.len() + 2
            &&& forall|f: OwnedFileView| #[trigger]
                files.contains(f) <==> owned.contains(f) || f == notice_entry(stable, notice) || f
                    == marker_entry(stable, digest)
        }),
{
    let n = notice_entry(stable, notice);
    let m = marker_entry(stable, sha256_text(utf8(marker)));
    let first = made.owned_files;
    lemma_first_inventory(owned, generation, plugin_root, broker);
    lemma_noticed_inventory(first, stable, generation, plugin_root, broker, n);
    let second = sorted_by(SortOrder::ByPath, first.push(n), owned_key());
    lemma_entry_added(second, m);
    let files = sorted_by(SortOrder::ByPath, second.push(m), owned_key());
    assert(files == marked(noticed(made, stable, notice), stable, marker).owned_files);
    assert forall|f: OwnedFileView| #[trigger]
        files.contains(f) <==> owned.contains(f) || f == n || f == m by {
        assert(second.contains(f) <==> first.contains(f) || f == n);
        assert(first.contains(f) <==> owned.contains(f));
    }
}

proof fn lemma_sound_entries(
    record: RecordView,
    stable: Seq<u8>,
    plugin_root: Seq<u8>,
    layout: RescueLayout,
    n: int,
)
    requires
        0 <= n <= record.owned_files.len(),
        distinct_files(record.owned_files),
        forall|i: int|
            0 <= i < record.owned_files.len() ==> storable(
                (#[trigger] record.owned_files[i]).path,
            ) && digest_ok(record.owned_files[i].sha256) && role_of(
                record,
                stable,
                plugin_root,
                layout,
                record.owned_files[i],
            ) != OwnedRole::Unrelated,
    ensures
        owned_failure(record, stable, plugin_root, layout, n) is None,
    decreases n,
{
    if n > 0 {
        lemma_sound_entries(record, stable, plugin_root, layout, n - 1);
        let f = record.owned_files[n - 1];
        let before = owned_parts(record.owned_files.take(n - 1));
        if before.contains(parts(f.path)) {
            let k = choose|k: int| 0 <= k < before.len() && before[k] == parts(f.path);
            assert(before[k] == parts(record.owned_files[k].path));
            assert(!same_path(record.owned_files[k].path, record.owned_files[n - 1].path));
        }
    }
}

/// A record whose paths are those of a generation and of the rescue directory.
spec fn placed(record: RecordView, stable: Seq<u8>, generation: Seq<u8>) -> bool {
    &&& record.stable_binary == child(generation, "bin/herdr-a2a"@)
    &&& record.pi_package_source == child(generation, "pi"@)
    &&& record.rescue_path == rescue_notice(stable)
}

proof fn lemma_role_in_place(
    record: RecordView,
    stable: Seq<u8>,
    generation: Seq<u8>,
    plugin_root: Seq<u8>,
    f: OwnedFileView,
)
    requires
        is_absolute(stable),
        is_absolute(plugin_root),
        in_generations(generation, stable),
        placed(record, stable, generation),
        entry_in_place(f, generation, plugin_root, record.broker_digest),
    ensures
        ({
            let role = role_of(record, stable, plugin_root, RescueLayout::SourceNotice, f);
            &&& role != OwnedRole::Unrelated
            &&& f == binary_entry(generation, record.broker_digest) ==> role == OwnedRole::Binary
            &&& f == helper_entry(plugin_root, record.broker_digest) ==> role == OwnedRole::Helper
            &&& f == pointer_entry(plugin_root, generation) ==> role == OwnedRole::Pointer
            &&& f.path == child(child(generation, "pi"@), "package.json"@) && f.mode == 0o600
                ==> role == OwnedRole::Package
        }),
{
    lemma_generation_places(stable, generation);
    lemma_plugin_places(plugin_root);
    lemma_names_differ();
    let bin = parts(generation).push(named("bin"@));
    let package = parts(generation).push(named("pi"@));
    assert(bin.push(named("herdr-a2a"@)).last() == named("herdr-a2a"@));
    assert(package.push(named("package.json"@)).last() == named("package.json"@));
    assert(bin.push(named("herdr-a2a"@))[parts(generation).len() as int] == named("bin"@));
    assert(package.push(named("package.json"@))[parts(generation).len() as int] == named("pi"@));
    if f.path == child(child(generation, "pi"@), "package.json"@) {
        assert(package.is_prefix_of(package.push(named("package.json"@)))) by {
            assert(package =~= package.push(named("package.json"@)).take(package.len() as int));
        }
    }
}

proof fn lemma_rescue_is_apart(
    p: Seq<u8>,
    name: PathPart,
    stable: Seq<u8>,
    generation: Seq<u8>,
    plugin_root: Seq<u8>,
)
    requires
        is_absolute(stable),
        is_absolute(plugin_root),
        in_generations(generation, stable),
        parts(p) == parts(stable).push(named("rescue"@)).push(name),
        name != named("herdr-a2a-dispatch"@),
        name != named("stable-bin-path"@),
    ensures
        !same_path(p, child(generation, "bin/herdr-a2a"@)),
        !same_path(p, helper_path(plugin_root)),
        !same_path(p, pointer_path(plugin_root)),
        !path_under(p, child(generation, "pi"@)),
{
    assert(parts(p).last() == name);
    assert(parts(p).len() == parts(stable).len() + 2);
    lemma_generation_places(stable, generation);
    assert(parts(child(generation, "bin/herdr-a2a"@)).len() == parts(stable).len() + 4);
    assert(parts(child(generation, "pi"@)).len() == parts(stable).len() + 3);
    lemma_plugin_places(plugin_root);
}

proof fn lemma_role_of_rescue(
    record: RecordView,
    stable: Seq<u8>,
    generation: Seq<u8>,
    plugin_root: Seq<u8>,
    f: OwnedFileView,
)
    requires
        is_absolute(stable),
        is_absolute(plugin_root),
        in_generations(generation, stable),
        placed(record, stable, generation),
        f.mode == 0o600,
        f.path == rescue_notice(stable) || f.path == rescue_marker_file(stable),
    ensures
        role_of(record, stable, plugin_root, RescueLayout::SourceNotice, f) == if f.path
            == rescue_notice(stable) {
            OwnedRole::Notice
        } else {
            OwnedRole::Marker
        },
        rescue_notice(stable) != rescue_marker_file(stable),
{
    let rescue = parts(stable).push(named("rescue"@));
    lemma_rescue_places(stable);
    lemma_names_differ();
    assert(rescue.push(named("uninstall.sh"@)).last() == named("uninstall.sh"@));
    assert(rescue.push(named("owner-v1"@)).last() == named("owner-v1"@));
    let name = if f.path == rescue_notice(stable) {
        named("uninstall.sh"@)
    } else {
        named("owner-v1"@)
    };
    lemma_rescue_is_apart(f.path, name, stable, generation, plugin_root);
}

proof fn lemma_filled(
    record: RecordView,
    stable: Seq<u8>,
    plugin_root: Seq<u8>,
    layout: RescueLayout,
    role: OwnedRole,
    f: OwnedFileView,
)
    requires
        record.owned_files.contains(f),
        role_of(record, stable, plugin_root, layout, f) == role,
        fills_role(record, role, f),
    ensures
        role_filled(
            record,
            stable,
            plugin_root,
            layout,
            role,
            record.owned_files.len() as int,
        ),
{
    let k = choose|k: int| 0 <= k < record.owned_files.len() && record.owned_files[k] == f;
    assert(role_of(record, stable, plugin_root, layout, record.owned_files[k]) == role);
}

proof fn lemma_complete_inventory(
    record: RecordView,
    owned: Seq<OwnedFileView>,
    stable: Seq<u8>,
    generation: Seq<u8>,
    plugin_root: Seq<u8>,
    notice: Seq<u8>,
)
    requires
        is_absolute(stable),
        is_absolute(plugin_root),
        in_generations(generation, stable),
        placed(record, stable, generation),
        inventory_in_place(owned, generation, plugin_root, record.broker_digest),
        storable(rescue_notice(stable)),
        storable(rescue_marker_file(stable)),
        digest_ok(sha256_text(notice)),
        digest_ok(record.rescue_marker_digest),
        distinct_files(record.owned_files),
        forall|f: OwnedFileView| #[trigger]
            record.owned_files.contains(f) <==> owned.contains(f) || f == notice_entry(
                stable,
                notice,
            ) || f == marker_entry(stable, record.rescue_marker_digest),
    ensures
        inventory_failure(record, stable, plugin_root, RescueLayout::SourceNotice) is None,
        layout_of(record, stable) == Ok::<RescueLayout, Failure>(RescueLayout::SourceNotice),
{
    let layout = RescueLayout::SourceNotice;
    let files = record.owned_files;
    let n = notice_entry(stable, notice);
    let m = marker_entry(stable, record.rescue_marker_digest);
    lemma_role_of_rescue(record, stable, generation, plugin_root, n);
    lemma_role_of_rescue(record, stable, generation, plugin_root, m);
    assert forall|i: int| 0 <= i < files.len() implies storable((#[trigger] files[i]).path)
        && digest_ok(files[i].sha256) && role_of(record, stable, plugin_root, layout, files[i])
        != OwnedRole::Unrelated by {
        assert(files.contains(files[i]));
        if files[i] != n && files[i] != m {
            let k = choose|k: int| 0 <= k < owned.len() && owned[k] == files[i];
            assert(entry_in_place(owned[k], generation, plugin_root, record.broker_digest));
            lemma_role_in_place(record, stable, generation, plugin_root, files[i]);
        }
    }
    lemma_sound_entries(record, stable, plugin_root, layout, files.len() as int);
    let b = binary_entry(generation, record.broker_digest);
    let h = helper_entry(plugin_root, record.broker_digest);
    let p = pointer_entry(plugin_root, generation);
    let k = choose|k: int|
        0 <= k < owned.len() && (#[trigger] owned[k]).path == child(
            child(generation, "pi"@),
            "package.json"@,
        ) && owned[k].mode == 0o600;
    let j = owned[k];
    assert(owned.contains(j));
    assert(entry_in_place(owned[k], generation, plugin_root, record.broker_digest));
    lemma_role_in_place(record, stable, generation, plugin_root, b);
    lemma_role_in_place(record, stable, generation, plugin_root, h);
    lemma_role_in_place(record, stable, generation, plugin_root, p);
    lemma_role_in_place(record, stable, generation, plugin_root, j);
    assert(files.contains(b) && files.contains(h) && files.contains(p) && files.contains(j)
        && files.contains(n) && files.contains(m));
    lemma_filled(record, stable, plugin_root, layout, OwnedRole::Binary, b);
    lemma_filled(record, stable, plugin_root, layout, OwnedRole::Helper, h);
    lemma_filled(record, stable, plugin_root, layout, OwnedRole::Pointer, p);
    lemma_filled(record, stable, plugin_root, layout, OwnedRole::Package, j);
    lemma_filled(record, stable, plugin_root, layout, OwnedRole::Notice, n);
    lemma_filled(record, stable, plugin_root, layout, OwnedRole::Marker, m);
    assert(inventory_complete(record, stable, plugin_root, layout));
    lemma_notice_layout(record, owned, stable, generation, plugin_root, n, m);
}

proof fn lemma_notice_layout(
    record: RecordView,
    owned: Seq<OwnedFileView>,
    stable: Seq<u8>,
    generation: Seq<u8>,
    plugin_root: Seq<u8>,
    n: OwnedFileView,
    m: OwnedFileView,
)
    requires
        is_absolute(stable),
        is_absolute(plugin_root),
        in_generations(generation, stable),
        record.rescue_path == rescue_notice(stable),
        forall|i: int|
            0 <= i < owned.len() ==> entry_in_place(
                #[trigger] owned[i],
                generation,
                plugin_root,
                record.broker_digest,
            ),
        n.path == rescue_notice(stable) && n.mode == 0o600,
        m.path == rescue_marker_file(stable),
        forall|f: OwnedFileView| #[trigger]
            record.owned_files.contains(f) <==> owned.contains(f) || f == n || f == m,
    ensures
        layout_of(record, stable) == Ok::<RescueLayout, Failure>(RescueLayout::SourceNotice),
{
    let files = record.owned_files;
    lemma_rescue_places(stable);
    lemma_names_differ();
    let rescue = parts(stable).push(named("rescue"@));
    assert(rescue.push(named("uninstall.sh"@)).last() == named("uninstall.sh"@));
    assert(rescue.push(named("owner-v1"@)).last() == named("owner-v1"@));
    assert(rescue.push(named("herdr-a2a-rescue"@)).last() == named("herdr-a2a-rescue"@));
    assert forall|i: int| 0 <= i < files.len() implies (same_path(
        (#[trigger] files[i]).path,
        record.rescue_path,
    ) ==> files[i] == n) && !same_path(files[i].path, rescue_helper(stable)) by {
        assert(files.contains(files[i]));
        if files[i] != n && files[i] != m {
            let k = choose|k: int| 0 <= k < owned.len() && owned[k] == files[i];
            assert(entry_in_place(owned[k], generation, plugin_root, record.broker_digest));
            lemma_in_place_is_not_rescue(
                files[i],
                stable,
                generation,
                plugin_root,
                record.broker_digest,
            );
        }
    }
    assert(files.contains(n));
    let k = choose|k: int| 0 <= k < files.len() && files[k] == n;
    assert(same_path(files[k].path, record.rescue_path));
    crate::record::lemma_first_for_path(files, record.rescue_path, k);
    assert(owned_for(files, rescue_helper(stable)) is None);
}

proof fn lemma_sound_relationships(
    record: RecordView,
    stable: Seq<u8>,
    generation: Seq<u8>,
)
    requires
        is_absolute(stable),
        in_generations(generation, stable),
        placed(record, stable, generation),
        entry_allowed(
            record.pi_package_entry,
            record.pi_config_path,
            record.pi_package_source,
        ) == Ok::<bool, Failure>(true),
    ensures
        parent(record.pi_package_source) is Some,
        crate::layout::relationships_failure(
            record,
            parent(record.pi_package_source)->0,
            stable,
        ) is None,
{
    lemma_generation_places(stable, generation);
    let package = record.pi_package_source;
    law_parent_drops_the_last_component(package);
    let above = parent(package)->0;
    assert(parts(generation).push(named("pi"@)).drop_last() =~= parts(generation));
    assert(same_path(above, generation));
    law_parent_drops_the_last_component(above);
    law_parent_drops_the_last_component(generation);
    lemma_names();
    lemma_pi_name();
    lemma_joined_names(above);
    law_joining_a_name_appends_it(above, utf8("pi"@));
    law_joining_a_name_appends_it(above, utf8("bin"@));
    law_joining_a_name_appends_it(child(above, "bin"@), utf8("herdr-a2a"@));
}

/// A record with the state and the entry of Pi that an installation ends with.
pub open spec fn finished(record: RecordView, state: InstallState, entry: JsonView) -> RecordView {
    RecordView { state, pi_package_entry: entry, ..record }
}

/// The record that an installation writes: the built one, finished, with the rescue
/// notice and its marker.
pub open spec fn written(
    built: RecordView,
    state: InstallState,
    entry: JsonView,
    stable: Seq<u8>,
    notice: Seq<u8>,
    marker: Seq<char>,
) -> RecordView {
    marked(noticed(finished(built, state, entry), stable, notice), stable, marker)
}

/// What an installation makes its record of is in order: its files are in place, its
/// values are in shape, the entry of Pi names its package, the marker is the one for
/// the record, and all paths can be stored.
pub open spec fn installation_sound(
    stable: Seq<u8>,
    plugin_root: Seq<u8>,
    generation: Seq<u8>,
    prior: Option<RecordView>,
    inputs: RecordInputsView,
    state: InstallState,
    entry: JsonView,
    notice: Seq<u8>,
    marker: Seq<char>,
) -> bool {
    &&& in_generations(generation, stable)
    &&& inputs.binary == child(generation, "bin/herdr-a2a"@)
    &&& inputs.package == child(generation, "pi"@)
    &&& inputs.owned is Ok
    &&& inventory_in_place(inputs.owned->Ok_0, generation, plugin_root, inputs.broker_digest)
    &&& known_kind(inputs.install_kind)
    &&& digest_ok(inputs.broker_digest)
    &&& digest_ok(inputs.pi_package_digest)
    &&& inputs.plugin_version is Ok ==> 0 < utf8(inputs.plugin_version->Ok_0).len() <= 128
    &&& prior is Some && prior->0.purge_authority ==> prior->0.plugin_state_root.len() > 0
    &&& inputs.state_root is Ok ==> inputs.state_root->Ok_0.len() > 0
    &&& inputs.pi_settings is Ok
    &&& entry_allowed(entry, inputs.pi_settings->Ok_0, inputs.package) == Ok::<bool, Failure>(
        true,
    )
    &&& digest_ok(sha256_text(notice))
    &&& digest_ok(sha256_text(utf8(marker)))
    &&& storable(rescue_marker_file(stable))
    &&& match built_record(stable, plugin_root, prior, inputs) {
        Err(_) => false,
        Ok(built) => {
            &&& marker_of(noticed(finished(built, state, entry), stable, notice), stable) == Ok::<
                Seq<char>,
                Failure,
            >(marker)
            &&& record_paths_failure(
                written(built, state, entry, stable, notice, marker),
                stable,
                plugin_root,
            ) is None
        },
    }
}

proof fn lemma_written_shape(
    stable: Seq<u8>,
    plugin_root: Seq<u8>,
    generation: Seq<u8>,
    prior: Option<RecordView>,
    inputs: RecordInputsView,
    state: InstallState,
    entry: JsonView,
    notice: Seq<u8>,
    marker: Seq<char>,
)
    requires
        installation_sound(
            stable,
            plugin_root,
            generation,
            prior,
            inputs,
            state,
            entry,
            notice,
            marker,
        ),
    ensures
        ({
            let built = built_record(stable, plugin_root, prior, inputs)->Ok_0;
            let record = written(built, state, entry, stable, notice, marker);
            &&& is_absolute(stable) && is_absolute(plugin_root)
            &&& placed(record, stable, generation)
            &&& storable(rescue_notice(stable))
            &&& record_head_ok(record, stable, plugin_root)
            &&& record_values_ok(record)
            &&& record.pi_config_path == inputs.pi_settings->Ok_0
            &&& record.broker_digest == inputs.broker_digest
            &&& record.plugin_root == plugin_root
            &&& record.schema_version == OWNERSHIP_SCHEMA
            &&& record.rescue_marker_digest == sha256_text(utf8(marker))
            &&& record.pi_package_entry == entry
        }),
{
    lemma_absolute(stable, plugin_root, generation, prior, inputs, state, entry, notice, marker);
    lemma_rescue_places(stable);
}

proof fn lemma_absolute(
    stable: Seq<u8>,
    plugin_root: Seq<u8>,
    generation: Seq<u8>,
    prior: Option<RecordView>,
    inputs: RecordInputsView,
    state: InstallState,
    entry: JsonView,
    notice: Seq<u8>,
    marker: Seq<char>,
)
    requires
        installation_sound(
            stable,
            plugin_root,
            generation,
            prior,
            inputs,
            state,
            entry,
            notice,
            marker,
        ),
    ensures
        is_absolute(stable) && is_absolute(plugin_root),
        storable(
            written(
                built_record(stable, plugin_root, prior, inputs)->Ok_0,
                state,
                entry,
                stable,
                notice,
                marker,
            ).rescue_path,
        ),
{
}

proof fn lemma_written_inventory(
    stable: Seq<u8>,
    plugin_root: Seq<u8>,
    generation: Seq<u8>,
    prior: Option<RecordView>,
    inputs: RecordInputsView,
    state: InstallState,
    entry: JsonView,
    notice: Seq<u8>,
    marker: Seq<char>,
)
    requires
        installation_sound(
            stable,
            plugin_root,
            generation,
            prior,
            inputs,
            state,
            entry,
            notice,
            marker,
        ),
    ensures
        ({
            let built = built_record(stable, plugin_root, prior, inputs)->Ok_0;
            let record = written(built, state, entry, stable, notice, marker);
            &&& inventory_failure(record, stable, plugin_root, RescueLayout::SourceNotice) is None
            &&& layout_of(record, stable) == Ok::<RescueLayout, Failure>(
                RescueLayout::SourceNotice,
            )
            &&& parent(record.pi_package_source) is Some
            &&& crate::layout::relationships_failure(
                record,
                parent(record.pi_package_source)->0,
                stable,
            ) is None
            &&& distinct_files(record.owned_files)
            &&& record.owned_files.len() == inputs.owned->Ok_0.len() + 2
            &&& forall|f: OwnedFileView| #[trigger]
                record.owned_files.contains(f) <==> inputs.owned->Ok_0.contains(f) || f
                    == notice_entry(stable, notice) || f == marker_entry(
                    stable,
                    record.rescue_marker_digest,
                )
        }),
{
    let built = built_record(stable, plugin_root, prior, inputs)->Ok_0;
    let record = written(built, state, entry, stable, notice, marker);
    lemma_written_shape(
        stable,
        plugin_root,
        generation,
        prior,
        inputs,
        state,
        entry,
        notice,
        marker,
    );
    lemma_whole_inventory(
        finished(built, state, entry),
        inputs.owned->Ok_0,
        stable,
        generation,
        plugin_root,
        inputs.broker_digest,
        notice,
        marker,
    );
    lemma_complete_inventory(
        record,
        inputs.owned->Ok_0,
        stable,
        generation,
        plugin_root,
        notice,
    );
    lemma_sound_relationships(record, stable, generation);
}

/// The record that an installation makes for files in place, with the rescue files
/// prepared and an entry of Pi that names its package, is accepted when it is read
/// back. Its entries are in the order of their paths.
pub proof fn law_new_record_is_accepted(
    stable: Seq<u8>,
    plugin_root: Seq<u8>,
    generation: Seq<u8>,
    prior: Option<RecordView>,
    inputs: RecordInputsView,
    state: InstallState,
    entry: JsonView,
    notice: Seq<u8>,
    marker: Seq<char>,
)
    requires
        installation_sound(
            stable,
            plugin_root,
            generation,
            prior,
            inputs,
            state,
            entry,
            notice,
            marker,
        ),
    ensures
        record_failure(
            written(
                built_record(stable, plugin_root, prior, inputs)->Ok_0,
                state,
                entry,
                stable,
                notice,
                marker,
            ),
            stable,
            plugin_root,
            inputs.pi_settings,
        ) is None,
        in_order(
            SortOrder::ByPath,
            written(
                built_record(stable, plugin_root, prior, inputs)->Ok_0,
                state,
                entry,
                stable,
                notice,
                marker,
            ).owned_files,
            owned_key(),
        ),
{
    let noted = noticed(
        finished(built_record(stable, plugin_root, prior, inputs)->Ok_0, state, entry),
        stable,
        notice,
    );
    lemma_sorted_in_order(
        SortOrder::ByPath,
        noted.owned_files.push(marker_entry(stable, sha256_text(utf8(marker)))),
        owned_key(),
    );
    lemma_written_shape(
        stable,
        plugin_root,
        generation,
        prior,
        inputs,
        state,
        entry,
        notice,
        marker,
    );
    lemma_written_inventory(
        stable,
        plugin_root,
        generation,
        prior,
        inputs,
        state,
        entry,
        notice,
        marker,
    );
}

/// The entries that a new installation takes: the binary, the files of the package,
/// the helper and the pointer.
pub open spec fn owned_list(
    generation: Seq<u8>,
    plugin_root: Seq<u8>,
    broker: Seq<char>,
    packaged: Seq<OwnedFileView>,
) -> Seq<OwnedFileView> {
    seq![binary_entry(generation, broker)] + packaged + seq![
        helper_entry(plugin_root, broker),
        pointer_entry(plugin_root, generation),
    ]
}

/// The files that some entries are for, with their modes.
pub open spec fn listed(files: Seq<OwnedFileView>) -> Seq<(Seq<u8>, u32)> {
    files.map_values(|f: OwnedFileView| (f.path, f.mode))
}

proof fn lemma_slot(table: Seq<(Seq<u8>, u32)>, path: Seq<u8>, k: int)
    requires
        0 <= k < table.len(),
        same_path(table[k].0, path),
    ensures
        0 <= slot(table, path) <= k,
        same_path(table[slot(table, path)].0, path),
    decreases table.len(),
{
    if !same_path(table[0].0, path) {
        assert(table.skip(1)[k - 1] == table[k]);
        lemma_slot(table.skip(1), path, k - 1);
        assert(table.skip(1)[slot(table.skip(1), path)] == table[slot(table, path)]);
    }
}

proof fn lemma_no_slot(table: Seq<(Seq<u8>, u32)>, path: Seq<u8>)
    requires
        forall|k: int| 0 <= k < table.len() ==> !same_path((#[trigger] table[k]).0, path),
    ensures
        slot(table, path) == table.len(),
    decreases table.len(),
{
    if table.len() > 0 {
        assert(!same_path(table[0].0, path));
        assert forall|k: int| 0 <= k < table.skip(1).len() implies !same_path(
            (#[trigger] table.skip(1)[k]).0,
            path,
        ) by {
            assert(table.skip(1)[k] == table[k + 1]);
        }
        lemma_no_slot(table.skip(1), path);
    }
}

/// Entries for different files make a table that lists each of them once.
proof fn lemma_table_of_distinct(files: Seq<OwnedFileView>)
    requires
        distinct_files(files),
    ensures
        tabulated(listed(files)) == listed(files),
    decreases files.len(),
{
    let plan = listed(files);
    if files.len() > 0 {
        let front = files.drop_last();
        let last = files.len() - 1;
        assert(plan.drop_last() =~= listed(front));
        assert forall|i: int, j: int| 0 <= i < j < front.len() implies !same_path(
            owned_key()(#[trigger] front[i]),
            owned_key()(#[trigger] front[j]),
        ) by {
            assert(front[i] == files[i] && front[j] == files[j]);
        }
        lemma_table_of_distinct(front);
        assert forall|k: int| 0 <= k < listed(front).len() implies !same_path(
            (#[trigger] listed(front)[k]).0,
            plan[last].0,
        ) by {
            assert(listed(front)[k].0 == files[k].path);
            assert(!same_path(owned_key()(files[k]), owned_key()(files[last])));
        }
        lemma_no_slot(listed(front), plan[last].0);
        assert(listed(front).push(plan[last]) =~= plan);
    } else {
        assert(plan =~= tabulated(plan));
    }
}

proof fn lemma_mode_listed(files: Seq<OwnedFileView>, f: OwnedFileView)
    requires
        distinct_files(files),
        files.contains(f),
    ensures
        mode_in(listed(files), f.path) == Some(f.mode),
{
    let table = listed(files);
    let k = choose|k: int| 0 <= k < files.len() && files[k] == f;
    assert(table[k] == (f.path, f.mode));
    lemma_slot(table, f.path, k);
    let at = slot(table, f.path);
    if at < k {
        assert(!same_path(owned_key()(files[at]), owned_key()(files[k])));
    }
}

proof fn lemma_entries_hold(
    record: RecordView,
    files: Seq<OwnedFileView>,
    checks: Seq<ManagedResult<()>>,
    n: int,
)
    requires
        0 <= n <= record.owned_files.len(),
        checks.len() == record.owned_files.len(),
        distinct_files(record.owned_files),
        distinct_files(files),
        forall|i: int|
            0 <= i < record.owned_files.len() ==> files.contains(#[trigger] record.owned_files[i])
                && storable(record.owned_files[i].path),
        forall|i: int| 0 <= i < checks.len() ==> failure(#[trigger] checks[i]) is None,
    ensures
        entries_failure(record, listed(files), checks, n) is None,
    decreases n,
{
    if n > 0 {
        lemma_entries_hold(record, files, checks, n - 1);
        let f = record.owned_files[n - 1];
        let before = owned_parts(record.owned_files.take(n - 1));
        if before.contains(parts(f.path)) {
            let k = choose|k: int| 0 <= k < before.len() && before[k] == parts(f.path);
            assert(before[k] == parts(record.owned_files[k].path));
            assert(!same_path(
                owned_key()(record.owned_files[k]),
                owned_key()(record.owned_files[n - 1]),
            ));
        }
        lemma_mode_listed(files, f);
        assert(failure(checks[n - 1]) is None);
    }
}

/// What was found of an installation is what its record lists: every directory is
/// safe, the package and the generation hold the listed files and no others, and
/// every file has its recorded mode and content.
pub open spec fn found_as_listed(
    assets: RecordAssets,
    record: RecordView,
    stable: Seq<u8>,
    package: Seq<Seq<u8>>,
) -> bool {
    let table = expected_table(record, stable, RescueLayout::SourceNotice, package);
    &&& assets.plugin_root is Ok && assets.libexec is Ok && assets.generation is Ok
        && assets.state_root is Ok
    &&& assets.binary_digest is Ok && assets.binary_digest->Ok_0@ == record.broker_digest
    &&& assets.package_digest is Ok && assets.package_digest->Ok_0@ == record.pi_package_digest
    &&& assets.package_files is Ok && path_views(assets.package_files->Ok_0@) == package
    &&& assets.owned@.len() == record.owned_files.len()
    &&& forall|i: int| 0 <= i < assets.owned@.len() ==> failure(#[trigger] assets.owned@[i]) is None
    &&& assets.generation_files is Ok && all_parts(path_views(assets.generation_files->Ok_0@))
        == expected_below(table, parent(record.pi_package_source)->0)
    &&& assets.helper_digest is Ok && assets.helper_digest->Ok_0@ == record.broker_digest
    &&& assets.pointer is Ok && assets.pointer->Ok_0@ == decode_utf8(record.stable_binary)
        + "\n"@
}

proof fn lemma_list_is_expected(
    record: RecordView,
    stable: Seq<u8>,
    generation: Seq<u8>,
    packaged: Seq<OwnedFileView>,
    n: OwnedFileView,
    m: OwnedFileView,
)
    requires
        placed(record, stable, generation),
        forall|i: int| 0 <= i < packaged.len() ==> (#[trigger] packaged[i]).mode == 0o600,
        n.path == rescue_notice(stable) && n.mode == 0o600,
        m.path == rescue_marker_file(stable) && m.mode == 0o600,
    ensures
        expected_plan(
            record,
            stable,
            RescueLayout::SourceNotice,
            packaged.map_values(|f: OwnedFileView| f.path),
        ) == listed(
            owned_list(generation, record.plugin_root, record.broker_digest, packaged).push(
                n,
            ).push(m),
        ),
{
    let package = packaged.map_values(|f: OwnedFileView| f.path);
    let files = owned_list(generation, record.plugin_root, record.broker_digest, packaged).push(
        n,
    ).push(m);
    let plan = expected_plan(record, stable, RescueLayout::SourceNotice, package);
    assert(plan.len() == files.len());
    assert forall|i: int| 0 <= i < plan.len() implies plan[i] == listed(files)[i] by {
        if 1 <= i < 1 + packaged.len() {
            assert(files[i] == packaged[i - 1]);
            assert(plan[i] == (package[i - 1], 0o600u32));
        }
    }
    assert(plan =~= listed(files));
}

/// The record of a new installation holds of its files: where these are found as
/// they were listed, the installation is reported as it was written.
pub proof fn law_new_record_holds_of_its_files(
    stable: Seq<u8>,
    plugin_root: Seq<u8>,
    generation: Seq<u8>,
    prior: Option<RecordView>,
    inputs: RecordInputsView,
    packaged: Seq<OwnedFileView>,
    state: InstallState,
    entry: JsonView,
    notice: Seq<u8>,
    marker: Seq<char>,
    assets: RecordAssets,
)
    requires
        installation_sound(
            stable,
            plugin_root,
            generation,
            prior,
            inputs,
            state,
            entry,
            notice,
            marker,
        ),
        inputs.owned->Ok_0 == owned_list(
            generation,
            plugin_root,
            inputs.broker_digest,
            packaged,
        ),
        forall|i: int| 0 <= i < packaged.len() ==> (#[trigger] packaged[i]).mode == 0o600,
        found_as_listed(
            assets,
            written(
                built_record(stable, plugin_root, prior, inputs)->Ok_0,
                state,
                entry,
                stable,
                notice,
                marker,
            ),
            stable,
            packaged.map_values(|f: OwnedFileView| f.path),
        ),
    ensures
        record_inner_failure(
            written(
                built_record(stable, plugin_root, prior, inputs)->Ok_0,
                state,
                entry,
                stable,
                notice,
                marker,
            ),
            stable,
            true,
            inputs.pi_settings,
            assets,
        ) is None,
{
    let built = built_record(stable, plugin_root, prior, inputs)->Ok_0;
    let record = written(built, state, entry, stable, notice, marker);
    let owned = inputs.owned->Ok_0;
    let n = notice_entry(stable, notice);
    let m = marker_entry(stable, record.rescue_marker_digest);
    let files = owned.push(n).push(m);
    let package = packaged.map_values(|f: OwnedFileView| f.path);
    law_new_record_is_accepted(
        stable,
        plugin_root,
        generation,
        prior,
        inputs,
        state,
        entry,
        notice,
        marker,
    );
    lemma_written_shape(
        stable,
        plugin_root,
        generation,
        prior,
        inputs,
        state,
        entry,
        notice,
        marker,
    );
    lemma_written_inventory(
        stable,
        plugin_root,
        generation,
        prior,
        inputs,
        state,
        entry,
        notice,
        marker,
    );
    lemma_list_is_expected(record, stable, generation, packaged, n, m);
    lemma_list_is_distinct(owned, stable, generation, plugin_root, inputs.broker_digest, n, m);
    lemma_table_of_distinct(files);
    assert(expected_table(record, stable, RescueLayout::SourceNotice, package) == listed(files));
    assert forall|i: int| 0 <= i < record.owned_files.len() implies files.contains(
        #[trigger] record.owned_files[i],
    ) && storable(record.owned_files[i].path) by {
        let f = record.owned_files[i];
        assert(record.owned_files.contains(f));
        if f != n && f != m {
            let k = choose|k: int| 0 <= k < owned.len() && owned[k] == f;
            assert(entry_in_place(owned[k], generation, plugin_root, inputs.broker_digest));
        }
    }
    lemma_entries_hold(record, files, assets.owned@, record.owned_files.len() as int);
}

proof fn lemma_list_is_distinct(
    owned: Seq<OwnedFileView>,
    stable: Seq<u8>,
    generation: Seq<u8>,
    plugin_root: Seq<u8>,
    broker: Seq<char>,
    n: OwnedFileView,
    m: OwnedFileView,
)
    requires
        is_absolute(stable),
        is_absolute(plugin_root),
        in_generations(generation, stable),
        inventory_in_place(owned, generation, plugin_root, broker),
        n.path == rescue_notice(stable),
        m.path == rescue_marker_file(stable),
    ensures
        distinct_files(owned.push(n).push(m)),
        forall|f: OwnedFileView| #[trigger]
            owned.push(n).push(m).contains(f) <==> owned.contains(f) || f == n || f == m,
{
    assert forall|i: int| 0 <= i < owned.len() implies !same_path(
        owned_key()(#[trigger] owned[i]),
        n.path,
    ) && !same_path(owned[i].path, m.path) by {
        assert(entry_in_place(owned[i], generation, plugin_root, broker));
        lemma_in_place_is_not_rescue(owned[i], stable, generation, plugin_root, broker);
    }
    lemma_push_distinct(owned, n, owned_key());
    let more = owned.push(n);
    assert(!same_path(n.path, m.path)) by {
        lemma_rescue_places(stable);
        lemma_names_differ();
        let rescue = parts(stable).push(named("rescue"@));
        assert(rescue.push(named("uninstall.sh"@)).last() == named("uninstall.sh"@));
        assert(rescue.push(named("owner-v1"@)).last() == named("owner-v1"@));
    }
    assert forall|i: int| 0 <= i < more.len() implies !same_path(
        owned_key()(#[trigger] more[i]),
        owned_key()(m),
    ) by {
        if i < owned.len() {
            assert(more[i] == owned[i]);
        }
    }
    lemma_push_distinct(more, m, owned_key());
    assert forall|f: OwnedFileView| #[trigger]
        more.push(m).contains(f) <==> owned.contains(f) || f == n || f == m by {
        assert(more.contains(f) <==> owned.contains(f) || f == n);
    }
}

} // verus!
