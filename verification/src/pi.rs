//! Package entries in the settings of Pi.

use vstd::prelude::*;
use vstd::string::*;
use vstd::utf8::*;
use crate::error::{fail, failure, outcome, Failure, ManagedError, ManagedResult};
use crate::json::{
    encode_json, field, has_json, json_encoded, json_get, json_get_text, json_views,
    law_texts_are_equal_to_themselves_alone, same_json, without_zero_signs, Json, JsonView,
};
use crate::lists::{
    lemma_filter_has, lemma_filter_none, lemma_filter_push, lemma_filter_sole, lemma_one_is_sole,
    none_of, sole,
};
use crate::path::{
    absolute_normal, absolute_normal_failure, child, components, is_absolute, join, normal_components,
    normal_components_failure, normal_names, parent, part_views, parts, path_is_absolute,
    path_text, path_text_failure, render, require_absolute_normal, same_path, Component, FsPath,
    PathPart, law_components_have_ordinary_names, lemma_dot_alone,
    law_joining_a_name_appends_it, law_parent_drops_the_last_component,
    law_rendered_components_read_back, ordinary_name, step_ok,
};
use crate::record::{InstallState, OwnershipRecord, RecordView};
use crate::text::{bytes_eq, is_one_line, one_line, text_eq, utf8};

verus! {

/// The source that an entry names: the entry itself where it is a text, its field
/// `source` where it is an object. An empty source counts as none.
pub open spec fn entry_source(entry: JsonView) -> Option<Seq<char>> {
    let named = match entry {
        JsonView::Text(source) => Some(source),
        _ => json_get_text(entry, "source"@),
    };
    match named {
        Some(source) if source.len() > 0 => Some(source),
        _ => None,
    }
}

/// The source that an entry names.
pub fn pi_entry_source(entry: &Json) -> (r: Option<&String>)
    ensures
        r is Some == entry_source(entry@) is Some,
        r is Some ==> Some(r->0@) == entry_source(entry@),
{
    let named = match entry {
        Json::Text(source) => Some(source),
        _ => entry.get_text("source"),
    };
    match named {
        Some(source) => if source.as_str().is_empty() {
            None
        } else {
            Some(source)
        },
        None => None,
    }
}

/// How many names two lists have in common at their start.
pub open spec fn common_names(a: Seq<Seq<u8>>, b: Seq<Seq<u8>>) -> int
    decreases a.len(),
{
    if a.len() == 0 || b.len() == 0 || a[0] != b[0] {
        0
    } else {
        1 + common_names(a.skip(1), b.skip(1))
    }
}

/// The components that lead from one directory to another.
pub open spec fn steps_between(base: Seq<Seq<u8>>, source: Seq<Seq<u8>>) -> Seq<PathPart> {
    let common = common_names(base, source);
    Seq::new((base.len() - common) as nat, |i: int| PathPart::Parent) + source.skip(
        common,
    ).map_values(|name: Seq<u8>| PathPart::Normal(name))
}

/// The relative path that leads from one directory to another.
pub open spec fn relative_bytes(base: Seq<u8>, source: Seq<u8>) -> Seq<u8> {
    let relative = render(steps_between(normal_names(base), normal_names(source)));
    if relative.len() == 0 {
        seq![46u8]
    } else {
        relative
    }
}

/// The entry that names a package relative to the settings file, or what stands
/// in its way.
pub open spec fn relative_entry(settings: Seq<u8>, source: Seq<u8>) -> Result<JsonView, Failure> {
    match parent(settings) {
        None => Err(("unsafe_install_path"@, "Pi settings path has no parent"@)),
        Some(base) => match absolute_normal_failure(base, "Pi settings parent"@) {
            Some(f) => Err(f),
            None => match absolute_normal_failure(source, "Pi package source"@) {
                Some(f) => Err(f),
                None => match normal_components_failure(base) {
                    Some(f) => Err(f),
                    None => match normal_components_failure(source) {
                        Some(f) => Err(f),
                        None => match path_text_failure(relative_bytes(base, source)) {
                            Some(f) => Err(f),
                            None => Ok(
                                JsonView::Text(decode_utf8(relative_bytes(base, source))),
                            ),
                        },
                    },
                },
            },
        },
    }
}

/// A value or a failure, for a result that holds a JSON value.
pub open spec fn json_outcome(r: Result<Json, ManagedError>) -> Result<JsonView, Failure> {
    match r {
        Ok(v) => Ok(v@),
        Err(e) => Err(e@),
    }
}

fn count_common(a: &Vec<Vec<u8>>, b: &Vec<Vec<u8>>) -> (r: usize)
    ensures
        r == common_names(a@.map_values(|v: Vec<u8>| v@), b@.map_values(|v: Vec<u8>| v@)),
        r <= a.len(),
        r <= b.len(),
{
    let ghost x = a@.map_values(|v: Vec<u8>| v@);
    let ghost y = b@.map_values(|v: Vec<u8>| v@);
    let mut i: usize = 0;
    assert(x.skip(0) =~= x);
    assert(y.skip(0) =~= y);
    while i < a.len() && i < b.len()
        invariant
            i <= a.len(),
            i <= b.len(),
            x == a@.map_values(|v: Vec<u8>| v@),
            y == b@.map_values(|v: Vec<u8>| v@),
            common_names(x, y) == i + common_names(x.skip(i as int), y.skip(i as int)),
        decreases a.len() - i,
    {
        assert(x.skip(i as int)[0] == a@[i as int]@);
        assert(y.skip(i as int)[0] == b@[i as int]@);
        if !bytes_eq(a[i].as_slice(), b[i].as_slice()) {
            return i;
        }
        assert(x.skip(i as int).skip(1) =~= x.skip(i + 1));
        assert(y.skip(i as int).skip(1) =~= y.skip(i + 1));
        i += 1;
    }
    i
}

/// The relative path from one list of names to another.
fn relative_path(base: &Vec<Vec<u8>>, source: &Vec<Vec<u8>>) -> (r: FsPath)
    ensures
        r@ == render(
            steps_between(
                base@.map_values(|v: Vec<u8>| v@),
                source@.map_values(|v: Vec<u8>| v@),
            ),
        ),
{
    let common: usize = count_common(base, source);
    let ghost x = base@.map_values(|v: Vec<u8>| v@);
    let ghost y = source@.map_values(|v: Vec<u8>| v@);
    let ghost steps = steps_between(x, y);
    let mut out = FsPath::empty();
    let up: usize = base.len() - common;
    let mut i: usize = 0;
    let dots: [u8; 2] = [46, 46];
    assert(dots@ =~= seq![46u8, 46u8]);
    assert(steps.take(0) =~= Seq::<PathPart>::empty());
    while i < up
        invariant
            i <= up,
            up == base.len() - common,
            common <= base.len(),
            x == base@.map_values(|v: Vec<u8>| v@),
            common == common_names(x, y),
            steps == steps_between(x, y),
            dots@ == seq![46u8, 46u8],
            steps.len() >= up,
            out@ == render(steps.take(i as int)),
        decreases up - i,
    {
        assert(steps.take(i + 1).drop_last() =~= steps.take(i as int));
        assert(steps.take(i + 1).last() == PathPart::Parent);
        out = out.join_bytes(dots.as_slice());
        i += 1;
    }
    let mut j: usize = common;
    while j < source.len()
        invariant
            common <= j <= source.len(),
            up == base.len() - common,
            common <= base.len(),
            x == base@.map_values(|v: Vec<u8>| v@),
            y == source@.map_values(|v: Vec<u8>| v@),
            common == common_names(x, y),
            steps == steps_between(x, y),
            out@ == render(steps.take(up + (j - common))),
        decreases source.len() - j,
    {
        let ghost n: int = up + (j - common);
        assert(steps.take(n + 1).drop_last() =~= steps.take(n));
        assert(steps[n] == PathPart::Normal(y[j as int]));
        assert(steps.take(n + 1).last() == PathPart::Normal(source@[j as int]@));
        out = out.join_bytes(source[j].as_slice());
        j += 1;
    }
    assert(steps.take(up + (j - common)) =~= steps);
    out
}

/// The entry that names a package relative to the settings file.
pub fn managed_pi_entry(settings_path: &FsPath, source: &FsPath) -> (r: ManagedResult<Json>)
    ensures
        json_outcome(r) == relative_entry(settings_path@, source@),
{
    let Some(base) = settings_path.parent() else {
        return fail("unsafe_install_path", "Pi settings path has no parent");
    };
    match require_absolute_normal(&base, "Pi settings parent") {
        Ok(_) => {},
        Err(e) => {
            return Err(e);
        },
    }
    match require_absolute_normal(source, "Pi package source") {
        Ok(_) => {},
        Err(e) => {
            return Err(e);
        },
    }
    let base_components = normal_components(&base)?;
    let source_components = normal_components(source)?;
    let mut relative = relative_path(&base_components, &source_components);
    if relative.is_empty() {
        let mut bytes: Vec<u8> = Vec::new();
        bytes.push(46);
        assert(bytes@ =~= seq![46u8]);
        relative = FsPath::from_bytes(bytes);
    }
    let text = path_text(&relative)?;
    Ok(Json::Text(text))
}

/// The entry that names a package by its absolute path, or what stands in its
/// way.
pub open spec fn absolute_entry(source: Seq<u8>) -> Result<JsonView, Failure> {
    match absolute_normal_failure(source, "Pi package source"@) {
        Some(f) => Err(f),
        None => match path_text_failure(source) {
            Some(f) => Err(f),
            None => Ok(JsonView::Text(decode_utf8(source))),
        },
    }
}

/// The entry that names a package by its absolute path.
pub fn absolute_managed_pi_entry(source: &FsPath) -> (r: ManagedResult<Json>)
    ensures
        json_outcome(r) == absolute_entry(source@),
{
    match require_absolute_normal(source, "Pi package source") {
        Ok(_) => {},
        Err(e) => {
            return Err(e);
        },
    }
    let text = path_text(source)?;
    Ok(Json::Text(text))
}

/// The entries by which a managed package may be named, or what stands in the
/// way of naming it.
pub open spec fn allowed_entries(settings: Seq<u8>, source: Seq<u8>) -> Result<
    Seq<JsonView>,
    Failure,
> {
    match absolute_entry(source) {
        Err(f) => Err(f),
        Ok(absolute) => match relative_entry(settings, source) {
            Err(f) => Err(f),
            Ok(relative) => if absolute == relative {
                Ok(seq![absolute])
            } else {
                Ok(seq![absolute, relative])
            },
        },
    }
}

/// The entries by which a managed package may be named.
pub fn allowed_managed_pi_entries(settings_path: &FsPath, source: &FsPath) -> (r: ManagedResult<
    Vec<Json>,
>)
    ensures
        match r {
            Ok(v) => allowed_entries(settings_path@, source@) == Ok::<Seq<JsonView>, Failure>(
                json_views(v@),
            ),
            Err(e) => allowed_entries(settings_path@, source@) == Err::<Seq<JsonView>, Failure>(
                e@,
            ),
        },
{
    let absolute = absolute_managed_pi_entry(source)?;
    let relative = managed_pi_entry(settings_path, source)?;
    proof {
        law_texts_are_equal_to_themselves_alone(absolute@, relative@->Text_0);
    }
    let mut out: Vec<Json> = Vec::new();
    if absolute.same(&relative) {
        out.push(absolute);
        assert(json_views(out@) =~= seq![absolute@]);
    } else {
        out.push(absolute);
        out.push(relative);
        assert(json_views(out@) =~= seq![absolute@, relative@]);
    }
    Ok(out)
}

/// Whether an entry is one by which a managed package may be named, or what
/// stands in the way of telling.
pub open spec fn entry_allowed(entry: JsonView, settings: Seq<u8>, source: Seq<u8>) -> Result<
    bool,
    Failure,
> {
    match allowed_entries(settings, source) {
        Err(f) => Err(f),
        Ok(allowed) => Ok(allowed.contains(entry)),
    }
}

/// Whether some values hold one that is equal to a given one.
pub fn contains_json(entries: &Vec<Json>, wanted: &Json) -> (r: bool)
    ensures
        r == has_json(json_views(entries@), wanted@),
{
    let ghost views = json_views(entries@);
    let mut i: usize = 0;
    while i < entries.len()
        invariant
            i <= entries.len(),
            views == json_views(entries@),
            forall|k: int| 0 <= k < i ==> !same_json(#[trigger] views[k], wanted@),
        decreases entries.len() - i,
    {
        assert(views[i as int] == entries@[i as int]@);
        if entries[i].same(wanted) {
            return true;
        }
        i += 1;
    }
    false
}

proof fn lemma_allowed_texts(settings: Seq<u8>, source: Seq<u8>, entry: JsonView)
    ensures
        allowed_entries(settings, source) is Ok ==> has_json(
            allowed_entries(settings, source)->Ok_0,
            entry,
        ) == allowed_entries(settings, source)->Ok_0.contains(entry),
{
    if allowed_entries(settings, source) is Ok {
        let allowed = allowed_entries(settings, source)->Ok_0;
        assert forall|i: int| 0 <= i < allowed.len() implies same_json(
            #[trigger] allowed[i],
            entry,
        ) == (allowed[i] == entry) by {
            law_texts_are_equal_to_themselves_alone(entry, allowed[i]->Text_0);
        }
    }
}

/// Whether an entry is one by which a managed package may be named.
pub fn is_allowed_managed_pi_entry(entry: &Json, settings_path: &FsPath, source: &FsPath) -> (r:
    ManagedResult<bool>)
    ensures
        match r {
            Ok(v) => entry_allowed(entry@, settings_path@, source@) == Ok::<bool, Failure>(v),
            Err(e) => entry_allowed(entry@, settings_path@, source@) == Err::<bool, Failure>(e@),
        },
{
    let allowed = allowed_managed_pi_entries(settings_path, source)?;
    proof {
        lemma_allowed_texts(settings_path@, source@, entry@);
    }
    Ok(contains_json(&allowed, entry))
}

/// The path that some steps lead to from a directory, if they stay below the
/// root.
pub open spec fn walk(base: Seq<u8>, steps: Seq<PathPart>) -> Option<Seq<u8>>
    decreases steps.len(),
{
    if steps.len() == 0 {
        Some(base)
    } else {
        match walk(base, steps.drop_last()) {
            None => None,
            Some(at) => match steps.last() {
                PathPart::Normal(name) => Some(join(at, name)),
                PathPart::Parent => parent(at),
                _ => Some(at),
            },
        }
    }
}

/// The path that an entry names, or why it names none.
pub open spec fn entry_path(settings: Seq<u8>, entry: JsonView) -> Result<Seq<u8>, Failure> {
    match entry_source(entry) {
        None => Err(("pi_settings_invalid"@, "Pi entry has no source"@)),
        Some(text) => {
            let source = utf8(text);
            if is_absolute(source) {
                match absolute_normal_failure(source, "Pi package entry"@) {
                    Some(f) => Err(f),
                    None => Ok(source),
                }
            } else {
                match parent(settings) {
                    None => Err(("pi_settings_invalid"@, "Pi settings path has no parent"@)),
                    Some(base) => match walk(base, parts(source)) {
                        None => Err(
                            (
                                "pi_settings_invalid"@,
                                "relative Pi package entry escapes the filesystem root"@,
                            ),
                        ),
                        Some(at) => match absolute_normal_failure(
                            at,
                            "resolved Pi package entry"@,
                        ) {
                            Some(f) => Err(f),
                            None => Ok(at),
                        },
                    },
                }
            }
        },
    }
}

proof fn lemma_walk_stops(base: Seq<u8>, steps: Seq<PathPart>, n: int)
    requires
        0 <= n <= steps.len(),
        walk(base, steps.take(n)) is None,
    ensures
        walk(base, steps) is None,
    decreases steps.len() - n,
{
    if n == steps.len() {
        assert(steps.take(n) =~= steps);
    } else {
        assert(steps.take(n + 1).drop_last() =~= steps.take(n));
        lemma_walk_stops(base, steps, n + 1);
    }
}

/// The path that an entry names.
pub fn resolve_pi_entry_path(settings_path: &FsPath, entry: &Json) -> (r: ManagedResult<FsPath>)
    ensures
        outcome(r) == entry_path(settings_path@, entry@),
{
    let Some(text) = pi_entry_source(entry) else {
        return fail("pi_settings_invalid", "Pi entry has no source");
    };
    let source = FsPath::from_text(text.as_str());
    if path_is_absolute(source.bytes.as_slice()) {
        return require_absolute_normal(&source, "Pi package entry");
    }
    let Some(base) = settings_path.parent() else {
        return fail("pi_settings_invalid", "Pi settings path has no parent");
    };
    let steps = components(source.bytes.as_slice());
    let ghost all = part_views(steps@);
    let ghost start = base@;
    let mut resolved = base;
    let mut i: usize = 0;
    assert(all.take(0) =~= Seq::<PathPart>::empty());
    while i < steps.len()
        invariant
            i <= steps.len(),
            all == part_views(steps@),
            all == parts(utf8(text@)),
            !is_absolute(utf8(text@)),
            entry_source(entry@) == Some(text@),
            parent(settings_path@) == Some(start),
            walk(start, all.take(i as int)) == Some(resolved@),
        decreases steps.len() - i,
    {
        assert(all.take(i + 1).drop_last() =~= all.take(i as int));
        assert(all.take(i + 1).last() == steps@[i as int]@);
        match &steps[i] {
            Component::Normal(name) => {
                resolved = resolved.join_bytes(name.as_slice());
            },
            Component::Parent => {
                match resolved.parent() {
                    Some(above) => {
                        resolved = above;
                    },
                    None => {
                        proof {
                            lemma_walk_stops(start, all, i + 1);
                        }
                        return fail(
                            "pi_settings_invalid",
                            "relative Pi package entry escapes the filesystem root",
                        );
                    },
                }
            },
            _ => {},
        }
        i += 1;
    }
    assert(all.take(i as int) =~= all);
    require_absolute_normal(&resolved, "resolved Pi package entry")
}

/// An entry names a package path.
pub open spec fn entry_matches(entry: JsonView, settings: Seq<u8>, source: Seq<u8>) -> bool {
    match entry_path(settings, entry) {
        Ok(path) => same_path(path, source),
        Err(_) => false,
    }
}

/// Whether an entry names a package path.
pub fn pi_entry_matches_path(entry: &Json, settings_path: &FsPath, source: &FsPath) -> (r: bool)
    ensures
        r == entry_matches(entry@, settings_path@, source@),
{
    match resolve_pi_entry_path(settings_path, entry) {
        Ok(path) => path.same(source),
        Err(_) => false,
    }
}

/// The entries that name a package path, in order.
pub open spec fn matching(entries: Seq<JsonView>, settings: Seq<u8>, source: Seq<u8>) -> Seq<
    JsonView,
> {
    entries.filter(|entry: JsonView| entry_matches(entry, settings, source))
}

/// One more item for a filter over the items so far.
pub proof fn lemma_filter_next<T>(s: Seq<T>, p: spec_fn(T) -> bool, i: int)
    requires
        0 <= i < s.len(),
    ensures
        s.take(i + 1).filter(p) == if p(s[i]) {
            s.take(i).filter(p).push(s[i])
        } else {
            s.take(i).filter(p)
        },
{
    let t = s.take(i + 1);
    assert(t.drop_last() =~= s.take(i));
    assert(t.last() == s[i]);
    reveal(Seq::filter);
}

/// Copies of the entries that name a package path, in order.
pub fn matching_entries(entries: &Vec<Json>, settings_path: &FsPath, source: &FsPath) -> (r: Vec<
    Json,
>)
    ensures
        json_views(r@) == matching(json_views(entries@), settings_path@, source@),
{
    let ghost views = json_views(entries@);
    let ghost keep = |entry: JsonView| entry_matches(entry, settings_path@, source@);
    let mut out: Vec<Json> = Vec::new();
    let mut i: usize = 0;
    proof {
        reveal(Seq::filter);
        assert(json_views(out@) =~= views.take(0).filter(keep));
    }
    while i < entries.len()
        invariant
            i <= entries.len(),
            views == json_views(entries@),
            keep == (|entry: JsonView| entry_matches(entry, settings_path@, source@)),
            json_views(out@) == views.take(i as int).filter(keep),
        decreases entries.len() - i,
    {
        let ghost before = out@;
        proof {
            lemma_filter_next(views, keep, i as int);
        }
        if pi_entry_matches_path(&entries[i], settings_path, source) {
            out.push(entries[i].copy());
            assert(json_views(out@) =~= json_views(before).push(views[i as int]));
        }
        i += 1;
    }
    assert(views.take(i as int) =~= views);
    out
}

/// The one entry that names a managed package in an allowed way, or why there is
/// none.
pub open spec fn authenticated_entry(
    entries: Seq<JsonView>,
    settings: Seq<u8>,
    source: Seq<u8>,
) -> Result<JsonView, Failure> {
    let found = matching(entries, settings, source);
    let refused = (
        "ownership_conflict"@,
        "Pi did not persist one exact allowed managed package entry"@,
    );
    if found.len() != 1 {
        Err(refused)
    } else {
        match entry_allowed(found[0], settings, source) {
            Err(f) => Err(f),
            Ok(true) => Ok(found[0]),
            Ok(false) => Err(refused),
        }
    }
}

/// The one entry that names a managed package in an allowed way.
pub fn authenticated_managed_pi_entry(
    entries: &Vec<Json>,
    settings_path: &FsPath,
    source: &FsPath,
) -> (r: ManagedResult<Json>)
    ensures
        json_outcome(r) == authenticated_entry(json_views(entries@), settings_path@, source@),
{
    let found = matching_entries(entries, settings_path, source);
    assert(json_views(found@).len() == found@.len());
    if found.len() == 1 {
        assert(json_views(found@)[0] == found@[0]@);
        if is_allowed_managed_pi_entry(&found[0], settings_path, source)? {
            return Ok(found[0].copy());
        }
    }
    fail("ownership_conflict", "Pi did not persist one exact allowed managed package entry")
}

/// The compact forms of some values.
pub open spec fn encodings(entries: Seq<JsonView>) -> Seq<Seq<u8>> {
    entries.map_values(|entry: JsonView| json_encoded(entry))
}

/// The same values in any order, each as often; values count by their compact
/// form.
pub open spec fn same_entries(left: Seq<JsonView>, right: Seq<JsonView>) -> bool {
    encodings(left).to_multiset() == encodings(right).to_multiset()
}

fn encode_all(entries: &Vec<Json>) -> (r: Vec<Vec<u8>>)
    ensures
        r@.map_values(|v: Vec<u8>| v@) == encodings(json_views(entries@)),
{
    let mut out: Vec<Vec<u8>> = Vec::new();
    let mut i: usize = 0;
    while i < entries.len()
        invariant
            i <= entries.len(),
            out@.len() == i,
            forall|k: int| 0 <= k < i ==> (#[trigger] out@[k])@ == json_encoded(entries@[k]@),
        decreases entries.len() - i,
    {
        out.push(encode_json(&entries[i]));
        i += 1;
    }
    assert(out@.map_values(|v: Vec<u8>| v@) =~= encodings(json_views(entries@)));
    out
}

proof fn lemma_take_count(s: Seq<Seq<u8>>, i: int)
    requires
        0 <= i < s.len(),
    ensures
        s.take(i + 1).to_multiset() == s.take(i).to_multiset().insert(s[i]),
        s.to_multiset().count(s[i]) >= s.take(i + 1).to_multiset().count(s[i]),
{
    broadcast use vstd::seq_lib::group_to_multiset_ensures;

    assert(s.take(i + 1) =~= s.take(i).push(s[i]));
    assert(s =~= s.take(i + 1) + s.skip(i + 1));
    vstd::seq_lib::lemma_multiset_commutative(s.take(i + 1), s.skip(i + 1));
}

/// Whether two lists of byte strings hold the same ones, each as often.
fn same_byte_strings(left: &Vec<Vec<u8>>, right: Vec<Vec<u8>>) -> (r: bool)
    ensures
        r == (left@.map_values(|v: Vec<u8>| v@).to_multiset() == right@.map_values(
            |v: Vec<u8>| v@,
        ).to_multiset()),
{
    broadcast use vstd::seq_lib::group_to_multiset_ensures;

    let ghost x = left@.map_values(|v: Vec<u8>| v@);
    let ghost y = right@.map_values(|v: Vec<u8>| v@);
    let mut rest = right;
    let mut i: usize = 0;
    assert(x.take(0) =~= Seq::<Seq<u8>>::empty());
    assert(x.take(0).to_multiset().add(y.to_multiset()) =~= y.to_multiset());
    while i < left.len()
        invariant
            i <= left.len(),
            x == left@.map_values(|v: Vec<u8>| v@),
            y == right@.map_values(|v: Vec<u8>| v@),
            x.take(i as int).to_multiset().add(
                rest@.map_values(|v: Vec<u8>| v@).to_multiset(),
            ) == y.to_multiset(),
        decreases left.len() - i,
    {
        let ghost z = rest@.map_values(|v: Vec<u8>| v@);
        let mut j: usize = 0;
        while j < rest.len() && !bytes_eq(rest[j].as_slice(), left[i].as_slice())
            invariant
                j <= rest.len(),
                i < left.len(),
                z == rest@.map_values(|v: Vec<u8>| v@),
                forall|k: int| 0 <= k < j ==> #[trigger] z[k] != left@[i as int]@,
            decreases rest.len() - j,
        {
            assert(z[j as int] == rest@[j as int]@);
            j += 1;
        }
        proof {
            lemma_take_count(x, i as int);
            assert(x[i as int] == left@[i as int]@);
        }
        if j == rest.len() {
            proof {
                assert(!z.contains(x[i as int]));
                vstd::seq_lib::to_multiset_contains(z, x[i as int]);
                assert(z.to_multiset().count(x[i as int]) == 0);
            }
            return false;
        }
        proof {
            assert(z[j as int] == x[i as int]);
            vstd::seq_lib::to_multiset_remove(z, j as int);
        }
        let _ = rest.remove(j);
        proof {
            let after = rest@.map_values(|v: Vec<u8>| v@);
            assert(after =~= z.remove(j as int));
            assert(z.to_multiset().count(x[i as int]) > 0) by {
                assert(z.contains(z[j as int]));
                vstd::seq_lib::to_multiset_contains(z, x[i as int]);
            }
            assert(x.take(i + 1).to_multiset().add(after.to_multiset()) =~= x.take(
                i as int,
            ).to_multiset().add(z.to_multiset()));
        }
        i += 1;
    }
    proof {
        assert(x.take(i as int) =~= x);
        let z = rest@.map_values(|v: Vec<u8>| v@);
        if rest.len() == 0 {
            assert(z =~= Seq::<Seq<u8>>::empty());
            assert(x.to_multiset().add(z.to_multiset()) =~= x.to_multiset());
        } else {
            assert(z.contains(z[0]));
            vstd::seq_lib::to_multiset_contains(z, z[0]);
            assert(x.to_multiset().add(z.to_multiset()).count(z[0]) > x.to_multiset().count(z[0]));
        }
    }
    rest.len() == 0
}

/// Whether two lists hold the same entries, each as often, in any order.
pub fn same_json_multiset(left: &Vec<Json>, right: &Vec<Json>) -> (r: bool)
    ensures
        r == same_entries(json_views(left@), json_views(right@)),
{
    let a = encode_all(left);
    let b = encode_all(right);
    same_byte_strings(&a, b)
}

/// The position of the first equal value, or the number of values.
pub open spec fn json_at(entries: Seq<JsonView>, wanted: JsonView) -> int
    decreases entries.len(),
{
    if entries.len() == 0 || same_json(entries[0], wanted) {
        0
    } else {
        1 + json_at(entries.skip(1), wanted)
    }
}

/// A list without the first value equal to one.
pub open spec fn without_first(entries: Seq<JsonView>, dropped: JsonView) -> Seq<JsonView> {
    if has_json(entries, dropped) {
        entries.remove(json_at(entries, dropped))
    } else {
        entries
    }
}

/// A list with a value at its end, unless it holds an equal one.
pub open spec fn with_entry(entries: Seq<JsonView>, added: JsonView) -> Seq<JsonView> {
    if has_json(entries, added) {
        entries
    } else {
        entries.push(added)
    }
}

/// The entries after an installation: the owned entry of before is gone, unless
/// it is the new one, and the new one is there.
pub open spec fn post_entries(
    prior: Seq<JsonView>,
    prior_owned: Option<JsonView>,
    new_entry: JsonView,
) -> Seq<JsonView> {
    match prior_owned {
        Some(owned) if !same_json(owned, new_entry) => with_entry(without_first(prior, owned), new_entry),
        _ => with_entry(prior, new_entry),
    }
}

/// The value in an optional value.
pub open spec fn opt_json(v: Option<Json>) -> Option<JsonView> {
    match v {
        Some(j) => Some(j@),
        None => None,
    }
}

/// A copy of some values.
pub fn copy_entries(entries: &Vec<Json>) -> (r: Vec<Json>)
    ensures
        json_views(r@) == json_views(entries@),
{
    let mut out: Vec<Json> = Vec::new();
    let mut i: usize = 0;
    while i < entries.len()
        invariant
            i <= entries.len(),
            out@.len() == i,
            forall|k: int| 0 <= k < i ==> (#[trigger] out@[k])@ == entries@[k]@,
        decreases entries.len() - i,
    {
        out.push(entries[i].copy());
        i += 1;
    }
    assert(json_views(out@) =~= json_views(entries@));
    out
}

/// Some values with another one at their end, unless they hold an equal one.
pub fn entries_with(entries: &Vec<Json>, added: &Json) -> (r: Vec<Json>)
    ensures
        json_views(r@) == with_entry(json_views(entries@), added@),
{
    let mut out = copy_entries(entries);
    if !contains_json(&out, added) {
        let ghost before = out@;
        out.push(added.copy());
        assert(json_views(out@) =~= json_views(before).push(added@));
    }
    out
}

/// Some values without the first that equals one.
fn entries_without(entries: &Vec<Json>, dropped: &Json) -> (r: Vec<Json>)
    ensures
        json_views(r@) == without_first(json_views(entries@), dropped@),
{
    let mut out = copy_entries(entries);
    let ghost views = json_views(entries@);
    let mut i: usize = 0;
    assert(views.skip(0) =~= views);
    while i < out.len()
        invariant
            i <= out.len(),
            views == json_views(out@),
            views == json_views(entries@),
            json_at(views, dropped@) == i + json_at(views.skip(i as int), dropped@),
            forall|k: int| 0 <= k < i ==> !same_json(#[trigger] views[k], dropped@),
        decreases out.len() - i,
    {
        assert(views[i as int] == out@[i as int]@);
        assert(views.skip(i as int)[0] == views[i as int]);
        assert(views.skip(i as int).skip(1) =~= views.skip(i + 1));
        if out[i].same(dropped) {
            let ghost before = out@;
            let _ = out.remove(i);
            assert(json_views(out@) =~= views.remove(i as int));
            assert(has_json(views, dropped@));
            return out;
        }
        i += 1;
    }
    assert(!has_json(views, dropped@));
    out
}

/// The entries that an installation leaves behind.
pub fn expected_post_pi_entries(
    prior_entries: &Vec<Json>,
    prior_owned: &Option<Json>,
    new_entry: &Json,
) -> (r: Vec<Json>)
    ensures
        json_views(r@) == post_entries(
            json_views(prior_entries@),
            opt_json(*prior_owned),
            new_entry@,
        ),
{
    match prior_owned {
        Some(owned) => {
            if !owned.same(new_entry) {
                let kept = entries_without(prior_entries, owned);
                return entries_with(&kept, new_entry);
            }
        },
        None => {},
    }
    entries_with(prior_entries, new_entry)
}

/// The first entry of a list that names no source, or one with a line break.
pub open spec fn sources_failure(
    entries: Seq<JsonView>,
    code: Seq<char>,
    missing: Seq<char>,
    broken: Seq<char>,
) -> Option<Failure>
    decreases entries.len(),
{
    if entries.len() == 0 {
        None
    } else {
        match sources_failure(entries.drop_last(), code, missing, broken) {
            Some(f) => Some(f),
            None => match entry_source(entries.last()) {
                None => Some((code, missing)),
                Some(source) => if one_line(source) {
                    None
                } else {
                    Some((code, broken))
                },
            },
        }
    }
}

proof fn lemma_sources_failure_stays(
    entries: Seq<JsonView>,
    code: Seq<char>,
    missing: Seq<char>,
    broken: Seq<char>,
    n: int,
)
    requires
        0 <= n <= entries.len(),
        sources_failure(entries.take(n), code, missing, broken) is Some,
    ensures
        sources_failure(entries, code, missing, broken) == sources_failure(
            entries.take(n),
            code,
            missing,
            broken,
        ),
    decreases entries.len() - n,
{
    if n == entries.len() {
        assert(entries.take(n) =~= entries);
    } else {
        assert(entries.take(n + 1).drop_last() =~= entries.take(n));
        lemma_sources_failure_stays(entries, code, missing, broken, n + 1);
    }
}

/// Checks that every entry of a list names a source on one line.
pub fn check_sources(
    entries: &Vec<Json>,
    code: &'static str,
    missing: &str,
    broken: &str,
) -> (r: ManagedResult<()>)
    ensures
        failure(r) == sources_failure(json_views(entries@), code@, missing@, broken@),
{
    let ghost views = json_views(entries@);
    let mut i: usize = 0;
    while i < entries.len()
        invariant
            i <= entries.len(),
            views == json_views(entries@),
            sources_failure(views.take(i as int), code@, missing@, broken@) is None,
        decreases entries.len() - i,
    {
        assert(views.take(i + 1).drop_last() =~= views.take(i as int));
        assert(views.take(i + 1).last() == entries@[i as int]@);
        match pi_entry_source(&entries[i]) {
            None => {
                proof {
                    lemma_sources_failure_stays(views, code@, missing@, broken@, i + 1);
                }
                return fail(code, missing);
            },
            Some(source) => {
                if !is_one_line(source.as_str()) {
                    proof {
                        lemma_sources_failure_stays(views, code@, missing@, broken@, i + 1);
                    }
                    return fail(code, broken);
                }
            },
        }
        i += 1;
    }
    assert(views.take(i as int) =~= views);
    Ok(())
}

/// The package entries in a settings document.
pub open spec fn packages(settings: JsonView) -> Seq<JsonView> {
    match json_get(settings, "packages"@) {
        Some(JsonView::Array(entries)) => entries,
        _ => Seq::empty(),
    }
}

/// What is wrong with the package entries of a settings document.
pub open spec fn settings_failure(settings: JsonView) -> Option<Failure> {
    sources_failure(
        packages(settings),
        "pi_settings_invalid"@,
        "Pi package entry has no valid source"@,
        "Pi package source contains a line break"@,
    )
}

/// The settings of Pi: the file they are in and the package entries.
#[derive(Debug)]
pub struct PiSettings {
    pub path: FsPath,
    pub entries: Vec<Json>,
}

/// The package entries of a settings document, each with a usable source.
pub fn settings_packages(settings: &Json) -> (r: ManagedResult<Vec<Json>>)
    ensures
        failure(r) == settings_failure(settings@),
        r is Ok ==> json_views(r->Ok_0@) == packages(settings@),
{
    let entries = match settings.get("packages") {
        Some(Json::Array(entries)) => {
            let copied = copy_entries(entries);
            assert(json_views(entries@) =~= Json::Array(*entries)@->Array_0);
            copied
        },
        _ => {
            let none: Vec<Json> = Vec::new();
            assert(json_views(none@) =~= Seq::<JsonView>::empty());
            none
        },
    };
    check_sources(
        &entries,
        "pi_settings_invalid",
        "Pi package entry has no valid source",
        "Pi package source contains a line break",
    )?;
    Ok(entries)
}

/// The settings name a managed package more than once, or otherwise than the
/// record does.
pub open spec fn entry_conflict(
    entries: Seq<JsonView>,
    settings: Seq<u8>,
    source: Seq<u8>,
    recorded: JsonView,
) -> bool {
    let found = matching(entries, settings, source);
    found.len() > 1 || (found.len() == 1 && !same_json(found[0], recorded))
}

/// Whether the settings name a managed package more than once, or otherwise than
/// the record does; and whether they name it at all.
pub fn inspect_matching(
    settings: &PiSettings,
    source: &FsPath,
    recorded: &Json,
) -> (r: (bool, bool))
    ensures
        r.0 == entry_conflict(
            json_views(settings.entries@),
            settings.path@,
            source@,
            recorded@,
        ),
        r.1 == (matching(json_views(settings.entries@), settings.path@, source@).len() > 0),
{
    let found = matching_entries(&settings.entries, &settings.path, source);
    assert(json_views(found@).len() == found@.len());
    if found.len() == 0 {
        return (false, false);
    }
    assert(json_views(found@)[0] == found@[0]@);
    (found.len() > 1 || !found[0].same(recorded), true)
}

/// What speaks against the settings of an installation that is in use.
pub open spec fn ready_pi_failure(
    record: RecordView,
    path: Seq<u8>,
    entries: Seq<JsonView>,
) -> Option<Failure> {
    if !same_path(path, record.pi_config_path) {
        Some(("ownership_conflict"@, "Pi settings path differs from the record"@))
    } else if entry_conflict(entries, path, record.pi_package_source, record.pi_package_entry) {
        Some(("ownership_conflict"@, "Pi contains a conflicting same-source entry"@))
    } else if record.state == InstallState::Ready && matching(
        entries,
        path,
        record.pi_package_source,
    ).len() == 0 {
        Some(("ownership_conflict"@, "Ready state requires the exact Pi entry"@))
    } else {
        None
    }
}

/// Checks the settings of an installation that is in use.
pub fn validate_ready_pi(record: &OwnershipRecord, settings: &PiSettings) -> (r: ManagedResult<()>)
    ensures
        failure(r) == ready_pi_failure(record@, settings.path@, json_views(settings.entries@)),
{
    if !settings.path.same(&record.pi_config_path) {
        return fail("ownership_conflict", "Pi settings path differs from the record");
    }
    let (conflict, present) = inspect_matching(
        settings,
        &record.pi_package_source,
        &record.pi_package_entry,
    );
    if conflict {
        return fail("ownership_conflict", "Pi contains a conflicting same-source entry");
    }
    if record.state == InstallState::Ready && !present {
        return fail("ownership_conflict", "Ready state requires the exact Pi entry");
    }
    Ok(())
}

/// What speaks against settings that may hold the recorded entry, but no other
/// for the same package.
pub open spec fn present_pi_failure(
    record: RecordView,
    path: Seq<u8>,
    entries: Seq<JsonView>,
) -> Option<Failure> {
    if entry_conflict(entries, path, record.pi_package_source, record.pi_package_entry) {
        Some(
            (
                "ownership_conflict"@,
                "Pi contains a same-source entry that differs from the exact recorded entry"@,
            ),
        )
    } else {
        None
    }
}

/// Checks that the settings hold no other entry for the recorded package.
pub fn validate_pi_entry_if_present(record: &OwnershipRecord, settings: &PiSettings) -> (r:
    ManagedResult<()>)
    ensures
        failure(r) == present_pi_failure(record@, settings.path@, json_views(settings.entries@)),
{
    let (conflict, _) = inspect_matching(
        settings,
        &record.pi_package_source,
        &record.pi_package_entry,
    );
    if conflict {
        return fail(
            "ownership_conflict",
            "Pi contains a same-source entry that differs from the exact recorded entry",
        );
    }
    Ok(())
}

/// The package that an installation from a source checkout used.
pub open spec fn legacy_package(plugin_root: Seq<u8>) -> Seq<u8> {
    let base = match parent(plugin_root) {
        Some(above) => match parent(above) {
            Some(top) => top,
            None => plugin_root,
        },
        None => plugin_root,
    };
    child(base, "integrations/pi"@)
}

/// The package that an installation from a source checkout used.
pub fn legacy_source(plugin_root: &FsPath) -> (r: FsPath)
    ensures
        r@ == legacy_package(plugin_root@),
{
    match plugin_root.parent() {
        Some(above) => match above.parent() {
            Some(top) => top.join("integrations/pi"),
            None => plugin_root.join("integrations/pi"),
        },
        None => plugin_root.join("integrations/pi"),
    }
}

/// The entries that name a source text, in order.
pub open spec fn naming(entries: Seq<JsonView>, source: Seq<char>) -> Seq<JsonView> {
    entries.filter(|entry: JsonView| entry_source(entry) == Some(source))
}

/// Copies of the entries that name a source text, in order.
pub fn entries_naming(entries: &Vec<Json>, source: &str) -> (r: Vec<Json>)
    ensures
        json_views(r@) == naming(json_views(entries@), source@),
{
    let ghost views = json_views(entries@);
    let ghost keep = |entry: JsonView| entry_source(entry) == Some(source@);
    let mut out: Vec<Json> = Vec::new();
    let mut i: usize = 0;
    proof {
        reveal(Seq::filter);
        assert(json_views(out@) =~= views.take(0).filter(keep));
    }
    while i < entries.len()
        invariant
            i <= entries.len(),
            views == json_views(entries@),
            keep == (|entry: JsonView| entry_source(entry) == Some(source@)),
            json_views(out@) == views.take(i as int).filter(keep),
        decreases entries.len() - i,
    {
        let ghost before = out@;
        proof {
            lemma_filter_next(views, keep, i as int);
        }
        let named = match pi_entry_source(&entries[i]) {
            Some(found) => text_eq(found.as_str(), source),
            None => false,
        };
        if named {
            out.push(entries[i].copy());
            assert(json_views(out@) =~= json_views(before).push(views[i as int]));
        }
        i += 1;
    }
    assert(views.take(i as int) =~= views);
    out
}

/// One entry names a source text, and it is that text.
pub open spec fn sole_canonical(entries: Seq<JsonView>, source: Seq<char>) -> bool {
    naming(entries, source).len() == 1 && naming(entries, source)[0] == JsonView::Text(source)
}

/// Whether one entry names a source text and is that text; and how many name it.
fn inspect_naming(entries: &Vec<Json>, source: &str) -> (r: (bool, usize))
    ensures
        r.0 == sole_canonical(json_views(entries@), source@),
        r.1 == naming(json_views(entries@), source@).len(),
{
    let found = entries_naming(entries, source);
    assert(json_views(found@).len() == found@.len());
    if found.len() != 1 {
        return (false, found.len());
    }
    assert(json_views(found@)[0] == found@[0]@);
    proof {
        law_texts_are_equal_to_themselves_alone(found@[0]@, source@);
    }
    (found[0].same(&Json::Text(source.to_owned())), 1)
}

/// The entry of a first installation that counts as owned: the canonical entry of
/// a source checkout whose package has the digest to be installed.
pub open spec fn first_owned_entry(
    entries: Seq<JsonView>,
    plugin_root: Seq<u8>,
    legacy_digest: Option<Seq<char>>,
    package_digest: Seq<char>,
) -> Result<Option<JsonView>, Failure> {
    let legacy = legacy_package(plugin_root);
    match path_text_failure(legacy) {
        Some(f) => Err(f),
        None => if sole_canonical(entries, decode_utf8(legacy)) && legacy_digest == Some(
            package_digest,
        ) {
            Ok(Some(JsonView::Text(decode_utf8(legacy))))
        } else {
            Ok(None)
        },
    }
}

/// Finds the entry of a first installation that counts as owned. The digest of
/// the source checkout's package is absent where it could not be taken.
pub fn first_install_owned_entry(
    entries: &Vec<Json>,
    plugin_root: &FsPath,
    legacy_digest: &Option<String>,
    package_digest: &str,
) -> (r: ManagedResult<Option<Json>>)
    ensures
        match r {
            Ok(v) => first_owned_entry(
                json_views(entries@),
                plugin_root@,
                crate::record::opt_text(*legacy_digest),
                package_digest@,
            ) == Ok::<Option<JsonView>, Failure>(opt_json(v)),
            Err(e) => first_owned_entry(
                json_views(entries@),
                plugin_root@,
                crate::record::opt_text(*legacy_digest),
                package_digest@,
            ) == Err::<Option<JsonView>, Failure>(e@),
        },
{
    let legacy = legacy_source(plugin_root);
    let text = path_text(&legacy)?;
    let (sole, _) = inspect_naming(entries, text.as_str());
    let digest_matches = match legacy_digest {
        Some(digest) => text_eq(digest.as_str(), package_digest),
        None => false,
    };
    if sole && digest_matches {
        Ok(Some(Json::Text(text)))
    } else {
        Ok(None)
    }
}

/// The package of a source checkout that a first installation is to replace, or
/// why it cannot.
pub open spec fn legacy_replacement(
    entries: Seq<JsonView>,
    old_source: Option<Seq<u8>>,
    plugin_root: Seq<u8>,
) -> Result<bool, Failure> {
    let legacy = legacy_package(plugin_root);
    match path_text_failure(legacy) {
        Some(f) => Err(f),
        None => if old_source is Some || naming(entries, decode_utf8(legacy)).len() == 0 {
            Ok(false)
        } else if !sole_canonical(entries, decode_utf8(legacy)) {
            Err(
                (
                    "legacy_package_conflict"@,
                    "legacy Pi entry is not the exact canonical string entry"@,
                ),
            )
        } else {
            Ok(true)
        },
    }
}

/// The path in an optional path.
pub open spec fn opt_path(p: Option<FsPath>) -> Option<Seq<u8>> {
    match p {
        Some(p) => Some(p@),
        None => None,
    }
}

/// Whether a first installation is to replace the package of a source checkout.
pub fn plan_legacy_replacement(
    entries: &Vec<Json>,
    old_source: &Option<FsPath>,
    plugin_root: &FsPath,
) -> (r: ManagedResult<bool>)
    ensures
        match r {
            Ok(v) => legacy_replacement(json_views(entries@), opt_path(*old_source), plugin_root@)
                == Ok::<bool, Failure>(v),
            Err(e) => legacy_replacement(json_views(entries@), opt_path(*old_source), plugin_root@)
                == Err::<bool, Failure>(e@),
        },
{
    let legacy = legacy_source(plugin_root);
    let text = path_text(&legacy)?;
    let (sole, count) = inspect_naming(entries, text.as_str());
    if old_source.is_some() || count == 0 {
        return Ok(false);
    }
    if !sole {
        return fail(
            "legacy_package_conflict",
            "legacy Pi entry is not the exact canonical string entry",
        );
    }
    Ok(true)
}

/// Why the package of a checkout is not replaced.
pub open spec fn legacy_mismatch(legacy: Seq<char>, bundle: Seq<char>, package: Seq<char>) -> Option<Failure> {
    if legacy != package || bundle != package {
        Some(
            (
                "legacy_package_conflict"@,
                "the legacy Pi package is not the exact approved asset"@,
            ),
        )
    } else {
        None
    }
}

/// Checks that the package of a source checkout is the one to be installed.
pub fn check_legacy_digests(legacy_digest: &str, bundle_digest: &str, package_digest: &str) -> (r:
    ManagedResult<()>)
    ensures
        failure(r) == legacy_mismatch(legacy_digest@, bundle_digest@, package_digest@),
{
    if !text_eq(legacy_digest, package_digest) || !text_eq(bundle_digest, package_digest) {
        return fail(
            "legacy_package_conflict",
            "the legacy Pi package is not the exact approved asset",
        );
    }
    Ok(())
}

/// The old package to be removed, where the new one has another text.
pub open spec fn replaced_source(new_source: Seq<u8>, old_source: Option<Seq<u8>>) -> Option<
    Seq<u8>,
> {
    match old_source {
        Some(old) if path_text_failure(old) is Some || old != new_source => Some(old),
        _ => None,
    }
}

/// Whether Pi is to install the new package, or why it may not.
pub open spec fn install_needed(
    entries: Seq<JsonView>,
    config: Seq<u8>,
    new_source: Seq<u8>,
    old_source: Option<Seq<u8>>,
) -> Result<bool, Failure> {
    let found = matching(entries, config, new_source);
    if (old_source is None || !same_path(old_source->0, new_source)) && found.len() > 0 {
        Err(
            (
                "ownership_conflict"@,
                "the managed Pi source already exists without a durable ownership record"@,
            ),
        )
    } else if found.len() > 1 {
        Err(("ownership_conflict"@, "Pi has duplicate entries for the managed source"@))
    } else {
        Ok(found.len() == 0)
    }
}

/// Whether Pi is to install the new package.
pub fn plan_pi_install(
    settings: &PiSettings,
    new_source: &FsPath,
    old_source: &Option<FsPath>,
) -> (r: ManagedResult<bool>)
    ensures
        match r {
            Ok(v) => install_needed(
                json_views(settings.entries@),
                settings.path@,
                new_source@,
                opt_path(*old_source),
            ) == Ok::<bool, Failure>(v),
            Err(e) => install_needed(
                json_views(settings.entries@),
                settings.path@,
                new_source@,
                opt_path(*old_source),
            ) == Err::<bool, Failure>(e@),
        },
{
    let found = matching_entries(&settings.entries, &settings.path, new_source);
    assert(json_views(found@).len() == found@.len());
    let owned_before = match old_source {
        Some(old) => old.same(new_source),
        None => false,
    };
    if !owned_before && found.len() > 0 {
        return fail(
            "ownership_conflict",
            "the managed Pi source already exists without a durable ownership record",
        );
    }
    if found.len() > 1 {
        return fail("ownership_conflict", "Pi has duplicate entries for the managed source");
    }
    Ok(found.len() == 0)
}

/// The old package that Pi is to remove once the new one is in: the one that is
/// replaced, where the settings name it.
pub open spec fn removal_after_install(
    entries: Seq<JsonView>,
    config: Seq<u8>,
    replaced: Option<Seq<u8>>,
) -> Option<Seq<u8>> {
    match replaced {
        Some(old) if matching(entries, config, old).len() > 0 => Some(old),
        _ => None,
    }
}

/// Finds the old package that Pi is to remove once the new one is in.
pub fn plan_pi_removal(
    settings: &PiSettings,
    new_source: &FsPath,
    old_source: &Option<FsPath>,
    legacy: bool,
    plugin_root: &FsPath,
) -> (r: Option<FsPath>)
    ensures
        opt_path(r) == removal_after_install(
            json_views(settings.entries@),
            settings.path@,
            if legacy {
                Some(legacy_package(plugin_root@))
            } else {
                replaced_source(new_source@, opt_path(*old_source))
            },
        ),
{
    let replaced = if legacy {
        Some(legacy_source(plugin_root))
    } else {
        match old_source {
            Some(old) => {
                let kept = path_text(old).is_ok() && bytes_eq(
                    old.bytes.as_slice(),
                    new_source.bytes.as_slice(),
                );
                if kept {
                    None
                } else {
                    Some(old.copy())
                }
            },
            None => None,
        }
    };
    match replaced {
        Some(old) => {
            let found = matching_entries(&settings.entries, &settings.path, &old);
            assert(json_views(found@).len() == found@.len());
            if found.len() > 0 {
                Some(old)
            } else {
                None
            }
        },
        None => None,
    }
}

/// An absolute entry leads back to the package that it was made for.
pub proof fn law_absolute_entry_names_its_package(settings: Seq<u8>, source: Seq<u8>)
    requires
        absolute_entry(source) is Ok,
    ensures
        entry_path(settings, absolute_entry(source)->Ok_0) == Ok::<Seq<u8>, Failure>(source),
        entry_matches(absolute_entry(source)->Ok_0, settings, source),
{
    decode_utf8_encode_utf8(source);
    let text = decode_utf8(source);
    assert(utf8(text) == source);
    assert(text.len() > 0) by {
        if text.len() == 0 {
            assert(utf8(text).len() == 0);
        }
    }
    assert(entry_source(JsonView::Text(text)) == Some(text));
}

/// The names of a path below the root, as components.
pub open spec fn below_root(names: Seq<Seq<u8>>) -> Seq<PathPart> {
    seq![PathPart::Root] + names.map_values(|name: Seq<u8>| PathPart::Normal(name))
}

proof fn lemma_common_range(a: Seq<Seq<u8>>, b: Seq<Seq<u8>>)
    ensures
        0 <= common_names(a, b) <= a.len(),
        common_names(a, b) <= b.len(),
        a.take(common_names(a, b)) == b.take(common_names(a, b)),
    decreases a.len(),
{
    if a.len() == 0 || b.len() == 0 || a[0] != b[0] {
        assert(a.take(0) =~= b.take(0));
    } else {
        lemma_common_range(a.skip(1), b.skip(1));
        let n = common_names(a.skip(1), b.skip(1));
        assert(a.take(n + 1) =~= seq![a[0]] + a.skip(1).take(n));
        assert(b.take(n + 1) =~= seq![b[0]] + b.skip(1).take(n));
    }
}

proof fn lemma_normal_parts(p: Seq<u8>)
    requires
        normal_components_failure(p) is None,
    ensures
        is_absolute(p),
        parts(p) == below_root(normal_names(p)),
        forall|i: int|
            0 <= i < normal_names(p).len() ==> ordinary_name(#[trigger] normal_names(p)[i]),
{
    let names = normal_names(p);
    assert(parts(p)[0] == PathPart::Root);
    assert(parts(p).len() >= 1);
    assert forall|i: int| 0 <= i < names.len() implies parts(p)[i + 1] == PathPart::Normal(
        #[trigger] names[i],
    ) && ordinary_name(names[i]) by {
        assert(parts(p)[i + 1] is Normal);
        law_components_have_ordinary_names(p, i + 1);
    }
    assert(parts(p) =~= below_root(names)) by {
        assert forall|i: int| 0 <= i < parts(p).len() implies parts(p)[i] == below_root(names)[i] by {
            if i > 0 {
                assert(parts(p)[i] == PathPart::Normal(names[i - 1]));
            }
        }
    }
}

proof fn lemma_walk_up(base: Seq<u8>, names: Seq<Seq<u8>>, n: nat)
    requires
        is_absolute(base),
        parts(base) == below_root(names),
        n <= names.len(),
    ensures
        ({
            let at = walk(base, Seq::new(n, |i: int| PathPart::Parent));
            &&& at is Some
            &&& is_absolute(at->0)
            &&& parts(at->0) == below_root(names.take(names.len() - n))
        }),
    decreases n,
{
    let steps = Seq::new(n, |i: int| PathPart::Parent);
    if n == 0 {
        assert(names.take(names.len() as int) =~= names);
    } else {
        let fewer = Seq::new((n - 1) as nat, |i: int| PathPart::Parent);
        assert(steps.drop_last() =~= fewer);
        lemma_walk_up(base, names, (n - 1) as nat);
        let at = walk(base, fewer)->0;
        law_parent_drops_the_last_component(at);
        assert(below_root(names.take(names.len() - n + 1)).drop_last() =~= below_root(
            names.take(names.len() - n),
        ));
    }
}

proof fn lemma_walk_down(
    base: Seq<u8>,
    steps: Seq<PathPart>,
    reached: Seq<u8>,
    above: Seq<Seq<u8>>,
    names: Seq<Seq<u8>>,
)
    requires
        walk(base, steps) == Some(reached),
        is_absolute(reached),
        parts(reached) == below_root(above),
        forall|i: int| 0 <= i < names.len() ==> ordinary_name(#[trigger] names[i]),
    ensures
        ({
            let at = walk(
                base,
                steps + names.map_values(|name: Seq<u8>| PathPart::Normal(name)),
            );
            &&& at is Some
            &&& is_absolute(at->0)
            &&& parts(at->0) == below_root(above + names)
        }),
    decreases names.len(),
{
    let all = steps + names.map_values(|name: Seq<u8>| PathPart::Normal(name));
    if names.len() == 0 {
        assert(all =~= steps);
        assert(above + names =~= above);
    } else {
        let front = names.drop_last();
        assert forall|i: int| 0 <= i < front.len() implies ordinary_name(#[trigger] front[i]) by {
            assert(front[i] == names[i]);
        }
        lemma_walk_down(base, steps, reached, above, front);
        assert(all.drop_last() =~= steps + front.map_values(
            |name: Seq<u8>| PathPart::Normal(name),
        ));
        let at = walk(base, all.drop_last())->0;
        assert(ordinary_name(names[names.len() - 1]));
        law_joining_a_name_appends_it(at, names.last());
        assert(below_root(above + names) =~= below_root(above + front).push(
            PathPart::Normal(names.last()),
        ));
    }
}

/// The steps of a relative entry can be read back from its text, which is relative.
pub proof fn lemma_relative_text(settings: Seq<u8>, source: Seq<u8>)
    requires
        relative_entry(settings, source) is Ok,
    ensures
        ({
            let base = parent(settings)->0;
            let relative = relative_bytes(base, source);
            let steps = steps_between(normal_names(base), normal_names(source));
            &&& relative_entry(settings, source)->Ok_0 == JsonView::Text(decode_utf8(relative))
            &&& utf8(decode_utf8(relative)) == relative
            &&& decode_utf8(relative).len() > 0
            &&& !is_absolute(relative)
            &&& parts(render(steps)) == steps
        }),
{
    let base = parent(settings)->0;
    let a = normal_names(base);
    let b = normal_names(source);
    lemma_normal_parts(source);
    lemma_common_range(a, b);
    let common = common_names(a, b);
    let ups = Seq::new((a.len() - common) as nat, |i: int| PathPart::Parent);
    let rest = b.skip(common);
    let steps = steps_between(a, b);
    assert forall|i: int| 0 <= i < steps.len() implies step_ok(#[trigger] steps[i]) by {
        if i >= ups.len() {
            assert(steps[i] == PathPart::Normal(rest[i - ups.len()]));
            assert(rest[i - ups.len()] == b[i - ups.len() + common]);
        }
    }
    law_rendered_components_read_back(steps);
    let relative = relative_bytes(base, source);
    decode_utf8_encode_utf8(relative);
    if decode_utf8(relative).len() == 0 {
        assert(utf8(decode_utf8(relative)).len() == 0);
    }
}

/// A relative entry leads back to the package that it was made for.
pub proof fn law_managed_entry_names_its_package(settings: Seq<u8>, source: Seq<u8>)
    requires
        relative_entry(settings, source) is Ok,
    ensures
        entry_matches(relative_entry(settings, source)->Ok_0, settings, source),
{
    let base = parent(settings)->0;
    let a = normal_names(base);
    let b = normal_names(source);
    lemma_normal_parts(base);
    lemma_normal_parts(source);
    lemma_common_range(a, b);
    lemma_relative_text(settings, source);
    let common = common_names(a, b);
    let ups = Seq::new((a.len() - common) as nat, |i: int| PathPart::Parent);
    let rest = b.skip(common);
    let steps = steps_between(a, b);
    assert forall|i: int| 0 <= i < rest.len() implies ordinary_name(#[trigger] rest[i]) by {
        assert(rest[i] == b[i + common]);
    }
    let relative = relative_bytes(base, source);
    let text = decode_utf8(relative);
    assert(entry_source(JsonView::Text(text)) == Some(text));
    lemma_walk_up(base, a, (a.len() - common) as nat);
    let reached = walk(base, ups)->0;
    lemma_walk_down(base, ups, reached, a.take(common), rest);
    assert(a.take(common) + rest =~= b);
    let at = walk(base, steps)->0;
    assert(parts(at) == parts(source));
    if steps.len() == 0 {
        assert(render(steps) =~= Seq::<u8>::empty());
        assert(relative == seq![46u8]);
        lemma_dot_alone();
        let dot = seq![PathPart::Current];
        assert(dot.drop_last() =~= steps);
        assert(walk(base, dot) == walk(base, steps));
    }
    assert(absolute_normal_failure(at, "resolved Pi package entry"@) is None);
}

/// The settings of Pi from what was found: none where there is no file.
pub open spec fn settings_found(found: Option<ManagedResult<Json>>) -> Result<
    Seq<JsonView>,
    Failure,
> {
    match found {
        None => Ok(Seq::empty()),
        Some(Err(e)) => Err(e@),
        Some(Ok(v)) => match settings_failure(v@) {
            Some(f) => Err(f),
            None => Ok(packages(v@)),
        },
    }
}

/// Reads the settings of Pi from what was found in their file, if there is one.
pub fn read_pi_settings(path: FsPath, found: Option<ManagedResult<Json>>) -> (r: ManagedResult<
    PiSettings,
>)
    ensures
        match r {
            Ok(settings) => settings_found(found) == Ok::<Seq<JsonView>, Failure>(
                json_views(settings.entries@),
            ) && settings.path@ == path@,
            Err(e) => settings_found(found) == Err::<Seq<JsonView>, Failure>(e@),
        },
{
    match found {
        None => {
            let entries: Vec<Json> = Vec::new();
            assert(json_views(entries@) =~= Seq::<JsonView>::empty());
            Ok(PiSettings { path, entries })
        },
        Some(Err(e)) => Err(e),
        Some(Ok(value)) => {
            let entries = settings_packages(&value)?;
            Ok(PiSettings { path, entries })
        },
    }
}

/// Checks that a command of Pi succeeded.
pub fn run_pi_checked(operation: &str, success: bool) -> (r: ManagedResult<()>)
    ensures
        failure(r) == if success {
            None
        } else {
            Some(("pi_configuration_failed"@, "Pi "@ + operation@ + " command failed"@))
        },
{
    if !success {
        let mut message = "Pi ".to_owned();
        message.append(operation);
        message.append(" command failed");
        return Err(ManagedError::with_message("pi_configuration_failed", message));
    }
    Ok(())
}

/// Whether an entry leads to a package.
pub open spec fn leads_to(settings: Seq<u8>, source: Seq<u8>) -> spec_fn(JsonView) -> bool {
    |entry: JsonView| entry_matches(entry, settings, source)
}

/// What the entries that name a package path are, one by one.
pub proof fn lemma_matching(entries: Seq<JsonView>, settings: Seq<u8>, source: Seq<u8>)
    ensures
        matching(entries, settings, source) == entries.filter(leads_to(settings, source)),
        matching(entries, settings, source).len() == 0 <==> none_of(
            entries,
            leads_to(settings, source),
        ),
        matching(entries, settings, source).len() == 1 <==> exists|i: int|
            sole(entries, leads_to(settings, source), i),
        forall|i: int|
            #![trigger entries[i]]
            sole(entries, leads_to(settings, source), i) ==> matching(entries, settings, source)
                == seq![entries[i]],
{
    let kind = leads_to(settings, source);
    assert(matching(entries, settings, source) == entries.filter(kind)) by {
        assert(kind =~= (|entry: JsonView| entry_matches(entry, settings, source)));
    }
    lemma_filter_none(entries, kind);
    assert forall|i: int| sole(entries, kind, i) implies entries.filter(kind)
        == #[trigger] seq![entries[i]] by {
        lemma_filter_sole(entries, kind, i);
    }
    if entries.filter(kind).len() == 1 {
        lemma_one_is_sole(entries, kind);
    }
    if exists|i: int| sole(entries, kind, i) {
        let i = choose|i: int| sole(entries, kind, i);
        lemma_filter_sole(entries, kind, i);
    }
}

/// The entries that are found for a package are those that lead to it, and no others.
pub proof fn law_found_entries_lead_to_the_package(
    entries: Seq<JsonView>,
    settings: Seq<u8>,
    source: Seq<u8>,
    entry: JsonView,
)
    ensures
        matching(entries, settings, source).contains(entry) == (entries.contains(entry)
            && entry_path(settings, entry) is Ok && parts(entry_path(settings, entry)->Ok_0)
            == parts(source)),
        matching(entries, settings, source).len() <= entries.len(),
{
    lemma_matching(entries, settings, source);
    lemma_filter_has(entries, leads_to(settings, source), entry);
    entries.lemma_filter_len(leads_to(settings, source));
}

/// Pi installs a package exactly where no entry leads to it. One that an entry leads to is
/// left as it is where it is the package of before, once; everywhere else the installation
/// is refused.
pub proof fn law_only_an_absent_package_is_installed(
    entries: Seq<JsonView>,
    config: Seq<u8>,
    new_source: Seq<u8>,
    old_source: Option<Seq<u8>>,
)
    ensures
        install_needed(entries, config, new_source, old_source) == Ok::<bool, Failure>(true)
            <==> none_of(entries, leads_to(config, new_source)),
        install_needed(entries, config, new_source, old_source) == Ok::<bool, Failure>(false)
            <==> old_source is Some && parts(old_source->0) == parts(new_source) && (exists|i: int|
            sole(entries, leads_to(config, new_source), i)),
        install_needed(entries, config, new_source, old_source) is Err
            ==> install_needed(entries, config, new_source, old_source)->Err_0.0
            == "ownership_conflict"@,
{
    lemma_matching(entries, config, new_source);
}

/// The package of before is removed exactly where it is another one than the new one and
/// an entry leads to it; nothing is removed that no entry leads to.
pub proof fn law_the_package_of_before_is_removed(
    entries: Seq<JsonView>,
    config: Seq<u8>,
    new_source: Seq<u8>,
    old_source: Option<Seq<u8>>,
)
    ensures
        ({
            let removed = removal_after_install(
                entries,
                config,
                replaced_source(new_source, old_source),
            );
            &&& removed is Some ==> removed == old_source && !none_of(
                entries,
                leads_to(config, removed->0),
            )
            &&& old_source is Some && old_source->0 != new_source && !none_of(
                entries,
                leads_to(config, old_source->0),
            ) ==> removed == old_source
            &&& removed == Some(new_source) ==> path_text_failure(new_source) is Some
        }),
        ({
            let legacy = removal_after_install(entries, config, old_source);
            &&& legacy is Some <==> old_source is Some && !none_of(
                entries,
                leads_to(config, old_source->0),
            )
            &&& legacy is Some ==> legacy == old_source
        }),
{
    if old_source is Some {
        lemma_matching(entries, config, old_source->0);
    }
}

proof fn lemma_same_field(fields: Seq<(Seq<char>, JsonView)>, n: int, name: Seq<char>)
    requires
        0 <= n <= fields.len(),
    ensures
        ({
            let shown = without_zero_signs(JsonView::Object(fields))->Object_0;
            &&& shown.len() == fields.len()
            &&& field(shown.skip(n), name) == match field(fields.skip(n), name) {
                Some(v) => Some(without_zero_signs(v)),
                None => None,
            }
        }),
    decreases fields.len() - n,
{
    reveal(without_zero_signs);
    let shown = without_zero_signs(JsonView::Object(fields))->Object_0;
    if n < fields.len() {
        lemma_same_field(fields, n + 1, name);
        assert(shown.skip(n)[0] == (fields[n].0, without_zero_signs(fields[n].1)));
        assert(fields.skip(n)[0] == fields[n]);
        assert(shown.skip(n).skip(1) =~= shown.skip(n + 1));
        assert(fields.skip(n).skip(1) =~= fields.skip(n + 1));
    }
}

proof fn lemma_shown_source(v: JsonView)
    ensures
        entry_source(without_zero_signs(v)) == entry_source(v),
{
    reveal(without_zero_signs);
    match v {
        JsonView::Object(fields) => {
            lemma_same_field(fields, 0, "source"@);
            let shown = without_zero_signs(v)->Object_0;
            assert(shown.skip(0) =~= shown);
            assert(fields.skip(0) =~= fields);
        },
        _ => {},
    }
}

/// Equal entries lead to the same package.
pub proof fn law_equal_entries_lead_alike(
    a: JsonView,
    b: JsonView,
    settings: Seq<u8>,
    source: Seq<u8>,
)
    requires
        same_json(a, b),
    ensures
        entry_source(a) == entry_source(b),
        entry_matches(a, settings, source) == entry_matches(b, settings, source),
{
    lemma_shown_source(a);
    lemma_shown_source(b);
}

proof fn lemma_json_at(entries: Seq<JsonView>, wanted: JsonView, i: int)
    requires
        0 <= i < entries.len(),
        same_json(entries[i], wanted),
        forall|j: int| 0 <= j < i ==> !same_json(#[trigger] entries[j], wanted),
    ensures
        json_at(entries, wanted) == i,
    decreases i,
{
    if i > 0 {
        let rest = entries.skip(1);
        assert(!same_json(entries[0], wanted));
        assert forall|j: int| 0 <= j < i - 1 implies !same_json(#[trigger] rest[j], wanted) by {
            assert(rest[j] == entries[j + 1]);
        }
        lemma_json_at(rest, wanted, i - 1);
    }
}

/// An upgrade that was carried out, with the new package installed and then that of before
/// removed, leaves the entries that are expected after it: the owned entry is gone, the new
/// one is at the end, and every other one is where it was.
pub proof fn law_an_upgrade_swaps_the_entries(
    entries: Seq<JsonView>,
    config: Seq<u8>,
    new_source: Seq<u8>,
    old_source: Seq<u8>,
    new_entry: JsonView,
    i: int,
)
    requires
        sole(entries, leads_to(config, old_source), i),
        parts(old_source) != parts(new_source),
        entry_matches(new_entry, config, new_source),
        install_needed(entries, config, new_source, Some(old_source)) is Ok,
    ensures
        install_needed(entries, config, new_source, Some(old_source)) == Ok::<bool, Failure>(true),
        removal_after_install(entries, config, replaced_source(new_source, Some(old_source)))
            == Some(old_source),
        entries.push(new_entry).filter(|e: JsonView| !entry_matches(e, config, old_source))
            == post_entries(entries, Some(entries[i]), new_entry),
        post_entries(entries, Some(entries[i]), new_entry) == entries.remove(i).push(new_entry),
{
    let owned = entries[i];
    let kind = leads_to(config, old_source);
    let other = |e: JsonView| !entry_matches(e, config, old_source);
    let others = |e: JsonView| !kind(e);
    assert(other =~= others);
    lemma_matching(entries, config, new_source);
    lemma_matching(entries, config, old_source);
    lemma_filter_sole(entries, kind, i);
    assert(!entry_matches(new_entry, config, old_source));
    lemma_filter_push(entries, new_entry, others);
    assert forall|j: int| 0 <= j < entries.len() implies (same_json(#[trigger] entries[j], owned)
        <==> j == i) by {
        if same_json(entries[j], owned) && j != i {
            law_equal_entries_lead_alike(entries[j], owned, config, old_source);
            assert(!kind(entries[j]));
        }
    }
    lemma_json_at(entries, owned, i);
    assert(!same_json(owned, new_entry)) by {
        if same_json(owned, new_entry) {
            law_equal_entries_lead_alike(owned, new_entry, config, old_source);
        }
    }
    assert(has_json(entries, owned));
    let kept = entries.remove(i);
    assert(!has_json(kept, new_entry)) by {
        if has_json(kept, new_entry) {
            let j = choose|j: int| 0 <= j < kept.len() && same_json(#[trigger] kept[j], new_entry);
            let k = if j < i {
                j
            } else {
                j + 1
            };
            assert(kept[j] == entries[k]);
            law_equal_entries_lead_alike(entries[k], new_entry, config, new_source);
            assert(leads_to(config, new_source)(entries[k]));
        }
    }
}

/// A first installation leaves every entry where it was, with the new one at the end.
pub proof fn law_a_first_installation_adds_its_entry(
    entries: Seq<JsonView>,
    config: Seq<u8>,
    new_source: Seq<u8>,
    new_entry: JsonView,
)
    requires
        entry_matches(new_entry, config, new_source),
        install_needed(entries, config, new_source, None) is Ok,
    ensures
        install_needed(entries, config, new_source, None) == Ok::<bool, Failure>(true),
        removal_after_install(entries, config, replaced_source(new_source, None)) is None,
        post_entries(entries, None, new_entry) == entries.push(new_entry),
{
    lemma_matching(entries, config, new_source);
    assert(!has_json(entries, new_entry)) by {
        if has_json(entries, new_entry) {
            let j = choose|j: int|
                0 <= j < entries.len() && same_json(#[trigger] entries[j], new_entry);
            law_equal_entries_lead_alike(entries[j], new_entry, config, new_source);
            assert(leads_to(config, new_source)(entries[j]));
        }
    }
}

/// The entry that Pi stored is accepted exactly where it is the only one that leads to the
/// package and names it by its absolute path or by the path from the settings.
pub proof fn law_the_stored_entry_is_the_only_one(
    entries: Seq<JsonView>,
    settings: Seq<u8>,
    source: Seq<u8>,
    i: int,
)
    requires
        absolute_entry(source) is Ok,
        relative_entry(settings, source) is Ok,
    ensures
        authenticated_entry(entries, settings, source) is Ok ==> exists|k: int|
            sole(entries, leads_to(settings, source), k) && authenticated_entry(
                entries,
                settings,
                source,
            )->Ok_0 == entries[k],
        authenticated_entry(entries, settings, source) is Ok ==> authenticated_entry(
            entries,
            settings,
            source,
        )->Ok_0 == absolute_entry(source)->Ok_0 || authenticated_entry(
            entries,
            settings,
            source,
        )->Ok_0 == relative_entry(settings, source)->Ok_0,
        sole(entries, leads_to(settings, source), i) && (entries[i] == absolute_entry(source)->Ok_0
            || entries[i] == relative_entry(settings, source)->Ok_0) ==> authenticated_entry(
            entries,
            settings,
            source,
        ) == Ok::<JsonView, Failure>(entries[i]),
{
    lemma_matching(entries, settings, source);
    let allowed = allowed_entries(settings, source)->Ok_0;
    let absolute = absolute_entry(source)->Ok_0;
    let relative = relative_entry(settings, source)->Ok_0;
    assert(allowed[0] == absolute);
    assert(allowed.contains(absolute));
    assert(allowed.contains(relative)) by {
        if absolute != relative {
            assert(allowed[1] == relative);
        }
    }
    let found = matching(entries, settings, source);
    if found.len() == 1 {
        let k = choose|k: int| sole(entries, leads_to(settings, source), k);
        assert(found == seq![entries[k]]);
        assert(found[0] == entries[k]);
    }
}

/// The settings fit a record exactly where no entry, or only the recorded one, leads to
/// the recorded package; an installation that is ready has its entry.
pub proof fn law_fitting_settings_hold_the_recorded_entry(
    record: RecordView,
    path: Seq<u8>,
    entries: Seq<JsonView>,
)
    ensures
        ({
            let kind = leads_to(path, record.pi_package_source);
            let recorded = exists|i: int|
                sole(entries, kind, i) && same_json(entries[i], record.pi_package_entry);
            &&& ready_pi_failure(record, path, entries) is None <==> parts(path) == parts(
                record.pi_config_path,
            ) && (recorded || (none_of(entries, kind) && record.state != InstallState::Ready))
            &&& present_pi_failure(record, path, entries) is None <==> recorded || none_of(
                entries,
                kind,
            )
        }),
{
    let kind = leads_to(path, record.pi_package_source);
    lemma_matching(entries, path, record.pi_package_source);
    let found = matching(entries, path, record.pi_package_source);
    if found.len() == 1 {
        let k = choose|k: int| sole(entries, kind, k);
        assert(found == seq![entries[k]]);
        assert(found[0] == entries[k]);
        if same_json(found[0], record.pi_package_entry) {
            assert(sole(entries, kind, k) && same_json(entries[k], record.pi_package_entry));
        }
    }
    if exists|i: int| sole(entries, kind, i) && same_json(entries[i], record.pi_package_entry) {
        let k = choose|i: int|
            sole(entries, kind, i) && same_json(entries[i], record.pi_package_entry);
        assert(found == seq![entries[k]]);
        assert(found[0] == entries[k]);
    }
}

/// Every package entry names a source in one line, or the settings are refused.
pub proof fn law_accepted_settings_name_their_sources(
    entries: Seq<JsonView>,
    code: Seq<char>,
    missing: Seq<char>,
    broken: Seq<char>,
)
    ensures
        sources_failure(entries, code, missing, broken) is None <==> forall|i: int|
            0 <= i < entries.len() ==> entry_source(#[trigger] entries[i]) is Some && one_line(
                entry_source(entries[i])->0,
            ),
    decreases entries.len(),
{
    if entries.len() > 0 {
        let front = entries.drop_last();
        law_accepted_settings_name_their_sources(front, code, missing, broken);
        if sources_failure(entries, code, missing, broken) is None {
            assert forall|i: int| 0 <= i < entries.len() implies entry_source(
                #[trigger] entries[i],
            ) is Some && one_line(entry_source(entries[i])->0) by {
                if i < front.len() {
                    assert(front[i] == entries[i]);
                }
            }
        }
        if forall|i: int|
            0 <= i < entries.len() ==> entry_source(#[trigger] entries[i]) is Some && one_line(
                entry_source(entries[i])->0,
            ) {
            assert forall|i: int| 0 <= i < front.len() implies entry_source(
                #[trigger] front[i],
            ) is Some && one_line(entry_source(front[i])->0) by {
                assert(front[i] == entries[i]);
            }
            assert(entry_source(entries[entries.len() - 1]) is Some);
        }
    }
}

/// A text names itself, an object what its field says, and neither an empty source nor any
/// other value names anything.
pub proof fn law_entries_name_their_source(text: Seq<char>, fields: Seq<(Seq<char>, JsonView)>, n: u64)
    ensures
        entry_source(JsonView::Text(text)) == if text.len() == 0 {
            None
        } else {
            Some(text)
        },
        field(fields, "source"@) == Some(JsonView::Text(text)) && text.len() > 0 ==> entry_source(
            JsonView::Object(fields),
        ) == Some(text),
        field(fields, "source"@) is None ==> entry_source(JsonView::Object(fields)) is None,
        entry_source(JsonView::UInt(n)) is None,
        entry_source(JsonView::Null) is None,
{
}

/// An entry with an absolute path leads to that path; one with a name leads to that name
/// beside the settings.
pub proof fn law_entries_lead_from_the_settings(settings: Seq<u8>, text: Seq<char>)
    requires
        text.len() > 0,
    ensures
        absolute_normal(utf8(text)) ==> entry_path(settings, JsonView::Text(text)) == Ok::<
            Seq<u8>,
            Failure,
        >(utf8(text)),
        ordinary_name(utf8(text)) && parent(settings) is Some && absolute_normal(
            parent(settings)->0,
        ) ==> entry_path(settings, JsonView::Text(text)) is Ok && parts(
            entry_path(settings, JsonView::Text(text))->Ok_0,
        ) == parts(parent(settings)->0).push(PathPart::Normal(utf8(text))),
{
    let name = utf8(text);
    if ordinary_name(name) && parent(settings) is Some && absolute_normal(parent(settings)->0) {
        let base = parent(settings)->0;
        law_joining_a_name_appends_it(base, name);
        assert(name[0] != 47) by {
            assert(name.contains(name[0]));
        }
        law_rendered_components_read_back(seq![PathPart::Normal(name)]);
        assert(render(seq![PathPart::Normal(name)]) =~= name) by {
            let one = seq![PathPart::Normal(name)];
            assert(one.drop_last() =~= Seq::<PathPart>::empty());
            assert(render(one.drop_last()) =~= Seq::<u8>::empty());
            assert(one.last() == PathPart::Normal(name));
        }
        let steps = parts(name);
        assert(steps == seq![PathPart::Normal(name)]);
        assert(steps.drop_last() =~= Seq::<PathPart>::empty());
        assert(walk(base, steps.drop_last()) == Some(base));
        assert(walk(base, steps) == Some(join(base, name)));
        let there = parts(join(base, name));
        assert forall|i: int| 0 <= i < there.len() implies #[trigger] there[i] != PathPart::Parent
            && there[i] != PathPart::Current by {
            if i < parts(base).len() {
                assert(there[i] == parts(base)[i]);
            }
        }
    }
}

/// A first installation owns the entry of a source checkout only where it is the one entry
/// that names the checkout, is its plain path, and the package there is the one to be
/// installed. It is then the entry that the installation replaces.
pub proof fn law_only_the_checkout_entry_is_taken_over(
    entries: Seq<JsonView>,
    plugin_root: Seq<u8>,
    legacy_digest: Option<Seq<char>>,
    package_digest: Seq<char>,
    i: int,
)
    requires
        path_text_failure(legacy_package(plugin_root)) is None,
    ensures
        ({
            let source = decode_utf8(legacy_package(plugin_root));
            let kind = |e: JsonView| entry_source(e) == Some(source);
            let owned = first_owned_entry(entries, plugin_root, legacy_digest, package_digest);
            &&& owned is Ok
            &&& owned->Ok_0 is Some ==> owned->Ok_0 == Some(JsonView::Text(source))
                && legacy_digest == Some(package_digest) && exists|k: int|
                sole(entries, kind, k) && entries[k] == JsonView::Text(source)
            &&& sole(entries, kind, i) && entries[i] == JsonView::Text(source) && legacy_digest
                == Some(package_digest) ==> owned->Ok_0 == Some(entries[i])
            &&& none_of(entries, kind) ==> owned->Ok_0 is None && legacy_replacement(
                entries,
                None,
                plugin_root,
            ) == Ok::<bool, Failure>(false)
            &&& sole(entries, kind, i) ==> legacy_replacement(entries, None, plugin_root) == if entries[i]
                == JsonView::Text(source) {
                Ok::<bool, Failure>(true)
            } else {
                Err(
                    (
                        "legacy_package_conflict"@,
                        "legacy Pi entry is not the exact canonical string entry"@,
                    ),
                )
            }
        }),
{
    let source = decode_utf8(legacy_package(plugin_root));
    let kind = |e: JsonView| entry_source(e) == Some(source);
    assert(naming(entries, source) == entries.filter(kind)) by {
        assert(kind =~= (|entry: JsonView| entry_source(entry) == Some(source)));
    }
    lemma_filter_none(entries, kind);
    if sole(entries, kind, i) {
        lemma_filter_sole(entries, kind, i);
    }
    if entries.filter(kind).len() == 1 {
        lemma_one_is_sole(entries, kind);
        let k = choose|k: int| sole(entries, kind, k);
        lemma_filter_sole(entries, kind, k);
        assert(seq![entries[k]][0] == entries[k]);
    }
}

/// The entries are taken from the array of packages, and there are none without one.
pub proof fn law_packages_are_taken_from_their_field(
    fields: Seq<(Seq<char>, JsonView)>,
    entries: Seq<JsonView>,
    found: Option<ManagedResult<Json>>,
)
    ensures
        field(fields, "packages"@) == Some(JsonView::Array(entries)) ==> packages(
            JsonView::Object(fields),
        ) == entries,
        field(fields, "packages"@) is None ==> packages(JsonView::Object(fields)).len() == 0,
        found is None ==> settings_found(found) == Ok::<Seq<JsonView>, Failure>(Seq::empty()),
        found is Some && found->0 is Err ==> settings_found(found) is Err,
        found is Some && found->0 is Ok && settings_found(found) is Ok ==> settings_found(
            found,
        )->Ok_0 == packages(found->0->Ok_0@) && (forall|i: int|
            0 <= i < packages(found->0->Ok_0@).len() ==> entry_source(
                #[trigger] packages(found->0->Ok_0@)[i],
            ) is Some),
{
    if found is Some && found->0 is Ok && settings_found(found) is Ok {
        law_accepted_settings_name_their_sources(
            packages(found->0->Ok_0@),
            "pi_settings_invalid"@,
            "Pi package entry has no valid source"@,
            "Pi package source contains a line break"@,
        );
    }
}

/// The same entries in another order are the same entries; one more is not.
pub proof fn law_entries_count_in_any_order(entries: Seq<JsonView>, added: JsonView, i: int)
    requires
        0 <= i <= entries.len(),
    ensures
        same_entries(entries.insert(i, added), entries.push(added)),
        !same_entries(entries.push(added), entries),
{
    broadcast use vstd::seq_lib::group_to_multiset_ensures;

    let f = |entry: JsonView| json_encoded(entry);
    assert(encodings(entries.push(added)) =~= encodings(entries).push(json_encoded(added)));
    assert(encodings(entries.insert(i, added)) =~= encodings(entries).insert(
        i,
        json_encoded(added),
    ));
    vstd::seq_lib::to_multiset_insert(encodings(entries), i, json_encoded(added));
    assert(encodings(entries.push(added)).to_multiset().len() == entries.len() + 1);
    assert(encodings(entries).to_multiset().len() == entries.len());
}

/// The package of a checkout is replaced just when it and the bundle are the very package
/// that is installed.
pub proof fn law_only_the_same_package_is_replaced(
    legacy: Seq<char>,
    bundle: Seq<char>,
    package: Seq<char>,
)
    ensures
        legacy_mismatch(legacy, bundle, package) is None <==> legacy == package && bundle == package,
{
}

} // verus!
