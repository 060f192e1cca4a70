//! What an installation leaves where it stops is what its recovery recognises.

use vstd::prelude::*;
use crate::error::failure;
use crate::install::{install_steps, journaled, InstallStep};
use crate::json::{json_views, JsonView};
use crate::path::{parent, same_path};
use crate::pi::same_entries;
use crate::record::{opt_record, same_opt_record, InstallState, RecordView};
use crate::rollback::{
    all_published, entries_with_candidate, first_failure, found_exactly, generation_state_failure,
    live_record_ok, live_tree_failure, new_targets, pi_state_ok, planned_tree_failure,
    plugin_state_ok, plugin_step, prior_generation_state_failure, prior_targets, stage_is,
    GenerationFound, PluginFound, PriorGenerationFound,
};
use crate::snapshot::{opt_file, opt_snapshot};
use crate::transaction::{has_new_snapshots, InstallTransaction, TransactionPhase};

verus! {

/// A step is among the first ones.
pub open spec fn taken(steps: Seq<InstallStep>, step: InstallStep, n: int) -> bool {
    exists|k: int| 0 <= k < n && #[trigger] steps[k] == step
}

/// How many of the four moves of the plugin files are among the first steps.
pub open spec fn moves(steps: Seq<InstallStep>, n: int) -> int {
    (if taken(steps, InstallStep::BackUpHelper, n) {
        1int
    } else {
        0
    }) + (if taken(steps, InstallStep::BackUpPointer, n) {
        1int
    } else {
        0
    }) + (if taken(steps, InstallStep::PublishHelper, n) {
        1int
    } else {
        0
    }) + (if taken(steps, InstallStep::PublishPointer, n) {
        1int
    } else {
        0
    })
}

/// The record that is on disk after some steps.
pub open spec fn record_left(
    t: InstallTransaction,
    steps: Seq<InstallStep>,
    n: int,
    current: Option<RecordView>,
) -> bool {
    if taken(steps, InstallStep::WriteRecord, n) {
        same_opt_record(current, opt_record(t.new_record))
    } else {
        same_opt_record(current, opt_record(t.prior_record))
    }
}

/// The plugin files after some steps: those of before, then the stage beside them,
/// then one move after the other, then the new ones with the backups, and at last
/// the new ones alone. Where the files of before are kept, nothing of this happens.
pub open spec fn plugin_left(
    t: InstallTransaction,
    steps: Seq<InstallStep>,
    n: int,
    keeps_plugin: bool,
    found: PluginFound,
) -> bool {
    if keeps_plugin {
        &&& prior_targets(t, found)
        &&& found.helper_backup is Absent
        &&& found.pointer_backup is Absent
        &&& t.plugin_stage_snapshot is None
        &&& !found.stage_exists
        &&& taken(steps, InstallStep::Journal(TransactionPhase::PluginPublished), n)
            ==> new_targets(t, found)
    } else if taken(steps, InstallStep::DropBackups, n) {
        &&& new_targets(t, found)
        &&& found.helper_backup is Absent
        &&& found.pointer_backup is Absent
        &&& t.plugin_stage_snapshot is Some
        &&& !found.stage_exists
    } else if taken(steps, InstallStep::Journal(TransactionPhase::PluginPublished), n) {
        &&& new_targets(t, found)
        &&& found_exactly(found.helper_backup, opt_file(t.prior_helper_snapshot))
        &&& found_exactly(found.pointer_backup, opt_file(t.prior_pointer_snapshot))
        &&& stage_is(t, found, false, false)
    } else if taken(steps, InstallStep::StagePlugin, n) {
        plugin_step(t, found, moves(steps, n))
    } else {
        &&& prior_targets(t, found)
        &&& t.plugin_stage_snapshot is None
        &&& !found.stage_exists
    }
}

/// The entries of Pi after some steps: with the entry that Pi stored, in one of the
/// forms that name the package, once Pi was configured; the journal has that entry
/// from the phase after on.
pub open spec fn entries_left(
    t: InstallTransaction,
    steps: Seq<InstallStep>,
    n: int,
    current: Seq<JsonView>,
    candidates: Seq<JsonView>,
    stored: JsonView,
) -> bool {
    if taken(steps, InstallStep::ConfigurePi, n) {
        &&& candidates.contains(stored)
        &&& same_entries(current, entries_with_candidate(t, stored, true))
        &&& taken(steps, InstallStep::Journal(TransactionPhase::PiMutated), n) ==> t.new_pi_entry@
            == stored
    } else {
        same_entries(current, json_views(t.prior_pi_entries@))
    }
}

/// The generation that is published is the planned one.
pub open spec fn generation_sound(t: InstallTransaction, found: GenerationFound) -> bool {
    &&& found.present
    &&& failure(found.directory) is None
    &&& planned_tree_failure(t, found) is None
    &&& first_failure(found.file_checks@) is None
    &&& all_published(t, found)
}

/// The generation of before after some steps: it goes only at the end, and only
/// where another one takes its place.
pub open spec fn prior_generation_left(
    t: InstallTransaction,
    steps: Seq<InstallStep>,
    n: int,
    found: PriorGenerationFound,
) -> bool {
    match opt_record(t.prior_record) {
        None => true,
        Some(prior) => {
            let generation = parent(prior.pi_package_source)->0;
            let elsewhere = !same_path(generation, t.generation@);
            if prior.state == InstallState::Removed {
                !(found.present && elsewhere)
            } else if taken(steps, InstallStep::RemoveSuperseded, n) && elsewhere {
                !found.present
            } else {
                &&& found.present
                &&& opt_snapshot(t.prior_generation_snapshot) is Some
                &&& live_tree_failure(
                    generation,
                    opt_snapshot(t.prior_generation_snapshot)->0,
                    found.tree,
                ) is None
            }
        },
    }
}

/// The generations after some steps.
pub open spec fn generation_left(
    t: InstallTransaction,
    steps: Seq<InstallStep>,
    n: int,
    found: GenerationFound,
) -> bool {
    &&& !found.stage_exists
    &&& prior_generation_left(t, steps, n, found.prior)
    &&& if !taken(steps, InstallStep::PrepareGeneration, n) && t.generation_created {
        !found.present
    } else {
        generation_sound(t, found)
    }
}

/// The journal after some steps: its phase is the last one that was written, and it
/// has the new record from the phase on in which that is published. The state of
/// that record says whether Pi was configured.
pub open spec fn journal_left(
    t: InstallTransaction,
    steps: Seq<InstallStep>,
    n: int,
    has_pi: bool,
) -> bool {
    &&& journaled(steps, n) == Some(t.phase)
    &&& (t.new_record is Some) == taken(
        steps,
        InstallStep::Journal(TransactionPhase::RescuePublishing),
        n,
    )
    &&& t.new_record is Some ==> t.new_record->0.state == if has_pi {
        InstallState::Ready
    } else {
        InstallState::PiAdapterPending
    }
}

/// By how much the steps after the plugin files come earlier where these are kept.
spec fn earlier(keeps_plugin: bool) -> int {
    if keeps_plugin {
        8
    } else {
        0
    }
}

/// Where the steps after the record was built begin.
spec fn record_start(keeps_plugin: bool, has_pi: bool) -> int {
    if has_pi {
        20 - earlier(keeps_plugin)
    } else {
        16 - earlier(keeps_plugin)
    }
}

/// Where the steps after the record was committed begin, but for the backups.
spec fn closing_start(keeps_plugin: bool, has_pi: bool) -> int {
    record_start(keeps_plugin, has_pi) + if keeps_plugin {
        7int
    } else {
        8
    }
}

proof fn lemma_places(keeps_plugin: bool, has_pi: bool, has_prior: bool)
    ensures
        ({
            let s = install_steps(keeps_plugin, has_pi, has_prior);
            let e = earlier(keeps_plugin);
            let r = record_start(keeps_plugin, has_pi);
            let c = closing_start(keeps_plugin, has_pi);
            &&& s.len() == c + 1 + if has_prior {
                1int
            } else {
                0
            }
            &&& s[2] == InstallStep::PrepareGeneration
            &&& !keeps_plugin ==> s[5] == InstallStep::StagePlugin
            &&& !keeps_plugin ==> s[7] == InstallStep::BackUpHelper
            &&& !keeps_plugin ==> s[9] == InstallStep::BackUpPointer
            &&& !keeps_plugin ==> s[11] == InstallStep::PublishHelper
            &&& !keeps_plugin ==> s[13] == InstallStep::PublishPointer
            &&& s[14 - e] == InstallStep::Journal(TransactionPhase::PluginPublished)
            &&& has_pi ==> s[17 - e] == InstallStep::ConfigurePi
            &&& has_pi ==> s[19 - e] == InstallStep::Journal(TransactionPhase::PiMutated)
            &&& s[r + 1] == InstallStep::Journal(TransactionPhase::RescuePublishing)
            &&& s[r + 5] == InstallStep::WriteRecord
            &&& !keeps_plugin ==> s[r + 7] == InstallStep::DropBackups
            &&& has_prior ==> s[c] == InstallStep::RemoveSuperseded
        }),
{
}

/// Where a step is the only one of its kind, it is taken once its place is passed.
proof fn lemma_taken(steps: Seq<InstallStep>, step: InstallStep, at: int, n: int)
    requires
        0 <= at < steps.len(),
        0 <= n <= steps.len(),
        steps[at] == step,
        forall|k: int| 0 <= k < steps.len() && #[trigger] steps[k] == step ==> k == at,
    ensures
        taken(steps, step, n) == (n > at),
{
    if n > at {
        assert(steps[at] == step);
    }
}

proof fn lemma_never_taken(steps: Seq<InstallStep>, step: InstallStep, n: int)
    requires
        0 <= n <= steps.len(),
        forall|k: int| 0 <= k < steps.len() ==> #[trigger] steps[k] != step,
    ensures
        !taken(steps, step, n),
{
}

proof fn lemma_early_steps(keeps_plugin: bool, has_pi: bool, has_prior: bool, n: int)
    requires
        0 <= n <= install_steps(keeps_plugin, has_pi, has_prior).len(),
    ensures
        ({
            let s = install_steps(keeps_plugin, has_pi, has_prior);
            let e = earlier(keeps_plugin);
            &&& taken(s, InstallStep::PrepareGeneration, n) == (n > 2)
            &&& !keeps_plugin ==> taken(s, InstallStep::StagePlugin, n) == (n > 5)
            &&& !keeps_plugin ==> taken(s, InstallStep::BackUpHelper, n) == (n > 7)
            &&& !keeps_plugin ==> taken(s, InstallStep::BackUpPointer, n) == (n > 9)
            &&& !keeps_plugin ==> taken(s, InstallStep::PublishHelper, n) == (n > 11)
            &&& !keeps_plugin ==> taken(s, InstallStep::PublishPointer, n) == (n > 13)
            &&& taken(s, InstallStep::Journal(TransactionPhase::PluginPublished), n) == (n > 14
                - e)
        }),
{
    let s = install_steps(keeps_plugin, has_pi, has_prior);
    lemma_places(keeps_plugin, has_pi, has_prior);
    lemma_taken(s, InstallStep::PrepareGeneration, 2, n);
    if !keeps_plugin {
        lemma_taken(s, InstallStep::StagePlugin, 5, n);
        lemma_taken(s, InstallStep::BackUpHelper, 7, n);
        lemma_taken(s, InstallStep::BackUpPointer, 9, n);
        lemma_taken(s, InstallStep::PublishHelper, 11, n);
        lemma_taken(s, InstallStep::PublishPointer, 13, n);
    }
    lemma_taken(
        s,
        InstallStep::Journal(TransactionPhase::PluginPublished),
        14 - earlier(keeps_plugin),
        n,
    );
}

proof fn lemma_late_steps(keeps_plugin: bool, has_pi: bool, has_prior: bool, n: int)
    requires
        0 <= n <= install_steps(keeps_plugin, has_pi, has_prior).len(),
    ensures
        ({
            let s = install_steps(keeps_plugin, has_pi, has_prior);
            let e = earlier(keeps_plugin);
            let r = record_start(keeps_plugin, has_pi);
            let c = closing_start(keeps_plugin, has_pi);
            &&& taken(s, InstallStep::ConfigurePi, n) == (has_pi && n > 17 - e)
            &&& taken(s, InstallStep::Journal(TransactionPhase::PiMutated), n) == (has_pi && n > 19
                - e)
            &&& taken(s, InstallStep::Journal(TransactionPhase::RescuePublishing), n) == (n > r
                + 1)
            &&& taken(s, InstallStep::WriteRecord, n) == (n > r + 5)
            &&& !keeps_plugin ==> taken(s, InstallStep::DropBackups, n) == (n > r + 7)
            &&& taken(s, InstallStep::RemoveSuperseded, n) == (has_prior && n > c)
        }),
{
    let s = install_steps(keeps_plugin, has_pi, has_prior);
    let e = earlier(keeps_plugin);
    let r = record_start(keeps_plugin, has_pi);
    lemma_places(keeps_plugin, has_pi, has_prior);
    if has_pi {
        lemma_taken(s, InstallStep::ConfigurePi, 17 - e, n);
        lemma_taken(s, InstallStep::Journal(TransactionPhase::PiMutated), 19 - e, n);
    } else {
        lemma_never_taken(s, InstallStep::ConfigurePi, n);
        lemma_never_taken(s, InstallStep::Journal(TransactionPhase::PiMutated), n);
    }
    lemma_taken(s, InstallStep::Journal(TransactionPhase::RescuePublishing), r + 1, n);
    lemma_taken(s, InstallStep::WriteRecord, r + 5, n);
    if !keeps_plugin {
        lemma_taken(s, InstallStep::DropBackups, r + 7, n);
    }
    if has_prior {
        lemma_taken(s, InstallStep::RemoveSuperseded, closing_start(keeps_plugin, has_pi), n);
    } else {
        lemma_never_taken(s, InstallStep::RemoveSuperseded, n);
    }
}

/// The phase that is journaled after some steps.
spec fn phase_at(keeps_plugin: bool, has_pi: bool, n: int) -> TransactionPhase {
    let e = earlier(keeps_plugin);
    let r = record_start(keeps_plugin, has_pi);
    if n == 1 {
        TransactionPhase::Intent
    } else if n <= 3 {
        TransactionPhase::GenerationPublishing
    } else if n == 4 {
        TransactionPhase::GenerationPublished
    } else if n <= 6 {
        TransactionPhase::PluginPublishing
    } else if !keeps_plugin && n <= 8 {
        TransactionPhase::PluginBackingUpHelper
    } else if !keeps_plugin && n <= 10 {
        TransactionPhase::PluginBackingUpPointer
    } else if !keeps_plugin && n <= 12 {
        TransactionPhase::PluginPublishingHelper
    } else if !keeps_plugin && n <= 14 {
        TransactionPhase::PluginPublishingPointer
    } else if n <= 16 - e || (!has_pi && n <= 17 - e) {
        TransactionPhase::PluginPublished
    } else if has_pi && n <= 19 - e {
        TransactionPhase::PiMutating
    } else if has_pi && n <= 21 - e {
        TransactionPhase::PiMutated
    } else if n <= r + 3 {
        TransactionPhase::RescuePublishing
    } else if n == r + 4 {
        TransactionPhase::RecordCommitting
    } else if n <= r + 6 {
        TransactionPhase::RecordRenaming
    } else {
        TransactionPhase::RecordCommitted
    }
}

proof fn lemma_phase(keeps_plugin: bool, has_pi: bool, has_prior: bool, n: int)
    requires
        1 <= n < install_steps(keeps_plugin, has_pi, has_prior).len(),
    ensures
        journaled(install_steps(keeps_plugin, has_pi, has_prior), n) == Some(
            phase_at(keeps_plugin, has_pi, n),
        ),
{
    lemma_places(keeps_plugin, has_pi, has_prior);
    reveal_with_fuel(journaled, 5);
}

/// Wherever an installation stops between two of its steps, recovery recognises what
/// it left: the record, the plugin files, the entries of Pi and the generations are
/// in a state that the journaled phase allows. Where the plugin files of before are
/// kept there are no backups of them, and recovery asks for those from the phase in
/// which the files are published until the record is committed.
pub proof fn law_interrupted_install_is_recognised(
    t: InstallTransaction,
    keeps_plugin: bool,
    has_pi: bool,
    has_prior: bool,
    n: int,
    record: Option<RecordView>,
    plugin: PluginFound,
    entries: Seq<JsonView>,
    candidates: Seq<JsonView>,
    stored: JsonView,
    generation: GenerationFound,
)
    requires
        1 <= n < install_steps(keeps_plugin, has_pi, has_prior).len(),
        has_prior == (t.prior_record is Some),
        journal_left(t, install_steps(keeps_plugin, has_pi, has_prior), n, has_pi),
        record_left(t, install_steps(keeps_plugin, has_pi, has_prior), n, record),
        plugin_left(
            t,
            install_steps(keeps_plugin, has_pi, has_prior),
            n,
            keeps_plugin,
            plugin,
        ),
        entries_left(
            t,
            install_steps(keeps_plugin, has_pi, has_prior),
            n,
            entries,
            candidates,
            stored,
        ),
        generation_left(t, install_steps(keeps_plugin, has_pi, has_prior), n, generation),
        keeps_plugin ==> !has_new_snapshots(t.phase) || t.phase
            == TransactionPhase::RecordCommitted,
    ensures
        live_record_ok(t, record),
        plugin_state_ok(t, plugin),
        pi_state_ok(t, entries, candidates),
        generation_state_failure(t, generation) is None,
{
    lemma_early_steps(keeps_plugin, has_pi, has_prior, n);
    lemma_late_steps(keeps_plugin, has_pi, has_prior, n);
    lemma_phase(keeps_plugin, has_pi, has_prior, n);
    assert(t.phase == phase_at(keeps_plugin, has_pi, n));
    if taken(install_steps(keeps_plugin, has_pi, has_prior), InstallStep::ConfigurePi, n) {
        let k = choose|k: int| 0 <= k < candidates.len() && candidates[k] == stored;
        assert(same_entries(entries, entries_with_candidate(t, candidates[k], true)));
    }
    assert(prior_generation_state_failure(t, generation.prior) is None);
}

} // verus!
