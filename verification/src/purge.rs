//! The removal of a leftover store, as a run that asks for one piece of work
//! at a time and decides on what comes of it.

use crate::layout::{
    assert_raw_mirror_root_contained, index_run_lock_path, law_root_parts,
    law_siblings_are_outside, law_store_lies_under_data_dir, law_store_root_is_contained,
    raw_mirror_root, root_parts, root_path, ContainmentError, INDEX_RUN_LOCK, RAW_MIRROR_ROOT_DIR,
};
use crate::path::{
    is_plain_name, is_within, joined, law_join_adds_plain_name, path_parts, MirrorPath, Part,
};
use vstd::prelude::*;
use vstd::utf8::encode_utf8;

verus! {

/// What a purge did.
#[derive(Debug, Clone, Copy, PartialEq, Eq)]
pub struct RawMirrorPurgeStats {
    /// Whether the store is gone by this purge.
    pub removed: bool,
    /// The bytes that were reclaimed or, in a dry run, would be.
    pub bytes_reclaimed: u64,
    /// The entries that were removed or, in a dry run, would be.
    pub entries_removed: u64,
    /// Whether the purge was only to report.
    pub dry_run: bool,
}

/// The stats of a purge that did nothing.
pub open spec fn idle_stats(dry_run: bool) -> RawMirrorPurgeStats {
    RawMirrorPurgeStats { removed: false, bytes_reclaimed: 0, entries_removed: 0, dry_run }
}

impl Default for RawMirrorPurgeStats {
    fn default() -> (stats: RawMirrorPurgeStats)
        ensures
            stats == idle_stats(false),
    {
        RawMirrorPurgeStats {
            removed: false,
            bytes_reclaimed: 0,
            entries_removed: 0,
            dry_run: false,
        }
    }
}

/// What came of an attempt to remove the store.
#[derive(Debug, Clone, Copy, PartialEq, Eq)]
pub enum Removal {
    /// The store was removed.
    Removed,
    /// The store was gone already.
    Absent,
    /// The store could not be removed.
    Failed,
}

/// How far a run has come.
#[derive(Debug, Clone, Copy, PartialEq, Eq)]
pub enum PurgeStage {
    /// It is not known yet whether there is a store, and where it is.
    Probe,
    /// There is a store, and its contents are not counted yet.
    Tally,
    /// The contents are counted, and the lock is not held yet.
    Lock,
    /// The lock is held, and the store is not removed yet.
    Remove,
    /// Nothing is left to do.
    Done,
}

/// The work that a run asks for next.
#[derive(Debug)]
pub enum PurgeAction {
    /// Say whether there is anything at the path `root` and, if there is, what
    /// both paths resolve to, with every link followed.
    Locate { data_dir: MirrorPath, root: MirrorPath },
    /// Count what is below this path.
    TallyTree(MirrorPath),
    /// Try to lock this file, and keep the lock until the run is done.
    TakeLock(MirrorPath),
    /// Remove the tree at this path.
    RemoveTree(MirrorPath),
    /// Nothing: these are the stats.
    Finish(RawMirrorPurgeStats),
}

/// What came of the work that a run asked for.
#[derive(Debug)]
pub enum PurgeEvent {
    /// There is no store.
    Absent,
    /// There is a store, and this is what the paths of the data directory and
    /// of the store resolve to.
    Found { resolved_dir: MirrorPath, resolved_root: MirrorPath },
    /// What the store holds.
    Tallied { bytes: u64, entries: u64 },
    /// Whether the lock is held.
    Locked(bool),
    /// What came of the removal.
    Removal(Removal),
}

/// What a run stands for.
pub struct PurgeState {
    /// The data directory.
    pub data_dir: Seq<u8>,
    /// How far the run has come.
    pub stage: PurgeStage,
    /// The stats so far.
    pub stats: RawMirrorPurgeStats,
}

/// How a run starts.
pub open spec fn first_state(data_dir: Seq<u8>, dry_run: bool) -> PurgeState {
    PurgeState { data_dir, stage: PurgeStage::Probe, stats: idle_stats(dry_run) }
}

/// Whether an event shows a store that is where it should be: its path
/// resolves to the store's path under what the data directory resolves to.
pub open spec fn shows_contained_store(event: PurgeEvent) -> bool {
    event matches PurgeEvent::Found { resolved_dir, resolved_root } && path_parts(resolved_root@)
        == root_parts(resolved_dir@)
}

/// Whether a run ends in an error at an event: there is a store, but its path
/// resolves elsewhere.
pub open spec fn is_refused(state: PurgeState, event: PurgeEvent) -> bool {
    state.stage is Probe && event is Found && !shows_contained_store(event)
}

/// How a run goes on after an event that is not refused. An event that does
/// not answer what the run asked for changes nothing.
pub open spec fn next_state(state: PurgeState, event: PurgeEvent) -> PurgeState {
    match (state.stage, event) {
        (PurgeStage::Probe, PurgeEvent::Absent) => PurgeState { stage: PurgeStage::Done, ..state },
        (PurgeStage::Probe, PurgeEvent::Found { .. }) => PurgeState {
            stage: PurgeStage::Tally,
            ..state
        },
        (PurgeStage::Tally, PurgeEvent::Tallied { bytes, entries }) => PurgeState {
            stage: if state.stats.dry_run {
                PurgeStage::Done
            } else {
                PurgeStage::Lock
            },
            stats: RawMirrorPurgeStats {
                bytes_reclaimed: bytes,
                entries_removed: entries,
                ..state.stats
            },
            ..state
        },
        (PurgeStage::Lock, PurgeEvent::Locked(held)) => if held {
            PurgeState { stage: PurgeStage::Remove, ..state }
        } else {
            PurgeState {
                stage: PurgeStage::Done,
                stats: idle_stats(state.stats.dry_run),
                ..state
            }
        },
        (PurgeStage::Remove, PurgeEvent::Removal(removal)) => if removal is Failed {
            PurgeState {
                stage: PurgeStage::Done,
                stats: idle_stats(state.stats.dry_run),
                ..state
            }
        } else {
            PurgeState {
                stage: PurgeStage::Done,
                stats: RawMirrorPurgeStats { removed: true, ..state.stats },
                ..state
            }
        },
        _ => state,
    }
}

/// What holds of every run at every time: nothing counts as removed before the
/// run is done, a dry run neither locks nor removes, and a run that is done
/// without a removal reports nothing as reclaimed unless it was a dry run.
pub open spec fn is_sound(state: PurgeState) -> bool {
    &&& state.stats.removed ==> state.stage is Done && !state.stats.dry_run
    &&& (state.stage is Lock || state.stage is Remove) ==> !state.stats.dry_run
    &&& (state.stage is Probe || state.stage is Tally) ==> state.stats == idle_stats(
        state.stats.dry_run,
    )
    &&& (state.stage is Done && !state.stats.dry_run && !state.stats.removed) ==> state.stats
        == idle_stats(false)
}

/// A run starts sound, and every event keeps it sound.
pub proof fn law_runs_are_sound(
    data_dir: Seq<u8>,
    dry_run: bool,
    state: PurgeState,
    event: PurgeEvent,
)
    ensures
        is_sound(first_state(data_dir, dry_run)),
        is_sound(state) ==> is_sound(next_state(state, event)),
        next_state(state, event).data_dir == state.data_dir,
        next_state(state, event).stats.dry_run == state.stats.dry_run,
{
}

/// The store is removed under the lock alone, and never in a dry run: a run
/// comes to the removal only by an event that says that the lock is held.
pub proof fn law_removal_is_guarded(state: PurgeState, event: PurgeEvent)
    requires
        is_sound(state),
        next_state(state, event).stage is Remove,
        state.stage !is Remove,
    ensures
        state.stage is Lock,
        event == PurgeEvent::Locked(true),
        !state.stats.dry_run,
{
}

/// The state of a run after some events; none where one of them was refused.
pub open spec fn after(start: PurgeState, events: Seq<PurgeEvent>) -> Option<PurgeState>
    decreases events.len(),
{
    if events.len() == 0 {
        Some(start)
    } else {
        match after(start, events.drop_last()) {
            Some(state) => if is_refused(state, events.last()) {
                None
            } else {
                Some(next_state(state, events.last()))
            },
            None => None,
        }
    }
}

/// Nothing is counted, locked or removed but in a store whose path resolves to
/// where it should: whatever the events, a run that has come that far was told
/// of such a store.
pub proof fn law_work_needs_containment(
    data_dir: Seq<u8>,
    dry_run: bool,
    events: Seq<PurgeEvent>,
)
    requires
        after(first_state(data_dir, dry_run), events) is Some,
    ensures
        ({
            let state = after(first_state(data_dir, dry_run), events)->0;
            state.stage is Tally || state.stage is Lock || state.stage is Remove
                || state.stats != idle_stats(dry_run) ==> exists|i: int|
                0 <= i < events.len() && #[trigger] shows_contained_store(events[i])
        }),
        is_sound(after(first_state(data_dir, dry_run), events)->0),
        after(first_state(data_dir, dry_run), events)->0.data_dir == data_dir,
        after(first_state(data_dir, dry_run), events)->0.stats.dry_run == dry_run,
    decreases events.len(),
{
    if events.len() > 0 {
        let start = first_state(data_dir, dry_run);
        let front = events.drop_last();
        law_work_needs_containment(data_dir, dry_run, front);
        let before = after(start, front)->0;
        if before.stage is Probe && shows_contained_store(events.last()) {
            assert(shows_contained_store(events[events.len() - 1]));
        }
        if exists|i: int| 0 <= i < front.len() && #[trigger] shows_contained_store(front[i]) {
            let i = choose|i: int|
                0 <= i < front.len() && #[trigger] shows_contained_store(front[i]);
            assert(shows_contained_store(events[i]));
        }
    }
}

/// A store that is where it should be lies within what the data directory
/// resolves to, and nothing beside it there lies within it.
pub proof fn law_contained_store_is_inside(
    resolved_dir: MirrorPath,
    resolved_root: MirrorPath,
    name: Seq<u8>,
    below: Seq<Part>,
)
    requires
        shows_contained_store(PurgeEvent::Found { resolved_dir, resolved_root }),
        is_plain_name(name),
        name != encode_utf8(RAW_MIRROR_ROOT_DIR@),
    ensures
        is_within(path_parts(resolved_root@), path_parts(resolved_dir@)),
        !is_within(
            path_parts(joined(resolved_dir@, name)) + below,
            path_parts(resolved_root@),
        ),
{
    law_store_root_is_contained(resolved_dir@);
    law_siblings_are_outside(resolved_dir@, name, below);
}

/// The answers that the work of a run would have.
pub struct PurgeFacts {
    /// Whether there is a store.
    pub exists: bool,
    /// What the path of the data directory resolves to.
    pub resolved_dir: MirrorPath,
    /// What the path of the store resolves to.
    pub resolved_root: MirrorPath,
    /// The bytes that it holds.
    pub bytes: u64,
    /// The entries that it holds.
    pub entries: u64,
    /// Whether the lock can be had.
    pub lock: bool,
    /// What comes of the removal.
    pub removal: Removal,
}

/// The answer to the first thing that a run asks for.
pub open spec fn located(facts: PurgeFacts) -> PurgeEvent {
    if facts.exists {
        PurgeEvent::Found { resolved_dir: facts.resolved_dir, resolved_root: facts.resolved_root }
    } else {
        PurgeEvent::Absent
    }
}

/// The answer to what a run asks for.
pub open spec fn answer(stage: PurgeStage, facts: PurgeFacts) -> PurgeEvent {
    match stage {
        PurgeStage::Probe => located(facts),
        PurgeStage::Tally => PurgeEvent::Tallied { bytes: facts.bytes, entries: facts.entries },
        PurgeStage::Lock => PurgeEvent::Locked(facts.lock),
        _ => PurgeEvent::Removal(facts.removal),
    }
}

/// The state of a run after some answers; none where one was refused.
pub open spec fn driven(state: PurgeState, facts: PurgeFacts, answers: nat) -> Option<PurgeState>
    decreases answers,
{
    let event = answer(state.stage, facts);
    if answers == 0 {
        Some(state)
    } else if is_refused(state, event) {
        None
    } else {
        driven(next_state(state, event), facts, (answers - 1) as nat)
    }
}

/// Whether a purge ends in an error, by what it finds: there is a store, and
/// its path resolves elsewhere.
pub open spec fn is_astray(facts: PurgeFacts) -> bool {
    facts.exists && path_parts(facts.resolved_root@) != root_parts(facts.resolved_dir@)
}

/// The stats that a purge reports, by what it finds, where it ends in no
/// error.
pub open spec fn purge_stats(dry_run: bool, facts: PurgeFacts) -> RawMirrorPurgeStats {
    let tallied = RawMirrorPurgeStats {
        removed: !dry_run,
        bytes_reclaimed: facts.bytes,
        entries_removed: facts.entries,
        dry_run,
    };
    if !facts.exists {
        idle_stats(dry_run)
    } else if dry_run {
        tallied
    } else if !facts.lock || facts.removal is Failed {
        idle_stats(dry_run)
    } else {
        tallied
    }
}

/// A run ends in an error at its first answer if there is a store that
/// resolves elsewhere, and only then; else it is done after four answers at
/// most, with the stats that what it finds calls for.
pub proof fn law_purge_outcome(data_dir: Seq<u8>, dry_run: bool, facts: PurgeFacts)
    ensures
        is_astray(facts) <==> driven(first_state(data_dir, dry_run), facts, 1) is None,
        is_astray(facts) <==> driven(first_state(data_dir, dry_run), facts, 4) is None,
        !is_astray(facts) ==> driven(first_state(data_dir, dry_run), facts, 4) == Some(
            PurgeState {
                data_dir,
                stage: PurgeStage::Done,
                stats: purge_stats(dry_run, facts),
            },
        ),
{
    reveal_with_fuel(driven, 5);
}

/// A dry run never comes to the lock or the removal, and reports what it
/// counted.
pub proof fn law_dry_run_only_reports(data_dir: Seq<u8>, facts: PurgeFacts, answers: nat)
    ensures
        driven(first_state(data_dir, true), facts, answers) matches Some(state) ==> state.stage
            !is Lock && state.stage !is Remove && !state.stats.removed,
        facts.exists ==> purge_stats(true, facts).bytes_reclaimed == facts.bytes
            && purge_stats(true, facts).entries_removed == facts.entries,
{
    lemma_dry_run_stays_dry(first_state(data_dir, true), facts, answers);
}

proof fn lemma_dry_run_stays_dry(state: PurgeState, facts: PurgeFacts, answers: nat)
    requires
        is_sound(state),
        state.stats.dry_run,
    ensures
        driven(state, facts, answers) matches Some(next) ==> is_sound(next) && next.stats.dry_run,
    decreases answers,
{
    let event = answer(state.stage, facts);
    if answers > 0 && !is_refused(state, event) {
        lemma_dry_run_stays_dry(next_state(state, event), facts, (answers - 1) as nat);
    }
}

/// Whether a store is left by a purge, by what it finds.
pub open spec fn store_left(dry_run: bool, facts: PurgeFacts) -> bool {
    facts.exists && (is_astray(facts) || !purge_stats(dry_run, facts).removed)
}

/// Purging is idempotent: after a purge that removed the store or found none,
/// the next one, which finds what the first left, does nothing.
pub proof fn law_purge_is_idempotent(
    data_dir: Seq<u8>,
    dry_run: bool,
    first: PurgeFacts,
    second: PurgeFacts,
)
    requires
        !is_astray(first),
        purge_stats(false, first).removed || !first.exists,
        second.exists == store_left(false, first),
    ensures
        driven(first_state(data_dir, dry_run), second, 1) == Some(
            PurgeState { data_dir, stage: PurgeStage::Done, stats: idle_stats(dry_run) },
        ),
        purge_stats(dry_run, second) == idle_stats(dry_run),
{
    reveal_with_fuel(driven, 2);
}

/// A purge leaves alone what lies beside the store: the path that it removes
/// is within no other name of the data directory, nor any of those within it.
pub proof fn law_purge_spares_siblings(data_dir: Seq<u8>, name: Seq<u8>, below: Seq<Part>)
    requires
        is_plain_name(name),
        name != encode_utf8(RAW_MIRROR_ROOT_DIR@),
    ensures
        !is_within(path_parts(joined(data_dir, name)) + below, path_parts(root_path(data_dir))),
        !is_within(path_parts(root_path(data_dir)), path_parts(joined(data_dir, name)) + below),
{
    law_siblings_are_outside(data_dir, name, below);
    law_root_parts(data_dir);
    law_join_adds_plain_name(data_dir, name);
    let k = path_parts(data_dir).len() as int;
    let root = root_parts(data_dir);
    let path = path_parts(joined(data_dir, name)) + below;
    assert(path[k] == Part::Normal(name));
    assert(root[k] == Part::Normal(encode_utf8(RAW_MIRROR_ROOT_DIR@)));
    if is_within(root, path) {
        assert(root.take(path.len() as int)[k] == path[k]);
    }
}

// ---------------------------------------------------------------------------
// What a run does, event by event
// ---------------------------------------------------------------------------

/// The components of the store's place under a directory.
pub open spec fn place_under(dir: Seq<u8>) -> Seq<Part> {
    path_parts(dir) + seq![
        Part::Normal(encode_utf8("raw-mirror"@)),
        Part::Normal(encode_utf8("v1"@)),
    ]
}

proof fn lemma_one_more_event(start: PurgeState, events: Seq<PurgeEvent>, event: PurgeEvent)
    ensures
        after(start, events.push(event)) == (match after(start, events) {
            Some(state) => if is_refused(state, event) {
                None
            } else {
                Some(next_state(state, event))
            },
            None => None,
        }),
{
    assert(events.push(event).drop_last() =~= events);
    assert(events.push(event).last() == event);
}

/// A run that is told of no store ends at once and reports nothing; one that is
/// told of a store ends in an error where the store is not in its place.
pub proof fn law_run_begins(
    data_dir: Seq<u8>,
    dry_run: bool,
    resolved_dir: MirrorPath,
    resolved_root: MirrorPath,
)
    ensures
        idle_stats(dry_run) == (RawMirrorPurgeStats {
            removed: false,
            bytes_reclaimed: 0,
            entries_removed: 0,
            dry_run,
        }),
        after(first_state(data_dir, dry_run), seq![]) == Some(
            PurgeState {
                data_dir,
                stage: PurgeStage::Probe,
                stats: RawMirrorPurgeStats {
                    removed: false,
                    bytes_reclaimed: 0,
                    entries_removed: 0,
                    dry_run,
                },
            },
        ),
        after(first_state(data_dir, dry_run), seq![PurgeEvent::Absent]) == Some(
            PurgeState {
                data_dir,
                stage: PurgeStage::Done,
                stats: RawMirrorPurgeStats {
                    removed: false,
                    bytes_reclaimed: 0,
                    entries_removed: 0,
                    dry_run,
                },
            },
        ),
        after(
            first_state(data_dir, dry_run),
            seq![PurgeEvent::Found { resolved_dir, resolved_root }],
        ) is None <==> path_parts(resolved_root@) != place_under(resolved_dir@),
{
    let start = first_state(data_dir, dry_run);
    let none = Seq::<PurgeEvent>::empty();
    let found = PurgeEvent::Found { resolved_dir, resolved_root };
    law_store_lies_under_data_dir(resolved_dir@);
    assert(after(start, none) == Some(start));
    lemma_one_more_event(start, none, PurgeEvent::Absent);
    lemma_one_more_event(start, none, found);
    assert(none.push(PurgeEvent::Absent) =~= seq![PurgeEvent::Absent]);
    assert(none.push(found) =~= seq![found]);
}

/// A dry run that finds the store in its place counts it and is done, with the
/// count as it was given and nothing removed.
pub proof fn law_dry_run_counts(
    data_dir: Seq<u8>,
    resolved_dir: MirrorPath,
    resolved_root: MirrorPath,
    bytes: u64,
    entries: u64,
)
    requires
        path_parts(resolved_root@) == place_under(resolved_dir@),
    ensures
        after(
            first_state(data_dir, true),
            seq![PurgeEvent::Found { resolved_dir, resolved_root }],
        ) matches Some(state) && state.stage is Tally,
        after(
            first_state(data_dir, true),
            seq![
                PurgeEvent::Found { resolved_dir, resolved_root },
                PurgeEvent::Tallied { bytes, entries },
            ],
        ) == Some(
            PurgeState {
                data_dir,
                stage: PurgeStage::Done,
                stats: RawMirrorPurgeStats {
                    removed: false,
                    bytes_reclaimed: bytes,
                    entries_removed: entries,
                    dry_run: true,
                },
            },
        ),
{
    let start = first_state(data_dir, true);
    let none = Seq::<PurgeEvent>::empty();
    let found = PurgeEvent::Found { resolved_dir, resolved_root };
    let tallied = PurgeEvent::Tallied { bytes, entries };
    law_store_lies_under_data_dir(resolved_dir@);
    lemma_one_more_event(start, none, found);
    lemma_one_more_event(start, none.push(found), tallied);
    assert(none.push(found) =~= seq![found]);
    assert(none.push(found).push(tallied) =~= seq![found, tallied]);
}

/// A run that is no dry run and finds the store in its place counts it first,
/// then asks for the lock, then for the removal, and is done then. It reports
/// the count that it was given where the store is gone by then, and nothing
/// where the lock could not be had or the removal failed.
pub proof fn law_purge_counts_locks_removes(
    data_dir: Seq<u8>,
    resolved_dir: MirrorPath,
    resolved_root: MirrorPath,
    bytes: u64,
    entries: u64,
    removal: Removal,
)
    requires
        path_parts(resolved_root@) == place_under(resolved_dir@),
    ensures
        ({
            let start = first_state(data_dir, false);
            let found = PurgeEvent::Found { resolved_dir, resolved_root };
            let tallied = PurgeEvent::Tallied { bytes, entries };
            let nothing = RawMirrorPurgeStats {
                removed: false,
                bytes_reclaimed: 0,
                entries_removed: 0,
                dry_run: false,
            };
            let counted = RawMirrorPurgeStats {
                removed: false,
                bytes_reclaimed: bytes,
                entries_removed: entries,
                dry_run: false,
            };
            let removed = RawMirrorPurgeStats {
                removed: true,
                bytes_reclaimed: bytes,
                entries_removed: entries,
                dry_run: false,
            };
            &&& after(start, seq![found]) == Some(
                PurgeState { data_dir, stage: PurgeStage::Tally, stats: nothing },
            )
            &&& after(start, seq![found, tallied]) == Some(
                PurgeState { data_dir, stage: PurgeStage::Lock, stats: counted },
            )
            &&& after(start, seq![found, tallied, PurgeEvent::Locked(false)]) == Some(
                PurgeState { data_dir, stage: PurgeStage::Done, stats: nothing },
            )
            &&& after(start, seq![found, tallied, PurgeEvent::Locked(true)]) == Some(
                PurgeState { data_dir, stage: PurgeStage::Remove, stats: counted },
            )
            &&& after(
                start,
                seq![found, tallied, PurgeEvent::Locked(true), PurgeEvent::Removal(removal)],
            ) == Some(
                PurgeState {
                    data_dir,
                    stage: PurgeStage::Done,
                    stats: if removal == Removal::Failed {
                        nothing
                    } else {
                        removed
                    },
                },
            )
        }),
{
    let start = first_state(data_dir, false);
    let none = Seq::<PurgeEvent>::empty();
    let found = PurgeEvent::Found { resolved_dir, resolved_root };
    let tallied = PurgeEvent::Tallied { bytes, entries };
    let busy = PurgeEvent::Locked(false);
    let held = PurgeEvent::Locked(true);
    let outcome = PurgeEvent::Removal(removal);
    let one = none.push(found);
    let two = one.push(tallied);
    let three = two.push(held);
    law_store_lies_under_data_dir(resolved_dir@);
    lemma_one_more_event(start, none, found);
    lemma_one_more_event(start, one, tallied);
    lemma_one_more_event(start, two, busy);
    lemma_one_more_event(start, two, held);
    lemma_one_more_event(start, three, outcome);
    assert(one =~= seq![found]);
    assert(two =~= seq![found, tallied]);
    assert(two.push(busy) =~= seq![found, tallied, busy]);
    assert(three =~= seq![found, tallied, held]);
    assert(three.push(outcome) =~= seq![found, tallied, held, outcome]);
}

/// An event that does not answer what a run asked for changes nothing, and
/// neither does any event once the run is done.
pub proof fn law_other_answers_change_nothing(state: PurgeState, event: PurgeEvent)
    requires
        state.stage is Done || match event {
            PurgeEvent::Absent => state.stage !is Probe,
            PurgeEvent::Found { .. } => state.stage !is Probe,
            PurgeEvent::Tallied { .. } => state.stage !is Tally,
            PurgeEvent::Locked(_) => state.stage !is Lock,
            PurgeEvent::Removal(_) => state.stage !is Remove,
        },
    ensures
        next_state(state, event) == state,
        !is_refused(state, event),
{
}

/// Whether the store was found in its place at one event and counted, as the
/// stats say, at a later one.
pub open spec fn counted_at(
    events: Seq<PurgeEvent>,
    stats: RawMirrorPurgeStats,
    found: int,
    tallied: int,
) -> bool {
    &&& 0 <= found < tallied < events.len()
    &&& events[found] matches PurgeEvent::Found { resolved_dir, resolved_root } && path_parts(
        resolved_root@,
    ) == place_under(resolved_dir@)
    &&& events[tallied] == PurgeEvent::Tallied {
        bytes: stats.bytes_reclaimed,
        entries: stats.entries_removed,
    }
}

/// Whether the lock was had at an event, behind the count.
pub open spec fn locked_at(
    events: Seq<PurgeEvent>,
    stats: RawMirrorPurgeStats,
    found: int,
    tallied: int,
    locked: int,
) -> bool {
    &&& counted_at(events, stats, found, tallied)
    &&& tallied < locked < events.len()
    &&& events[locked] == PurgeEvent::Locked(true)
}

/// Whether the store was gone by an event, behind the lock.
pub open spec fn gone_at(
    events: Seq<PurgeEvent>,
    stats: RawMirrorPurgeStats,
    found: int,
    tallied: int,
    locked: int,
    gone: int,
) -> bool {
    &&& locked_at(events, stats, found, tallied, locked)
    &&& locked < gone < events.len()
    &&& events[gone] == PurgeEvent::Removal(Removal::Removed) || events[gone]
        == PurgeEvent::Removal(Removal::Absent)
}

/// Whatever the events, the store is counted before the lock is asked for, the
/// lock is had before the removal is, and what is reported as removed was
/// counted, locked and then removed, in that order; the stats are those of that
/// count. Whatever else is reported is nothing, but for the count of a dry run.
pub proof fn law_store_is_counted_before_it_goes(
    data_dir: Seq<u8>,
    dry_run: bool,
    events: Seq<PurgeEvent>,
)
    requires
        after(first_state(data_dir, dry_run), events) is Some,
    ensures
        ({
            let state = after(first_state(data_dir, dry_run), events)->0;
            let stats = state.stats;
            &&& stats.dry_run == dry_run
            &&& state.stage is Lock ==> !dry_run && !stats.removed && exists|i: int, j: int|
                #[trigger] counted_at(events, stats, i, j)
            &&& state.stage is Remove ==> !dry_run && !stats.removed && exists|
                i: int,
                j: int,
                k: int,
            | #[trigger] locked_at(events, stats, i, j, k)
            &&& stats.removed ==> !dry_run && state.stage is Done && exists|
                i: int,
                j: int,
                k: int,
                l: int,
            | #[trigger] gone_at(events, stats, i, j, k, l)
            &&& state.stage is Probe || state.stage is Tally ==> !stats.removed
                && stats.bytes_reclaimed == 0 && stats.entries_removed == 0
            &&& state.stage is Done && !stats.removed && !(stats.bytes_reclaimed == 0
                && stats.entries_removed == 0) ==> dry_run && exists|i: int, j: int|
                #[trigger] counted_at(events, stats, i, j)
            &&& state.stage is Tally ==> exists|i: int|
                0 <= i < events.len() && #[trigger] found_in_place(events[i])
        }),
    decreases events.len(),
{
    let start = first_state(data_dir, dry_run);
    if events.len() > 0 {
        let front = events.drop_last();
        let event = events.last();
        let n = front.len() as int;
        law_store_is_counted_before_it_goes(data_dir, dry_run, front);
        let before = after(start, front)->0;
        let state = after(start, events)->0;
        assert(state == next_state(before, event));
        assert forall|i: int| 0 <= i < n && #[trigger] found_in_place(front[i]) implies
            found_in_place(events[i]) by {
        }
        assert forall|stats: RawMirrorPurgeStats, i: int, j: int| #[trigger]
            counted_at(front, stats, i, j) implies counted_at(events, stats, i, j) by {
            assert(events[i] == front[i] && events[j] == front[j]);
        }
        assert forall|stats: RawMirrorPurgeStats, i: int, j: int, k: int| #[trigger]
            locked_at(front, stats, i, j, k) implies locked_at(events, stats, i, j, k) by {
            assert(events[k] == front[k]);
            assert(counted_at(front, stats, i, j));
        }
        assert forall|stats: RawMirrorPurgeStats, i: int, j: int, k: int, l: int| #[trigger]
            gone_at(front, stats, i, j, k, l) implies gone_at(events, stats, i, j, k, l) by {
            assert(events[l] == front[l]);
            assert(locked_at(front, stats, i, j, k));
        }
        if before.stage is Probe && event is Found {
            law_store_lies_under_data_dir(event->resolved_dir@);
            assert(found_in_place(events[n]));
        }
        if before.stage is Tally && event is Tallied {
            let i = choose|i: int| 0 <= i < n && #[trigger] found_in_place(front[i]);
            assert(counted_at(events, state.stats, i, n));
        }
        if before.stage is Lock && event == PurgeEvent::Locked(true) {
            let (i, j) = choose|i: int, j: int| #[trigger] counted_at(front, before.stats, i, j);
            assert(counted_at(events, state.stats, i, j));
            assert(locked_at(events, state.stats, i, j, n));
        }
        if before.stage is Remove && event is Removal {
            let (i, j, k) = choose|i: int, j: int, k: int| #[trigger]
                locked_at(front, before.stats, i, j, k);
            assert(locked_at(events, before.stats, i, j, k));
            assert(counted_at(events, before.stats, i, j));
            if state.stats.removed {
                assert(counted_at(events, state.stats, i, j));
                assert(locked_at(events, state.stats, i, j, k));
                assert(gone_at(events, state.stats, i, j, k, n));
            }
        }
    }
}

/// Whether an event tells of the store in its place.
pub open spec fn found_in_place(event: PurgeEvent) -> bool {
    event matches PurgeEvent::Found { resolved_dir, resolved_root } && path_parts(resolved_root@)
        == place_under(resolved_dir@)
}

/// The answer to what a run asks for where the store may be gone: then there is
/// nothing to find, to count or to remove.
pub open spec fn answer_once(stage: PurgeStage, facts: PurgeFacts, gone: bool) -> PurgeEvent {
    if !gone {
        answer(stage, facts)
    } else {
        match stage {
            PurgeStage::Probe => PurgeEvent::Absent,
            PurgeStage::Tally => PurgeEvent::Tallied { bytes: 0, entries: 0 },
            PurgeStage::Lock => PurgeEvent::Locked(facts.lock),
            _ => PurgeEvent::Removal(Removal::Absent),
        }
    }
}

/// The state of a run after some answers, each given as things stand then: a
/// removal that does not fail leaves no store behind.
pub open spec fn enacted(
    state: PurgeState,
    facts: PurgeFacts,
    gone: bool,
    answers: nat,
) -> Option<PurgeState>
    decreases answers,
{
    let event = answer_once(state.stage, facts, gone);
    if answers == 0 {
        Some(state)
    } else if is_refused(state, event) {
        None
    } else {
        enacted(
            next_state(state, event),
            facts,
            gone || (state.stage is Remove && facts.removal !is Failed),
            (answers - 1) as nat,
        )
    }
}

/// What a purge reports, with each answer given as things stand when it is
/// asked for: the bytes and entries that the store held before it went.
pub proof fn law_purge_reports_what_the_store_held(
    data_dir: Seq<u8>,
    dry_run: bool,
    facts: PurgeFacts,
)
    ensures
        ({
            let run = enacted(first_state(data_dir, dry_run), facts, false, 4);
            let in_place = path_parts(facts.resolved_root@) == place_under(facts.resolved_dir@);
            let removes = !dry_run && facts.lock && facts.removal !is Failed;
            &&& run is None <==> facts.exists && !in_place
            &&& run is Some ==> run->0.data_dir == data_dir && run->0.stage is Done
                && run->0.stats.dry_run == dry_run
            &&& run is Some ==> (run->0.stats.removed <==> facts.exists && removes)
            &&& run is Some && facts.exists && (dry_run || removes)
                ==> run->0.stats.bytes_reclaimed == facts.bytes && run->0.stats.entries_removed
                == facts.entries
            &&& run is Some && !(facts.exists && (dry_run || removes))
                ==> run->0.stats.bytes_reclaimed == 0 && run->0.stats.entries_removed == 0
        }),
{
    law_store_lies_under_data_dir(facts.resolved_dir@);
    reveal_with_fuel(enacted, 5);
}

/// A purge of the store under one data directory.
#[derive(Debug)]
pub struct PurgeRun {
    data_dir: MirrorPath,
    stage: PurgeStage,
    stats: RawMirrorPurgeStats,
}

impl View for PurgeRun {
    type V = PurgeState;

    closed spec fn view(&self) -> PurgeState {
        PurgeState { data_dir: self.data_dir@, stage: self.stage, stats: self.stats }
    }
}

impl PurgeRun {
    #[verifier::type_invariant]
    spec fn sound(self) -> bool {
        is_sound(self@)
    }

    /// A purge that has not begun. A dry run only reports.
    pub fn start(data_dir: &MirrorPath, dry_run: bool) -> (run: PurgeRun)
        ensures
            run@ == first_state(data_dir@, dry_run),
            is_sound(run@),
    {
        let mut stats = RawMirrorPurgeStats::default();
        stats.dry_run = dry_run;
        PurgeRun { data_dir: data_dir.clone(), stage: PurgeStage::Probe, stats }
    }

    /// The work to do next.
    pub fn action(&self) -> (action: PurgeAction)
        ensures
            match action {
                PurgeAction::Locate { data_dir, root } => {
                    &&& self@.stage is Probe
                    &&& data_dir@ == self@.data_dir
                    &&& root@ == root_path(self@.data_dir)
                },
                PurgeAction::TallyTree(path) => self@.stage is Tally && path@ == root_path(
                    self@.data_dir,
                ),
                PurgeAction::TakeLock(path) => {
                    &&& self@.stage is Lock
                    &&& !self@.stats.dry_run
                    &&& path@ == joined(self@.data_dir, encode_utf8(INDEX_RUN_LOCK@))
                },
                PurgeAction::RemoveTree(path) => {
                    &&& self@.stage is Remove
                    &&& !self@.stats.dry_run
                    &&& path@ == root_path(self@.data_dir)
                    &&& path_parts(path@) == root_parts(self@.data_dir)
                },
                PurgeAction::Finish(stats) => self@.stage is Done && stats == self@.stats,
            },
    {
        proof {
            use_type_invariant(self);
        }
        match self.stage {
            PurgeStage::Probe => PurgeAction::Locate {
                data_dir: self.data_dir.clone(),
                root: raw_mirror_root(&self.data_dir),
            },
            PurgeStage::Tally => PurgeAction::TallyTree(raw_mirror_root(&self.data_dir)),
            PurgeStage::Lock => PurgeAction::TakeLock(index_run_lock_path(&self.data_dir)),
            PurgeStage::Remove => PurgeAction::RemoveTree(raw_mirror_root(&self.data_dir)),
            PurgeStage::Done => PurgeAction::Finish(self.stats),
        }
    }

    /// Goes on by what came of the work. Before anything of a store is counted
    /// or removed, what its path resolves to is held against what the data
    /// directory resolves to; a store that is elsewhere is an error.
    pub fn step(self, event: PurgeEvent) -> (next: Result<PurgeRun, ContainmentError>)
        ensures
            next is Err <==> is_refused(self@, event),
            next is Err ==> (next->Err_0 matches ContainmentError::NotCanonical {
                root: refused,
                expected,
            } && event matches PurgeEvent::Found { resolved_dir, resolved_root } && refused@
                == resolved_root@ && expected@ == root_path(resolved_dir@)),
            next is Ok ==> next->Ok_0@ == next_state(self@, event) && is_sound(next->Ok_0@),
    {
        proof {
            use_type_invariant(&self);
        }
        let data_dir = self.data_dir;
        let stage = self.stage;
        let mut stats = self.stats;
        let next_stage = match (stage, event) {
            (PurgeStage::Probe, PurgeEvent::Absent) => PurgeStage::Done,
            (PurgeStage::Probe, PurgeEvent::Found { resolved_dir, resolved_root }) => {
                match assert_raw_mirror_root_contained(&resolved_dir, &resolved_root) {
                    Ok(()) => PurgeStage::Tally,
                    Err(error) => {
                        return Err(error);
                    },
                }
            },
            (PurgeStage::Tally, PurgeEvent::Tallied { bytes, entries }) => {
                stats.bytes_reclaimed = bytes;
                stats.entries_removed = entries;
                if stats.dry_run {
                    PurgeStage::Done
                } else {
                    PurgeStage::Lock
                }
            },
            (PurgeStage::Lock, PurgeEvent::Locked(held)) => {
                if held {
                    PurgeStage::Remove
                } else {
                    stats.bytes_reclaimed = 0;
                    stats.entries_removed = 0;
                    PurgeStage::Done
                }
            },
            (PurgeStage::Remove, PurgeEvent::Removal(removal)) => {
                match removal {
                    Removal::Removed | Removal::Absent => {
                        stats.removed = true;
                    },
                    Removal::Failed => {
                        stats.bytes_reclaimed = 0;
                        stats.entries_removed = 0;
                    },
                }
                PurgeStage::Done
            },
            _ => stage,
        };
        Ok(PurgeRun { data_dir, stage: next_stage, stats })
    }
}

} // verus!
