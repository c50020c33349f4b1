//! The watcher of a project: which one is active, when it looks again, and how far it goes
//! after a change.

use vstd::prelude::*;

use crate::clock::{now_ms, on_clock};
use crate::order::TextSet;
use crate::paths::Platform;
use crate::queue::{FileChangeQueue, FileChangeRescanResult, FileChangeTask};
use crate::sync::{emit_queue, EventView, SyncEvent, EVENT_QUEUE_UPDATED};
use crate::text::{opt_text, texts};
use crate::watch::clone_texts;

verus! {

/// How often files are looked at again where the system does not tell of all changes, in
/// milliseconds.
pub const LINUX_RESCAN_INTERVAL_MS: i64 = 10_000;

/// What is being watched. Each watcher works for the generation that it was started in,
/// and stops of its own accord when that is over.
#[derive(Debug)]
pub struct FileSyncInner {
    pub generation: u64,
    pub project_id: Option<String>,
    pub project_path: Option<String>,
}

impl Default for FileSyncInner {
    fn default() -> (r: FileSyncInner)
        ensures
            r.generation == 0,
            r.project_id is None,
            r.project_path is None,
    {
        FileSyncInner { generation: 0, project_id: None, project_path: None }
    }
}

/// Begins a generation, and with it ends the one before.
pub fn next_watcher_generation(state: &mut FileSyncInner) -> (r: u64)
    requires
        old(state).generation < u64::MAX,
    ensures
        r == old(state).generation + 1,
        final(state).generation == r,
        final(state).project_id == old(state).project_id,
        final(state).project_path == old(state).project_path,
{
    state.generation = state.generation + 1;
    state.generation
}

/// Notes which project is being watched.
pub fn watch_project(state: &mut FileSyncInner, project_id: &str, project_path: &str)
    ensures
        final(state).generation == old(state).generation,
        opt_text(final(state).project_id) == Some(project_id@),
        opt_text(final(state).project_path) == Some(project_path@),
{
    state.project_id = Some(project_id.to_owned());
    state.project_path = Some(project_path.to_owned());
}

/// Whether the generation is the present one.
pub fn is_active_watcher_generation(state: &FileSyncInner, generation: u64) -> (r: bool)
    ensures
        r == (state.generation == generation),
{
    state.generation == generation
}

/// The generation after `g`; after the last the count begins anew.
pub open spec fn following(g: u64) -> u64 {
    if g == u64::MAX {
        0
    } else {
        (g + 1) as u64
    }
}

/// Stops watching.
pub fn stop_project_file_watcher(state: &mut FileSyncInner)
    ensures
        final(state).generation == following(old(state).generation),
        final(state).project_id is None,
        final(state).project_path is None,
{
    state.generation = if state.generation == u64::MAX {
        0
    } else {
        state.generation + 1
    };
    state.project_id = None;
    state.project_path = None;
}

/// A watcher whose generation was the present one is not active once watching stopped or
/// another watcher was started.
pub proof fn law_ended_generation_is_inactive(before: FileSyncInner, after: FileSyncInner)
    requires
        after.generation == following(before.generation),
    ensures
        after.generation != before.generation,
{
}

/// Whether it is time to look at the files again.
pub open spec fn is_rescan_due(platform: Platform, now: i64, last: i64) -> bool {
    platform is Linux && now - last >= LINUX_RESCAN_INTERVAL_MS
}

/// Whether at `now` it is time to look at the files again. If so the time that is kept of
/// the last look becomes `stamp`.
pub fn maybe_periodic_rescan_at(platform: Platform, last: &mut i64, now: i64, stamp: i64) -> (r:
    bool)
    requires
        i64::MIN <= now - *old(last) <= i64::MAX,
    ensures
        r == is_rescan_due(platform, now, *old(last)),
        *final(last) == if r {
            stamp
        } else {
            *old(last)
        },
{
    if platform != Platform::Linux || now - *last < LINUX_RESCAN_INTERVAL_MS {
        return false;
    }
    *last = stamp;
    true
}

/// Whether it is time to look at the files again, as of the present time.
pub fn maybe_periodic_rescan(platform: Platform, last: &mut i64) -> (r: bool)
    requires
        on_clock(*old(last)),
    ensures
        exists|now: i64| on_clock(now) && r == #[trigger] is_rescan_due(platform, now, *old(last)),
        on_clock(*final(last)),
        !r ==> *final(last) == *old(last),
{
    let now: i64 = now_ms();
    let stamp: i64 = now_ms();
    maybe_periodic_rescan_at(platform, last, now, stamp)
}

/// The parts of a project that are looked at again.
pub fn watch_prefixes() -> (r: Vec<String>)
    ensures
        texts(r@) == seq!["raw/sources"@, "wiki"@, "purpose.md"@, "schema.md"@],
{
    let mut v: Vec<String> = Vec::new();
    v.push("raw/sources".to_owned());
    v.push("wiki".to_owned());
    v.push("purpose.md".to_owned());
    v.push("schema.md".to_owned());
    assert(texts(v@) =~= seq!["raw/sources"@, "wiki"@, "purpose.md"@, "schema.md"@]);
    v
}

/// What the worker of a watcher hears: that a path changed, that nothing came for a while,
/// or that the watcher is gone.
#[derive(Debug)]
pub enum WorkerEvent {
    Changed(String),
    Quiet,
    Gone,
}

/// What the worker does: wait on, look again if it is time, handle the paths and then look
/// again if it is time, or end.
#[derive(Debug)]
pub enum WorkerStep {
    Wait,
    LookAgain,
    Handle(Vec<String>),
    End,
}

/// The paths that wait to be handled after an event.
pub open spec fn pending_after(pending: Set<Seq<char>>, event: WorkerEvent) -> Set<Seq<char>> {
    match event {
        WorkerEvent::Changed(path) => pending.insert(path@),
        WorkerEvent::Quiet => Set::empty(),
        WorkerEvent::Gone => pending,
    }
}

/// The paths that are handled because of an event.
pub open spec fn handled_by(pending: Set<Seq<char>>, event: WorkerEvent) -> Set<Seq<char>> {
    match event {
        WorkerEvent::Quiet => pending,
        _ => Set::empty(),
    }
}

/// What the worker does about an event. Paths are collected, each once, until nothing has
/// come for a while, and are then handled together.
pub fn worker_step(pending: &mut TextSet, event: WorkerEvent) -> (r: WorkerStep)
    ensures
        final(pending)@ == pending_after(old(pending)@, event),
        r is Wait <==> event is Changed,
        r is End <==> event is Gone,
        r is LookAgain <==> event is Quiet && old(pending)@ == Set::<Seq<char>>::empty(),
        match r {
            WorkerStep::Handle(paths) => {
                &&& texts(paths@).to_set() == handled_by(old(pending)@, event)
                &&& crate::order::increasing(texts(paths@))
            },
            _ => handled_by(old(pending)@, event) == Set::<Seq<char>>::empty(),
        },
{
    match event {
        WorkerEvent::Changed(path) => {
            pending.insert(path);
            WorkerStep::Wait
        },
        WorkerEvent::Quiet => {
            if pending.is_empty() {
                return WorkerStep::LookAgain;
            }
            let paths = clone_texts(pending.items());
            *pending = TextSet::new();
            WorkerStep::Handle(paths)
        },
        WorkerEvent::Gone => WorkerStep::End,
    }
}

/// How far the handling of a change has come: paths were noticed; it is known whether the
/// application wrote some of the files itself and whether others are to be looked at; what
/// the application wrote is in the snapshot; the changes are in the queue; the queue is
/// worked off; it is read again.
#[derive(Debug, Clone, Copy, PartialEq, Eq, Structural)]
pub enum SyncStage {
    Noticed,
    Planned { own: bool, others: bool },
    Recorded { others: bool },
    Entered,
    WorkedOff,
    Reread,
}

/// What is to be done next: find out which files are concerned, take into the snapshot what
/// the application wrote, enter the changes, work the queue off, read it again, tell
/// listeners of it, or stop.
#[derive(Debug, Clone, Copy, PartialEq, Eq, Structural)]
pub enum SyncStep {
    Plan,
    Record,
    Enter,
    WorkOff,
    Reread,
    Tell,
    Stop,
}

/// What is to be done with the files that the application did not write itself.
pub open spec fn step_on(others: bool, active: bool) -> SyncStep {
    if others && active {
        SyncStep::Enter
    } else {
        SyncStep::Stop
    }
}

/// What is to be done after a stage. Once paths were looked at, what the application wrote
/// itself is recorded whether or not the watcher is still active.
pub open spec fn step_after(stage: SyncStage, active: bool) -> SyncStep {
    match stage {
        SyncStage::Noticed => if active {
            SyncStep::Plan
        } else {
            SyncStep::Stop
        },
        SyncStage::Planned { own, others } => if own {
            SyncStep::Record
        } else {
            step_on(others, active)
        },
        SyncStage::Recorded { others } => step_on(others, active),
        SyncStage::Entered => if active {
            SyncStep::WorkOff
        } else {
            SyncStep::Stop
        },
        SyncStage::WorkedOff => SyncStep::Reread,
        SyncStage::Reread => if active {
            SyncStep::Tell
        } else {
            SyncStep::Stop
        },
    }
}

/// What is to be done after a stage, by a watcher of that generation.
pub fn next_sync_step(state: &FileSyncInner, generation: u64, stage: SyncStage) -> (r: SyncStep)
    ensures
        r == step_after(stage, state.generation == generation),
{
    let active = is_active_watcher_generation(state, generation);
    match stage {
        SyncStage::Noticed if active => SyncStep::Plan,
        SyncStage::Planned { own: true, .. } => SyncStep::Record,
        SyncStage::Planned { own: false, others: true } if active => SyncStep::Enter,
        SyncStage::Recorded { others: true } if active => SyncStep::Enter,
        SyncStage::Entered if active => SyncStep::WorkOff,
        SyncStage::WorkedOff => SyncStep::Reread,
        SyncStage::Reread if active => SyncStep::Tell,
        _ => SyncStep::Stop,
    }
}

/// The stage that a step leads to, where more may be to do: `own` and `others` say whether
/// the application wrote some of the files itself, and whether others are to be looked at.
pub open spec fn stage_of(step: SyncStep, own: bool, others: bool) -> Option<SyncStage> {
    match step {
        SyncStep::Plan => Some(SyncStage::Planned { own, others }),
        SyncStep::Record => Some(SyncStage::Recorded { others }),
        SyncStep::Enter => Some(SyncStage::Entered),
        SyncStep::WorkOff => Some(SyncStage::WorkedOff),
        SyncStep::Reread => Some(SyncStage::Reread),
        SyncStep::Tell => None,
        SyncStep::Stop => None,
    }
}

/// The stage that a step leads to, where more may be to do.
pub fn stage_after(step: SyncStep, own: bool, others: bool) -> (r: Option<SyncStage>)
    ensures
        r == stage_of(step, own, others),
{
    match step {
        SyncStep::Plan => Some(SyncStage::Planned { own, others }),
        SyncStep::Record => Some(SyncStage::Recorded { others }),
        SyncStep::Enter => Some(SyncStage::Entered),
        SyncStep::WorkOff => Some(SyncStage::WorkedOff),
        SyncStep::Reread => Some(SyncStage::Reread),
        SyncStep::Tell => None,
        SyncStep::Stop => None,
    }
}

/// How many steps may still come after a stage.
pub open spec fn steps_left(stage: SyncStage) -> nat {
    match stage {
        SyncStage::Noticed => 6,
        SyncStage::Planned { .. } => 5,
        SyncStage::Recorded { .. } => 4,
        SyncStage::Entered => 3,
        SyncStage::WorkedOff => 2,
        SyncStage::Reread => 1,
    }
}

/// The steps of the handling of a change from a stage on, where `active` says whether the
/// watcher is active when it comes to a stage.
pub open spec fn steps_from(
    stage: SyncStage,
    own: bool,
    others: bool,
    active: spec_fn(SyncStage) -> bool,
) -> Seq<SyncStep>
    decreases steps_left(stage),
{
    let step = step_after(stage, active(stage));
    match stage_of(step, own, others) {
        Some(next) => seq![step] + steps_from(next, own, others, active),
        None => seq![step],
    }
}

/// Whether the step changes the queue or the snapshot, or tells listeners something.
pub open spec fn touches(step: SyncStep) -> bool {
    step is Record || step is Enter || step is WorkOff || step is Tell
}

/// A watcher that was stopped or replaced before it came to handle a change leaves the
/// queue, the snapshot and listeners alone. One that was stopped or replaced later does so
/// from then on, but that what the application wrote itself is still recorded.
pub proof fn law_ended_watcher_touches_nothing(
    before: FileSyncInner,
    after: FileSyncInner,
    stage: SyncStage,
    own: bool,
    others: bool,
    active: spec_fn(SyncStage) -> bool,
)
    requires
        after.generation == following(before.generation),
        forall|s: SyncStage| #[trigger]
            active(s) == (after.generation == before.generation),
    ensures
        steps_from(SyncStage::Noticed, own, others, active) == seq![SyncStep::Stop],
        forall|i: int|
            0 <= i < steps_from(stage, own, others, active).len() && touches(
                #[trigger] steps_from(stage, own, others, active)[i],
            ) ==> i == 0 && (stage matches SyncStage::Planned { own: true, .. }) && steps_from(
                stage,
                own,
                others,
                active,
            )[i] is Record,
{
    reveal_with_fuel(steps_from, 4);
}

/// A watcher that stays active and finds files to look at enters their changes, works the
/// queue off, and then tells listeners of it. Before that it records what the application
/// wrote itself. Where there are no other files it does no more.
pub proof fn law_active_watcher_goes_through(
    own: bool,
    others: bool,
    active: spec_fn(SyncStage) -> bool,
)
    requires
        forall|s: SyncStage| #[trigger] active(s),
    ensures
        steps_from(SyncStage::Noticed, own, others, active) == seq![SyncStep::Plan] + (if own {
            seq![SyncStep::Record]
        } else {
            seq![]
        }) + (if others {
            seq![SyncStep::Enter, SyncStep::WorkOff, SyncStep::Reread, SyncStep::Tell]
        } else {
            seq![SyncStep::Stop]
        }),
{
    reveal_with_fuel(steps_from, 7);
    let steps = steps_from(SyncStage::Noticed, own, others, active);
    if own && others {
        assert(steps =~= seq![
            SyncStep::Plan,
            SyncStep::Record,
            SyncStep::Enter,
            SyncStep::WorkOff,
            SyncStep::Reread,
            SyncStep::Tell,
        ]);
    } else if own {
        assert(steps =~= seq![SyncStep::Plan, SyncStep::Record, SyncStep::Stop]);
    } else if others {
        assert(steps =~= seq![
            SyncStep::Plan,
            SyncStep::Enter,
            SyncStep::WorkOff,
            SyncStep::Reread,
            SyncStep::Tell,
        ]);
    } else {
        assert(steps =~= seq![SyncStep::Plan, SyncStep::Stop]);
    }
}

/// What a rescan returns, and what listeners are told at its end.
pub fn rescan_result(
    project_id: &str,
    queue: FileChangeQueue,
    changed_tasks: Vec<FileChangeTask>,
) -> (r: (FileChangeRescanResult, SyncEvent))
    ensures
        r.0.queue == queue,
        r.0.changed_tasks == changed_tasks,
        r.1@ == (EventView {
            event: EVENT_QUEUE_UPDATED@,
            project_id: project_id@,
            tasks: queue@.tasks,
        }),
{
    let event = emit_queue(project_id, &queue);
    (FileChangeRescanResult { queue, changed_tasks }, event)
}

} // verus!
