//! What holds of one rescan of a project after another.

use vstd::prelude::*;

use crate::machine::StepView;
use crate::paths::Platform;
use crate::plan::{gone, law_rescan_looks_at_gone_files, rescanned, FoundView, KnownPath};
use crate::process::{first_waiting, waits};
use crate::process_laws::lemma_first_waiting;
use crate::queue::{
    all_taken_in, change_kind, changes_in, enqueued, first_taker, is_open, known, upserted,
    ChangeView, MetaView, QueueView, ReadingView, TaskView,
};
use crate::queue_laws::lemma_first_taker;
use crate::run_laws::{
    comes_to, is_left_as, law_whole_run_that_leaves_none_open, left_of, left_over, none_open,
    readings_of, run_begins, run_ends, took_step, undated, waiting_tasks, LeftView, RunState, Told,
    WorldView,
};
use crate::watch::RulesView;

verus! {

/// Whether the paths are those of the snapshot, each with whether its file is there.
pub open spec fn describes(
    paths: Seq<KnownPath>,
    files: Map<Seq<char>, MetaView>,
    there: spec_fn(Seq<char>) -> bool,
) -> bool {
    &&& forall|k: int|
        0 <= k < paths.len() ==> files.contains_key((#[trigger] paths[k]).rel@)
            && paths[k].exists_now == there(paths[k].rel@)
    &&& forall|rel: Seq<char>| #[trigger]
        files.contains_key(rel) ==> exists|k: int|
            0 <= k < paths.len() && (#[trigger] paths[k]).rel@ == rel
}

/// What looking at the files gives.
pub open spec fn looked_at(
    rels: Seq<Seq<char>>,
    readings: spec_fn(Seq<char>) -> Result<Option<MetaView>, Seq<char>>,
) -> Seq<ReadingView> {
    rels.map_values(|rel: Seq<char>| ReadingView { rel, meta: readings(rel)->Ok_0 })
}

/// Whether every change has an open task of the project for its own path, and not only one
/// for a path that differs in case.
pub open spec fn have_own_tasks(
    changes: Seq<ChangeView>,
    tasks: Seq<TaskView>,
    project_id: Seq<char>,
) -> bool {
    forall|k: int|
        0 <= k < changes.len() ==> exists|i: int|
            0 <= i < tasks.len() && is_own_task(#[trigger] tasks[i], project_id, (
            #[trigger] changes[k]).rel)
}

/// Whether the task is an open one of the project for that path.
pub open spec fn is_own_task(task: TaskView, project_id: Seq<char>, rel: Seq<char>) -> bool {
    task.project_id == project_id && task.path == rel && is_open(task.status)
}

/// Where case counts in paths, every change that is entered has a task for its own path.
pub proof fn law_changes_have_own_tasks(
    tasks: Seq<TaskView>,
    project_id: Seq<char>,
    changes: Seq<ChangeView>,
    now: i64,
    platform: Platform,
)
    requires
        !(platform is Windows),
    ensures
        have_own_tasks(changes, enqueued(tasks, project_id, changes, now, platform), project_id),
    decreases changes.len(),
{
    let after = enqueued(tasks, project_id, changes, now, platform);
    if changes.len() > 0 {
        let rest = changes.drop_last();
        let c = changes.last();
        let before = enqueued(tasks, project_id, rest, now, platform);
        law_changes_have_own_tasks(tasks, project_id, rest, now, platform);
        lemma_first_taker(before, project_id, c.rel, platform, 0);
        let t = first_taker(before, project_id, c.rel, platform, 0);
        assert(after == upserted(
            before,
            project_id,
            c.rel,
            c.kind,
            c.before,
            c.after,
            now,
            platform,
        ));
        assert(is_own_task(after[t], project_id, c.rel));
        assert forall|k: int| 0 <= k < changes.len() implies exists|i: int|
            0 <= i < after.len() && is_own_task(#[trigger] after[i], project_id, (
            #[trigger] changes[k]).rel) by {
            if k < rest.len() {
                assert(rest[k] == changes[k]);
                let i = choose|i: int|
                    0 <= i < before.len() && is_own_task(
                        #[trigger] before[i],
                        project_id,
                        rest[k].rel,
                    );
                assert(is_own_task(after[i], project_id, changes[k].rel));
            } else {
                assert(changes[k] == c);
                assert(is_own_task(after[t], project_id, changes[k].rel));
            }
        }
    }
}

/// A task of which something is left is among those left over.
proof fn lemma_is_left(
    tasks: Seq<TaskView>,
    project_id: Seq<char>,
    readings: spec_fn(Seq<char>) -> Result<Option<MetaView>, Seq<char>>,
    i: int,
)
    requires
        0 <= i < tasks.len(),
        left_of(tasks[i], project_id, readings) is Some,
    ensures
        left_over(tasks, project_id, readings).contains(
            left_of(tasks[i], project_id, readings)->0,
        ),
    decreases tasks.len(),
{
    let all = left_over(tasks, project_id, readings);
    let rest = tasks.drop_last();
    let before = left_over(rest, project_id, readings);
    if i < rest.len() {
        assert(rest[i] == tasks[i]);
        lemma_is_left(rest, project_id, readings, i);
        let x = left_of(tasks[i], project_id, readings)->0;
        let k = choose|k: int| 0 <= k < before.len() && before[k] == x;
        assert(all[k] == x);
    } else {
        assert(all[all.len() - 1] == left_of(tasks[i], project_id, readings)->0);
    }
}

/// A task that waits is among those that wait.
proof fn lemma_is_waiting(
    tasks: Seq<TaskView>,
    project_id: Seq<char>,
    readings: spec_fn(Seq<char>) -> Result<Option<MetaView>, Seq<char>>,
    i: int,
)
    requires
        0 <= i < tasks.len(),
        waits(tasks[i], project_id),
    ensures
        waiting_tasks(tasks, project_id, readings).contains(undated(tasks[i])),
    decreases tasks.len(),
{
    let all = waiting_tasks(tasks, project_id, readings);
    let rest = tasks.drop_last();
    let before = waiting_tasks(rest, project_id, readings);
    if i < rest.len() {
        assert(rest[i] == tasks[i]);
        lemma_is_waiting(rest, project_id, readings, i);
        let k = choose|k: int| 0 <= k < before.len() && before[k] == undated(tasks[i]);
        assert(all[k] == undated(tasks[i]));
    } else {
        assert(all[before.len() as int] == undated(tasks[i]));
    }
}

/// After a run the snapshot knows of the file of a task what was found, and of other files
/// what it knew.
proof fn lemma_known_after(
    files: Map<Seq<char>, MetaView>,
    tasks: Seq<TaskView>,
    readings: spec_fn(Seq<char>) -> Result<Option<MetaView>, Seq<char>>,
    rel: Seq<char>,
)
    requires
        readings(rel) is Ok,
    ensures
        (exists|i: int| 0 <= i < tasks.len() && (#[trigger] tasks[i]).path == rel) ==> known(
            all_taken_in(files, readings_of(tasks, readings)),
            rel,
        ) == readings(rel)->Ok_0,
        !(exists|i: int| 0 <= i < tasks.len() && (#[trigger] tasks[i]).path == rel) ==> known(
            all_taken_in(files, readings_of(tasks, readings)),
            rel,
        ) == known(files, rel),
    decreases tasks.len(),
{
    if tasks.len() > 0 {
        let rest = tasks.drop_last();
        lemma_known_after(files, rest, readings, rel);
        let before = readings_of(rest, readings);
        assert(tasks[tasks.len() - 1] == tasks.last());
        assert forall|i: int| 0 <= i < rest.len() implies rest[i] == tasks[i] by {}
        if exists|i: int| 0 <= i < rest.len() && (#[trigger] rest[i]).path == rel {
            let i = choose|i: int| 0 <= i < rest.len() && (#[trigger] rest[i]).path == rel;
            assert(tasks[i].path == rel);
        } else if tasks.last().path != rel {
            assert forall|i: int| 0 <= i < tasks.len() implies (#[trigger] tasks[i]).path != rel by {
                if i < rest.len() {
                    assert(rest[i].path != rel);
                }
            }
        }
        match readings(tasks.last().path) {
            Ok(meta) => {
                let r = ReadingView { rel: tasks.last().path, meta };
                assert(before.push(r).drop_last() =~= before);
            },
            Err(_) => {},
        }
    }
}

/// A file of the snapshot that is gone is one of the paths.
proof fn lemma_gone_is_known(paths: Seq<KnownPath>, rel: Seq<char>)
    requires
        gone(paths).contains(rel),
    ensures
        exists|k: int|
            0 <= k < paths.len() && (#[trigger] paths[k]).rel@ == rel && !paths[k].exists_now,
    decreases paths.len(),
{
    let rest = paths.drop_last();
    if gone(rest).contains(rel) {
        lemma_gone_is_known(rest, rel);
        let k = choose|k: int|
            0 <= k < rest.len() && (#[trigger] rest[k]).rel@ == rel && !rest[k].exists_now;
        assert(paths[k] == rest[k]);
    } else {
        assert(paths[paths.len() - 1] == paths.last());
    }
}

/// A file that changed shows a change.
proof fn lemma_shows(files: Map<Seq<char>, MetaView>, readings: Seq<ReadingView>, i: int)
    requires
        0 <= i < readings.len(),
        change_kind(known(files, readings[i].rel), readings[i].meta) is Some,
    ensures
        exists|k: int|
            0 <= k < changes_in(files, readings).len() && (#[trigger] changes_in(
                files,
                readings,
            )[k]).rel == readings[i].rel,
    decreases readings.len(),
{
    let all = changes_in(files, readings);
    let rest = readings.drop_last();
    if i < rest.len() {
        assert(rest[i] == readings[i]);
        lemma_shows(files, rest, i);
        let before = changes_in(files, rest);
        let k = choose|k: int| 0 <= k < before.len() && (#[trigger] before[k]).rel == rest[i].rel;
        assert(all[k].rel == readings[i].rel);
    } else {
        assert(all[all.len() - 1].rel == readings[i].rel);
    }
}

/// Where no file changed no change shows.
proof fn lemma_nothing_shows(files: Map<Seq<char>, MetaView>, readings: Seq<ReadingView>)
    requires
        forall|i: int|
            0 <= i < readings.len() ==> change_kind(
                known(files, (#[trigger] readings[i]).rel),
                readings[i].meta,
            ) is None,
    ensures
        changes_in(files, readings).len() == 0,
    decreases readings.len(),
{
    if readings.len() > 0 {
        let rest = readings.drop_last();
        assert forall|i: int| 0 <= i < rest.len() implies change_kind(
            known(files, (#[trigger] rest[i]).rel),
            rest[i].meta,
        ) is None by {
            assert(rest[i] == readings[i]);
        }
        lemma_nothing_shows(files, rest);
        assert(readings[readings.len() - 1] == readings.last());
    }
}

/// A run through a queue in which no task of the project waits comes to its end at once. It
/// returns no task, stores nothing, and tells of the queue alone.
pub proof fn law_idle_run(
    project_id: Seq<char>,
    world: WorldView,
    readings: spec_fn(Seq<char>) -> Result<Option<MetaView>, Seq<char>>,
    times: spec_fn(nat) -> i64,
)
    requires
        none_open(world.queue.tasks, project_id),
    ensures
        run_ends(run_begins(project_id, world), readings, times, 2) matches Some(end) && {
            &&& end.step == StepView::End(Ok(Seq::empty()))
            &&& end.world == world
            &&& end.told == seq![Told::Queue(world.queue)]
        },
{
    let s = run_begins(project_id, world);
    lemma_first_waiting(world.queue.tasks, project_id, 0);
    assert(first_waiting(world.queue.tasks, project_id, 0) == world.queue.tasks.len());
    let s1 = took_step(s, readings, times);
    let s2 = took_step(s1, readings, times);
    reveal_with_fuel(run_ends, 3);
    assert(s2.told =~= seq![Told::Queue(world.queue)]);
    assert(run_ends(s, readings, times, 2) == Some(s2));
}

/// What the first rescan left of a file that it looked at: the file shows no change.
proof fn lemma_file_is_settled(
    project_id: Seq<char>,
    world: WorldView,
    rels: Seq<Seq<char>>,
    readings: spec_fn(Seq<char>) -> Result<Option<MetaView>, Seq<char>>,
    entered: WorldView,
    end: RunState,
    worked_off: Seq<TaskView>,
    a: int,
)
    requires
        forall|b: int| 0 <= b < rels.len() ==> readings(#[trigger] rels[b]) is Ok,
        entered.files == world.files,
        have_own_tasks(
            changes_in(world.files, looked_at(rels, readings)),
            entered.queue.tasks,
            project_id,
        ),
        comes_to(run_begins(project_id, entered), end, readings, worked_off),
        none_open(end.world.queue.tasks, project_id),
        0 <= a < rels.len(),
    ensures
        change_kind(known(end.world.files, rels[a]), readings(rels[a])->Ok_0) is None,
{
    let rel = rels[a];
    let seen = looked_at(rels, readings);
    let changes = changes_in(world.files, seen);
    let tasks = entered.queue.tasks;
    let waiting = waiting_tasks(tasks, project_id, readings);
    lemma_known_after(world.files, waiting, readings, rel);
    let worked = exists|i: int| 0 <= i < waiting.len() && (#[trigger] waiting[i]).path == rel;
    if !worked && change_kind(known(world.files, rel), readings(rel)->Ok_0) is Some {
        assert(seen[a] == (ReadingView { rel, meta: readings(rel)->Ok_0 }));
        lemma_shows(world.files, seen, a);
        let k = choose|k: int| 0 <= k < changes.len() && (#[trigger] changes[k]).rel == rel;
        let i = choose|i: int|
            0 <= i < tasks.len() && is_own_task(#[trigger] tasks[i], project_id, changes[k].rel);
        let task = tasks[i];
        if waits(task, project_id) {
            lemma_is_waiting(tasks, project_id, readings, i);
            let w = choose|w: int| 0 <= w < waiting.len() && waiting[w] == undated(task);
            assert(waiting[w].path == rel);
        } else {
            let left = end.world.queue.tasks;
            if waiting.len() > 0 {
                lemma_is_left(tasks, project_id, readings, i);
                let over = left_over(tasks, project_id, readings);
                let x = choose|x: int|
                    0 <= x < over.len() && over[x] == (LeftView { task, failed: false });
                assert(is_left_as(left[x], over[x]));
                assert(left[x].project_id == project_id && is_open(left[x].status));
            } else {
                assert(left[i] == task);
            }
        }
    }
}

/// A second rescan of files that did not change meanwhile finds nothing, once the first has
/// left no open task of the project: it enters no change, returns no task, leaves the
/// snapshot and the queue as they are, and tells of the queue alone.
/// On Windows a change may have been entered into a task for a path that differs in case; the
/// law is for changes that were not.
pub proof fn law_second_rescan_finds_nothing(
    project_id: Seq<char>,
    world: WorldView,
    found: Seq<FoundView>,
    paths: Seq<KnownPath>,
    paths_again: Seq<KnownPath>,
    rules: RulesView,
    rels: Seq<Seq<char>>,
    rels_again: Seq<Seq<char>>,
    there: spec_fn(Seq<char>) -> bool,
    readings: spec_fn(Seq<char>) -> Result<Option<MetaView>, Seq<char>>,
    times: spec_fn(nat) -> i64,
    times_again: spec_fn(nat) -> i64,
    now: i64,
    later: i64,
    platform: Platform,
    fuel: nat,
    entered: WorldView,
    end: RunState,
)
    requires
        describes(paths, world.files, there),
        describes(paths_again, end.world.files, there),
        rels.to_set() == rescanned(found, paths, rules),
        rels_again.to_set() == rescanned(found, paths_again, rules),
        forall|b: int| 0 <= b < rels.len() ==> readings(#[trigger] rels[b]) is Ok,
        forall|rel: Seq<char>| #![trigger readings(rel)] !there(rel) ==> readings(rel) == Ok::<
            Option<MetaView>,
            Seq<char>,
        >(None),
        entered == (WorldView {
            queue: QueueView {
                tasks: enqueued(
                    world.queue.tasks,
                    project_id,
                    changes_in(world.files, looked_at(rels, readings)),
                    now,
                    platform,
                ),
                ..world.queue
            },
            files: world.files,
        }),
        platform is Windows ==> have_own_tasks(
            changes_in(world.files, looked_at(rels, readings)),
            entered.queue.tasks,
            project_id,
        ),
        run_ends(run_begins(project_id, entered), readings, times, fuel) == Some(end),
        none_open(end.world.queue.tasks, project_id),
    ensures
        changes_in(end.world.files, looked_at(rels_again, readings)).len() == 0,
        enqueued(
            end.world.queue.tasks,
            project_id,
            changes_in(end.world.files, looked_at(rels_again, readings)),
            later,
            platform,
        ) == end.world.queue.tasks,
        run_ends(run_begins(project_id, end.world), readings, times_again, 2) matches Some(last)
            && {
            &&& last.step == StepView::End(Ok(Seq::empty()))
            &&& last.world == end.world
            &&& last.told == seq![Told::Queue(end.world.queue)]
        },
{
    let s = run_begins(project_id, entered);
    law_whole_run_that_leaves_none_open(project_id, entered, readings, times, fuel, end);
    let worked_off = choose|w: Seq<TaskView>| #[trigger] comes_to(s, end, readings, w);
    if !(platform is Windows) {
        law_changes_have_own_tasks(
            world.queue.tasks,
            project_id,
            changes_in(world.files, looked_at(rels, readings)),
            now,
            platform,
        );
    }
    let waiting = waiting_tasks(entered.queue.tasks, project_id, readings);
    let seen = looked_at(rels_again, readings);
    assert forall|i: int| 0 <= i < seen.len() implies change_kind(
        known(end.world.files, (#[trigger] seen[i]).rel),
        seen[i].meta,
    ) is None by {
        let rel = rels_again[i];
        assert(rels_again.to_set().contains(rel));
        assert(rescanned(found, paths, rules).contains(rel)) by {
            if gone(paths_again).contains(rel) {
                lemma_gone_is_known(paths_again, rel);
                let k = choose|k: int|
                    0 <= k < paths_again.len() && (#[trigger] paths_again[k]).rel@ == rel
                        && !paths_again[k].exists_now;
                assert(end.world.files.contains_key(rel) && !there(rel));
                assert(readings(rel) is Ok);
                lemma_known_after(world.files, waiting, readings, rel);
                assert(known(world.files, rel) is Some);
                assert(world.files.contains_key(rel));
                let k0 = choose|k0: int|
                    0 <= k0 < paths.len() && (#[trigger] paths[k0]).rel@ == rel;
                law_rescan_looks_at_gone_files(found, paths, rules, k0);
            }
        }
        assert(rels.to_set().contains(rel));
        let a = choose|a: int| 0 <= a < rels.len() && rels[a] == rel;
        lemma_file_is_settled(
            project_id,
            world,
            rels,
            readings,
            entered,
            end,
            worked_off,
            a,
        );
        assert(seen[i] == (ReadingView { rel, meta: readings(rel)->Ok_0 }));
    }
    lemma_nothing_shows(end.world.files, seen);
    law_idle_run(project_id, end.world, readings, times_again);
}

} // verus!
