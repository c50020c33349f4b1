//! What holds of a whole run through the queue, from its beginning to its end.
//!
//! The run is followed through a world in which nobody else writes the queue or the
//! snapshot, and in which looking at a file gives what `readings` says of its path. The
//! step at place `k` of the run is taken at the time `times(k)`.

use vstd::prelude::*;

use crate::machine::{advanced, InputView, MachineView, OutputView, StageView, StepView};
use crate::process::{
    counted, finished, first_waiting, first_with_id, not_done, still_current, taken_up, waits,
    with_outcome, RunView, QUEUE_EMIT_EVERY,
};
use crate::process_laws::{ids_differ, lemma_first_waiting, lemma_first_with_id};
use crate::queue::{all_taken_in, is_open, taken_in, MetaView, QueueView, ReadingView, TaskView};

verus! {

/// What is stored: the queue, and what the snapshot knows of the files.
#[verifier::ext_equal]
pub struct WorldView {
    pub queue: QueueView,
    pub files: Map<Seq<char>, MetaView>,
}

/// What listeners are told: that tasks were worked off, or what the queue is.
#[verifier::ext_equal]
pub enum Told {
    Changed(Seq<TaskView>),
    Queue(QueueView),
}

/// A run in its world: how far it is, what it does next, what listeners were told so far,
/// and how many steps were taken.
#[verifier::ext_equal]
pub struct RunState {
    pub machine: MachineView,
    pub step: StepView,
    pub world: WorldView,
    pub told: Seq<Told>,
    pub clock: nat,
}

/// What doing a step does to the world, and what it gives.
pub open spec fn answer(
    world: WorldView,
    readings: spec_fn(Seq<char>) -> Result<Option<MetaView>, Seq<char>>,
    step: StepView,
) -> (WorldView, InputView) {
    match step {
        StepView::ReadQueue => (world, InputView::Queue(Ok(world.queue))),
        StepView::StoreQueue(queue) => (
            WorldView { queue, ..world },
            InputView::Stored(Ok(())),
        ),
        StepView::StoreAndReadQueue(queue) => (
            WorldView { queue, ..world },
            InputView::Queue(Ok(queue)),
        ),
        StepView::ReadMeta(path) => (world, InputView::Meta(readings(path))),
        StepView::StoreMeta(task, meta) => (
            WorldView { files: taken_in(world.files, task.path, meta), ..world },
            InputView::Stored(Ok(())),
        ),
        StepView::End(_) => (world, InputView::Stored(Ok(()))),
    }
}

/// What listeners were told, after an output. They are not told of no tasks.
pub open spec fn with_told(told: Seq<Told>, output: OutputView) -> Seq<Told> {
    let first = match output.changed {
        Some(tasks) => if tasks.len() > 0 {
            told.push(Told::Changed(tasks))
        } else {
            told
        },
        None => told,
    };
    match output.queue {
        Some(queue) => first.push(Told::Queue(queue)),
        None => first,
    }
}

/// The run after its next step.
pub open spec fn took_step(
    s: RunState,
    readings: spec_fn(Seq<char>) -> Result<Option<MetaView>, Seq<char>>,
    times: spec_fn(nat) -> i64,
) -> RunState {
    let (world, input) = answer(s.world, readings, s.step);
    let (machine, output) = advanced(s.machine, input, times(s.clock));
    RunState {
        machine,
        step: output.step,
        world,
        told: with_told(s.told, output),
        clock: s.clock + 1,
    }
}

/// The run at its end, if it comes to it within so many steps.
pub open spec fn run_ends(
    s: RunState,
    readings: spec_fn(Seq<char>) -> Result<Option<MetaView>, Seq<char>>,
    times: spec_fn(nat) -> i64,
    fuel: nat,
) -> Option<RunState>
    decreases fuel,
{
    if s.step is End {
        Some(s)
    } else if fuel == 0 {
        None
    } else {
        run_ends(took_step(s, readings, times), readings, times, (fuel - 1) as nat)
    }
}

/// A run that begins.
pub open spec fn run_begins(project_id: Seq<char>, world: WorldView) -> RunState {
    RunState {
        machine: MachineView {
            project_id,
            run: RunView { changed: Seq::empty(), since_emit: 0, announced: false },
            stage: StageView::Picking,
        },
        step: StepView::ReadQueue,
        world,
        told: Seq::empty(),
        clock: 0,
    }
}

/// The task but for when it was last changed.
pub open spec fn undated(task: TaskView) -> TaskView {
    TaskView { updated_at: 0, ..task }
}

/// The tasks but for when they were last changed.
pub open spec fn all_undated(tasks: Seq<TaskView>) -> Seq<TaskView> {
    tasks.map_values(|t: TaskView| undated(t))
}

/// What a task that waits becomes when it is through and is to run once more.
pub open spec fn once_more(task: TaskView) -> TaskView {
    TaskView { needs_rerun: false, error: None, ..task }
}

/// The tasks of the project that wait, as they are worked off: one that is to run once more
/// comes twice, if its file can be looked at.
pub open spec fn waiting_tasks(
    tasks: Seq<TaskView>,
    project_id: Seq<char>,
    readings: spec_fn(Seq<char>) -> Result<Option<MetaView>, Seq<char>>,
) -> Seq<TaskView>
    decreases tasks.len(),
{
    if tasks.len() == 0 {
        Seq::empty()
    } else {
        let before = waiting_tasks(tasks.drop_last(), project_id, readings);
        let task = undated(tasks.last());
        if !waits(task, project_id) {
            before
        } else if task.needs_rerun && readings(task.path) is Ok {
            before.push(task).push(once_more(task))
        } else {
            before.push(task)
        }
    }
}

/// The tasks as they are told of when they were worked off.
pub open spec fn all_taken_up(tasks: Seq<TaskView>) -> Seq<TaskView> {
    tasks.map_values(|t: TaskView| undated(taken_up(t, 0)))
}

/// A task that is left after a run. One that has failed in the run has another date, which is
/// left out here; the others are as they were.
#[verifier::ext_equal]
pub struct LeftView {
    pub task: TaskView,
    pub failed: bool,
}

/// What is left of a task after a run: nothing of one whose file could be looked at, or that
/// was done before; a task that waited and whose file could not be looked at has failed.
pub open spec fn left_of(
    task: TaskView,
    project_id: Seq<char>,
    readings: spec_fn(Seq<char>) -> Result<Option<MetaView>, Seq<char>>,
) -> Option<LeftView> {
    if waits(task, project_id) {
        match readings(task.path) {
            Ok(_) => None,
            Err(e) => Some(
                LeftView {
                    task: undated(finished(taken_up(task, 0), Err(e), 0)),
                    failed: true,
                },
            ),
        }
    } else if task.status is Done {
        None
    } else {
        Some(LeftView { task, failed: false })
    }
}

/// What is left of the tasks after a run.
pub open spec fn left_over(
    tasks: Seq<TaskView>,
    project_id: Seq<char>,
    readings: spec_fn(Seq<char>) -> Result<Option<MetaView>, Seq<char>>,
) -> Seq<LeftView>
    decreases tasks.len(),
{
    if tasks.len() == 0 {
        Seq::empty()
    } else {
        let before = left_over(tasks.drop_last(), project_id, readings);
        match left_of(tasks.last(), project_id, readings) {
            Some(left) => before.push(left),
            None => before,
        }
    }
}

/// Whether the task is the one that is left.
pub open spec fn is_left_as(task: TaskView, left: LeftView) -> bool {
    if left.failed {
        undated(task) == left.task
    } else {
        task == left.task
    }
}

/// Whether the tasks are those that are left.
pub open spec fn are_left(tasks: Seq<TaskView>, left: Seq<LeftView>) -> bool {
    &&& tasks.len() == left.len()
    &&& forall|k: int| 0 <= k < tasks.len() ==> is_left_as(#[trigger] tasks[k], left[k])
}

/// What looking at the files of the tasks gave, as far as they could be looked at.
pub open spec fn readings_of(
    tasks: Seq<TaskView>,
    readings: spec_fn(Seq<char>) -> Result<Option<MetaView>, Seq<char>>,
) -> Seq<ReadingView>
    decreases tasks.len(),
{
    if tasks.len() == 0 {
        Seq::empty()
    } else {
        let before = readings_of(tasks.drop_last(), readings);
        match readings(tasks.last().path) {
            Ok(meta) => before.push(ReadingView { rel: tasks.last().path, meta }),
            Err(_) => before,
        }
    }
}

/// How often listeners were told of the queue.
pub open spec fn queue_tellings(told: Seq<Told>) -> nat
    decreases told.len(),
{
    if told.len() == 0 {
        0
    } else {
        queue_tellings(told.drop_last()) + if told.last() is Queue {
            1nat
        } else {
            0nat
        }
    }
}

/// The lists of tasks that listeners were told of.
pub open spec fn changed_tellings(told: Seq<Told>) -> Seq<Seq<TaskView>>
    decreases told.len(),
{
    if told.len() == 0 {
        Seq::empty()
    } else {
        let before = changed_tellings(told.drop_last());
        match told.last() {
            Told::Changed(tasks) => before.push(tasks),
            Told::Queue(_) => before,
        }
    }
}

/// A run that has not ended is one step nearer to its end after a step.
proof fn lemma_one_step(
    s: RunState,
    readings: spec_fn(Seq<char>) -> Result<Option<MetaView>, Seq<char>>,
    times: spec_fn(nat) -> i64,
    fuel: nat,
)
    requires
        !(s.step is End),
    ensures
        run_ends(s, readings, times, fuel + 1) == run_ends(
            took_step(s, readings, times),
            readings,
            times,
            fuel,
        ),
{
}

/// Telling adds to what was told.
proof fn lemma_tellings(told: Seq<Told>, next: Told)
    ensures
        queue_tellings(told.push(next)) == queue_tellings(told) + if next is Queue {
            1nat
        } else {
            0nat
        },
        changed_tellings(told.push(next)) == match next {
            Told::Changed(tasks) => changed_tellings(told).push(tasks),
            Told::Queue(_) => changed_tellings(told),
        },
{
    assert(told.push(next).drop_last() =~= told);
}

/// Where no task waits there is none among those that wait.
proof fn lemma_none_waits(
    tasks: Seq<TaskView>,
    project_id: Seq<char>,
    readings: spec_fn(Seq<char>) -> Result<Option<MetaView>, Seq<char>>,
)
    requires
        forall|i: int| 0 <= i < tasks.len() ==> !waits(#[trigger] tasks[i], project_id),
    ensures
        waiting_tasks(tasks, project_id, readings).len() == 0,
    decreases tasks.len(),
{
    if tasks.len() > 0 {
        let rest = tasks.drop_last();
        assert forall|i: int| 0 <= i < rest.len() implies !waits(#[trigger] rest[i], project_id) by {
            assert(rest[i] == tasks[i]);
        }
        assert(tasks[tasks.len() - 1] == tasks.last());
        lemma_none_waits(rest, project_id, readings);
    }
}

/// Once the first task that waits has become one that does not, or one that is through and
/// runs once more, the tasks that wait are the others.
proof fn lemma_waiting_less(
    tasks: Seq<TaskView>,
    project_id: Seq<char>,
    readings: spec_fn(Seq<char>) -> Result<Option<MetaView>, Seq<char>>,
    i: int,
    task: TaskView,
)
    requires
        0 <= i < tasks.len(),
        waits(tasks[i], project_id),
        forall|j: int| 0 <= j < i ==> !waits(#[trigger] tasks[j], project_id),
        if tasks[i].needs_rerun && readings(tasks[i].path) is Ok {
            undated(task) == once_more(undated(tasks[i]))
        } else {
            !waits(task, project_id)
        },
    ensures
        waiting_tasks(tasks, project_id, readings) == seq![undated(tasks[i])] + waiting_tasks(
            tasks.update(i, task),
            project_id,
            readings,
        ),
    decreases tasks.len(),
{
    let next = tasks.update(i, task);
    let rest = tasks.drop_last();
    if i == tasks.len() - 1 {
        assert(next.drop_last() =~= rest);
        assert forall|j: int| 0 <= j < rest.len() implies !waits(#[trigger] rest[j], project_id) by {
            assert(rest[j] == tasks[j]);
        }
        lemma_none_waits(rest, project_id, readings);
        assert(next.last() == task);
    } else {
        assert forall|j: int| 0 <= j < i implies !waits(#[trigger] rest[j], project_id) by {
            assert(rest[j] == tasks[j]);
        }
        assert(rest[i] == tasks[i]);
        lemma_waiting_less(rest, project_id, readings, i, task);
        assert(next.drop_last() =~= rest.update(i, task));
        assert(next.last() == tasks.last());
    }
    assert(waiting_tasks(tasks, project_id, readings) =~= seq![undated(tasks[i])] + waiting_tasks(
        next,
        project_id,
        readings,
    ));
}

/// Tasks that are done neither wait nor are they left over.
proof fn lemma_done_are_nothing(
    tasks: Seq<TaskView>,
    project_id: Seq<char>,
    readings: spec_fn(Seq<char>) -> Result<Option<MetaView>, Seq<char>>,
)
    ensures
        waiting_tasks(not_done(tasks), project_id, readings) == waiting_tasks(
            tasks,
            project_id,
            readings,
        ),
        left_over(not_done(tasks), project_id, readings) == left_over(tasks, project_id, readings),
    decreases tasks.len(),
{
    if tasks.len() > 0 {
        lemma_done_are_nothing(tasks.drop_last(), project_id, readings);
        let kept = not_done(tasks.drop_last());
        if !(tasks.last().status is Done) {
            assert(kept.push(tasks.last()).drop_last() =~= kept);
        }
    }
}

/// Every task that is not done is one of the tasks, and ids that differ still do.
proof fn lemma_not_done(tasks: Seq<TaskView>)
    ensures
        forall|k: int|
            0 <= k < not_done(tasks).len() ==> tasks.contains(#[trigger] not_done(tasks)[k])
                && !(not_done(tasks)[k].status is Done),
        ids_differ(tasks) ==> ids_differ(not_done(tasks)),
    decreases tasks.len(),
{
    if tasks.len() > 0 {
        let rest = tasks.drop_last();
        lemma_not_done(rest);
        let kept = not_done(rest);
        assert(tasks[tasks.len() - 1] == tasks.last());
        assert(tasks.contains(tasks.last()));
        assert forall|k: int| 0 <= k < kept.len() implies tasks.contains(#[trigger] kept[k]) by {
            let j = choose|j: int| 0 <= j < rest.len() && rest[j] == kept[k];
            assert(tasks[j] == kept[k]);
        }
        if ids_differ(tasks) {
            assert forall|a: int, b: int| 0 <= a < b < rest.len() implies (#[trigger] rest[a]).id
                != (#[trigger] rest[b]).id by {
                assert(tasks[a].id != tasks[b].id);
            }
            let all = not_done(tasks);
            assert forall|a: int, b: int| 0 <= a < b < all.len() implies (#[trigger] all[a]).id != (
            #[trigger] all[b]).id by {
                if b < kept.len() {
                    assert(all[a] == kept[a] && all[b] == kept[b]);
                } else {
                    assert(all[a] == kept[a]);
                    assert(rest.contains(kept[a]));
                    let j = choose|j: int| 0 <= j < rest.len() && rest[j] == kept[a];
                    assert(tasks[j].id != tasks[tasks.len() - 1].id);
                }
            }
        }
    }
}

/// Where the one list has a task with its date that failed in the run by the other.
spec fn refines(exact: Seq<LeftView>, left: Seq<LeftView>) -> bool {
    &&& exact.len() == left.len()
    &&& forall|k: int|
        0 <= k < exact.len() ==> exact[k] == (#[trigger] left[k]) || (left[k].failed
            && !exact[k].failed && undated(exact[k].task) == left[k].task)
}

/// What is left over once a task has failed is what is left over before, with its date.
proof fn lemma_left_over_update(
    tasks: Seq<TaskView>,
    project_id: Seq<char>,
    readings: spec_fn(Seq<char>) -> Result<Option<MetaView>, Seq<char>>,
    i: int,
    task: TaskView,
)
    requires
        0 <= i < tasks.len(),
        match (left_of(task, project_id, readings), left_of(tasks[i], project_id, readings)) {
            (None, None) => true,
            (Some(a), Some(b)) => b.failed && !a.failed && undated(a.task) == b.task,
            _ => false,
        },
    ensures
        refines(
            left_over(tasks.update(i, task), project_id, readings),
            left_over(tasks, project_id, readings),
        ),
    decreases tasks.len(),
{
    let next = tasks.update(i, task);
    let rest = tasks.drop_last();
    if i == tasks.len() - 1 {
        assert(next.drop_last() =~= rest);
    } else {
        assert(rest[i] == tasks[i]);
        lemma_left_over_update(rest, project_id, readings, i, task);
        assert(next.drop_last() =~= rest.update(i, task));
    }
}

/// Where no task waits and none is done, all are left over as they are.
proof fn lemma_all_left(
    tasks: Seq<TaskView>,
    project_id: Seq<char>,
    readings: spec_fn(Seq<char>) -> Result<Option<MetaView>, Seq<char>>,
)
    requires
        forall|i: int|
            0 <= i < tasks.len() ==> !waits(#[trigger] tasks[i], project_id) && !(
            tasks[i].status is Done),
    ensures
        are_left(tasks, left_over(tasks, project_id, readings)),
    decreases tasks.len(),
{
    if tasks.len() > 0 {
        let rest = tasks.drop_last();
        assert forall|i: int| 0 <= i < rest.len() implies !waits(#[trigger] rest[i], project_id)
            && !(rest[i].status is Done) by {
            assert(rest[i] == tasks[i]);
        }
        lemma_all_left(rest, project_id, readings);
        assert(tasks[tasks.len() - 1] == tasks.last());
        let left = left_over(tasks, project_id, readings);
        assert forall|k: int| 0 <= k < tasks.len() implies is_left_as(
            #[trigger] tasks[k],
            left[k],
        ) by {
            if k < rest.len() {
                assert(tasks[k] == rest[k]);
            }
        }
    }
}

/// A reading more at the front is taken in first.
proof fn lemma_taken_in_first(
    files: Map<Seq<char>, MetaView>,
    first: TaskView,
    tasks: Seq<TaskView>,
    readings: spec_fn(Seq<char>) -> Result<Option<MetaView>, Seq<char>>,
)
    ensures
        all_taken_in(files, readings_of(seq![first] + tasks, readings)) == all_taken_in(
            match readings(first.path) {
                Ok(meta) => taken_in(files, first.path, meta),
                Err(_) => files,
            },
            readings_of(tasks, readings),
        ),
    decreases tasks.len(),
{
    let all = seq![first] + tasks;
    if tasks.len() == 0 {
        assert(all.drop_last() =~= Seq::empty());
        assert(all.last() == first);
        let none = readings_of(Seq::empty(), readings);
        match readings(first.path) {
            Ok(meta) => {
                let one = none.push(ReadingView { rel: first.path, meta });
                assert(one.drop_last() =~= none);
                assert(readings_of(all, readings) == one);
                assert(all_taken_in(files, none) == files);
            },
            Err(_) => {},
        }
        assert(readings_of(tasks, readings) =~= none);
    } else {
        let rest = tasks.drop_last();
        assert(all.drop_last() =~= seq![first] + rest);
        assert(all.last() == tasks.last());
        lemma_taken_in_first(files, first, rest, readings);
        let a = readings_of(seq![first] + rest, readings);
        let b = readings_of(rest, readings);
        match readings(tasks.last().path) {
            Ok(meta) => {
                let r = ReadingView { rel: tasks.last().path, meta };
                assert(a.push(r).drop_last() =~= a);
                assert(b.push(r).drop_last() =~= b);
            },
            Err(_) => {},
        }
    }
}

/// Whether the task that a run picks is the first with its id.
spec fn is_found_again(s: RunState, times: spec_fn(nat) -> i64) -> bool {
    let tasks = s.world.queue.tasks;
    let i = first_waiting(tasks, s.machine.project_id, 0);
    let picked = taken_up(tasks[i], times(s.clock));
    first_with_id(tasks.update(i, picked), picked.id, 0) == i
}

/// The run at its next task, after the first that waits was worked off.
spec fn after_first(
    s: RunState,
    readings: spec_fn(Seq<char>) -> Result<Option<MetaView>, Seq<char>>,
    times: spec_fn(nat) -> i64,
) -> RunState {
    let tasks = s.world.queue.tasks;
    let i = first_waiting(tasks, s.machine.project_id, 0);
    let picked = taken_up(tasks[i], times(s.clock));
    let held = QueueView { tasks: tasks.update(i, picked), ..s.world.queue };
    let found = readings(picked.path);
    let last = if found is Ok {
        s.clock + 4
    } else {
        s.clock + 3
    };
    let outcome: Result<(), Seq<char>> = match found {
        Ok(_) => Ok(()),
        Err(e) => Err(e),
    };
    let queue = QueueView {
        tasks: not_done(tasks.update(i, finished(picked, outcome, times(last as nat)))),
        ..s.world.queue
    };
    let first_told = if s.machine.run.announced {
        s.told
    } else {
        s.told.push(Told::Queue(held))
    };
    RunState {
        machine: MachineView {
            run: counted(RunView { announced: true, ..s.machine.run }, picked),
            ..s.machine
        },
        step: StepView::ReadQueue,
        world: WorldView {
            queue,
            files: match found {
                Ok(meta) => taken_in(s.world.files, picked.path, meta),
                Err(_) => s.world.files,
            },
        },
        told: if s.machine.run.since_emit + 1 >= QUEUE_EMIT_EVERY {
            first_told.push(Told::Queue(queue))
        } else {
            first_told
        },
        clock: (last + 2) as nat,
    }
}

/// A run works the first task that waits off in a few steps.
proof fn lemma_first_task(
    s: RunState,
    readings: spec_fn(Seq<char>) -> Result<Option<MetaView>, Seq<char>>,
    times: spec_fn(nat) -> i64,
    fuel: nat,
)
    requires
        s.machine.stage is Picking,
        s.step is ReadQueue,
        first_waiting(s.world.queue.tasks, s.machine.project_id, 0) < s.world.queue.tasks.len(),
        is_found_again(s, times),
    ensures
        run_ends(
            s,
            readings,
            times,
            fuel + if readings(
                s.world.queue.tasks[first_waiting(
                    s.world.queue.tasks,
                    s.machine.project_id,
                    0,
                )].path,
            ) is Ok {
                6nat
            } else {
                5nat
            },
        ) == run_ends(after_first(s, readings, times), readings, times, fuel),
{
    let project = s.machine.project_id;
    let q = s.world.queue;
    let tasks = q.tasks;
    lemma_first_waiting(tasks, project, 0);
    let i = first_waiting(tasks, project, 0);
    let picked = taken_up(tasks[i], times(s.clock));
    let held = tasks.update(i, picked);
    let held_queue = QueueView { tasks: held, ..q };
    let found = readings(picked.path);
    assert(still_current(held, picked));
    let s1 = took_step(s, readings, times);
    assert(s1.step == StepView::StoreQueue(held_queue));
    assert(s1.machine.stage == (StageView::Storing { task: picked, queue: held_queue }));
    let s2 = took_step(s1, readings, times);
    assert(s2.step == StepView::ReadMeta(picked.path));
    assert(s2.world.queue == held_queue);
    let s3 = took_step(s2, readings, times);
    assert(s3.step == StepView::ReadQueue);
    assert(s3.machine.stage == (StageView::Updating { task: picked, meta: found }));
    let s4 = took_step(s3, readings, times);
    let end = after_first(s, readings, times);
    match found {
        Ok(meta) => {
            assert(s4.step == StepView::StoreMeta(picked, meta));
            let s5 = took_step(s4, readings, times);
            let after = finished(picked, Ok(()), times(s4.clock));
            assert(with_outcome(held, picked, Ok(()), times(s4.clock)) =~= tasks.update(i, after));
            let s6 = took_step(s5, readings, times);
            assert(s6.told =~= end.told);
            assert(s6.world =~= end.world);
            assert(s6 =~= end);
            lemma_one_step(s, readings, times, fuel + 5);
            lemma_one_step(s1, readings, times, fuel + 4);
            lemma_one_step(s2, readings, times, fuel + 3);
            lemma_one_step(s3, readings, times, fuel + 2);
            lemma_one_step(s4, readings, times, fuel + 1);
            lemma_one_step(s5, readings, times, fuel);
        },
        Err(e) => {
            let after = finished(picked, Err(e), times(s3.clock));
            assert(with_outcome(held, picked, Err(e), times(s3.clock)) =~= tasks.update(i, after));
            let s5 = took_step(s4, readings, times);
            assert(s5.told =~= end.told);
            assert(s5.world =~= end.world);
            assert(s5 =~= end);
            lemma_one_step(s, readings, times, fuel + 4);
            lemma_one_step(s1, readings, times, fuel + 3);
            lemma_one_step(s2, readings, times, fuel + 2);
            lemma_one_step(s3, readings, times, fuel + 1);
            lemma_one_step(s4, readings, times, fuel);
        },
    }
}

/// What a run comes to from a place on where it picks its next task.
pub open spec fn comes_to(
    s: RunState,
    end: RunState,
    readings: spec_fn(Seq<char>) -> Result<Option<MetaView>, Seq<char>>,
    worked_off: Seq<TaskView>,
) -> bool {
    let project_id = s.machine.project_id;
    let tasks = s.world.queue.tasks;
    let waiting = waiting_tasks(tasks, project_id, readings);
    let changed = s.machine.run.changed + worked_off;
    &&& end.step == StepView::End(Ok(changed))
    &&& all_undated(worked_off) == all_taken_up(waiting)
    &&& end.world.queue.version == s.world.queue.version
    &&& waiting.len() == 0 ==> end.world.queue.tasks == tasks
    &&& waiting.len() > 0 ==> are_left(
        end.world.queue.tasks,
        left_over(tasks, project_id, readings),
    )
    &&& end.world.files == all_taken_in(s.world.files, readings_of(waiting, readings))
    &&& queue_tellings(end.told) == queue_tellings(s.told) + (if waiting.len() > 0
        && !s.machine.run.announced {
        1nat
    } else {
        0nat
    }) + (s.machine.run.since_emit + waiting.len()) / (QUEUE_EMIT_EVERY as nat) + 1
    &&& changed_tellings(end.told) == if changed.len() > 0 {
        changed_tellings(s.told).push(changed)
    } else {
        changed_tellings(s.told)
    }
}

/// A run that finds no task that waits comes to its end in two steps.
proof fn lemma_run_at_its_end(
    s: RunState,
    readings: spec_fn(Seq<char>) -> Result<Option<MetaView>, Seq<char>>,
    times: spec_fn(nat) -> i64,
)
    requires
        s.machine.stage is Picking,
        s.step is ReadQueue,
        s.machine.run.since_emit < QUEUE_EMIT_EVERY,
        first_waiting(s.world.queue.tasks, s.machine.project_id, 0) >= s.world.queue.tasks.len(),
    ensures
        run_ends(s, readings, times, 2) matches Some(end) && comes_to(
            s,
            end,
            readings,
            Seq::empty(),
        ),
{
    let project = s.machine.project_id;
    let tasks = s.world.queue.tasks;
    let waiting = waiting_tasks(tasks, project, readings);
    lemma_first_waiting(tasks, project, 0);
    lemma_none_waits(tasks, project, readings);
    let s1 = took_step(s, readings, times);
    let s2 = took_step(s1, readings, times);
    lemma_one_step(s, readings, times, 1);
    lemma_one_step(s1, readings, times, 0);
    assert(run_ends(s2, readings, times, 0) == Some(s2));
    let changed = s.machine.run.changed;
    let none = Seq::<TaskView>::empty();
    assert(changed + none =~= changed);
    assert(all_undated(none) =~= all_taken_up(waiting));
    assert(readings_of(waiting, readings) =~= Seq::empty());
    if changed.len() > 0 {
        lemma_tellings(s.told, Told::Changed(changed));
        lemma_tellings(s.told.push(Told::Changed(changed)), Told::Queue(s.world.queue));
    } else {
        lemma_tellings(s.told, Told::Queue(s.world.queue));
    }
}

/// The task that a run picks, when it is through.
spec fn first_through(
    s: RunState,
    readings: spec_fn(Seq<char>) -> Result<Option<MetaView>, Seq<char>>,
    times: spec_fn(nat) -> i64,
) -> TaskView {
    let tasks = s.world.queue.tasks;
    let i = first_waiting(tasks, s.machine.project_id, 0);
    let picked = taken_up(tasks[i], times(s.clock));
    let found = readings(picked.path);
    let last = if found is Ok {
        s.clock + 4
    } else {
        s.clock + 3
    };
    finished(
        picked,
        match found {
            Ok(_) => Ok(()),
            Err(e) => Err(e),
        },
        times(last as nat),
    )
}

/// What a run comes to after its first task, with that task, is what it comes to.
proof fn lemma_comes_to(
    s: RunState,
    end: RunState,
    readings: spec_fn(Seq<char>) -> Result<Option<MetaView>, Seq<char>>,
    times: spec_fn(nat) -> i64,
    worked: Seq<TaskView>,
) -> (all: Seq<TaskView>)
    requires
        s.machine.stage is Picking,
        s.step is ReadQueue,
        s.machine.run.since_emit < QUEUE_EMIT_EVERY,
        first_waiting(s.world.queue.tasks, s.machine.project_id, 0) < s.world.queue.tasks.len(),
        comes_to(after_first(s, readings, times), end, readings, worked),
    ensures
        comes_to(s, end, readings, all),
{
    let project = s.machine.project_id;
    let tasks = s.world.queue.tasks;
    let waiting = waiting_tasks(tasks, project, readings);
    lemma_first_waiting(tasks, project, 0);
    let i = first_waiting(tasks, project, 0);
    let next = after_first(s, readings, times);
    let picked = taken_up(tasks[i], times(s.clock));
    let after = first_through(s, readings, times);
    let updated = tasks.update(i, after);
    let rest = not_done(updated);
    assert(next.world.queue.tasks == rest);
    lemma_waiting_less(tasks, project, readings, i, after);
    lemma_done_are_nothing(updated, project, readings);
    lemma_left_over_update(tasks, project, readings, i, after);
    lemma_not_done(updated);
    let all = seq![picked] + worked;
    let others = waiting_tasks(rest, project, readings);
    assert(waiting =~= seq![undated(tasks[i])] + others);
    assert(s.machine.run.changed.push(picked) + worked =~= s.machine.run.changed + all);
    assert(all_undated(all) =~= seq![undated(picked)] + all_undated(worked));
    assert(all_taken_up(waiting) =~= seq![undated(taken_up(tasks[i], 0))] + all_taken_up(others));
    lemma_taken_in_first(s.world.files, undated(tasks[i]), others, readings);
    if others.len() == 0 {
        assert forall|k: int| 0 <= k < rest.len() implies !waits(#[trigger] rest[k], project) && !(
        rest[k].status is Done) by {
            if waits(rest[k], project) {
                lemma_some_wait(rest, project, readings, k);
            }
        }
        lemma_all_left(rest, project, readings);
    }
    let held = QueueView { tasks: tasks.update(i, picked), ..s.world.queue };
    lemma_tellings(s.told, Told::Queue(held));
    lemma_tellings(s.told, Told::Queue(next.world.queue));
    lemma_tellings(s.told.push(Told::Queue(held)), Told::Queue(next.world.queue));
    let left = left_over(tasks, project, readings);
    let exact = left_over(rest, project, readings);
    assert(are_left(end.world.queue.tasks, left)) by {
        let kept = end.world.queue.tasks;
        assert forall|k: int| 0 <= k < kept.len() implies is_left_as(#[trigger] kept[k], left[k]) by {
            assert(is_left_as(kept[k], exact[k]));
            assert(exact[k] == left[k] || (left[k].failed && !exact[k].failed && undated(
                exact[k].task,
            ) == left[k].task));
        }
    }
    all
}

/// Working the first task that waits off leaves fewer tasks that wait.
proof fn lemma_fewer_wait(
    s: RunState,
    readings: spec_fn(Seq<char>) -> Result<Option<MetaView>, Seq<char>>,
    times: spec_fn(nat) -> i64,
)
    requires
        first_waiting(s.world.queue.tasks, s.machine.project_id, 0) < s.world.queue.tasks.len(),
    ensures
        waiting_tasks(
            after_first(s, readings, times).world.queue.tasks,
            s.machine.project_id,
            readings,
        ).len() < waiting_tasks(s.world.queue.tasks, s.machine.project_id, readings).len(),
{
    let project = s.machine.project_id;
    let tasks = s.world.queue.tasks;
    lemma_first_waiting(tasks, project, 0);
    let i = first_waiting(tasks, project, 0);
    let after = first_through(s, readings, times);
    lemma_waiting_less(tasks, project, readings, i, after);
    lemma_done_are_nothing(tasks.update(i, after), project, readings);
}

/// A run comes to its end from wherever it picks its next task.
proof fn lemma_run(
    s: RunState,
    readings: spec_fn(Seq<char>) -> Result<Option<MetaView>, Seq<char>>,
    times: spec_fn(nat) -> i64,
) -> (r: (nat, Seq<TaskView>))
    requires
        s.machine.stage is Picking,
        s.step is ReadQueue,
        s.machine.run.since_emit < QUEUE_EMIT_EVERY,
        ids_differ(s.world.queue.tasks),
    ensures
        run_ends(s, readings, times, r.0) matches Some(end) && comes_to(s, end, readings, r.1),
    decreases waiting_tasks(s.world.queue.tasks, s.machine.project_id, readings).len(),
{
    let project = s.machine.project_id;
    let tasks = s.world.queue.tasks;
    lemma_first_waiting(tasks, project, 0);
    let i = first_waiting(tasks, project, 0);
    if i >= tasks.len() {
        lemma_run_at_its_end(s, readings, times);
        (2, Seq::empty())
    } else {
        let next = after_first(s, readings, times);
        let held = tasks.update(i, taken_up(tasks[i], times(s.clock)));
        assert forall|a: int, b: int| 0 <= a < b < held.len() implies (#[trigger] held[a]).id != (
        #[trigger] held[b]).id by {
            assert(tasks[a].id != tasks[b].id);
        }
        lemma_first_with_id(held, i, 0);
        let updated = tasks.update(i, first_through(s, readings, times));
        assert(ids_differ(updated)) by {
            assert forall|a: int, b: int| 0 <= a < b < updated.len() implies (
            #[trigger] updated[a]).id != (#[trigger] updated[b]).id by {
                assert(tasks[a].id != tasks[b].id);
            }
        }
        lemma_not_done(updated);
        lemma_fewer_wait(s, readings, times);
        let (fuel, worked) = lemma_run(next, readings, times);
        lemma_first_task(s, readings, times, fuel);
        let steps: nat = if readings(tasks[i].path) is Ok {
            6
        } else {
            5
        };
        let all = lemma_comes_to(
            s,
            run_ends(next, readings, times, fuel)->0,
            readings,
            times,
            worked,
        );
        (fuel + steps, all)
    }
}

/// Where a task waits there is one among those that wait.
proof fn lemma_some_wait(
    tasks: Seq<TaskView>,
    project_id: Seq<char>,
    readings: spec_fn(Seq<char>) -> Result<Option<MetaView>, Seq<char>>,
    k: int,
)
    requires
        0 <= k < tasks.len(),
        waits(tasks[k], project_id),
    ensures
        waiting_tasks(tasks, project_id, readings).len() > 0,
    decreases tasks.len(),
{
    if k < tasks.len() - 1 {
        assert(tasks.drop_last()[k] == tasks[k]);
        lemma_some_wait(tasks.drop_last(), project_id, readings, k);
    }
}

/// A whole run, while nobody else writes and each task has an id of its own: it comes to its
/// end without an error. It returns the tasks of the project that waited, in their order, one
/// that was to run once more twice, and tells of them once, where there are any. Of those the
/// ones whose files could not be looked at are left as failed, the others leave, and all other
/// tasks stay as they are, but for those that were done before. The snapshot takes in what was
/// found. Listeners are told of the queue when the first task is taken up, after every
/// twenty-fifth, and at the end.
pub proof fn law_whole_run(
    project_id: Seq<char>,
    world: WorldView,
    readings: spec_fn(Seq<char>) -> Result<Option<MetaView>, Seq<char>>,
    times: spec_fn(nat) -> i64,
)
    requires
        ids_differ(world.queue.tasks),
    ensures
        exists|fuel: nat, worked_off: Seq<TaskView>|
            #![trigger
                run_ends(run_begins(project_id, world), readings, times, fuel),
                all_undated(worked_off)
            ]
            run_ends(run_begins(project_id, world), readings, times, fuel) matches Some(end)
                && comes_to(run_begins(project_id, world), end, readings, worked_off),
{
    let (fuel, worked_off) = lemma_run(run_begins(project_id, world), readings, times);
}

/// Whether the project has no open task.
pub open spec fn none_open(tasks: Seq<TaskView>, project_id: Seq<char>) -> bool {
    forall|i: int|
        0 <= i < tasks.len() && (#[trigger] tasks[i]).project_id == project_id ==> !is_open(
            tasks[i].status,
        )
}

/// A run comes to one end.
proof fn lemma_one_end(
    s: RunState,
    readings: spec_fn(Seq<char>) -> Result<Option<MetaView>, Seq<char>>,
    times: spec_fn(nat) -> i64,
    f: nat,
    g: nat,
)
    requires
        run_ends(s, readings, times, f) is Some,
        run_ends(s, readings, times, g) is Some,
    ensures
        run_ends(s, readings, times, f) == run_ends(s, readings, times, g),
    decreases f,
{
    if !(s.step is End) {
        lemma_one_end(
            took_step(s, readings, times),
            readings,
            times,
            (f - 1) as nat,
            (g - 1) as nat,
        );
    }
}

/// A run that comes to its end comes to it within more steps as well.
proof fn lemma_more_fuel(
    s: RunState,
    readings: spec_fn(Seq<char>) -> Result<Option<MetaView>, Seq<char>>,
    times: spec_fn(nat) -> i64,
    fuel: nat,
    more: nat,
)
    requires
        run_ends(s, readings, times, fuel) is Some,
    ensures
        run_ends(s, readings, times, fuel + more) == run_ends(s, readings, times, fuel),
    decreases fuel,
{
    if !(s.step is End) {
        let next = took_step(s, readings, times);
        lemma_more_fuel(next, readings, times, (fuel - 1) as nat, more);
        assert((fuel + more - 1) as nat == (fuel - 1) as nat + more);
    }
}

/// Whether a task of the project is in process, but for the one at that place.
spec fn one_in_process(tasks: Seq<TaskView>, project_id: Seq<char>, but: int) -> bool {
    exists|k: int|
        0 <= k < tasks.len() && k != but && (#[trigger] tasks[k]).project_id == project_id
            && tasks[k].status is Processing
}

/// A task in process is not among those that leave.
proof fn lemma_in_process_stays(tasks: Seq<TaskView>, project_id: Seq<char>, k: int)
    requires
        0 <= k < tasks.len(),
        tasks[k].project_id == project_id,
        tasks[k].status is Processing,
    ensures
        one_in_process(not_done(tasks), project_id, -1),
    decreases tasks.len(),
{
    let rest = tasks.drop_last();
    let kept = not_done(tasks);
    if k < rest.len() {
        assert(rest[k] == tasks[k]);
        lemma_in_process_stays(rest, project_id, k);
        let before = not_done(rest);
        let j = choose|j: int|
            0 <= j < before.len() && j != -1 && (#[trigger] before[j]).project_id == project_id
                && before[j].status is Processing;
        assert(kept[j] == before[j]);
    } else {
        assert(kept[kept.len() - 1] == tasks[k]);
    }
}

/// Whether a task of the project is in process that the run will not bring to its end: it is
/// not the one that is found by the id of the task that was picked last.
spec fn is_stuck(s: RunState) -> bool {
    let project_id = s.machine.project_id;
    let tasks = s.world.queue.tasks;
    match s.machine.stage {
        StageView::Picking => s.step is ReadQueue && one_in_process(tasks, project_id, -1),
        StageView::Draining => s.step is ReadQueue && one_in_process(tasks, project_id, -1),
        StageView::Storing { task, queue } => s.step == StepView::StoreQueue(queue)
            && one_in_process(queue.tasks, project_id, first_with_id(queue.tasks, task.id, 0)),
        StageView::Reading { task } => s.step is ReadMeta && one_in_process(
            tasks,
            project_id,
            first_with_id(tasks, task.id, 0),
        ),
        StageView::Updating { task, .. } => s.step is ReadQueue && one_in_process(
            tasks,
            project_id,
            first_with_id(tasks, task.id, 0),
        ),
        StageView::Recording { task, queue } => s.step is StoreMeta && queue == s.world.queue
            && one_in_process(tasks, project_id, first_with_id(tasks, task.id, 0)),
        StageView::Writing { .. } => s.step matches StepView::StoreAndReadQueue(queue)
            && one_in_process(queue.tasks, project_id, -1),
        StageView::Ended => s.step is End && one_in_process(tasks, project_id, -1),
    }
}

/// The place of the first task with an id is within the tasks, or after them.
proof fn lemma_place(tasks: Seq<TaskView>, id: Seq<char>, from: int)
    requires
        0 <= from <= tasks.len(),
    ensures
        from <= first_with_id(tasks, id, from) <= tasks.len(),
    decreases tasks.len() - from,
{
    if from < tasks.len() && tasks[from].id != id {
        lemma_place(tasks, id, from + 1);
    }
}

/// Entering an outcome leaves a task in process that is not the one it is entered for.
proof fn lemma_outcome_leaves_one(
    tasks: Seq<TaskView>,
    project_id: Seq<char>,
    picked: TaskView,
    outcome: Result<(), Seq<char>>,
    now: i64,
)
    requires
        one_in_process(tasks, project_id, first_with_id(tasks, picked.id, 0)),
    ensures
        one_in_process(not_done(with_outcome(tasks, picked, outcome, now)), project_id, -1),
{
    let f = first_with_id(tasks, picked.id, 0);
    let k = choose|k: int|
        0 <= k < tasks.len() && k != f && (#[trigger] tasks[k]).project_id == project_id
            && tasks[k].status is Processing;
    let next = with_outcome(tasks, picked, outcome, now);
    lemma_place(tasks, picked.id, 0);
    assert(next[k] == tasks[k]);
    lemma_in_process_stays(next, project_id, k);
}

/// A run that picks a task leaves one in process that it will not find again, if there was
/// one in process before, or if the one that it picked is not the first with its id.
proof fn lemma_picking_sticks(
    s: RunState,
    readings: spec_fn(Seq<char>) -> Result<Option<MetaView>, Seq<char>>,
    times: spec_fn(nat) -> i64,
)
    requires
        s.machine.stage is Picking,
        s.step is ReadQueue,
        ({
            let tasks = s.world.queue.tasks;
            let i = first_waiting(tasks, s.machine.project_id, 0);
            one_in_process(tasks, s.machine.project_id, -1) || (i < tasks.len()
                && !is_found_again(s, times))
        }),
    ensures
        is_stuck(took_step(s, readings, times)),
{
    let project_id = s.machine.project_id;
    let tasks = s.world.queue.tasks;
    lemma_first_waiting(tasks, project_id, 0);
    let i = first_waiting(tasks, project_id, 0);
    if i < tasks.len() {
        let picked = taken_up(tasks[i], times(s.clock));
        let held = tasks.update(i, picked);
        let f = first_with_id(held, picked.id, 0);
        if f == i {
            let k = choose|k: int|
                0 <= k < tasks.len() && k != -1 && (#[trigger] tasks[k]).project_id == project_id
                    && tasks[k].status is Processing;
            assert(held[k] == tasks[k]);
        } else {
            assert(held[i] == picked);
        }
        assert(one_in_process(held, project_id, f));
    }
}

/// A task that is stuck stays so from step to step.
proof fn lemma_stuck_stays(
    s: RunState,
    readings: spec_fn(Seq<char>) -> Result<Option<MetaView>, Seq<char>>,
    times: spec_fn(nat) -> i64,
)
    requires
        is_stuck(s),
        !(s.step is End),
    ensures
        is_stuck(took_step(s, readings, times)),
{
    let project_id = s.machine.project_id;
    let tasks = s.world.queue.tasks;
    let now = times(s.clock);
    match s.machine.stage {
        StageView::Picking => lemma_picking_sticks(s, readings, times),
        StageView::Updating { task, meta } => {
            lemma_outcome_leaves_one(tasks, project_id, task, Ok(()), now);
            match meta {
                Err(e) => lemma_outcome_leaves_one(tasks, project_id, task, Err(e), now),
                Ok(_) => {},
            }
        },
        StageView::Recording { task, .. } => lemma_outcome_leaves_one(
            tasks,
            project_id,
            task,
            Ok(()),
            now,
        ),
        _ => {},
    }
}

/// A run in which a task is stuck leaves it.
proof fn lemma_stuck_is_left(
    s: RunState,
    readings: spec_fn(Seq<char>) -> Result<Option<MetaView>, Seq<char>>,
    times: spec_fn(nat) -> i64,
    fuel: nat,
)
    requires
        is_stuck(s),
        run_ends(s, readings, times, fuel) is Some,
    ensures
        run_ends(s, readings, times, fuel) matches Some(end) && !none_open(
            end.world.queue.tasks,
            s.machine.project_id,
        ),
    decreases fuel,
{
    if s.step is End {
        let tasks = s.world.queue.tasks;
        let k = choose|k: int|
            0 <= k < tasks.len() && k != -1 && (#[trigger] tasks[k]).project_id
                == s.machine.project_id && tasks[k].status is Processing;
        assert(is_open(tasks[k].status));
    } else {
        lemma_stuck_stays(s, readings, times);
        lemma_stuck_is_left(took_step(s, readings, times), readings, times, (fuel - 1) as nat);
    }
}

/// A run that leaves no open task, from wherever it picks its next task.
proof fn lemma_settled_run(
    s: RunState,
    readings: spec_fn(Seq<char>) -> Result<Option<MetaView>, Seq<char>>,
    times: spec_fn(nat) -> i64,
    fuel: nat,
    end: RunState,
) -> (worked: Seq<TaskView>)
    requires
        s.machine.stage is Picking,
        s.step is ReadQueue,
        s.machine.run.since_emit < QUEUE_EMIT_EVERY,
        run_ends(s, readings, times, fuel) == Some(end),
        none_open(end.world.queue.tasks, s.machine.project_id),
    ensures
        comes_to(s, end, readings, worked),
    decreases waiting_tasks(s.world.queue.tasks, s.machine.project_id, readings).len(),
{
    let tasks = s.world.queue.tasks;
    let i = first_waiting(tasks, s.machine.project_id, 0);
    if i >= tasks.len() {
        lemma_run_at_its_end(s, readings, times);
        lemma_one_end(s, readings, times, fuel, 2);
        Seq::empty()
    } else {
        if !is_found_again(s, times) {
            lemma_picking_sticks(s, readings, times);
            lemma_stuck_is_left(
                took_step(s, readings, times),
                readings,
                times,
                (fuel - 1) as nat,
            );
        }
        let steps: nat = if readings(tasks[i].path) is Ok {
            6
        } else {
            5
        };
        let next = after_first(s, readings, times);
        lemma_first_task(s, readings, times, fuel);
        lemma_more_fuel(s, readings, times, fuel, steps);
        lemma_fewer_wait(s, readings, times);
        let worked = lemma_settled_run(next, readings, times, fuel, end);
        lemma_comes_to(s, end, readings, times, worked)
    }
}

/// A whole run that leaves no open task of the project, while nobody else writes, whatever
/// ids the tasks have: it comes to what a whole run comes to where each task has an id of its
/// own.
pub proof fn law_whole_run_that_leaves_none_open(
    project_id: Seq<char>,
    world: WorldView,
    readings: spec_fn(Seq<char>) -> Result<Option<MetaView>, Seq<char>>,
    times: spec_fn(nat) -> i64,
    fuel: nat,
    end: RunState,
)
    requires
        run_ends(run_begins(project_id, world), readings, times, fuel) == Some(end),
        none_open(end.world.queue.tasks, project_id),
    ensures
        exists|worked_off: Seq<TaskView>| #[trigger]
            comes_to(run_begins(project_id, world), end, readings, worked_off),
{
    let worked_off = lemma_settled_run(
        run_begins(project_id, world),
        readings,
        times,
        fuel,
        end,
    );
}

} // verus!
