//! What holds of a run through the queue.

use vstd::prelude::*;

use crate::machine::{
    advanced, expects, InputView, MachineView, OutputView, StageView, StepView,
};
use crate::process::{
    all_retried, can_fail, counted, finished, first_waiting, first_with_id, is_current, is_named,
    not_done, retried, still_current, taken_up, waits, with_outcome, without_named, RunView,
    QUEUE_EMIT_EVERY,
};
use crate::queue::{FileChangeStatus, MetaView, QueueView, TaskView};

verus! {

/// Whether no two tasks have one id.
pub open spec fn ids_differ(tasks: Seq<TaskView>) -> bool {
    forall|i: int, j: int|
        0 <= i < j < tasks.len() ==> (#[trigger] tasks[i]).id != (#[trigger] tasks[j]).id
}

/// How many tasks of the project wait.
pub open spec fn waiting(tasks: Seq<TaskView>, project_id: Seq<char>) -> nat
    decreases tasks.len(),
{
    if tasks.len() == 0 {
        0
    } else {
        waiting(tasks.drop_last(), project_id) + if waits(tasks.last(), project_id) {
            1nat
        } else {
            0nat
        }
    }
}

/// The first waiting task is the first: none before it waits.
pub proof fn lemma_first_waiting(tasks: Seq<TaskView>, project_id: Seq<char>, from: int)
    requires
        0 <= from <= tasks.len(),
    ensures
        from <= first_waiting(tasks, project_id, from) <= tasks.len(),
        forall|i: int|
            from <= i < first_waiting(tasks, project_id, from) ==> !waits(
                #[trigger] tasks[i],
                project_id,
            ),
        first_waiting(tasks, project_id, from) < tasks.len() ==> waits(
            tasks[first_waiting(tasks, project_id, from)],
            project_id,
        ),
    decreases tasks.len() - from,
{
    if from < tasks.len() && !waits(tasks[from], project_id) {
        lemma_first_waiting(tasks, project_id, from + 1);
    }
}

/// Where the ids differ, the first task with an id is the one that has it.
pub proof fn lemma_first_with_id(tasks: Seq<TaskView>, i: int, from: int)
    requires
        ids_differ(tasks),
        0 <= from <= i < tasks.len(),
    ensures
        first_with_id(tasks, tasks[i].id, from) == i,
    decreases tasks.len() - from,
{
    if from < i {
        assert(tasks[from].id != tasks[i].id);
        lemma_first_with_id(tasks, i, from + 1);
    }
}

/// Replacing a task changes the number of those that wait by that task alone.
proof fn lemma_waiting_update(tasks: Seq<TaskView>, project_id: Seq<char>, i: int, task: TaskView)
    requires
        0 <= i < tasks.len(),
    ensures
        waiting(tasks.update(i, task), project_id) == waiting(tasks, project_id) + (if waits(
            task,
            project_id,
        ) {
            1int
        } else {
            0int
        }) - (if waits(tasks[i], project_id) {
            1int
        } else {
            0int
        }),
    decreases tasks.len(),
{
    let next = tasks.update(i, task);
    if i == tasks.len() - 1 {
        assert(next.drop_last() =~= tasks.drop_last());
    } else {
        lemma_waiting_update(tasks.drop_last(), project_id, i, task);
        assert(next.drop_last() =~= tasks.drop_last().update(i, task));
        assert(tasks.drop_last()[i] == tasks[i]);
    }
}

/// Dropping the tasks that are done changes nothing about those that wait.
proof fn lemma_waiting_not_done(tasks: Seq<TaskView>, project_id: Seq<char>)
    ensures
        waiting(not_done(tasks), project_id) == waiting(tasks, project_id),
    decreases tasks.len(),
{
    if tasks.len() > 0 {
        lemma_waiting_not_done(tasks.drop_last(), project_id);
        let kept = not_done(tasks.drop_last());
        if !(tasks.last().status is Done) {
            assert(kept.push(tasks.last()).drop_last() =~= kept);
        }
    }
}

/// Taking up a task and entering its outcome, while nobody else touches the queue, leaves
/// one task less that waits, whether the task succeeds or fails. So a run comes to an end.
pub proof fn law_run_works_the_queue_off(
    tasks: Seq<TaskView>,
    project_id: Seq<char>,
    outcome: Result<(), Seq<char>>,
    now: i64,
    later: i64,
)
    requires
        ids_differ(tasks),
        first_waiting(tasks, project_id, 0) < tasks.len(),
        !tasks[first_waiting(tasks, project_id, 0)].needs_rerun,
    ensures
        ({
            let i = first_waiting(tasks, project_id, 0);
            let picked = taken_up(tasks[i], now);
            let held = tasks.update(i, picked);
            &&& still_current(held, picked)
            &&& waiting(not_done(with_outcome(held, picked, outcome, later)), project_id)
                == waiting(tasks, project_id) - 1
        }),
{
    lemma_first_waiting(tasks, project_id, 0);
    let i = first_waiting(tasks, project_id, 0);
    let picked = taken_up(tasks[i], now);
    let held = tasks.update(i, picked);
    assert forall|a: int, b: int| 0 <= a < b < held.len() implies (#[trigger] held[a]).id != (
    #[trigger] held[b]).id by {
        assert(tasks[a].id != tasks[b].id);
    }
    lemma_first_with_id(held, i, 0);
    let after = finished(held[i], outcome, later);
    assert(with_outcome(held, picked, outcome, later) =~= tasks.update(i, after));
    lemma_waiting_update(tasks, project_id, i, after);
    lemma_waiting_not_done(tasks.update(i, after), project_id);
}

/// Filtering out the tasks that are done leaves those before and after an index apart.
proof fn lemma_not_done_remove(tasks: Seq<TaskView>, i: int)
    requires
        0 <= i < tasks.len(),
        tasks[i].status is Done,
    ensures
        not_done(tasks) == not_done(tasks.remove(i)),
    decreases tasks.len(),
{
    let less = tasks.remove(i);
    if i == tasks.len() - 1 {
        assert(less =~= tasks.drop_last());
    } else {
        assert(tasks.drop_last().remove(i) =~= less.drop_last());
        assert(tasks.drop_last()[i] == tasks[i]);
        lemma_not_done_remove(tasks.drop_last(), i);
        assert(less.last() == tasks.last());
    }
}

/// A task that succeeds, while nobody else touches the queue, leaves it, and the other
/// tasks stay as they are but for those that were done before.
pub proof fn law_done_task_leaves(
    tasks: Seq<TaskView>,
    project_id: Seq<char>,
    now: i64,
    later: i64,
)
    requires
        ids_differ(tasks),
        first_waiting(tasks, project_id, 0) < tasks.len(),
        !tasks[first_waiting(tasks, project_id, 0)].needs_rerun,
    ensures
        ({
            let i = first_waiting(tasks, project_id, 0);
            let picked = taken_up(tasks[i], now);
            not_done(with_outcome(tasks.update(i, picked), picked, Ok(()), later)) == not_done(
                tasks.remove(i),
            )
        }),
{
    lemma_first_waiting(tasks, project_id, 0);
    let i = first_waiting(tasks, project_id, 0);
    let picked = taken_up(tasks[i], now);
    let held = tasks.update(i, picked);
    assert forall|a: int, b: int| 0 <= a < b < held.len() implies (#[trigger] held[a]).id != (
    #[trigger] held[b]).id by {
        assert(tasks[a].id != tasks[b].id);
    }
    lemma_first_with_id(held, i, 0);
    let after = finished(held[i], Ok(()), later);
    let next = tasks.update(i, after);
    assert(with_outcome(held, picked, Ok(()), later) =~= next);
    lemma_not_done_remove(next, i);
    assert(next.remove(i) =~= tasks.remove(i));
}

/// A change that comes in while the task of its file is in process is not lost: once the
/// task is through it waits again.
pub proof fn law_change_in_process_runs_again(task: TaskView, picked: TaskView, now: i64)
    requires
        is_current(task, picked),
        task.needs_rerun,
    ensures
        finished(task, Ok(()), now).status is Pending,
        !finished(task, Ok(()), now).needs_rerun,
{
}

/// Of the tasks that are worked off listeners are told of the queue after every
/// twenty-fifth, and only then.
pub open spec fn emits(run: RunView) -> bool {
    run.since_emit + 1 >= QUEUE_EMIT_EVERY
}

/// The run after the tasks were worked off, one after the other.
pub open spec fn all_counted(run: RunView, tasks: Seq<TaskView>) -> RunView
    decreases tasks.len(),
{
    if tasks.len() == 0 {
        run
    } else {
        counted(all_counted(run, tasks.drop_last()), tasks.last())
    }
}

/// A run that began counts its tasks modulo the number after which listeners are told, and
/// keeps all of them for the end, where they are told of what was worked off.
pub proof fn law_run_keeps_all_tasks(tasks: Seq<TaskView>, announced: bool)
    ensures
        ({
            let run = RunView { changed: Seq::empty(), since_emit: 0, announced };
            let end = all_counted(run, tasks);
            &&& end.changed == tasks
            &&& end.since_emit == tasks.len() % (QUEUE_EMIT_EVERY as nat)
            &&& emits(end) == ((tasks.len() + 1) % (QUEUE_EMIT_EVERY as nat) == 0)
        }),
    decreases tasks.len(),
{
    if tasks.len() > 0 {
        law_run_keeps_all_tasks(tasks.drop_last(), announced);
        assert(tasks.drop_last().push(tasks.last()) =~= tasks);
    }
}

/// A task that was ignored is in the queue no more.
pub proof fn law_ignored_task_is_gone(
    tasks: Seq<TaskView>,
    project_id: Seq<char>,
    task_id: Seq<char>,
    i: int,
)
    requires
        0 <= i < without_named(tasks, project_id, task_id).len(),
    ensures
        !is_named(without_named(tasks, project_id, task_id)[i], project_id, task_id),
    decreases tasks.len(),
{
    if tasks.len() > 0 {
        let before = without_named(tasks.drop_last(), project_id, task_id);
        if i < before.len() {
            law_ignored_task_is_gone(tasks.drop_last(), project_id, task_id, i);
        }
    }
}

/// A task that is retried waits, with all its retries before it.
pub proof fn law_retried_task_waits(
    task: TaskView,
    project_id: Seq<char>,
    task_id: Seq<char>,
    now: i64,
)
    requires
        is_named(task, project_id, task_id),
    ensures
        waits(retried(task, project_id, task_id, now), project_id),
        retried(task, project_id, task_id, now).retry_count == 0,
{
}

/// The task that is taken up is the first of the project's that waits, and is in process from
/// then on; nothing else about it changes. Where none waits none is taken up.
pub proof fn law_first_waiting_task_is_taken_up(
    tasks: Seq<TaskView>,
    project_id: Seq<char>,
    i: int,
    now: i64,
)
    requires
        0 <= i <= tasks.len(),
        i < tasks.len() ==> tasks[i].project_id == project_id && tasks[i].status
            == FileChangeStatus::Pending,
        forall|j: int|
            0 <= j < i ==> (#[trigger] tasks[j]).project_id != project_id || tasks[j].status
                != FileChangeStatus::Pending,
    ensures
        first_waiting(tasks, project_id, 0) == i,
        i < tasks.len() ==> taken_up(tasks[i], now) == (TaskView {
            status: FileChangeStatus::Processing,
            updated_at: now,
            ..tasks[i]
        }),
{
    lemma_first_waiting(tasks, project_id, 0);
    let k = first_waiting(tasks, project_id, 0);
    if k < i {
        assert(tasks[k].project_id == project_id);
    }
    if i < k {
        assert(!waits(tasks[i], project_id));
    }
}

/// Whether the task at `i` is the first with that id.
pub open spec fn is_first_with(tasks: Seq<TaskView>, id: Seq<char>, i: int) -> bool {
    &&& 0 <= i < tasks.len()
    &&& tasks[i].id == id
    &&& forall|j: int| 0 <= j < i ==> (#[trigger] tasks[j]).id != id
}

/// The first task with an id is found from any index up to it.
proof fn lemma_found_from(tasks: Seq<TaskView>, id: Seq<char>, i: int, from: int)
    requires
        is_first_with(tasks, id, i),
        0 <= from <= i,
    ensures
        first_with_id(tasks, id, from) == i,
    decreases i - from,
{
    if from < i {
        assert(tasks[from].id != id);
        lemma_found_from(tasks, id, i, from + 1);
    }
}

/// No task is found with an id that none has.
proof fn lemma_none_found(tasks: Seq<TaskView>, id: Seq<char>, from: int)
    requires
        0 <= from <= tasks.len(),
        forall|j: int| 0 <= j < tasks.len() ==> (#[trigger] tasks[j]).id != id,
    ensures
        first_with_id(tasks, id, from) == tasks.len(),
    decreases tasks.len() - from,
{
    if from < tasks.len() {
        assert(tasks[from].id != id);
        lemma_none_found(tasks, id, from + 1);
    }
}

/// What became of a task that was taken up is entered into it if it is in process as it was taken
/// up, and then: one whose file was looked at is done, or waits if a change came in meanwhile;
/// one whose file could not be looked at has failed once more, for that reason. A task that was
/// changed by somebody else meanwhile only waits again if that is called for. All other tasks
/// stay as they are.
pub proof fn law_outcome_is_entered(
    tasks: Seq<TaskView>,
    picked: TaskView,
    i: int,
    why: Seq<char>,
    now: i64,
)
    requires
        is_first_with(tasks, picked.id, i),
        tasks[i].retry_count < u32::MAX,
    ensures
        ({
            let current = tasks[i].status == FileChangeStatus::Processing && tasks[i].updated_at
                == picked.updated_at;
            let good = with_outcome(tasks, picked, Ok(()), now);
            let bad = with_outcome(tasks, picked, Err(why), now);
            &&& still_current(tasks, picked) == current
            &&& can_fail(tasks, picked)
            &&& good.len() == tasks.len() && bad.len() == tasks.len()
            &&& forall|j: int|
                0 <= j < tasks.len() && j != i ==> #[trigger] good[j] == tasks[j]
            &&& forall|j: int| 0 <= j < tasks.len() && j != i ==> #[trigger] bad[j] == tasks[j]
            &&& current && !tasks[i].needs_rerun ==> good[i] == (TaskView {
                status: FileChangeStatus::Done,
                error: None,
                updated_at: now,
                ..tasks[i]
            })
            &&& current && tasks[i].needs_rerun ==> good[i] == (TaskView {
                status: FileChangeStatus::Pending,
                needs_rerun: false,
                error: None,
                updated_at: now,
                ..tasks[i]
            })
            &&& current ==> bad[i] == (TaskView {
                status: FileChangeStatus::Failed,
                error: Some(why),
                retry_count: bad[i].retry_count,
                updated_at: now,
                ..tasks[i]
            }) && bad[i].retry_count == tasks[i].retry_count + 1
            &&& !current ==> good[i] == bad[i]
            &&& !current && tasks[i].status == FileChangeStatus::Processing && tasks[i].needs_rerun
                ==> good[i] == (TaskView {
                status: FileChangeStatus::Pending,
                needs_rerun: false,
                updated_at: now,
                ..tasks[i]
            })
            &&& !current && !(tasks[i].status == FileChangeStatus::Processing
                && tasks[i].needs_rerun) ==> good[i] == tasks[i]
        }),
{
    lemma_found_from(tasks, picked.id, i, 0);
}

/// A task that is no longer in the queue is entered nowhere, and counts for nothing.
pub proof fn law_removed_task_is_entered_nowhere(
    tasks: Seq<TaskView>,
    picked: TaskView,
    outcome: Result<(), Seq<char>>,
    now: i64,
)
    requires
        forall|j: int| 0 <= j < tasks.len() ==> (#[trigger] tasks[j]).id != picked.id,
    ensures
        with_outcome(tasks, picked, outcome, now) == tasks,
        !still_current(tasks, picked),
{
    lemma_none_found(tasks, picked.id, 0);
}

/// The tasks that are done leave the queue, and all others stay in their order.
pub proof fn law_only_tasks_that_are_done_leave(tasks: Seq<TaskView>)
    ensures
        not_done(tasks) == tasks.filter(|t: TaskView| t.status != FileChangeStatus::Done),
    decreases tasks.len(),
{
    reveal(Seq::filter);
    let f = |t: TaskView| t.status != FileChangeStatus::Done;
    if tasks.len() > 0 {
        law_only_tasks_that_are_done_leave(tasks.drop_last());
    }
    assert(not_done(tasks) =~= tasks.filter(f));
}

/// Ignoring a task takes it out of the queue, and leaves all others in it in their order: tasks
/// of other projects, and of other names.
pub proof fn law_only_the_named_task_is_ignored(
    tasks: Seq<TaskView>,
    project_id: Seq<char>,
    task_id: Seq<char>,
)
    ensures
        without_named(tasks, project_id, task_id) == tasks.filter(
            |t: TaskView| t.id != task_id || t.project_id != project_id,
        ),
    decreases tasks.len(),
{
    reveal(Seq::filter);
    let f = |t: TaskView| t.id != task_id || t.project_id != project_id;
    if tasks.len() > 0 {
        law_only_the_named_task_is_ignored(tasks.drop_last(), project_id, task_id);
    }
    assert(without_named(tasks, project_id, task_id) =~= tasks.filter(f));
}

/// Retrying a task makes it wait as if for the first time, and changes no other task.
pub proof fn law_only_the_named_task_is_retried(
    tasks: Seq<TaskView>,
    project_id: Seq<char>,
    task_id: Seq<char>,
    now: i64,
    i: int,
)
    requires
        0 <= i < tasks.len(),
    ensures
        ({
            let next = all_retried(tasks, project_id, task_id, now);
            &&& next.len() == tasks.len()
            &&& tasks[i].id == task_id && tasks[i].project_id == project_id ==> next[i] == (
            TaskView {
                status: FileChangeStatus::Pending,
                error: None,
                retry_count: 0,
                needs_rerun: false,
                updated_at: now,
                ..tasks[i]
            })
            &&& tasks[i].id != task_id || tasks[i].project_id != project_id ==> next[i] == tasks[i]
        }),
{
}

/// A run keeps the tasks that it worked off in their order, and tells of the queue after every
/// twenty-fifth.
pub proof fn law_run_counts_to_twenty_five(run: RunView, task: TaskView)
    requires
        run.since_emit < 25,
    ensures
        counted(run, task).changed == run.changed.push(task),
        counted(run, task).since_emit == (run.since_emit + 1) % 25,
        counted(run, task).announced == run.announced,
        emits(run) <==> run.since_emit == 24,
{
}

/// Whether the run goes on in another stage with that step, and tells nobody anything.
pub open spec fn goes_on_quietly(
    m: MachineView,
    out: (MachineView, OutputView),
    stage: StageView,
    step: StepView,
) -> bool {
    &&& out.0.project_id == m.project_id
    &&& out.0.stage == stage
    &&& out.1.step == step
    &&& out.1.changed is None
    &&& out.1.queue is None
}

/// A run that reads the queue to take up a task stores the queue with the first task that waits
/// in process, and reads the queue once more where none waits.
pub proof fn law_run_takes_up_the_first_task(m: MachineView, q: QueueView, i: int, now: i64)
    requires
        m.stage is Picking,
        0 <= i <= q.tasks.len(),
        i < q.tasks.len() ==> q.tasks[i].project_id == m.project_id && q.tasks[i].status
            == FileChangeStatus::Pending,
        forall|j: int|
            0 <= j < i ==> (#[trigger] q.tasks[j]).project_id != m.project_id || q.tasks[j].status
                != FileChangeStatus::Pending,
    ensures
        ({
            let out = advanced(m, InputView::Queue(Ok(q)), now);
            &&& out.0.run == m.run
            &&& i < q.tasks.len() ==> {
                let task = TaskView {
                    status: FileChangeStatus::Processing,
                    updated_at: now,
                    ..q.tasks[i]
                };
                let queue = QueueView { version: q.version, tasks: q.tasks.update(i, task) };
                goes_on_quietly(
                    m,
                    out,
                    StageView::Storing { task, queue },
                    StepView::StoreQueue(queue),
                )
            }
            &&& i == q.tasks.len() ==> goes_on_quietly(
                m,
                out,
                StageView::Draining,
                StepView::ReadQueue,
            )
        }),
{
    law_first_waiting_task_is_taken_up(q.tasks, m.project_id, i, now);
}

/// A run looks at the file of the task that it took up, once the queue is stored, and then reads
/// the queue again to enter what came of it. Listeners are told of the queue for the first task
/// of the run, and for no other.
pub proof fn law_run_looks_at_the_file(
    m: MachineView,
    task: TaskView,
    queue: QueueView,
    meta: Result<Option<MetaView>, Seq<char>>,
    now: i64,
)
    ensures
        m.stage == (StageView::Storing { task, queue }) ==> {
            let (after, output) = advanced(m, InputView::Stored(Ok(())), now);
            &&& after.stage == (StageView::Reading { task })
            &&& output.step == StepView::ReadMeta(task.path)
            &&& output.changed is None
            &&& m.run.announced ==> output.queue is None
            &&& !m.run.announced ==> output.queue == Some(queue)
            &&& after.run == (RunView { announced: true, ..m.run })
            &&& after.project_id == m.project_id
        },
        m.stage == (StageView::Reading { task }) ==> {
            let out = advanced(m, InputView::Meta(meta), now);
            &&& goes_on_quietly(
                m,
                out,
                StageView::Updating { task, meta },
                StepView::ReadQueue,
            )
            &&& out.0.run == m.run
        },
{
}

/// What came of a task is entered into the queue as it was read, and the tasks that are done
/// leave it: with the error where the file could not be looked at, and else once the snapshot
/// was stored, or at once where the task was changed meanwhile. The task counts as worked off if
/// it was not.
pub proof fn law_run_enters_the_outcome(
    m: MachineView,
    task: TaskView,
    q: QueueView,
    found: Option<MetaView>,
    why: Seq<char>,
    now: i64,
)
    requires
        m.run.since_emit < 25,
    ensures
        ({
            let good = QueueView {
                version: q.version,
                tasks: not_done(with_outcome(q.tasks, task, Ok(()), now)),
            };
            let bad = QueueView {
                version: q.version,
                tasks: not_done(with_outcome(q.tasks, task, Err(why), now)),
            };
            let current = still_current(q.tasks, task);
            let emit = current && m.run.since_emit == 24;
            let run = if current {
                RunView {
                    changed: m.run.changed.push(task),
                    since_emit: (m.run.since_emit + 1) as nat % 25,
                    announced: m.run.announced,
                }
            } else {
                m.run
            };
            &&& m.stage == (StageView::Updating { task, meta: Err(why) }) ==> {
                let out = advanced(m, InputView::Queue(Ok(q)), now);
                &&& goes_on_quietly(
                    m,
                    out,
                    StageView::Writing { emit },
                    StepView::StoreAndReadQueue(bad),
                )
                &&& out.0.run == run
            }
            &&& m.stage == (StageView::Updating { task, meta: Ok(found) }) && !current ==> {
                let out = advanced(m, InputView::Queue(Ok(q)), now);
                &&& goes_on_quietly(
                    m,
                    out,
                    StageView::Writing { emit: false },
                    StepView::StoreAndReadQueue(good),
                )
                &&& out.0.run == m.run
            }
            &&& m.stage == (StageView::Updating { task, meta: Ok(found) }) && current ==> {
                let out = advanced(m, InputView::Queue(Ok(q)), now);
                &&& goes_on_quietly(
                    m,
                    out,
                    StageView::Recording { task, queue: q },
                    StepView::StoreMeta(task, found),
                )
                &&& out.0.run == m.run
            }
            &&& m.stage == (StageView::Recording { task, queue: q }) ==> {
                let out = advanced(m, InputView::Stored(Ok(())), now);
                &&& goes_on_quietly(
                    m,
                    out,
                    StageView::Writing { emit },
                    StepView::StoreAndReadQueue(good),
                )
                &&& out.0.run == run
            }
        }),
{
}

/// Once the queue is stored the run goes back to taking up a task, and tells of the queue if that
/// is called for. It ends when none waits, with the tasks that it worked off.
pub proof fn law_run_goes_on_until_none_waits(m: MachineView, q: QueueView, emit: bool, now: i64)
    ensures
        m.stage == (StageView::Writing { emit }) ==> {
            let (after, output) = advanced(m, InputView::Queue(Ok(q)), now);
            &&& after == (MachineView { stage: StageView::Picking, ..m })
            &&& output.step is ReadQueue
            &&& output.changed is None
            &&& emit ==> output.queue == Some(q)
            &&& !emit ==> output.queue is None
        },
        m.stage is Draining ==> {
            let (after, output) = advanced(m, InputView::Queue(Ok(q)), now);
            &&& after == (MachineView { stage: StageView::Ended, ..m })
            &&& output.step == StepView::End(Ok(m.run.changed))
            &&& output.changed == Some(m.run.changed)
            &&& output.queue == Some(q)
        },
{
}

/// What a run waits for in each stage.
pub proof fn law_what_a_run_waits_for(stage: StageView, input: InputView)
    ensures
        expects(stage, input) <==> {
            ||| input is Queue && (stage is Picking || stage is Updating || stage is Writing
                || stage is Draining)
            ||| input is Stored && (stage is Storing || stage is Recording)
            ||| input is Meta && stage is Reading
        },
{
}

} // verus!
