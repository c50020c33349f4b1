//! Working the queue off, task by task.
//!
//! The queue is stored between the steps, and others may enter changes meanwhile. So each
//! step starts from the queue as it was read: `pick_task` takes up the next task that waits,
//! and `QueueRun::finish_at` enters what became of it.

use vstd::prelude::*;

use crate::clock::{now_ms, on_clock};
use crate::queue::{
    clone_tasks, read_queue, task_views, version_read, FileChangeQueue, FileChangeStatus,
    FileChangeTask, QueueView, TaskView,
};
use crate::text::eq;

verus! {

/// After how many tasks listeners are told of the queue.
pub const QUEUE_EMIT_EVERY: usize = 25;

/// Whether the task is one of the project's that waits.
pub open spec fn waits(task: TaskView, project_id: Seq<char>) -> bool {
    task.project_id == project_id && task.status is Pending
}

/// The index, from `from` on, of the first task of the project that waits; the number of
/// tasks where none does.
pub open spec fn first_waiting(tasks: Seq<TaskView>, project_id: Seq<char>, from: int) -> int
    decreases tasks.len() - from,
{
    if from >= tasks.len() {
        tasks.len() as int
    } else if waits(tasks[from], project_id) {
        from
    } else {
        first_waiting(tasks, project_id, from + 1)
    }
}

/// A task that is taken up.
pub open spec fn taken_up(task: TaskView, now: i64) -> TaskView {
    TaskView { status: FileChangeStatus::Processing, updated_at: now, ..task }
}

/// Takes up, at `now`, the first task of the project that waits.
pub fn pick_task(queue: &mut FileChangeQueue, project_id: &str, now: i64) -> (r: Option<
    FileChangeTask,
>)
    ensures
        final(queue)@.version == old(queue)@.version,
        ({
            let tasks = old(queue)@.tasks;
            let i = first_waiting(tasks, project_id@, 0);
            match r {
                Some(task) => {
                    &&& 0 <= i < tasks.len()
                    &&& task@ == taken_up(tasks[i], now)
                    &&& final(queue)@.tasks == tasks.update(i, taken_up(tasks[i], now))
                },
                None => i == tasks.len() && final(queue)@.tasks == tasks,
            }
        }),
{
    let ghost tasks = queue@.tasks;
    let mut i: usize = 0;
    while i < queue.tasks.len()
        invariant
            *queue == *old(queue),
            tasks == queue@.tasks,
            i <= tasks.len(),
            first_waiting(tasks, project_id@, 0) == first_waiting(tasks, project_id@, i as int),
        decreases tasks.len() - i,
    {
        let task = &queue.tasks[i];
        assert(tasks[i as int] == task@);
        if eq(task.project_id.as_str(), project_id) && task.status == FileChangeStatus::Pending {
            queue.tasks[i].status = FileChangeStatus::Processing;
            queue.tasks[i].updated_at = now;
            let picked = queue.tasks[i].clone();
            assert(picked@ =~= taken_up(tasks[i as int], now));
            assert(queue@.tasks =~= tasks.update(i as int, picked@));
            return Some(picked);
        }
        i += 1;
    }
    None
}

/// The index, from `from` on, of the first task with that id; the number of tasks where
/// none has it.
pub open spec fn first_with_id(tasks: Seq<TaskView>, id: Seq<char>, from: int) -> int
    decreases tasks.len() - from,
{
    if from >= tasks.len() {
        tasks.len() as int
    } else if tasks[from].id == id {
        from
    } else {
        first_with_id(tasks, id, from + 1)
    }
}

/// The index of the first task with that id.
fn find_task(tasks: &Vec<FileChangeTask>, id: &str) -> (r: usize)
    ensures
        r == first_with_id(task_views(tasks@), id@, 0),
        r <= tasks@.len(),
        r < tasks@.len() ==> tasks@[r as int]@.id == id@,
{
    let ghost all = task_views(tasks@);
    let mut i: usize = 0;
    while i < tasks.len()
        invariant
            i <= tasks@.len(),
            all == task_views(tasks@),
            first_with_id(all, id@, 0) == first_with_id(all, id@, i as int),
        decreases tasks@.len() - i,
    {
        assert(all[i as int] == tasks@[i as int]@);
        if eq(tasks[i].id.as_str(), id) {
            return i;
        }
        i += 1;
    }
    i
}

/// Whether the task is still in process as it was taken up: nobody changed it since.
pub open spec fn is_current(task: TaskView, picked: TaskView) -> bool {
    task.status is Processing && task.updated_at == picked.updated_at
}

/// A task that is through. If its file was looked at it is done, or waits again where
/// changes came in meanwhile; else it has failed once more.
pub open spec fn finished(task: TaskView, outcome: Result<(), Seq<char>>, now: i64) -> TaskView {
    match outcome {
        Ok(_) => TaskView {
            status: if task.needs_rerun {
                FileChangeStatus::Pending
            } else {
                FileChangeStatus::Done
            },
            needs_rerun: false,
            error: None,
            updated_at: now,
            ..task
        },
        Err(e) => TaskView {
            status: FileChangeStatus::Failed,
            error: Some(e),
            retry_count: (task.retry_count + 1) as u32,
            updated_at: now,
            ..task
        },
    }
}

/// A task that somebody changed while it was in process: it waits again if that was asked
/// for, and else stays as it is.
pub open spec fn overtaken(task: TaskView, now: i64) -> TaskView {
    if task.status is Processing && task.needs_rerun {
        TaskView {
            status: FileChangeStatus::Pending,
            needs_rerun: false,
            updated_at: now,
            ..task
        }
    } else {
        task
    }
}

/// The tasks that are not done.
pub open spec fn not_done(tasks: Seq<TaskView>) -> Seq<TaskView>
    decreases tasks.len(),
{
    if tasks.len() == 0 {
        Seq::empty()
    } else if tasks.last().status is Done {
        not_done(tasks.drop_last())
    } else {
        not_done(tasks.drop_last()).push(tasks.last())
    }
}

/// The tasks after the outcome of the one that was taken up is entered, and before those
/// that are done leave.
pub open spec fn with_outcome(
    tasks: Seq<TaskView>,
    picked: TaskView,
    outcome: Result<(), Seq<char>>,
    now: i64,
) -> Seq<TaskView> {
    let i = first_with_id(tasks, picked.id, 0);
    if i >= tasks.len() {
        tasks
    } else if is_current(tasks[i], picked) {
        tasks.update(i, finished(tasks[i], outcome, now))
    } else {
        tasks.update(i, overtaken(tasks[i], now))
    }
}

/// Whether the task that was taken up is still in the queue as it was taken up.
pub open spec fn still_current(tasks: Seq<TaskView>, picked: TaskView) -> bool {
    let i = first_with_id(tasks, picked.id, 0);
    i < tasks.len() && is_current(tasks[i], picked)
}

/// Whether the task that was taken up can fail once more, where it is still in the queue as
/// it was taken up.
pub open spec fn can_fail(tasks: Seq<TaskView>, picked: TaskView) -> bool {
    still_current(tasks, picked) ==> tasks[first_with_id(tasks, picked.id, 0)].retry_count
        < u32::MAX
}

/// Drops the tasks that are done.
fn drop_done(queue: &mut FileChangeQueue)
    ensures
        final(queue)@.version == old(queue)@.version,
        final(queue)@.tasks == not_done(old(queue)@.tasks),
{
    let mut out: Vec<FileChangeTask> = Vec::new();
    let ghost all = queue@.tasks;
    let mut i: usize = 0;
    assert(task_views(out@) =~= not_done(all.take(0)));
    while i < queue.tasks.len()
        invariant
            *queue == *old(queue),
            all == queue@.tasks,
            i <= all.len(),
            task_views(out@) == not_done(all.take(i as int)),
        decreases all.len() - i,
    {
        let ghost so_far = task_views(out@);
        proof {
            assert(all.take(i as int + 1).drop_last() =~= all.take(i as int));
            assert(all.take(i as int + 1).last() == queue.tasks@[i as int]@);
        }
        if queue.tasks[i].status != FileChangeStatus::Done {
            out.push(queue.tasks[i].clone());
            assert(task_views(out@) =~= so_far.push(all[i as int]));
        }
        i += 1;
    }
    assert(all.take(i as int) =~= all);
    queue.tasks = out;
}

/// The view of an outcome.
pub open spec fn outcome_view(outcome: Result<(), String>) -> Result<(), Seq<char>> {
    match outcome {
        Ok(_) => Ok(()),
        Err(e) => Err(e@),
    }
}

/// Enters the outcome of a task that is in process.
fn finish_task(task: &mut FileChangeTask, outcome: &Result<(), String>, now: i64)
    requires
        *outcome is Err ==> old(task)@.retry_count < u32::MAX,
    ensures
        final(task)@ == finished(old(task)@, outcome_view(*outcome), now),
{
    match outcome {
        Ok(_) => {
            if task.needs_rerun {
                task.status = FileChangeStatus::Pending;
                task.needs_rerun = false;
            } else {
                task.status = FileChangeStatus::Done;
            }
            task.error = None;
        },
        Err(e) => {
            task.status = FileChangeStatus::Failed;
            task.error = Some(e.clone());
            task.retry_count = task.retry_count + 1;
        },
    }
    task.updated_at = now;
    assert(task@ =~= finished(old(task)@, outcome_view(*outcome), now));
}

/// A run through the queue: the tasks that were worked off, how many of them since
/// listeners were last told of the queue, and whether they were told that it began.
#[derive(Debug)]
pub struct QueueRun {
    changed: Vec<FileChangeTask>,
    since_emit: usize,
    announced: bool,
}

#[verifier::ext_equal]
pub struct RunView {
    pub changed: Seq<TaskView>,
    pub since_emit: nat,
    pub announced: bool,
}

impl View for QueueRun {
    type V = RunView;

    closed spec fn view(&self) -> RunView {
        RunView {
            changed: task_views(self.changed@),
            since_emit: self.since_emit as nat,
            announced: self.announced,
        }
    }
}

/// The run after one more task was worked off.
pub open spec fn counted(run: RunView, task: TaskView) -> RunView {
    RunView {
        changed: run.changed.push(task),
        since_emit: if run.since_emit + 1 >= QUEUE_EMIT_EVERY {
            0
        } else {
            run.since_emit + 1
        },
        ..run
    }
}

impl QueueRun {
    #[verifier::type_invariant]
    spec fn counts(self) -> bool {
        self.since_emit < QUEUE_EMIT_EVERY
    }

    /// A run that begins.
    pub fn new() -> (r: QueueRun)
        ensures
            r@ == (RunView { changed: Seq::empty(), since_emit: 0, announced: false }),
    {
        let r = QueueRun { changed: Vec::new(), since_emit: 0, announced: false };
        assert(r@ =~= (RunView { changed: Seq::empty(), since_emit: 0, announced: false }));
        r
    }

    /// Notes that a task was taken up. The result says whether listeners are to be told of
    /// the queue: they are for the first task of the run.
    pub fn announce(&mut self) -> (r: bool)
        ensures
            r == !old(self)@.announced,
            final(self)@ == (RunView { announced: true, ..old(self)@ }),
    {
        proof {
            use_type_invariant(&*self);
        }
        let first = !self.announced;
        self.announced = true;
        first
    }

    /// Whether what is known of the file of the task is to be taken into the snapshot: the
    /// task must still be in the queue as it was taken up.
    pub fn awaits_outcome(queue: &FileChangeQueue, task: &FileChangeTask) -> (r: bool)
        ensures
            r == still_current(queue@.tasks, task@),
    {
        let i: usize = find_task(&queue.tasks, task.id.as_str());
        if i < queue.tasks.len() {
            assert(queue@.tasks[i as int] == queue.tasks@[i as int]@);
            queue.tasks[i].status == FileChangeStatus::Processing && queue.tasks[i].updated_at
                == task.updated_at
        } else {
            false
        }
    }

    /// Whether the task can fail once more, where it is still in the queue as it was taken
    /// up.
    pub fn can_count(queue: &FileChangeQueue, task: &FileChangeTask) -> (r: bool)
        ensures
            r == can_fail(queue@.tasks, task@),
    {
        let i: usize = find_task(&queue.tasks, task.id.as_str());
        if i < queue.tasks.len() {
            assert(queue@.tasks[i as int] == queue.tasks@[i as int]@);
            !QueueRun::awaits_outcome(queue, task) || queue.tasks[i].retry_count < u32::MAX
        } else {
            true
        }
    }

    /// Enters at `now` what became of the task, and drops the tasks that are done. The
    /// result says whether listeners are to be told of the queue: they are after every so
    /// many tasks.
    pub fn finish_at(
        &mut self,
        queue: &mut FileChangeQueue,
        task: &FileChangeTask,
        outcome: &Result<(), String>,
        now: i64,
    ) -> (r: bool)
        requires
            *outcome is Err ==> can_fail(old(queue)@.tasks, task@),
        ensures
            final(queue)@.version == old(queue)@.version,
            final(queue)@.tasks == not_done(
                with_outcome(old(queue)@.tasks, task@, outcome_view(*outcome), now),
            ),
            final(self)@ == if still_current(old(queue)@.tasks, task@) {
                counted(old(self)@, task@)
            } else {
                old(self)@
            },
            r == (still_current(old(queue)@.tasks, task@) && old(self)@.since_emit + 1
                >= QUEUE_EMIT_EVERY),
    {
        proof {
            use_type_invariant(&*self);
        }
        let ghost tasks = queue@.tasks;
        let i: usize = find_task(&queue.tasks, task.id.as_str());
        let mut emit = false;
        if i < queue.tasks.len() {
            assert(tasks[i as int] == queue.tasks@[i as int]@);
            if queue.tasks[i].status != FileChangeStatus::Processing || queue.tasks[i].updated_at
                != task.updated_at {
                if queue.tasks[i].status == FileChangeStatus::Processing
                    && queue.tasks[i].needs_rerun {
                    queue.tasks[i].status = FileChangeStatus::Pending;
                    queue.tasks[i].needs_rerun = false;
                    queue.tasks[i].updated_at = now;
                }
                assert(queue.tasks@[i as int]@ =~= overtaken(tasks[i as int], now));
                assert(queue@.tasks =~= tasks.update(i as int, overtaken(tasks[i as int], now)));
            } else {
                finish_task(&mut queue.tasks[i], outcome, now);
                assert(queue@.tasks =~= tasks.update(
                    i as int,
                    finished(tasks[i as int], outcome_view(*outcome), now),
                ));
                let ghost before = task_views(self.changed@);
                let mut fresh = QueueRun { changed: Vec::new(), since_emit: 0, announced: false };
                std::mem::swap(self, &mut fresh);
                let QueueRun { changed: mut changed, since_emit, announced } = fresh;
                changed.push(task.clone());
                assert(task_views(changed@) =~= before.push(task@));
                if since_emit + 1 >= QUEUE_EMIT_EVERY {
                    emit = true;
                    *self = QueueRun { changed, since_emit: 0, announced };
                } else {
                    *self = QueueRun { changed, since_emit: since_emit + 1, announced };
                }
            }
        }
        drop_done(queue);
        emit
    }

    /// The tasks that were worked off: what listeners are told of when the run ends, be it
    /// with an error, and what the run returns.
    pub fn changed_tasks(&self) -> (r: Vec<FileChangeTask>)
        ensures
            task_views(r@) == self@.changed,
    {
        clone_tasks(&self.changed)
    }
}

/// The queue of a project, given what was stored.
pub fn get_file_change_queue(stored: Option<FileChangeQueue>) -> (r: FileChangeQueue)
    ensures
        r@ == (match stored {
            Some(q) => QueueView { version: version_read(q.version), ..q@ },
            None => QueueView { version: 1, tasks: Seq::empty() },
        }),
{
    read_queue(stored)
}

/// Whether the task is the one of that project with that id.
pub open spec fn is_named(task: TaskView, project_id: Seq<char>, task_id: Seq<char>) -> bool {
    task.id == task_id && task.project_id == project_id
}

/// The task, to be tried as if for the first time if it is the one that is named.
pub open spec fn retried(
    task: TaskView,
    project_id: Seq<char>,
    task_id: Seq<char>,
    now: i64,
) -> TaskView {
    if is_named(task, project_id, task_id) {
        TaskView {
            status: FileChangeStatus::Pending,
            error: None,
            retry_count: 0,
            needs_rerun: false,
            updated_at: now,
            ..task
        }
    } else {
        task
    }
}

/// The tasks, the one that is named to be tried as if for the first time.
pub open spec fn all_retried(
    tasks: Seq<TaskView>,
    project_id: Seq<char>,
    task_id: Seq<char>,
    now: i64,
) -> Seq<TaskView> {
    tasks.map_values(|t: TaskView| retried(t, project_id, task_id, now))
}

/// Makes the named task wait, at `now`, as if for the first time.
pub fn retry_file_change_task_at(
    queue: &mut FileChangeQueue,
    project_id: &str,
    task_id: &str,
    now: i64,
)
    ensures
        final(queue)@.version == old(queue)@.version,
        final(queue)@.tasks == all_retried(old(queue)@.tasks, project_id@, task_id@, now),
{
    let ghost tasks = queue@.tasks;
    let ghost goal = all_retried(tasks, project_id@, task_id@, now);
    let mut i: usize = 0;
    while i < queue.tasks.len()
        invariant
            tasks == old(queue)@.tasks,
            goal == all_retried(tasks, project_id@, task_id@, now),
            queue.version == old(queue).version,
            queue.tasks@.len() == tasks.len(),
            i <= tasks.len(),
            forall|j: int| 0 <= j < i ==> (#[trigger] queue.tasks@[j])@ == goal[j],
            forall|j: int| i <= j < tasks.len() ==> (#[trigger] queue.tasks@[j])@ == tasks[j],
        decreases tasks.len() - i,
    {
        if eq(queue.tasks[i].id.as_str(), task_id) && eq(
            queue.tasks[i].project_id.as_str(),
            project_id,
        ) {
            queue.tasks[i].status = FileChangeStatus::Pending;
            queue.tasks[i].error = None;
            queue.tasks[i].retry_count = 0;
            queue.tasks[i].needs_rerun = false;
            queue.tasks[i].updated_at = now;
        }
        assert(queue.tasks@[i as int]@ =~= goal[i as int]);
        i += 1;
    }
    assert(queue@.tasks =~= goal);
}

/// Makes the named task wait, as of the present time, as if for the first time.
pub fn retry_file_change_task(queue: &mut FileChangeQueue, project_id: &str, task_id: &str)
    ensures
        final(queue)@.version == old(queue)@.version,
        exists|now: i64|
            on_clock(now) && final(queue)@.tasks == #[trigger] all_retried(
                old(queue)@.tasks,
                project_id@,
                task_id@,
                now,
            ),
{
    let now: i64 = now_ms();
    retry_file_change_task_at(queue, project_id, task_id, now);
}

/// The tasks but for the one that is named.
pub open spec fn without_named(
    tasks: Seq<TaskView>,
    project_id: Seq<char>,
    task_id: Seq<char>,
) -> Seq<TaskView>
    decreases tasks.len(),
{
    if tasks.len() == 0 {
        Seq::empty()
    } else {
        let before = without_named(tasks.drop_last(), project_id, task_id);
        if is_named(tasks.last(), project_id, task_id) {
            before
        } else {
            before.push(tasks.last())
        }
    }
}

/// Takes the named task out of the queue.
pub fn ignore_file_change_task(queue: &mut FileChangeQueue, project_id: &str, task_id: &str)
    ensures
        final(queue)@.version == old(queue)@.version,
        final(queue)@.tasks == without_named(old(queue)@.tasks, project_id@, task_id@),
{
    let mut out: Vec<FileChangeTask> = Vec::new();
    let ghost all = queue@.tasks;
    let mut i: usize = 0;
    assert(task_views(out@) =~= without_named(all.take(0), project_id@, task_id@));
    while i < queue.tasks.len()
        invariant
            *queue == *old(queue),
            all == queue@.tasks,
            i <= all.len(),
            task_views(out@) == without_named(all.take(i as int), project_id@, task_id@),
        decreases all.len() - i,
    {
        let ghost so_far = task_views(out@);
        proof {
            assert(all.take(i as int + 1).drop_last() =~= all.take(i as int));
            assert(all.take(i as int + 1).last() == queue.tasks@[i as int]@);
        }
        if !(eq(queue.tasks[i].id.as_str(), task_id) && eq(
            queue.tasks[i].project_id.as_str(),
            project_id,
        )) {
            out.push(queue.tasks[i].clone());
            assert(task_views(out@) =~= so_far.push(all[i as int]));
        }
        i += 1;
    }
    assert(all.take(i as int) =~= all);
    queue.tasks = out;
}

} // verus!
