//! A run through the queue as a whole: what is read and stored in which order, when
//! listeners are told of what, and how the run ends.
//!
//! The machine does no reading or storing itself. Each step says what is to be done, and
//! the next step is worked out from what that gave.

use vstd::prelude::*;

use crate::clock::{now_ms, on_clock};
use crate::process::{
    can_fail, counted, first_waiting, not_done, outcome_view, pick_task, still_current, taken_up,
    with_outcome, QueueRun, RunView, QUEUE_EMIT_EVERY,
};
use crate::queue::{
    opt_meta, task_views, FileChangeQueue, FileChangeTask, FileMeta, MetaView, QueueView, TaskView,
};

verus! {

/// What is to be done next.
#[derive(Debug)]
pub enum ProcessStep {
    /// Take the lock on the queue, unless it is held, and read the queue.
    ReadQueue,
    /// Store the queue and give the lock back.
    StoreQueue(FileChangeQueue),
    /// Store the queue, read it again, and give the lock back.
    StoreAndReadQueue(FileChangeQueue),
    /// Find out about the file at the path. The lock is not held.
    ReadMeta(String),
    /// Take what is known of the file of the task into the stored snapshot.
    StoreMeta(FileChangeTask, Option<FileMeta>),
    /// Give the lock back, if it is held, and end.
    End(Result<Vec<FileChangeTask>, String>),
}

/// What doing the last step gave.
#[derive(Debug)]
pub enum ProcessInput {
    Queue(Result<FileChangeQueue, String>),
    Stored(Result<(), String>),
    Meta(Result<Option<FileMeta>, String>),
}

/// What listeners are told, first of the tasks that were worked off and then of the queue,
/// and what is to be done next.
#[derive(Debug)]
pub struct ProcessOutput {
    pub changed: Option<Vec<FileChangeTask>>,
    pub queue: Option<FileChangeQueue>,
    pub step: ProcessStep,
}

/// How far a run has come.
#[derive(Debug)]
enum Stage {
    Picking,
    Storing { task: FileChangeTask, queue: FileChangeQueue },
    Reading { task: FileChangeTask },
    Updating { task: FileChangeTask, meta: Result<Option<FileMeta>, String> },
    Recording { task: FileChangeTask, queue: FileChangeQueue },
    Writing { emit: bool },
    Draining,
    Ended,
}

#[verifier::ext_equal]
pub enum StageView {
    Picking,
    Storing { task: TaskView, queue: QueueView },
    Reading { task: TaskView },
    Updating { task: TaskView, meta: Result<Option<MetaView>, Seq<char>> },
    Recording { task: TaskView, queue: QueueView },
    Writing { emit: bool },
    Draining,
    Ended,
}

#[verifier::ext_equal]
pub enum StepView {
    ReadQueue,
    StoreQueue(QueueView),
    StoreAndReadQueue(QueueView),
    ReadMeta(Seq<char>),
    StoreMeta(TaskView, Option<MetaView>),
    End(Result<Seq<TaskView>, Seq<char>>),
}

#[verifier::ext_equal]
pub enum InputView {
    Queue(Result<QueueView, Seq<char>>),
    Stored(Result<(), Seq<char>>),
    Meta(Result<Option<MetaView>, Seq<char>>),
}

#[verifier::ext_equal]
pub struct OutputView {
    pub changed: Option<Seq<TaskView>>,
    pub queue: Option<QueueView>,
    pub step: StepView,
}

#[verifier::ext_equal]
pub struct MachineView {
    pub project_id: Seq<char>,
    pub run: RunView,
    pub stage: StageView,
}

/// The view of a reading.
pub open spec fn meta_result(meta: Result<Option<FileMeta>, String>) -> Result<
    Option<MetaView>,
    Seq<char>,
> {
    match meta {
        Ok(m) => Ok(opt_meta(m)),
        Err(e) => Err(e@),
    }
}

impl View for ProcessStep {
    type V = StepView;

    open spec fn view(&self) -> StepView {
        match self {
            ProcessStep::ReadQueue => StepView::ReadQueue,
            ProcessStep::StoreQueue(q) => StepView::StoreQueue(q@),
            ProcessStep::StoreAndReadQueue(q) => StepView::StoreAndReadQueue(q@),
            ProcessStep::ReadMeta(p) => StepView::ReadMeta(p@),
            ProcessStep::StoreMeta(t, m) => StepView::StoreMeta(t@, opt_meta(*m)),
            ProcessStep::End(Ok(v)) => StepView::End(Ok(task_views(v@))),
            ProcessStep::End(Err(e)) => StepView::End(Err(e@)),
        }
    }
}

impl View for ProcessInput {
    type V = InputView;

    open spec fn view(&self) -> InputView {
        match self {
            ProcessInput::Queue(Ok(q)) => InputView::Queue(Ok(q@)),
            ProcessInput::Queue(Err(e)) => InputView::Queue(Err(e@)),
            ProcessInput::Stored(r) => InputView::Stored(outcome_view(*r)),
            ProcessInput::Meta(m) => InputView::Meta(meta_result(*m)),
        }
    }
}

impl View for ProcessOutput {
    type V = OutputView;

    open spec fn view(&self) -> OutputView {
        OutputView {
            changed: match self.changed {
                Some(v) => Some(task_views(v@)),
                None => None,
            },
            queue: match self.queue {
                Some(q) => Some(q@),
                None => None,
            },
            step: self.step@,
        }
    }
}

impl View for Stage {
    type V = StageView;

    closed spec fn view(&self) -> StageView {
        match self {
            Stage::Picking => StageView::Picking,
            Stage::Storing { task, queue } => StageView::Storing { task: task@, queue: queue@ },
            Stage::Reading { task } => StageView::Reading { task: task@ },
            Stage::Updating { task, meta } => StageView::Updating {
                task: task@,
                meta: meta_result(*meta),
            },
            Stage::Recording { task, queue } => StageView::Recording { task: task@, queue: queue@ },
            Stage::Writing { emit } => StageView::Writing { emit: *emit },
            Stage::Draining => StageView::Draining,
            Stage::Ended => StageView::Ended,
        }
    }
}

/// A run through the queue of a project.
#[derive(Debug)]
pub struct ProcessMachine {
    project_id: String,
    run: QueueRun,
    stage: Stage,
}

impl View for ProcessMachine {
    type V = MachineView;

    closed spec fn view(&self) -> MachineView {
        MachineView { project_id: self.project_id@, run: self.run@, stage: self.stage@ }
    }
}

/// Whether the stage waits for input of that kind.
pub open spec fn expects(stage: StageView, input: InputView) -> bool {
    match stage {
        StageView::Picking => input is Queue,
        StageView::Storing { .. } => input is Stored,
        StageView::Reading { .. } => input is Meta,
        StageView::Updating { .. } => input is Queue,
        StageView::Recording { .. } => input is Stored,
        StageView::Writing { .. } => input is Queue,
        StageView::Draining => input is Queue,
        StageView::Ended => false,
    }
}

/// Whether the input can be counted with: where the file of a task could not be looked at,
/// that task can fail once more.
pub open spec fn is_countable(stage: StageView, input: InputView) -> bool {
    match (stage, input) {
        (StageView::Updating { task, meta: Err(_) }, InputView::Queue(Ok(q))) => can_fail(
            q.tasks,
            task,
        ),
        _ => true,
    }
}

/// A run that goes on.
pub open spec fn going_on(m: MachineView, stage: StageView, step: StepView) -> (
    MachineView,
    OutputView,
) {
    (MachineView { stage, ..m }, OutputView { changed: None, queue: None, step })
}

/// A run that breaks off. Listeners are told of the tasks that were worked off.
pub open spec fn broken_off(m: MachineView, error: Seq<char>) -> (MachineView, OutputView) {
    (
        MachineView { stage: StageView::Ended, ..m },
        OutputView {
            changed: Some(m.run.changed),
            queue: None,
            step: StepView::End(Err(error)),
        },
    )
}

/// What picking a task from the queue comes to: the task is stored as taken up, or the
/// queue is read a last time where no task waits.
pub open spec fn after_picking(m: MachineView, q: QueueView, now: i64) -> (
    MachineView,
    OutputView,
) {
    let i = first_waiting(q.tasks, m.project_id, 0);
    if i < q.tasks.len() {
        let task = taken_up(q.tasks[i], now);
        let queue = QueueView { tasks: q.tasks.update(i, task), ..q };
        going_on(m, StageView::Storing { task, queue }, StepView::StoreQueue(queue))
    } else {
        going_on(m, StageView::Draining, StepView::ReadQueue)
    }
}

/// What entering the outcome of a task comes to: the queue is stored.
pub open spec fn after_outcome(
    m: MachineView,
    task: TaskView,
    q: QueueView,
    outcome: Result<(), Seq<char>>,
    now: i64,
) -> (MachineView, OutputView) {
    let queue = QueueView {
        tasks: not_done(with_outcome(q.tasks, task, outcome, now)),
        ..q
    };
    let current = still_current(q.tasks, task);
    let run = if current {
        counted(m.run, task)
    } else {
        m.run
    };
    let emit = current && m.run.since_emit + 1 >= QUEUE_EMIT_EVERY;
    going_on(
        MachineView { run, ..m },
        StageView::Writing { emit },
        StepView::StoreAndReadQueue(queue),
    )
}

/// What the queue comes to that was read to enter the outcome of a task: where the file was
/// looked at and nobody changed the task meanwhile, the snapshot is brought up to date
/// first.
pub open spec fn after_updating(
    m: MachineView,
    task: TaskView,
    meta: Result<Option<MetaView>, Seq<char>>,
    q: QueueView,
    now: i64,
) -> (MachineView, OutputView) {
    match meta {
        Ok(found) => if still_current(q.tasks, task) {
            going_on(
                m,
                StageView::Recording { task, queue: q },
                StepView::StoreMeta(task, found),
            )
        } else {
            after_outcome(m, task, q, Ok(()), now)
        },
        Err(e) => after_outcome(m, task, q, Err(e), now),
    }
}

/// What comes of an input.
pub open spec fn advanced(m: MachineView, input: InputView, now: i64) -> (MachineView, OutputView) {
    match (m.stage, input) {
        (_, InputView::Queue(Err(e))) => broken_off(m, e),
        (_, InputView::Stored(Err(e))) => broken_off(m, e),
        (StageView::Picking, InputView::Queue(Ok(q))) => after_picking(m, q, now),
        (StageView::Storing { task, queue }, InputView::Stored(Ok(_))) => (
            MachineView {
                run: RunView { announced: true, ..m.run },
                stage: StageView::Reading { task },
                ..m
            },
            OutputView {
                changed: None,
                queue: if m.run.announced {
                    None
                } else {
                    Some(queue)
                },
                step: StepView::ReadMeta(task.path),
            },
        ),
        (StageView::Reading { task }, InputView::Meta(meta)) => going_on(
            m,
            StageView::Updating { task, meta },
            StepView::ReadQueue,
        ),
        (StageView::Updating { task, meta }, InputView::Queue(Ok(q))) => after_updating(
            m,
            task,
            meta,
            q,
            now,
        ),
        (StageView::Recording { task, queue }, InputView::Stored(Ok(_))) => after_outcome(
            m,
            task,
            queue,
            Ok(()),
            now,
        ),
        (StageView::Writing { emit }, InputView::Queue(Ok(q))) => (
            MachineView { stage: StageView::Picking, ..m },
            OutputView {
                changed: None,
                queue: if emit {
                    Some(q)
                } else {
                    None
                },
                step: StepView::ReadQueue,
            },
        ),
        (StageView::Draining, InputView::Queue(Ok(q))) => (
            MachineView { stage: StageView::Ended, ..m },
            OutputView {
                changed: Some(m.run.changed),
                queue: Some(q),
                step: StepView::End(Ok(m.run.changed)),
            },
        ),
        _ => going_on(m, m.stage, StepView::ReadQueue),
    }
}

/// A step without anything to tell.
fn quietly(step: ProcessStep) -> (r: ProcessOutput)
    ensures
        r@ == (OutputView { changed: None, queue: None, step: step@ }),
{
    ProcessOutput { changed: None, queue: None, step }
}

impl ProcessMachine {
    /// A run that begins, and the first thing to do.
    pub fn new(project_id: &str) -> (r: (ProcessMachine, ProcessStep))
        ensures
            r.0@ == (MachineView {
                project_id: project_id@,
                run: RunView { changed: Seq::empty(), since_emit: 0, announced: false },
                stage: StageView::Picking,
            }),
            r.1@ == StepView::ReadQueue,
    {
        let m = ProcessMachine {
            project_id: project_id.to_owned(),
            run: QueueRun::new(),
            stage: Stage::Picking,
        };
        (m, ProcessStep::ReadQueue)
    }

    /// Breaks the run off.
    fn fail(self, error: String) -> (r: (ProcessMachine, ProcessOutput))
        ensures
            (r.0@, r.1@) == broken_off(self@, error@),
    {
        let changed = self.run.changed_tasks();
        let output = ProcessOutput {
            changed: Some(changed),
            queue: None,
            step: ProcessStep::End(Err(error)),
        };
        let m = ProcessMachine { project_id: self.project_id, run: self.run, stage: Stage::Ended };
        (m, output)
    }

    /// Enters the outcome of a task.
    fn enter(
        self,
        task: FileChangeTask,
        queue: FileChangeQueue,
        outcome: Result<(), String>,
        now: i64,
    ) -> (r: (ProcessMachine, ProcessOutput))
        requires
            outcome is Err ==> can_fail(queue@.tasks, task@),
        ensures
            (r.0@, r.1@) == after_outcome(self@, task@, queue@, outcome_view(outcome), now),
    {
        let ghost before = self@;
        let ghost q = queue@;
        let ProcessMachine { project_id, run, stage: _ } = self;
        let mut run = run;
        let mut queue = queue;
        let emit = run.finish_at(&mut queue, &task, &outcome, now);
        let ghost stored = queue@;
        let m = ProcessMachine { project_id, run, stage: Stage::Writing { emit } };
        let output = quietly(ProcessStep::StoreAndReadQueue(queue));
        proof {
            let goal = after_outcome(before, task@, q, outcome_view(outcome), now);
            assert(m@ =~= goal.0);
            assert(stored =~= goal.1.step->StoreAndReadQueue_0);
            assert(output@ =~= goal.1);
        }
        (m, output)
    }

    /// Whether the run can go on with that input: it is of the kind that the run waits for,
    /// and it can be counted with.
    pub fn can_take(&self, input: &ProcessInput) -> (r: bool)
        ensures
            r == (expects(self@.stage, input@) && is_countable(self@.stage, input@)),
    {
        match (&self.stage, input) {
            (Stage::Picking, ProcessInput::Queue(_)) => true,
            (Stage::Storing { .. }, ProcessInput::Stored(_)) => true,
            (Stage::Reading { .. }, ProcessInput::Meta(_)) => true,
            (Stage::Updating { task, meta: Err(_) }, ProcessInput::Queue(Ok(queue))) => {
                QueueRun::can_count(queue, task)
            },
            (Stage::Updating { .. }, ProcessInput::Queue(_)) => true,
            (Stage::Recording { .. }, ProcessInput::Stored(_)) => true,
            (Stage::Writing { .. }, ProcessInput::Queue(_)) => true,
            (Stage::Draining, ProcessInput::Queue(_)) => true,
            _ => false,
        }
    }

    /// Takes in what doing the last step gave, at `now`: the result holds what listeners
    /// are told and what is to be done next.
    pub fn advance(self, input: ProcessInput, now: i64) -> (r: (ProcessMachine, ProcessOutput))
        requires
            expects(self@.stage, input@),
            is_countable(self@.stage, input@),
        ensures
            (r.0@, r.1@) == advanced(self@, input@, now),
    {
        let ghost before = self@;
        match input {
            ProcessInput::Queue(Err(e)) => self.fail(e),
            ProcessInput::Stored(Err(e)) => self.fail(e),
            ProcessInput::Queue(Ok(queue)) => {
                let ProcessMachine { project_id, run, stage } = self;
                let mut queue = queue;
                match stage {
                    Stage::Picking => {
                        let ghost q = queue@;
                        match pick_task(&mut queue, project_id.as_str(), now) {
                            Some(task) => {
                                let kept = queue.clone();
                                let ghost view = StageView::Storing { task: task@, queue: kept@ };
                                let m = ProcessMachine {
                                    project_id,
                                    run,
                                    stage: Stage::Storing { task, queue: kept },
                                };
                                let output = quietly(ProcessStep::StoreQueue(queue));
                                proof {
                                    let goal = after_picking(before, q, now);
                                    assert(m@.stage == view);
                                    assert(m@ =~= goal.0);
                                    assert(output@ =~= goal.1);
                                }
                                (m, output)
                            },
                            None => {
                                let m = ProcessMachine {
                                    project_id,
                                    run,
                                    stage: Stage::Draining,
                                };
                                (m, quietly(ProcessStep::ReadQueue))
                            },
                        }
                    },
                    Stage::Updating { task, meta } => match meta {
                        Ok(found) => {
                            if QueueRun::awaits_outcome(&queue, &task) {
                                let ghost q = queue@;
                                let kept = task.clone();
                                let m = ProcessMachine {
                                    project_id,
                                    run,
                                    stage: Stage::Recording { task: kept, queue },
                                };
                                let output = quietly(ProcessStep::StoreMeta(task, found));
                                proof {
                                    let goal = after_updating(
                                        before,
                                        task@,
                                        Ok(opt_meta(found)),
                                        q,
                                        now,
                                    );
                                    assert(m@ =~= goal.0);
                                    assert(output@ =~= goal.1);
                                }
                                (m, output)
                            } else {
                                let m = ProcessMachine { project_id, run, stage: Stage::Picking };
                                m.enter(task, queue, Ok(()), now)
                            }
                        },
                        Err(e) => {
                            let m = ProcessMachine { project_id, run, stage: Stage::Picking };
                            m.enter(task, queue, Err(e), now)
                        },
                    },
                    Stage::Writing { emit } => {
                        let m = ProcessMachine { project_id, run, stage: Stage::Picking };
                        let output = ProcessOutput {
                            changed: None,
                            queue: if emit {
                                Some(queue)
                            } else {
                                None
                            },
                            step: ProcessStep::ReadQueue,
                        };
                        (m, output)
                    },
                    Stage::Draining => {
                        let changed = run.changed_tasks();
                        let done = run.changed_tasks();
                        let m = ProcessMachine { project_id, run, stage: Stage::Ended };
                        let output = ProcessOutput {
                            changed: Some(changed),
                            queue: Some(queue),
                            step: ProcessStep::End(Ok(done)),
                        };
                        (m, output)
                    },
                    _ => {
                        let m = ProcessMachine { project_id, run, stage };
                        (m, quietly(ProcessStep::ReadQueue))
                    },
                }
            },
            ProcessInput::Stored(Ok(_)) => {
                let ProcessMachine { project_id, run, stage } = self;
                match stage {
                    Stage::Storing { task, queue } => {
                        let mut run = run;
                        let first = run.announce();
                        let path = task.path.clone();
                        let output = ProcessOutput {
                            changed: None,
                            queue: if first {
                                Some(queue)
                            } else {
                                None
                            },
                            step: ProcessStep::ReadMeta(path),
                        };
                        let m = ProcessMachine { project_id, run, stage: Stage::Reading { task } };
                        (m, output)
                    },
                    Stage::Recording { task, queue } => {
                        let m = ProcessMachine { project_id, run, stage: Stage::Picking };
                        m.enter(task, queue, Ok(()), now)
                    },
                    _ => {
                        let m = ProcessMachine { project_id, run, stage };
                        (m, quietly(ProcessStep::ReadQueue))
                    },
                }
            },
            ProcessInput::Meta(meta) => {
                let ProcessMachine { project_id, run, stage } = self;
                match stage {
                    Stage::Reading { task } => {
                        let m = ProcessMachine {
                            project_id,
                            run,
                            stage: Stage::Updating { task, meta },
                        };
                        (m, quietly(ProcessStep::ReadQueue))
                    },
                    _ => {
                        let m = ProcessMachine { project_id, run, stage };
                        (m, quietly(ProcessStep::ReadQueue))
                    },
                }
            },
        }
    }
}

/// Takes in what doing the last step of a run gave, as of the present time.
pub fn process_queue_inner(machine: ProcessMachine, input: ProcessInput) -> (r: (
    ProcessMachine,
    ProcessOutput,
))
    requires
        expects(machine@.stage, input@),
        is_countable(machine@.stage, input@),
    ensures
        exists|now: i64|
            on_clock(now) && (r.0@, r.1@) == #[trigger] advanced(machine@, input@, now),
{
    let now: i64 = now_ms();
    machine.advance(input, now)
}

/// A run that breaks off, wherever it is, tells of the tasks that were worked off before,
/// and passes the error on.
pub proof fn law_failed_run_tells_what_was_done(m: MachineView, e: Seq<char>, now: i64)
    ensures
        ({
            let (after, output) = advanced(m, InputView::Queue(Err(e)), now);
            &&& output.changed == Some(m.run.changed)
            &&& output.step == StepView::End(Err(e))
            &&& after.stage is Ended
        }),
        ({
            let (after, output) = advanced(m, InputView::Stored(Err(e)), now);
            &&& output.changed == Some(m.run.changed)
            &&& output.step == StepView::End(Err(e))
            &&& after.stage is Ended
        }),
{
}

/// A run that comes to its end returns the tasks that it tells of, and tells of them before
/// it tells of the queue.
pub proof fn law_ended_run_returns_what_it_tells(m: MachineView, input: InputView, now: i64)
    requires
        expects(m.stage, input),
    ensures
        ({
            let output = advanced(m, input, now).1;
            match output.step {
                StepView::End(Ok(tasks)) => output.changed == Some(tasks) && output.queue is Some,
                StepView::End(Err(_)) => output.changed == Some(m.run.changed),
                _ => output.changed is None,
            }
        }),
{
}

/// Listeners are told of the queue when the first task of a run is taken up, before they
/// are told of any task: no step before that tells them anything unless the run ends.
pub proof fn law_queue_is_told_first(
    m: MachineView,
    task: TaskView,
    queue: QueueView,
    now: i64,
)
    requires
        m.stage == (StageView::Storing { task, queue }),
        !m.run.announced,
    ensures
        ({
            let (after, output) = advanced(m, InputView::Stored(Ok(())), now);
            &&& output.queue == Some(queue)
            &&& output.changed is None
            &&& after.run.announced
        }),
{
}

/// The snapshot is brought up to date before a task counts as done: a task whose file was
/// looked at is entered only after what is known of the file was stored.
pub proof fn law_snapshot_is_stored_first(
    m: MachineView,
    task: TaskView,
    found: Option<MetaView>,
    q: QueueView,
    now: i64,
)
    requires
        m.stage == (StageView::Updating { task, meta: Ok(found) }),
        still_current(q.tasks, task),
    ensures
        ({
            let (after, output) = advanced(m, InputView::Queue(Ok(q)), now);
            &&& output.step == StepView::StoreMeta(task, found)
            &&& after.run == m.run
            &&& after.stage == (StageView::Recording { task, queue: q })
        }),
{
}

} // verus!
