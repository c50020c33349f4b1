//! The queue of file changes and the snapshot of the files that it is worked out from.
//!
//! A task stands for one changed file of a project. Changes of a file whose task is still
//! open are folded into that task, so a file has at most one open task.

use vstd::prelude::*;
use vstd::utf8::encode_utf8;

use crate::clock::{now_ms, on_clock};
use crate::digest::{md5_hex, md5_text};
use crate::order::TextMap;
use crate::paths::{key_of, normalize_key, Platform};
use crate::text::{clone_opt, concat3, decimal, eq, i64_text, opt_text, text_of};

verus! {

/// Where a project keeps its snapshot.
pub const SNAPSHOT_FILE: &'static str = ".llm-wiki/file-snapshot.json";

/// Where a project keeps its queue.
pub const QUEUE_FILE: &'static str = ".llm-wiki/file-change-queue.json";

/// The largest file whose contents are digested.
pub const MAX_HASH_BYTES: u64 = 33_554_432;

/// How often a failed task is tried again on its own.
pub const MAX_RETRY_COUNT: u32 = 3;

/// What went wrong with the queue.
#[derive(Debug)]
pub enum IngestQueueError {
    Io(String),
    Json(String),
    Internal(String),
}

impl IngestQueueError {
    /// An error that has no class of its own.
    pub fn internal(msg: String) -> (r: IngestQueueError)
        ensures
            r == IngestQueueError::Internal(msg),
    {
        IngestQueueError::Internal(msg)
    }

    /// The text that the error is shown by.
    pub open spec fn shown(self) -> Seq<char> {
        match self {
            IngestQueueError::Io(s) => "io: "@ + s@,
            IngestQueueError::Json(s) => "json: "@ + s@,
            IngestQueueError::Internal(s) => "internal: "@ + s@,
        }
    }

    /// The text that the error is shown by.
    pub fn message(&self) -> (r: String)
        ensures
            r@ == self.shown(),
    {
        match self {
            IngestQueueError::Io(s) => crate::text::concat("io: ", s.as_str()),
            IngestQueueError::Json(s) => crate::text::concat("json: ", s.as_str()),
            IngestQueueError::Internal(s) => crate::text::concat("internal: ", s.as_str()),
        }
    }
}

impl From<String> for IngestQueueError {
    fn from(s: String) -> (r: IngestQueueError) {
        IngestQueueError::Internal(s)
    }
}

impl vstd::std_specs::convert::FromSpecImpl<String> for IngestQueueError {
    open spec fn obeys_from_spec() -> bool {
        true
    }

    open spec fn from_spec(s: String) -> IngestQueueError {
        IngestQueueError::Internal(s)
    }
}

/// What is known of a file: the digest of its contents where it was taken, its size, and
/// when it was last modified, in milliseconds.
#[derive(Debug)]
pub struct FileMeta {
    pub hash: Option<String>,
    pub size: u64,
    pub mtime_ms: i64,
}

#[verifier::ext_equal]
pub struct MetaView {
    pub hash: Option<Seq<char>>,
    pub size: u64,
    pub mtime_ms: i64,
}

impl View for FileMeta {
    type V = MetaView;

    open spec fn view(&self) -> MetaView {
        MetaView { hash: opt_text(self.hash), size: self.size, mtime_ms: self.mtime_ms }
    }
}

impl Clone for FileMeta {
    fn clone(&self) -> (r: FileMeta)
        ensures
            r == *self,
    {
        FileMeta { hash: clone_opt(&self.hash), size: self.size, mtime_ms: self.mtime_ms }
    }
}

/// The view of what may be known of a file.
pub open spec fn opt_meta(meta: Option<FileMeta>) -> Option<MetaView> {
    match meta {
        Some(m) => Some(m@),
        None => None,
    }
}

/// The files of a project as they were when they were last taken in.
#[derive(Debug)]
pub struct FileSnapshot {
    pub version: u32,
    pub updated_at: i64,
    pub files: TextMap<FileMeta>,
}

#[verifier::ext_equal]
pub struct SnapshotView {
    pub version: u32,
    pub updated_at: i64,
    pub files: Map<Seq<char>, MetaView>,
}

impl View for FileSnapshot {
    type V = SnapshotView;

    open spec fn view(&self) -> SnapshotView {
        SnapshotView {
            version: self.version,
            updated_at: self.updated_at,
            files: self.files@.map_values(|m: FileMeta| m@),
        }
    }
}

impl Default for FileSnapshot {
    fn default() -> (r: FileSnapshot)
        ensures
            r@ == (SnapshotView { version: 0, updated_at: 0, files: Map::empty() }),
    {
        let r = FileSnapshot { version: 0, updated_at: 0, files: TextMap::new() };
        assert(r@.files =~= Map::<Seq<char>, MetaView>::empty());
        r
    }
}

/// How a file changed.
#[derive(Debug, Clone, Copy, PartialEq, Eq, Structural)]
pub enum FileChangeKind {
    Created,
    Modified,
    Deleted,
}

/// How far a task has come.
#[derive(Debug, Clone, Copy, PartialEq, Eq, Structural)]
pub enum FileChangeStatus {
    Pending,
    Processing,
    Done,
    Failed,
    Superseded,
}

/// A changed file that waits to be taken in.
#[derive(Debug)]
pub struct FileChangeTask {
    pub id: String,
    pub project_id: String,
    pub path: String,
    pub kind: FileChangeKind,
    pub status: FileChangeStatus,
    pub hash_before: Option<String>,
    pub hash_after: Option<String>,
    pub size: Option<u64>,
    pub mtime_ms: Option<i64>,
    pub created_at: i64,
    pub updated_at: i64,
    pub retry_count: u32,
    pub error: Option<String>,
    pub needs_rerun: bool,
}

#[verifier::ext_equal]
pub struct TaskView {
    pub id: Seq<char>,
    pub project_id: Seq<char>,
    pub path: Seq<char>,
    pub kind: FileChangeKind,
    pub status: FileChangeStatus,
    pub hash_before: Option<Seq<char>>,
    pub hash_after: Option<Seq<char>>,
    pub size: Option<u64>,
    pub mtime_ms: Option<i64>,
    pub created_at: i64,
    pub updated_at: i64,
    pub retry_count: u32,
    pub error: Option<Seq<char>>,
    pub needs_rerun: bool,
}

impl View for FileChangeTask {
    type V = TaskView;

    open spec fn view(&self) -> TaskView {
        TaskView {
            id: self.id@,
            project_id: self.project_id@,
            path: self.path@,
            kind: self.kind,
            status: self.status,
            hash_before: opt_text(self.hash_before),
            hash_after: opt_text(self.hash_after),
            size: self.size,
            mtime_ms: self.mtime_ms,
            created_at: self.created_at,
            updated_at: self.updated_at,
            retry_count: self.retry_count,
            error: opt_text(self.error),
            needs_rerun: self.needs_rerun,
        }
    }
}

impl Clone for FileChangeTask {
    fn clone(&self) -> (r: FileChangeTask)
        ensures
            r == *self,
    {
        FileChangeTask {
            id: self.id.clone(),
            project_id: self.project_id.clone(),
            path: self.path.clone(),
            kind: self.kind,
            status: self.status,
            hash_before: clone_opt(&self.hash_before),
            hash_after: clone_opt(&self.hash_after),
            size: self.size,
            mtime_ms: self.mtime_ms,
            created_at: self.created_at,
            updated_at: self.updated_at,
            retry_count: self.retry_count,
            error: clone_opt(&self.error),
            needs_rerun: self.needs_rerun,
        }
    }
}

/// The views of the tasks.
pub open spec fn task_views(tasks: Seq<FileChangeTask>) -> Seq<TaskView> {
    tasks.map_values(|t: FileChangeTask| t@)
}

/// Copies of the tasks.
pub fn clone_tasks(tasks: &Vec<FileChangeTask>) -> (r: Vec<FileChangeTask>)
    ensures
        r@ == tasks@,
{
    let mut out: Vec<FileChangeTask> = Vec::new();
    let mut i: usize = 0;
    while i < tasks.len()
        invariant
            i <= tasks@.len(),
            out@ == tasks@.take(i as int),
        decreases tasks@.len() - i,
    {
        out.push(tasks[i].clone());
        assert(tasks@.take(i as int + 1) =~= tasks@.take(i as int).push(tasks@[i as int]));
        i += 1;
    }
    assert(tasks@.take(i as int) =~= tasks@);
    out
}

/// The tasks of a project, in the order in which they are worked off.
#[derive(Debug)]
pub struct FileChangeQueue {
    pub version: u32,
    pub tasks: Vec<FileChangeTask>,
}

#[verifier::ext_equal]
pub struct QueueView {
    pub version: u32,
    pub tasks: Seq<TaskView>,
}

impl View for FileChangeQueue {
    type V = QueueView;

    open spec fn view(&self) -> QueueView {
        QueueView { version: self.version, tasks: task_views(self.tasks@) }
    }
}

impl Clone for FileChangeQueue {
    fn clone(&self) -> (r: FileChangeQueue)
        ensures
            r@ == self@,
    {
        FileChangeQueue { version: self.version, tasks: clone_tasks(&self.tasks) }
    }
}

impl Default for FileChangeQueue {
    fn default() -> (r: FileChangeQueue)
        ensures
            r@ == (QueueView { version: 0, tasks: Seq::empty() }),
    {
        FileChangeQueue { version: 0, tasks: Vec::new() }
    }
}

/// What a rescan leaves: the queue, and the tasks that were worked off.
#[derive(Debug)]
pub struct FileChangeRescanResult {
    pub queue: FileChangeQueue,
    pub changed_tasks: Vec<FileChangeTask>,
}

impl Default for FileChangeRescanResult {
    fn default() -> (r: FileChangeRescanResult)
        ensures
            r.queue@ == (QueueView { version: 0, tasks: Seq::empty() }),
            r.changed_tasks@.len() == 0,
    {
        FileChangeRescanResult { queue: FileChangeQueue::default(), changed_tasks: Vec::new() }
    }
}

/// The version that stored data counts as: data without one counts as the first.
pub open spec fn version_read(version: u32) -> u32 {
    if version == 0 {
        1
    } else {
        version
    }
}

/// The snapshot that a project has, given what was stored: an empty one where nothing was.
pub fn read_snapshot(stored: Option<FileSnapshot>) -> (r: FileSnapshot)
    ensures
        r@ == (match stored {
            Some(s) => SnapshotView { version: version_read(s.version), ..s@ },
            None => SnapshotView { version: 1, updated_at: 0, files: Map::empty() },
        }),
{
    let mut s = match stored {
        Some(s) => s,
        None => FileSnapshot::default(),
    };
    if s.version == 0 {
        s.version = 1;
    }
    s
}

/// The queue that a project has, given what was stored: an empty one where nothing was.
pub fn read_queue(stored: Option<FileChangeQueue>) -> (r: FileChangeQueue)
    ensures
        r@ == (match stored {
            Some(q) => QueueView { version: version_read(q.version), ..q@ },
            None => QueueView { version: 1, tasks: Seq::empty() },
        }),
{
    let mut q = match stored {
        Some(q) => q,
        None => FileChangeQueue::default(),
    };
    if q.version == 0 {
        q.version = 1;
    }
    q
}


/// The digest that a path is known by in the names of tasks.
pub open spec fn path_hash(path: Seq<char>) -> Seq<char> {
    md5_hex(encode_utf8(path)).take(12)
}

/// The first twelve digits of the digest of a path.
pub fn stable_path_hash(path: &str) -> (r: String)
    ensures
        r@ == path_hash(path@),
        r@.len() == 12,
{
    let digest = crate::text::chars_of(md5_text(path.as_bytes()).as_str());
    let head = &digest.as_slice()[0..12];
    assert(head@ =~= digest@.take(12));
    text_of(head)
}

/// What the file system says of a path: whether it is a file, its size, and when it was
/// last modified, in milliseconds since 1970 where that is known.
#[derive(Debug, Clone, Copy)]
pub struct FileStat {
    pub is_file: bool,
    pub size: u64,
    pub modified: Option<u128>,
}

impl FileStat {
    /// When the file was last modified, 0 where that is not known.
    pub open spec fn mtime(self) -> i64 {
        match self.modified {
            Some(ms) => ms as i64,
            None => 0,
        }
    }

    /// When the file was last modified, 0 where that is not known.
    pub fn mtime_ms(&self) -> (r: i64)
        ensures
            r == self.mtime(),
    {
        match self.modified {
            Some(ms) => #[verifier::truncate] (ms as i64),
            None => 0,
        }
    }
}

/// Whether the contents of a file of that kind and size are digested.
pub open spec fn is_digested(stat: Option<FileStat>) -> bool {
    match stat {
        Some(s) => s.is_file && s.size <= MAX_HASH_BYTES,
        None => false,
    }
}

/// Whether the contents of a file of that kind and size are digested.
pub fn wants_contents(stat: &Option<FileStat>) -> (r: bool)
    ensures
        r == is_digested(*stat),
{
    match stat {
        Some(s) => s.is_file && s.size <= MAX_HASH_BYTES,
        None => false,
    }
}

/// What is known of a file with those contents.
pub open spec fn meta_of(stat: Option<FileStat>, contents: Seq<u8>) -> Option<MetaView> {
    match stat {
        Some(s) => if s.is_file {
            Some(
                MetaView {
                    hash: if s.size <= MAX_HASH_BYTES {
                        Some(md5_hex(contents))
                    } else {
                        None
                    },
                    size: s.size,
                    mtime_ms: s.mtime(),
                },
            )
        } else {
            None
        },
        None => None,
    }
}

/// What is known of a file, given what the file system says of it and its contents, which
/// count only where `wants_contents` asks for them. Nothing is known of what is no file.
pub fn read_meta(stat: &Option<FileStat>, contents: &[u8]) -> (r: Option<FileMeta>)
    ensures
        opt_meta(r) == meta_of(*stat, contents@),
{
    match stat {
        Some(s) => {
            if !s.is_file {
                return None;
            }
            let hash = if s.size <= MAX_HASH_BYTES {
                Some(md5_text(contents))
            } else {
                None
            };
            Some(FileMeta { hash, size: s.size, mtime_ms: s.mtime_ms() })
        },
        None => None,
    }
}

/// What is known of a file without its contents.
pub open spec fn fast_meta_of(stat: Option<FileStat>) -> Option<MetaView> {
    match stat {
        Some(s) => if s.is_file {
            Some(MetaView { hash: None, size: s.size, mtime_ms: s.mtime() })
        } else {
            None
        },
        None => None,
    }
}

/// What is known of a file, given what the file system says of it alone.
pub fn read_meta_fast(stat: &Option<FileStat>) -> (r: Option<FileMeta>)
    ensures
        opt_meta(r) == fast_meta_of(*stat),
{
    match stat {
        Some(s) => {
            if !s.is_file {
                return None;
            }
            Some(FileMeta { hash: None, size: s.size, mtime_ms: s.mtime_ms() })
        },
        None => None,
    }
}

/// The kind of two changes in a row: a file that went and came back, or came and went, was
/// modified; otherwise the later change counts.
pub open spec fn merged_kind(existing: FileChangeKind, incoming: FileChangeKind) -> FileChangeKind {
    match (existing, incoming) {
        (FileChangeKind::Deleted, FileChangeKind::Created) => FileChangeKind::Modified,
        (FileChangeKind::Created, FileChangeKind::Deleted) => FileChangeKind::Modified,
        _ => incoming,
    }
}

/// The kind of two changes in a row.
pub fn merge_kind(existing: &FileChangeKind, incoming: &FileChangeKind) -> (r: FileChangeKind)
    ensures
        r == merged_kind(*existing, *incoming),
{
    match (existing, incoming) {
        (FileChangeKind::Deleted, FileChangeKind::Created) => FileChangeKind::Modified,
        (FileChangeKind::Created, FileChangeKind::Deleted) => FileChangeKind::Modified,
        (_, kind) => *kind,
    }
}

/// Whether a task of that status still takes changes in.
pub open spec fn is_open(status: FileChangeStatus) -> bool {
    status is Pending || status is Processing || status is Failed
}

/// Whether a change of that file belongs to the task.
pub open spec fn takes(
    task: TaskView,
    project_id: Seq<char>,
    rel: Seq<char>,
    platform: Platform,
) -> bool {
    &&& task.project_id == project_id
    &&& key_of(task.path, platform) == key_of(rel, platform)
    &&& is_open(task.status)
}

/// The index, from `from` on, of the first task that a change of that file belongs to; the
/// number of tasks where there is none.
pub open spec fn first_taker(
    tasks: Seq<TaskView>,
    project_id: Seq<char>,
    rel: Seq<char>,
    platform: Platform,
    from: int,
) -> int
    decreases tasks.len() - from,
{
    if from >= tasks.len() {
        tasks.len() as int
    } else if takes(tasks[from], project_id, rel, platform) {
        from
    } else {
        first_taker(tasks, project_id, rel, platform, from + 1)
    }
}

/// What is known of a file's digest.
pub open spec fn hash_of(meta: Option<MetaView>) -> Option<Seq<char>> {
    match meta {
        Some(m) => m.hash,
        None => None,
    }
}

/// What is known of a file's size.
pub open spec fn size_of(meta: Option<MetaView>) -> Option<u64> {
    match meta {
        Some(m) => Some(m.size),
        None => None,
    }
}

/// What is known of when a file was modified.
pub open spec fn mtime_of(meta: Option<MetaView>) -> Option<i64> {
    match meta {
        Some(m) => Some(m.mtime_ms),
        None => None,
    }
}

/// An open task that takes a further change in. A failed task waits again as long as it
/// may be retried; one in process is run once more when it is through.
pub open spec fn touched(
    task: TaskView,
    kind: FileChangeKind,
    new: Option<MetaView>,
    now: i64,
) -> TaskView {
    let retried = task.status is Failed && task.retry_count < MAX_RETRY_COUNT;
    let spent = task.status is Failed && task.retry_count >= MAX_RETRY_COUNT;
    TaskView {
        kind: merged_kind(task.kind, kind),
        hash_after: hash_of(new),
        size: size_of(new),
        mtime_ms: mtime_of(new),
        updated_at: now,
        status: if retried {
            FileChangeStatus::Pending
        } else {
            task.status
        },
        error: if spent {
            Some("Retry limit reached (3)"@)
        } else {
            None
        },
        needs_rerun: task.needs_rerun || task.status is Processing,
        ..task
    }
}

/// A new task for a change.
pub open spec fn fresh_task(
    project_id: Seq<char>,
    rel: Seq<char>,
    kind: FileChangeKind,
    old: Option<MetaView>,
    new: Option<MetaView>,
    now: i64,
) -> TaskView {
    TaskView {
        id: "change_"@ + decimal(now as int) + "_"@ + path_hash(rel),
        project_id,
        path: rel,
        kind,
        status: FileChangeStatus::Pending,
        hash_before: hash_of(old),
        hash_after: hash_of(new),
        size: size_of(new),
        mtime_ms: mtime_of(new),
        created_at: now,
        updated_at: now,
        retry_count: 0,
        error: None,
        needs_rerun: false,
    }
}

/// The tasks after a change of a file: the first open task of the file takes it in, and
/// where there is none a new task follows the others.
pub open spec fn upserted(
    tasks: Seq<TaskView>,
    project_id: Seq<char>,
    rel: Seq<char>,
    kind: FileChangeKind,
    old: Option<MetaView>,
    new: Option<MetaView>,
    now: i64,
    platform: Platform,
) -> Seq<TaskView> {
    let i = first_taker(tasks, project_id, rel, platform, 0);
    if i < tasks.len() {
        tasks.update(i, touched(tasks[i], kind, new, now))
    } else {
        tasks.push(fresh_task(project_id, rel, kind, old, new, now))
    }
}

/// Takes a further change into an open task.
fn touch_task(task: &mut FileChangeTask, kind: FileChangeKind, new: &Option<FileMeta>, now: i64)
    ensures
        final(task)@ == touched(old(task)@, kind, opt_meta(*new), now),
{
    task.kind = merge_kind(&task.kind, &kind);
    match new {
        Some(m) => {
            task.hash_after = clone_opt(&m.hash);
            task.size = Some(m.size);
            task.mtime_ms = Some(m.mtime_ms);
        },
        None => {
            task.hash_after = None;
            task.size = None;
            task.mtime_ms = None;
        },
    }
    task.updated_at = now;
    if task.status == FileChangeStatus::Failed {
        if task.retry_count < MAX_RETRY_COUNT {
            task.status = FileChangeStatus::Pending;
            task.error = None;
        } else {
            task.error = Some("Retry limit reached (3)".to_owned());
        }
    } else if task.status == FileChangeStatus::Processing {
        task.needs_rerun = true;
        task.error = None;
    } else {
        task.error = None;
    }
    assert(task@ =~= touched(old(task)@, kind, opt_meta(*new), now));
}

/// A new task for a change.
fn new_task(
    project_id: &str,
    rel: &str,
    kind: FileChangeKind,
    old_meta: &Option<FileMeta>,
    new_meta: &Option<FileMeta>,
    now: i64,
) -> (r: FileChangeTask)
    ensures
        r@ == fresh_task(project_id@, rel@, kind, opt_meta(*old_meta), opt_meta(*new_meta), now),
{
    let mut id = concat3("change_", i64_text(now).as_str(), "_");
    id.append(stable_path_hash(rel).as_str());
    let hash_before = match old_meta {
        Some(m) => clone_opt(&m.hash),
        None => None,
    };
    let (hash_after, size, mtime_ms) = match new_meta {
        Some(m) => (clone_opt(&m.hash), Some(m.size), Some(m.mtime_ms)),
        None => (None, None, None),
    };
    FileChangeTask {
        id,
        project_id: project_id.to_owned(),
        path: rel.to_owned(),
        kind,
        status: FileChangeStatus::Pending,
        hash_before,
        hash_after,
        size,
        mtime_ms,
        created_at: now,
        updated_at: now,
        retry_count: 0,
        error: None,
        needs_rerun: false,
    }
}

/// Enters a change of a file: into its open task where it has one, else as a new task.
pub fn upsert_task(
    queue: &mut FileChangeQueue,
    project_id: &str,
    rel: &str,
    kind: FileChangeKind,
    old_meta: Option<FileMeta>,
    new_meta: Option<FileMeta>,
    now: i64,
    platform: Platform,
)
    ensures
        final(queue)@.version == old(queue)@.version,
        final(queue)@.tasks == upserted(
            old(queue)@.tasks,
            project_id@,
            rel@,
            kind,
            opt_meta(old_meta),
            opt_meta(new_meta),
            now,
            platform,
        ),
{
    let key = normalize_key(rel, platform);
    let ghost tasks = queue@.tasks;
    let mut i: usize = 0;
    while i < queue.tasks.len()
        invariant
            *queue == *old(queue),
            tasks == queue@.tasks,
            key@ == key_of(rel@, platform),
            i <= tasks.len(),
            first_taker(tasks, project_id@, rel@, platform, 0) == first_taker(
                tasks,
                project_id@,
                rel@,
                platform,
                i as int,
            ),
        decreases tasks.len() - i,
    {
        let task = &queue.tasks[i];
        assert(tasks[i as int] == task@);
        let open = task.status == FileChangeStatus::Pending || task.status
            == FileChangeStatus::Processing || task.status == FileChangeStatus::Failed;
        if open && eq(task.project_id.as_str(), project_id) && eq(
            normalize_key(task.path.as_str(), platform).as_str(),
            key.as_str(),
        ) {
            touch_task(&mut queue.tasks[i], kind, &new_meta, now);
            assert(queue@.tasks =~= tasks.update(
                i as int,
                touched(tasks[i as int], kind, opt_meta(new_meta), now),
            ));
            return ;
        }
        i += 1;
    }
    queue.tasks.push(new_task(project_id, rel, kind, &old_meta, &new_meta, now));
    assert(queue@.tasks =~= tasks.push(
        fresh_task(project_id@, rel@, kind, opt_meta(old_meta), opt_meta(new_meta), now),
    ));
}

/// What was found out about a file: its path, and what is known of it.
#[derive(Debug)]
pub struct Reading {
    pub rel: String,
    pub meta: Option<FileMeta>,
}

#[verifier::ext_equal]
pub struct ReadingView {
    pub rel: Seq<char>,
    pub meta: Option<MetaView>,
}

impl View for Reading {
    type V = ReadingView;

    open spec fn view(&self) -> ReadingView {
        ReadingView { rel: self.rel@, meta: opt_meta(self.meta) }
    }
}

/// The views of the readings.
pub open spec fn reading_views(readings: Seq<Reading>) -> Seq<ReadingView> {
    readings.map_values(|r: Reading| r@)
}

/// A change of a file, with what was known of it before and after.
#[derive(Debug)]
pub struct PathChange {
    pub rel: String,
    pub kind: FileChangeKind,
    pub before: Option<FileMeta>,
    pub after: Option<FileMeta>,
}

#[verifier::ext_equal]
pub struct ChangeView {
    pub rel: Seq<char>,
    pub kind: FileChangeKind,
    pub before: Option<MetaView>,
    pub after: Option<MetaView>,
}

impl View for PathChange {
    type V = ChangeView;

    open spec fn view(&self) -> ChangeView {
        ChangeView {
            rel: self.rel@,
            kind: self.kind,
            before: opt_meta(self.before),
            after: opt_meta(self.after),
        }
    }
}

/// The views of the changes.
pub open spec fn change_views(changes: Seq<PathChange>) -> Seq<ChangeView> {
    changes.map_values(|c: PathChange| c@)
}

/// How a file changed. One of the same digest and size did not, whenever it was modified.
pub open spec fn change_kind(before: Option<MetaView>, after: Option<MetaView>) -> Option<
    FileChangeKind,
> {
    match (before, after) {
        (None, None) => None,
        (None, Some(_)) => Some(FileChangeKind::Created),
        (Some(_), None) => Some(FileChangeKind::Deleted),
        (Some(b), Some(a)) => if b.hash == a.hash && b.size == a.size {
            None
        } else {
            Some(FileChangeKind::Modified)
        },
    }
}

/// What the snapshot knows of a file.
pub open spec fn known(files: Map<Seq<char>, MetaView>, rel: Seq<char>) -> Option<MetaView> {
    if files.contains_key(rel) {
        Some(files[rel])
    } else {
        None
    }
}

/// The changes that the readings show against the snapshot, in the order of the readings.
pub open spec fn changes_in(
    files: Map<Seq<char>, MetaView>,
    readings: Seq<ReadingView>,
) -> Seq<ChangeView>
    decreases readings.len(),
{
    if readings.len() == 0 {
        Seq::empty()
    } else {
        let rest = changes_in(files, readings.drop_last());
        let r = readings.last();
        match change_kind(known(files, r.rel), r.meta) {
            Some(kind) => rest.push(
                ChangeView { rel: r.rel, kind, before: known(files, r.rel), after: r.meta },
            ),
            None => rest,
        }
    }
}

/// Whether two digests are the same, or both unknown.
fn same_hash(a: &Option<String>, b: &Option<String>) -> (r: bool)
    ensures
        r == (opt_text(*a) == opt_text(*b)),
{
    match (a, b) {
        (Some(x), Some(y)) => eq(x.as_str(), y.as_str()),
        (None, None) => true,
        _ => false,
    }
}

/// How a file changed.
pub fn kind_of_change(before: &Option<FileMeta>, after: &Option<FileMeta>) -> (r: Option<
    FileChangeKind,
>)
    ensures
        r == change_kind(opt_meta(*before), opt_meta(*after)),
{
    match (before, after) {
        (None, None) => None,
        (None, Some(_)) => Some(FileChangeKind::Created),
        (Some(_), None) => Some(FileChangeKind::Deleted),
        (Some(b), Some(a)) => if same_hash(&b.hash, &a.hash) && b.size == a.size {
            None
        } else {
            Some(FileChangeKind::Modified)
        },
    }
}

/// What the snapshot knows of a file.
pub fn known_meta(snapshot: &FileSnapshot, rel: &str) -> (r: Option<FileMeta>)
    ensures
        opt_meta(r) == known(snapshot@.files, rel@),
{
    match snapshot.files.get(rel) {
        Some(m) => Some(m.clone()),
        None => None,
    }
}

/// The changes that the readings show against the snapshot.
pub fn path_changes(snapshot: &FileSnapshot, readings: Vec<Reading>) -> (r: Vec<PathChange>)
    ensures
        change_views(r@) == changes_in(snapshot@.files, reading_views(readings@)),
{
    let mut out: Vec<PathChange> = Vec::new();
    let ghost all = reading_views(readings@);
    let mut i: usize = 0;
    assert(change_views(out@) =~= changes_in(snapshot@.files, all.take(0)));
    while i < readings.len()
        invariant
            i <= readings@.len(),
            all == reading_views(readings@),
            change_views(out@) == changes_in(snapshot@.files, all.take(i as int)),
        decreases readings@.len() - i,
    {
        let ghost so_far = change_views(out@);
        let reading = &readings[i];
        proof {
            assert(all.take(i as int + 1).drop_last() =~= all.take(i as int));
            assert(all.take(i as int + 1).last() == reading@);
        }
        let before = known_meta(snapshot, reading.rel.as_str());
        match kind_of_change(&before, &reading.meta) {
            Some(kind) => {
                let after = match &reading.meta {
                    Some(m) => Some(m.clone()),
                    None => None,
                };
                let change = PathChange { rel: reading.rel.clone(), kind, before, after };
                let ghost view = change@;
                out.push(change);
                assert(change_views(out@) =~= so_far.push(view));
            },
            None => {},
        }
        i += 1;
    }
    assert(all.take(i as int) =~= all);
    out
}

/// The tasks after all the changes, one after the other.
pub open spec fn enqueued(
    tasks: Seq<TaskView>,
    project_id: Seq<char>,
    changes: Seq<ChangeView>,
    now: i64,
    platform: Platform,
) -> Seq<TaskView>
    decreases changes.len(),
{
    if changes.len() == 0 {
        tasks
    } else {
        let c = changes.last();
        upserted(
            enqueued(tasks, project_id, changes.drop_last(), now, platform),
            project_id,
            c.rel,
            c.kind,
            c.before,
            c.after,
            now,
            platform,
        )
    }
}

/// Enters the changes that were found at `now`.
pub fn enqueue_paths_at(
    queue: &mut FileChangeQueue,
    project_id: &str,
    changes: Vec<PathChange>,
    now: i64,
    platform: Platform,
)
    ensures
        final(queue)@.version == old(queue)@.version,
        final(queue)@.tasks == enqueued(
            old(queue)@.tasks,
            project_id@,
            change_views(changes@),
            now,
            platform,
        ),
{
    let ghost all = change_views(changes@);
    let mut i: usize = 0;
    while i < changes.len()
        invariant
            i <= changes@.len(),
            all == change_views(changes@),
            queue@.version == old(queue)@.version,
            queue@.tasks == enqueued(
                old(queue)@.tasks,
                project_id@,
                all.take(i as int),
                now,
                platform,
            ),
        decreases changes@.len() - i,
    {
        let change = &changes[i];
        proof {
            assert(all.take(i as int + 1).drop_last() =~= all.take(i as int));
            assert(all.take(i as int + 1).last() == change@);
        }
        let before = match &change.before {
            Some(m) => Some(m.clone()),
            None => None,
        };
        let after = match &change.after {
            Some(m) => Some(m.clone()),
            None => None,
        };
        upsert_task(
            queue,
            project_id,
            change.rel.as_str(),
            change.kind,
            before,
            after,
            now,
            platform,
        );
        i += 1;
    }
    assert(all.take(i as int) =~= all);
}

/// Enters the changes as of the present time.
pub fn enqueue_paths(
    queue: &mut FileChangeQueue,
    project_id: &str,
    changes: Vec<PathChange>,
    platform: Platform,
)
    ensures
        final(queue)@.version == old(queue)@.version,
        exists|now: i64|
            on_clock(now) && final(queue)@.tasks == #[trigger] enqueued(
                old(queue)@.tasks,
                project_id@,
                change_views(changes@),
                now,
                platform,
            ),
{
    let now: i64 = now_ms();
    enqueue_paths_at(queue, project_id, changes, now, platform);
}

/// The files after one reading is taken in.
pub open spec fn taken_in(
    files: Map<Seq<char>, MetaView>,
    rel: Seq<char>,
    meta: Option<MetaView>,
) -> Map<Seq<char>, MetaView> {
    match meta {
        Some(m) => files.insert(rel, m),
        None => files.remove(rel),
    }
}

/// The files after the readings are taken in, one after the other.
pub open spec fn all_taken_in(
    files: Map<Seq<char>, MetaView>,
    readings: Seq<ReadingView>,
) -> Map<Seq<char>, MetaView>
    decreases readings.len(),
{
    if readings.len() == 0 {
        files
    } else {
        taken_in(
            all_taken_in(files, readings.drop_last()),
            readings.last().rel,
            readings.last().meta,
        )
    }
}

/// Takes one reading into the files of the snapshot.
fn take_in(files: &mut TextMap<FileMeta>, rel: &str, meta: &Option<FileMeta>)
    ensures
        final(files)@.map_values(|m: FileMeta| m@) == taken_in(
            old(files)@.map_values(|m: FileMeta| m@),
            rel@,
            opt_meta(*meta),
        ),
{
    match meta {
        Some(m) => {
            files.insert(rel.to_owned(), m.clone());
        },
        None => {
            files.remove(rel);
        },
    }
    assert(files@.map_values(|m: FileMeta| m@) =~= taken_in(
        old(files)@.map_values(|m: FileMeta| m@),
        rel@,
        opt_meta(*meta),
    ));
}

/// Takes the readings into the snapshot at `now`.
pub fn sync_snapshot_paths_at(snapshot: &mut FileSnapshot, readings: &Vec<Reading>, now: i64)
    ensures
        final(snapshot)@ == (SnapshotView {
            version: 1,
            updated_at: now,
            files: all_taken_in(old(snapshot)@.files, reading_views(readings@)),
        }),
{
    let ghost all = reading_views(readings@);
    let mut i: usize = 0;
    while i < readings.len()
        invariant
            i <= readings@.len(),
            all == reading_views(readings@),
            snapshot@.files == all_taken_in(old(snapshot)@.files, all.take(i as int)),
        decreases readings@.len() - i,
    {
        proof {
            assert(all.take(i as int + 1).drop_last() =~= all.take(i as int));
            assert(all.take(i as int + 1).last() == readings@[i as int]@);
        }
        take_in(&mut snapshot.files, readings[i].rel.as_str(), &readings[i].meta);
        i += 1;
    }
    assert(all.take(i as int) =~= all);
    snapshot.version = 1;
    snapshot.updated_at = now;
}

/// Takes the readings into the snapshot as of the present time.
pub fn sync_snapshot_paths(snapshot: &mut FileSnapshot, readings: &Vec<Reading>)
    ensures
        on_clock(final(snapshot)@.updated_at),
        final(snapshot)@.version == 1,
        final(snapshot)@.files == all_taken_in(old(snapshot)@.files, reading_views(readings@)),
{
    let now: i64 = now_ms();
    sync_snapshot_paths_at(snapshot, readings, now);
}

/// Takes what is known of the file of a task into the snapshot at `now`.
pub fn write_task_meta_to_snapshot_at(
    snapshot: &mut FileSnapshot,
    task: &FileChangeTask,
    meta: &Option<FileMeta>,
    now: i64,
)
    ensures
        final(snapshot)@ == (SnapshotView {
            version: 1,
            updated_at: now,
            files: taken_in(old(snapshot)@.files, task@.path, opt_meta(*meta)),
        }),
{
    take_in(&mut snapshot.files, task.path.as_str(), meta);
    snapshot.version = 1;
    snapshot.updated_at = now;
}

/// Takes what is known of the file of a task into the snapshot as of the present time.
pub fn write_task_meta_to_snapshot(
    snapshot: &mut FileSnapshot,
    task: &FileChangeTask,
    meta: &Option<FileMeta>,
)
    ensures
        on_clock(final(snapshot)@.updated_at),
        final(snapshot)@.version == 1,
        final(snapshot)@.files == taken_in(old(snapshot)@.files, task@.path, opt_meta(*meta)),
{
    let now: i64 = now_ms();
    write_task_meta_to_snapshot_at(snapshot, task, meta, now);
}

/// Takes a file, as it was found, into the snapshot as of the present time, for the task of
/// that file.
pub fn apply_task_to_snapshot(
    snapshot: &mut FileSnapshot,
    task: &FileChangeTask,
    stat: &Option<FileStat>,
    contents: &[u8],
)
    ensures
        on_clock(final(snapshot)@.updated_at),
        final(snapshot)@.version == 1,
        final(snapshot)@.files == taken_in(
            old(snapshot)@.files,
            task@.path,
            meta_of(*stat, contents@),
        ),
{
    let meta = read_meta(stat, contents);
    write_task_meta_to_snapshot(snapshot, task, &meta);
}

/// The name of the file that data is written to before it takes the place of the file with
/// that name.
pub fn temp_file_name(file_name: &str, stamp: i64) -> (r: String)
    ensures
        r@ == "."@ + file_name@ + "."@ + decimal(stamp as int) + ".tmp"@,
{
    let mut out = concat3(".", file_name, ".");
    out.append(i64_text(stamp).as_str());
    out.append(".tmp");
    out
}

/// A task that waits again if it was in process.
pub open spec fn rewound(task: TaskView, now: i64) -> TaskView {
    if task.status is Processing {
        TaskView {
            status: FileChangeStatus::Pending,
            needs_rerun: false,
            error: None,
            updated_at: now,
            ..task
        }
    } else {
        task
    }
}

/// The tasks of the project, each waiting again if it was in process.
pub open spec fn reset(tasks: Seq<TaskView>, project_id: Seq<char>, now: i64) -> Seq<TaskView>
    decreases tasks.len(),
{
    if tasks.len() == 0 {
        Seq::empty()
    } else {
        let before = reset(tasks.drop_last(), project_id, now);
        if tasks.last().project_id == project_id {
            before.push(rewound(tasks.last(), now))
        } else {
            before
        }
    }
}

/// Whether a task of the project is in process.
pub open spec fn any_processing(tasks: Seq<TaskView>, project_id: Seq<char>) -> bool {
    exists|i: int|
        0 <= i < tasks.len() && (#[trigger] tasks[i]).project_id == project_id
            && tasks[i].status is Processing
}

/// Makes the tasks that were in process wait again, and drops those of other projects.
/// The result says whether a task was in process: only then is the queue to be stored.
pub fn reset_processing_tasks_at(queue: &mut FileChangeQueue, project_id: &str, now: i64) -> (r:
    bool)
    ensures
        final(queue)@.version == old(queue)@.version,
        final(queue)@.tasks == reset(old(queue)@.tasks, project_id@, now),
        r == any_processing(old(queue)@.tasks, project_id@),
{
    let mut out: Vec<FileChangeTask> = Vec::new();
    let mut changed = false;
    let ghost all = queue@.tasks;
    let mut i: usize = 0;
    assert(task_views(out@) =~= reset(all.take(0), project_id@, now));
    while i < queue.tasks.len()
        invariant
            *queue == *old(queue),
            i <= all.len(),
            all == queue@.tasks,
            task_views(out@) == reset(all.take(i as int), project_id@, now),
            changed == any_processing(all.take(i as int), project_id@),
        decreases all.len() - i,
    {
        let ghost so_far = task_views(out@);
        let ghost upto = all.take(i as int + 1);
        let task = &queue.tasks[i];
        let here = task.status == FileChangeStatus::Processing && eq(
            task.project_id.as_str(),
            project_id,
        );
        proof {
            assert(upto.drop_last() =~= all.take(i as int));
            assert(upto.last() == task@);
            if here {
                assert(upto[i as int].status is Processing);
            }
            if any_processing(all.take(i as int), project_id@) {
                let j = choose|j: int|
                    0 <= j < i && (#[trigger] all.take(i as int)[j]).project_id == project_id@
                        && all.take(i as int)[j].status is Processing;
                assert(upto[j].status is Processing);
            }
            if any_processing(upto, project_id@) && !here {
                let j = choose|j: int|
                    0 <= j < upto.len() && (#[trigger] upto[j]).project_id == project_id@
                        && upto[j].status is Processing;
                assert(all.take(i as int)[j].status is Processing);
            }
        }
        if eq(task.project_id.as_str(), project_id) {
            let mut kept = task.clone();
            if kept.status == FileChangeStatus::Processing {
                kept.status = FileChangeStatus::Pending;
                kept.needs_rerun = false;
                kept.error = None;
                kept.updated_at = now;
                changed = true;
            }
            let ghost view = kept@;
            assert(view =~= rewound(all[i as int], now));
            out.push(kept);
            assert(task_views(out@) =~= so_far.push(view));
        }
        i += 1;
    }
    assert(all.take(i as int) =~= all);
    queue.tasks = out;
    changed
}

/// Makes the tasks that were in process wait again as of the present time, and drops those
/// of other projects.
pub fn reset_processing_tasks(queue: &mut FileChangeQueue, project_id: &str) -> (r: bool)
    ensures
        final(queue)@.version == old(queue)@.version,
        exists|now: i64|
            on_clock(now) && final(queue)@.tasks == #[trigger] reset(
                old(queue)@.tasks,
                project_id@,
                now,
            ),
        r == any_processing(old(queue)@.tasks, project_id@),
{
    let now: i64 = now_ms();
    reset_processing_tasks_at(queue, project_id, now)
}

} // verus!
