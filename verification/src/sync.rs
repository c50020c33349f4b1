//! What a watcher makes of the paths that changed: which files to look at, which changes
//! the application made itself, and what listeners are told.

use vstd::prelude::*;

use crate::clock::{now_ms, on_clock};
use crate::order::{entries, lemma_key_index, TextMap};
use crate::paths::{path_key, resolution, resolved_key, Platform, ResolvedPath};
use crate::queue::{
    clone_tasks, task_views, FileChangeQueue, FileChangeTask, IngestQueueError, TaskView,
};
use crate::text::{concat, eq, has_prefix, texts};

verus! {

/// What went wrong with watching files.
#[derive(Debug)]
pub enum FileSyncError {
    Io(String),
    Notify(String),
    InvalidArgument(String),
    Queue(IngestQueueError),
    Internal(String),
}

impl FileSyncError {
    /// The text that the error is shown by.
    pub open spec fn shown(self) -> Seq<char> {
        match self {
            FileSyncError::Io(s) => "io: "@ + s@,
            FileSyncError::Notify(s) => "notify: "@ + s@,
            FileSyncError::InvalidArgument(s) => "invalid argument: "@ + s@,
            FileSyncError::Queue(e) => "queue: "@ + e.shown(),
            FileSyncError::Internal(s) => "internal: "@ + s@,
        }
    }

    /// The text that the error is shown by.
    pub fn message(&self) -> (r: String)
        ensures
            r@ == self.shown(),
    {
        match self {
            FileSyncError::Io(s) => concat("io: ", s.as_str()),
            FileSyncError::Notify(s) => concat("notify: ", s.as_str()),
            FileSyncError::InvalidArgument(s) => concat("invalid argument: ", s.as_str()),
            FileSyncError::Queue(e) => concat("queue: ", e.message().as_str()),
            FileSyncError::Internal(s) => concat("internal: ", s.as_str()),
        }
    }
}

impl From<String> for FileSyncError {
    fn from(s: String) -> (r: FileSyncError) {
        FileSyncError::Internal(s)
    }
}

impl vstd::std_specs::convert::FromSpecImpl<String> for FileSyncError {
    open spec fn obeys_from_spec() -> bool {
        true
    }

    open spec fn from_spec(s: String) -> FileSyncError {
        FileSyncError::Internal(s)
    }
}

impl From<IngestQueueError> for FileSyncError {
    fn from(e: IngestQueueError) -> (r: FileSyncError) {
        FileSyncError::Queue(e)
    }
}

impl vstd::std_specs::convert::FromSpecImpl<IngestQueueError> for FileSyncError {
    open spec fn obeys_from_spec() -> bool {
        true
    }

    open spec fn from_spec(e: IngestQueueError) -> FileSyncError {
        FileSyncError::Queue(e)
    }
}

/// The event that carries the queue.
pub const EVENT_QUEUE_UPDATED: &'static str = "file-sync://queue-updated";

/// The event that carries the tasks that were worked off.
pub const EVENT_CHANGED: &'static str = "file-sync://changed";

/// What an event carries.
#[derive(Debug)]
pub struct FileSyncPayload {
    pub project_id: String,
    pub tasks: Vec<FileChangeTask>,
}

/// An event for those who listen to a project.
#[derive(Debug)]
pub struct SyncEvent {
    pub event: String,
    pub payload: FileSyncPayload,
}

#[verifier::ext_equal]
pub struct EventView {
    pub event: Seq<char>,
    pub project_id: Seq<char>,
    pub tasks: Seq<TaskView>,
}

impl View for SyncEvent {
    type V = EventView;

    open spec fn view(&self) -> EventView {
        EventView {
            event: self.event@,
            project_id: self.payload.project_id@,
            tasks: task_views(self.payload.tasks@),
        }
    }
}

/// The event that tells of the queue.
pub fn emit_queue(project_id: &str, queue: &FileChangeQueue) -> (r: SyncEvent)
    ensures
        r@ == (EventView {
            event: EVENT_QUEUE_UPDATED@,
            project_id: project_id@,
            tasks: queue@.tasks,
        }),
{
    SyncEvent {
        event: EVENT_QUEUE_UPDATED.to_owned(),
        payload: FileSyncPayload {
            project_id: project_id.to_owned(),
            tasks: clone_tasks(&queue.tasks),
        },
    }
}

/// The event that tells of the tasks that were worked off; none where there are none.
pub fn emit_changed_batch(project_id: &str, tasks: Vec<FileChangeTask>) -> (r: Option<SyncEvent>)
    ensures
        match r {
            Some(e) => tasks@.len() > 0 && e@ == (EventView {
                event: EVENT_CHANGED@,
                project_id: project_id@,
                tasks: task_views(tasks@),
            }),
            None => tasks@.len() == 0,
        },
{
    if tasks.len() == 0 {
        return None;
    }
    Some(
        SyncEvent {
            event: EVENT_CHANGED.to_owned(),
            payload: FileSyncPayload { project_id: project_id.to_owned(), tasks },
        },
    )
}

/// How long a path that the application wrote is passed over, in milliseconds.
pub const APP_WRITE_IGNORE_MS: i64 = 4_000;

/// The paths that the application wrote of late, each with the time until which changes
/// of it are passed over.
#[derive(Debug)]
pub struct AppWriteIgnores {
    expiries: TextMap<i64>,
}

impl View for AppWriteIgnores {
    type V = Map<Seq<char>, i64>;

    closed spec fn view(&self) -> Map<Seq<char>, i64> {
        self.expiries@
    }
}

/// The entries that have not expired.
pub open spec fn unexpired(m: Map<Seq<char>, i64>, now: i64) -> Map<Seq<char>, i64> {
    m.restrict(m.dom().filter(|k: Seq<char>| m[k] > now))
}

/// The paths once one more was written at `now`: those whose time is not over, and that one for
/// the time that is meant for it.
pub open spec fn marked(m: Map<Seq<char>, i64>, key: Seq<char>, now: i64) -> Map<Seq<char>, i64> {
    unexpired(m, now).insert(key, (now + APP_WRITE_IGNORE_MS) as i64)
}

/// Whether a path is `prefix` or lies below it.
pub open spec fn covers(prefix: Seq<char>, path: Seq<char>) -> bool {
    path == prefix || (prefix + seq!['/']).is_prefix_of(path)
}

/// Whether the path or a directory that it lies in is among those that were written.
pub open spec fn is_covered(m: Map<Seq<char>, i64>, key: Seq<char>) -> bool {
    exists|k: Seq<char>| m.contains_key(k) && #[trigger] covers(k, key)
}

/// Whether a path is `prefix` or lies below it.
pub fn path_covers(prefix: &str, path: &str) -> (r: bool)
    ensures
        r == covers(prefix@, path@),
{
    proof {
        reveal_strlit("/");
        assert("/"@ =~= seq!['/']);
    }
    eq(path, prefix) || has_prefix(path, concat(prefix, "/").as_str())
}

impl AppWriteIgnores {
    /// No paths.
    pub fn new() -> (r: AppWriteIgnores)
        ensures
            r@ == Map::<Seq<char>, i64>::empty(),
    {
        AppWriteIgnores { expiries: TextMap::new() }
    }

    /// Drops the paths whose time is over.
    fn purge(&mut self, now: i64)
        ensures
            final(self)@ == unexpired(old(self)@, now),
    {
        let ghost all = self.expiries@;
        let mut kept: TextMap<i64> = TextMap::new();
        let names = self.expiries.key_list();
        let times = self.expiries.value_list();
        let ghost keys = self.expiries.keys();
        let ghost values = self.expiries.listed();
        let mut i: usize = 0;
        assert(kept@ =~= Map::<Seq<char>, i64>::empty());
        while i < names.len()
            invariant
                i <= names@.len(),
                keys == texts(names@),
                values == times@,
                names@.len() == times@.len(),
                crate::order::increasing(keys),
                all == entries(keys, values),
                forall|k: Seq<char>| #[trigger]
                    kept@.contains_key(k) == (exists|j: int|
                        0 <= j < i && #[trigger] keys[j] == k && values[j] > now),
                forall|k: Seq<char>| #[trigger] kept@.contains_key(k) ==> kept@[k] == all[k],
            decreases names@.len() - i,
        {
            let ghost before = kept@;
            let time: i64 = times[i];
            proof {
                lemma_key_index(keys, i as int);
                assert(all[keys[i as int]] == time);
            }
            if time > now {
                kept.insert(names[i].clone(), time);
            }
            proof {
                assert forall|k: Seq<char>| #[trigger] kept@.contains_key(k) == (exists|j: int|
                    0 <= j < i + 1 && #[trigger] keys[j] == k && values[j] > now) by {
                    if before.contains_key(k) {
                        let j = choose|j: int|
                            0 <= j < i && #[trigger] keys[j] == k && values[j] > now;
                        assert(keys[j] == k);
                    }
                    if time > now && k == keys[i as int] {
                        assert(keys[i as int] == k);
                    }
                }
            }
            i += 1;
        }
        proof {
            let goal = unexpired(all, now);
            assert forall|k: Seq<char>| kept@.contains_key(k) == goal.contains_key(k) by {
                if kept@.contains_key(k) {
                    let j = choose|j: int|
                        0 <= j < keys.len() && #[trigger] keys[j] == k && values[j] > now;
                    lemma_key_index(keys, j);
                    assert(keys.contains(k));
                }
                if goal.contains_key(k) {
                    let j = keys.index_of(k);
                    assert(keys[j] == k && values[j] > now);
                }
            }
            assert(kept@ =~= goal);
        }
        self.expiries = kept;
    }

    /// Notes at `now` that the application writes the path with that key.
    pub fn mark_at(&mut self, key: String, now: i64)
        requires
            now <= i64::MAX - APP_WRITE_IGNORE_MS,
        ensures
            final(self)@ == marked(old(self)@, key@, now),
    {
        self.purge(now);
        self.expiries.insert(key, now + APP_WRITE_IGNORE_MS);
    }

    /// Whether at `now` changes of the path with that key are passed over. Paths whose time
    /// is over are dropped.
    pub fn is_ignored_at(&mut self, key: &str, now: i64) -> (r: bool)
        ensures
            final(self)@ == unexpired(old(self)@, now),
            r == is_covered(final(self)@, key@),
    {
        self.purge(now);
        let names = self.expiries.key_list();
        let ghost keys = self.expiries.keys();
        let ghost m = self@;
        let mut i: usize = 0;
        while i < names.len()
            invariant
                i <= names@.len(),
                keys == texts(names@),
                m == self@,
                m == entries(keys, self.expiries.listed()),
                m == unexpired(old(self)@, now),
                forall|j: int| 0 <= j < i ==> !covers(#[trigger] keys[j], key@),
            decreases names@.len() - i,
        {
            if path_covers(names[i].as_str(), key) {
                proof {
                    assert(keys[i as int] == names@[i as int]@);
                    assert(keys.contains(keys[i as int]));
                    assert(m.contains_key(keys[i as int]));
                }
                return true;
            }
            i += 1;
        }
        proof {
            if is_covered(m, key@) {
                let k = choose|k: Seq<char>| m.contains_key(k) && #[trigger] covers(k, key@);
                let j = keys.index_of(k);
                assert(!covers(keys[j], key@));
            }
        }
        false
    }
}

/// Notes that the application writes the path.
pub fn mark_app_write_path(
    ignores: &mut AppWriteIgnores,
    path: &str,
    resolved: &Option<ResolvedPath>,
    platform: Platform,
)
    ensures
        exists|now: i64|
            on_clock(now) && final(ignores)@ == #[trigger] marked(
                old(ignores)@,
                resolved_key(path@, resolution(*resolved), platform),
                now,
            ),
{
    let key = path_key(path, resolved, platform);
    let now: i64 = now_ms();
    ignores.mark_at(key, now);
}

/// Whether changes of the path are passed over at present.
pub fn is_app_write_ignored(
    ignores: &mut AppWriteIgnores,
    path: &str,
    resolved: &Option<ResolvedPath>,
    platform: Platform,
) -> (r: bool)
    ensures
        exists|now: i64|
            on_clock(now) && final(ignores)@ == #[trigger] unexpired(old(ignores)@, now),
        r == is_covered(
            final(ignores)@,
            resolved_key(path@, resolution(*resolved), platform),
        ),
{
    let key = path_key(path, resolved, platform);
    let now: i64 = now_ms();
    ignores.is_ignored_at(key.as_str(), now)
}

/// A path that was marked is passed over for the time that is meant for it, and with it
/// every path below it.
pub proof fn law_marked_path_is_ignored(
    m: Map<Seq<char>, i64>,
    key: Seq<char>,
    path: Seq<char>,
    now: i64,
    later: i64,
)
    requires
        now <= later < now + APP_WRITE_IGNORE_MS <= i64::MAX,
        covers(key, path),
    ensures
        is_covered(unexpired(marked(m, key, now), later), path),
{
    assert(unexpired(marked(m, key, now), later).contains_key(key));
}

/// Once the time of every path is over, none is passed over.
pub proof fn law_marks_expire(m: Map<Seq<char>, i64>, path: Seq<char>, later: i64)
    requires
        forall|k: Seq<char>| #[trigger] m.contains_key(k) ==> m[k] <= later,
    ensures
        !is_covered(unexpired(m, later), path),
{
}

} // verus!
