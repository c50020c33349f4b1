//! What holds of the queue whatever is entered into it.

use vstd::prelude::*;

use vstd::utf8::encode_utf8;

use crate::digest::md5_hex;
use crate::paths::{key_of, Platform};
use crate::queue::{
    all_taken_in, any_processing, change_kind, changes_in, enqueued, fast_meta_of, first_taker,
    is_digested, is_open, known, merged_kind, meta_of, reset, rewound, taken_in, takes, touched,
    upserted, version_read, ChangeView, FileChangeKind, FileChangeStatus, FileStat, MetaView,
    ReadingView, TaskView, MAX_RETRY_COUNT,
};
use crate::text::decimal;

verus! {

/// Whether the two tasks are open and of one file.
pub open spec fn rivals(a: TaskView, b: TaskView, platform: Platform) -> bool {
    &&& is_open(a.status)
    &&& is_open(b.status)
    &&& a.project_id == b.project_id
    &&& key_of(a.path, platform) == key_of(b.path, platform)
}

/// Whether every file has at most one open task.
pub open spec fn one_open_each(tasks: Seq<TaskView>, platform: Platform) -> bool {
    forall|i: int, j: int|
        0 <= i < j < tasks.len() ==> !rivals(#[trigger] tasks[i], #[trigger] tasks[j], platform)
}

/// The first task that takes a change is the first: none before it does.
pub proof fn lemma_first_taker(
    tasks: Seq<TaskView>,
    project_id: Seq<char>,
    rel: Seq<char>,
    platform: Platform,
    from: int,
)
    requires
        0 <= from <= tasks.len(),
    ensures
        from <= first_taker(tasks, project_id, rel, platform, from) <= tasks.len(),
        forall|i: int|
            from <= i < first_taker(tasks, project_id, rel, platform, from) ==> !takes(
                #[trigger] tasks[i],
                project_id,
                rel,
                platform,
            ),
        first_taker(tasks, project_id, rel, platform, from) < tasks.len() ==> takes(
            tasks[first_taker(tasks, project_id, rel, platform, from)],
            project_id,
            rel,
            platform,
        ),
    decreases tasks.len() - from,
{
    if from < tasks.len() && !takes(tasks[from], project_id, rel, platform) {
        lemma_first_taker(tasks, project_id, rel, platform, from + 1);
    }
}

/// A file that has at most one open task has at most one after a change is entered, its own
/// or that of another file.
pub proof fn law_one_open_task_per_file(
    tasks: Seq<TaskView>,
    project_id: Seq<char>,
    rel: Seq<char>,
    kind: FileChangeKind,
    before: Option<MetaView>,
    after: Option<MetaView>,
    now: i64,
    platform: Platform,
)
    requires
        one_open_each(tasks, platform),
    ensures
        one_open_each(
            upserted(tasks, project_id, rel, kind, before, after, now, platform),
            platform,
        ),
{
    lemma_first_taker(tasks, project_id, rel, platform, 0);
    let k = first_taker(tasks, project_id, rel, platform, 0);
    let next = upserted(tasks, project_id, rel, kind, before, after, now, platform);
    assert forall|i: int, j: int| 0 <= i < j < next.len() implies !rivals(
        #[trigger] next[i],
        #[trigger] next[j],
        platform,
    ) by {
        if k < tasks.len() {
            assert(!rivals(tasks[i], tasks[j], platform));
            assert(is_open(touched(tasks[k], kind, after, now).status));
        } else if j < tasks.len() {
            assert(!rivals(tasks[i], tasks[j], platform));
        } else {
            assert(!takes(tasks[i], project_id, rel, platform));
        }
    }
}

/// Entering any number of changes leaves every file at most one open task.
pub proof fn law_enqueue_keeps_one_open_task(
    tasks: Seq<TaskView>,
    project_id: Seq<char>,
    changes: Seq<ChangeView>,
    now: i64,
    platform: Platform,
)
    requires
        one_open_each(tasks, platform),
    ensures
        one_open_each(enqueued(tasks, project_id, changes, now, platform), platform),
    decreases changes.len(),
{
    if changes.len() > 0 {
        let c = changes.last();
        law_enqueue_keeps_one_open_task(tasks, project_id, changes.drop_last(), now, platform);
        law_one_open_task_per_file(
            enqueued(tasks, project_id, changes.drop_last(), now, platform),
            project_id,
            c.rel,
            c.kind,
            c.before,
            c.after,
            now,
            platform,
        );
    }
}

/// Once a change of a file is entered, a further change of it adds no task.
pub proof fn law_second_change_adds_no_task(
    tasks: Seq<TaskView>,
    project_id: Seq<char>,
    rel: Seq<char>,
    first: FileChangeKind,
    second: FileChangeKind,
    m0: Option<MetaView>,
    m1: Option<MetaView>,
    m2: Option<MetaView>,
    now: i64,
    later: i64,
    platform: Platform,
)
    ensures
        ({
            let once = upserted(tasks, project_id, rel, first, m0, m1, now, platform);
            upserted(once, project_id, rel, second, m1, m2, later, platform).len() == once.len()
        }),
{
    lemma_first_taker(tasks, project_id, rel, platform, 0);
    let k = first_taker(tasks, project_id, rel, platform, 0);
    let once = upserted(tasks, project_id, rel, first, m0, m1, now, platform);
    lemma_first_taker(once, project_id, rel, platform, 0);
    assert(0 <= k < once.len());
    assert(takes(once[k], project_id, rel, platform));
}

/// Entering a change leaves the tasks of other projects and of other files as they are.
pub proof fn law_upsert_leaves_other_tasks(
    tasks: Seq<TaskView>,
    project_id: Seq<char>,
    rel: Seq<char>,
    kind: FileChangeKind,
    before: Option<MetaView>,
    after: Option<MetaView>,
    now: i64,
    platform: Platform,
    i: int,
)
    requires
        0 <= i < tasks.len(),
        tasks[i].project_id != project_id || key_of(tasks[i].path, platform) != key_of(
            rel,
            platform,
        ),
    ensures
        upserted(tasks, project_id, rel, kind, before, after, now, platform)[i] == tasks[i],
{
    lemma_first_taker(tasks, project_id, rel, platform, 0);
}

/// A failed task that has used up its retries stays failed, and is not retried, however
/// its file changes.
pub proof fn law_retry_limit(
    task: TaskView,
    kind: FileChangeKind,
    after: Option<MetaView>,
    now: i64,
)
    requires
        task.status is Failed,
        task.retry_count >= MAX_RETRY_COUNT,
    ensures
        touched(task, kind, after, now).status is Failed,
        touched(task, kind, after, now).retry_count == task.retry_count,
        touched(task, kind, after, now).error == Some("Retry limit reached (3)"@),
{
}

/// Files that are as the snapshot knows them show no change.
pub proof fn law_known_files_show_no_change(
    files: Map<Seq<char>, MetaView>,
    readings: Seq<ReadingView>,
)
    requires
        forall|i: int|
            0 <= i < readings.len() ==> (#[trigger] readings[i]).meta == known(
                files,
                readings[i].rel,
            ),
    ensures
        changes_in(files, readings).len() == 0,
    decreases readings.len(),
{
    if readings.len() > 0 {
        let rest = readings.drop_last();
        assert forall|i: int| 0 <= i < rest.len() implies (#[trigger] rest[i]).meta == known(
            files,
            rest[i].rel,
        ) by {
            assert(rest[i] == readings[i]);
        }
        law_known_files_show_no_change(files, rest);
        assert(readings[readings.len() - 1] == readings.last());
    }
}

/// After readings of different files are taken in, the snapshot knows of each file what
/// the reading said.
pub proof fn lemma_taken_in(files: Map<Seq<char>, MetaView>, readings: Seq<ReadingView>, i: int)
    requires
        0 <= i < readings.len(),
        forall|a: int, b: int|
            0 <= a < b < readings.len() ==> (#[trigger] readings[a]).rel != (
            #[trigger] readings[b]).rel,
    ensures
        known(all_taken_in(files, readings), readings[i].rel) == readings[i].meta,
    decreases readings.len(),
{
    let rest = readings.drop_last();
    if i < rest.len() {
        assert forall|a: int, b: int| 0 <= a < b < rest.len() implies (#[trigger] rest[a]).rel != (
        #[trigger] rest[b]).rel by {
            assert(rest[a] == readings[a] && rest[b] == readings[b]);
        }
        lemma_taken_in(files, rest, i);
        assert(rest[i] == readings[i]);
        assert(readings[i].rel != readings[readings.len() - 1].rel);
    }
}

/// Files whose readings were taken into the snapshot show no change against it until they
/// change again.
pub proof fn law_synced_files_show_no_change(
    files: Map<Seq<char>, MetaView>,
    readings: Seq<ReadingView>,
)
    requires
        forall|a: int, b: int|
            0 <= a < b < readings.len() ==> (#[trigger] readings[a]).rel != (
            #[trigger] readings[b]).rel,
    ensures
        changes_in(all_taken_in(files, readings), readings).len() == 0,
{
    assert forall|i: int| 0 <= i < readings.len() implies (#[trigger] readings[i]).meta == known(
        all_taken_in(files, readings),
        readings[i].rel,
    ) by {
        lemma_taken_in(files, readings, i);
    }
    law_known_files_show_no_change(all_taken_in(files, readings), readings);
}

/// After a reset every task is one of the project's, and none is in process.
pub proof fn law_reset_leaves_none_processing(
    tasks: Seq<TaskView>,
    project_id: Seq<char>,
    now: i64,
    i: int,
)
    requires
        0 <= i < reset(tasks, project_id, now).len(),
    ensures
        reset(tasks, project_id, now)[i].project_id == project_id,
        !(reset(tasks, project_id, now)[i].status is Processing),
    decreases tasks.len(),
{
    if tasks.len() > 0 {
        let before = reset(tasks.drop_last(), project_id, now);
        if i < before.len() {
            law_reset_leaves_none_processing(tasks.drop_last(), project_id, now, i);
        }
    }
}

/// A second reset changes nothing.
pub proof fn law_reset_twice(tasks: Seq<TaskView>, project_id: Seq<char>, now: i64, later: i64)
    ensures
        reset(reset(tasks, project_id, now), project_id, later) == reset(tasks, project_id, now),
        !any_processing(reset(tasks, project_id, now), project_id),
    decreases tasks.len(),
{
    let once = reset(tasks, project_id, now);
    if tasks.len() > 0 {
        let before = reset(tasks.drop_last(), project_id, now);
        law_reset_twice(tasks.drop_last(), project_id, now, later);
        if tasks.last().project_id == project_id {
            assert(once.drop_last() =~= before);
            assert(once.last() == rewound(tasks.last(), now));
            assert(reset(once, project_id, later) =~= before.push(rewound(once.last(), later)));
        }
    }
    if any_processing(once, project_id) {
        let j = choose|j: int|
            0 <= j < once.len() && (#[trigger] once[j]).project_id == project_id
                && once[j].status is Processing;
        law_reset_leaves_none_processing(tasks, project_id, now, j);
    }
}

/// A file whose contents changed shows a change though its size is the same, and a file
/// that was only touched shows none.
pub proof fn law_contents_decide(before: MetaView, after: MetaView)
    ensures
        before.hash != after.hash ==> change_kind(Some(before), Some(after)) == Some(
            FileChangeKind::Modified,
        ),
        before.hash == after.hash && before.size == after.size ==> change_kind(
            Some(before),
            Some(after),
        ) is None,
{
}

/// Whether a change of the file belongs to the task: the task is the file's, and waits, is in
/// process, or has failed.
pub open spec fn is_open_task_of(
    task: TaskView,
    project_id: Seq<char>,
    rel: Seq<char>,
    platform: Platform,
) -> bool {
    &&& task.project_id == project_id
    &&& key_of(task.path, platform) == key_of(rel, platform)
    &&& task.status == FileChangeStatus::Pending || task.status == FileChangeStatus::Processing
        || task.status == FileChangeStatus::Failed
}

/// A change of a file that has an open task is entered into the first such task and into no
/// other. A file that came and went, or went and came back, counts as modified; any other change
/// counts as what it is, so that a file which is gone is known to be gone. The task tells of the
/// file as it is now, and waits again if it failed less than three times; it keeps its name and
/// what was known before it.
pub proof fn law_change_is_entered_into_the_open_task(
    tasks: Seq<TaskView>,
    i: int,
    project_id: Seq<char>,
    rel: Seq<char>,
    kind: FileChangeKind,
    old: Option<MetaView>,
    new: Option<MetaView>,
    now: i64,
    platform: Platform,
)
    requires
        0 <= i < tasks.len(),
        is_open_task_of(tasks[i], project_id, rel, platform),
        forall|j: int|
            0 <= j < i ==> !is_open_task_of(#[trigger] tasks[j], project_id, rel, platform),
    ensures
        ({
            let next = upserted(tasks, project_id, rel, kind, old, new, now, platform);
            let was = tasks[i];
            let result = next[i];
            &&& next.len() == tasks.len()
            &&& forall|j: int|
                0 <= j < tasks.len() && j != i ==> #[trigger] next[j] == tasks[j]
            &&& result.kind == if (was.kind is Created && kind is Deleted) || (was.kind is Deleted
                && kind is Created) {
                FileChangeKind::Modified
            } else {
                kind
            }
            &&& new is Some ==> {
                &&& result.hash_after == new->0.hash
                &&& result.size == Some(new->0.size)
                &&& result.mtime_ms == Some(new->0.mtime_ms)
            }
            &&& new is None ==> {
                &&& result.hash_after is None
                &&& result.size is None
                &&& result.mtime_ms is None
            }
            &&& result.updated_at == now
            &&& result.id == was.id
            &&& result.project_id == was.project_id
            &&& result.path == was.path
            &&& result.hash_before == was.hash_before
            &&& result.created_at == was.created_at
            &&& result.retry_count == was.retry_count
            &&& was.status is Failed && was.retry_count < 3 ==> {
                &&& result.status is Pending
                &&& result.error is None
            }
            &&& was.status is Failed && was.retry_count >= 3 ==> {
                &&& result.status is Failed
                &&& result.error == Some("Retry limit reached (3)"@)
            }
            &&& was.status !is Failed ==> result.status == was.status && result.error is None
            &&& was.status is Processing ==> result.needs_rerun
            &&& was.status !is Processing ==> result.needs_rerun == was.needs_rerun
        }),
{
    lemma_first_taker(tasks, project_id, rel, platform, 0);
    let k = first_taker(tasks, project_id, rel, platform, 0);
    assert forall|j: int| 0 <= j < tasks.len() implies takes(
        #[trigger] tasks[j],
        project_id,
        rel,
        platform,
    ) == is_open_task_of(tasks[j], project_id, rel, platform) by {}
    if k < i {
        assert(is_open_task_of(tasks[k], project_id, rel, platform));
    }
    if k > i {
        assert(!takes(tasks[i], project_id, rel, platform));
    }
}

/// A change of a file that has no open task is entered as a new task after all others, which
/// stay as they are. It waits, tells of the change and of the file before and after it, and has
/// a name made of the time and of the digest of the path.
pub proof fn law_change_without_open_task_is_a_new_task(
    tasks: Seq<TaskView>,
    project_id: Seq<char>,
    rel: Seq<char>,
    kind: FileChangeKind,
    old: Option<MetaView>,
    new: Option<MetaView>,
    now: i64,
    platform: Platform,
)
    requires
        forall|j: int|
            0 <= j < tasks.len() ==> !is_open_task_of(
                #[trigger] tasks[j],
                project_id,
                rel,
                platform,
            ),
    ensures
        ({
            let next = upserted(tasks, project_id, rel, kind, old, new, now, platform);
            let result = next.last();
            &&& next.len() == tasks.len() + 1
            &&& next.drop_last() == tasks
            &&& result.id == "change_"@ + decimal(now as int) + "_"@ + md5_hex(
                encode_utf8(rel),
            ).take(12)
            &&& result.project_id == project_id
            &&& result.path == rel
            &&& result.kind == kind
            &&& result.status is Pending
            &&& old is Some ==> result.hash_before == old->0.hash
            &&& old is None ==> result.hash_before is None
            &&& new is Some ==> {
                &&& result.hash_after == new->0.hash
                &&& result.size == Some(new->0.size)
                &&& result.mtime_ms == Some(new->0.mtime_ms)
            }
            &&& new is None ==> {
                &&& result.hash_after is None
                &&& result.size is None
                &&& result.mtime_ms is None
            }
            &&& result.created_at == now && result.updated_at == now
            &&& result.retry_count == 0
            &&& result.error is None
            &&& !result.needs_rerun
        }),
{
    lemma_first_taker(tasks, project_id, rel, platform, 0);
    let k = first_taker(tasks, project_id, rel, platform, 0);
    if k < tasks.len() {
        assert(is_open_task_of(tasks[k], project_id, rel, platform));
    }
    let next = upserted(tasks, project_id, rel, kind, old, new, now, platform);
    assert(next.drop_last() =~= tasks);
}

/// Of two changes in a row the later counts, unless they undo each other: then the file may
/// still be another, and was modified.
pub proof fn law_kind_of_two_changes(a: FileChangeKind, b: FileChangeKind)
    ensures
        merged_kind(a, a) == a,
        merged_kind(a, b) is Created <==> b is Created && a !is Deleted,
        merged_kind(a, b) is Deleted <==> b is Deleted && a !is Created,
        merged_kind(FileChangeKind::Modified, b) == b,
{
}

/// Changes are entered one after the other: none leave the queue as it is, one is entered by
/// itself, and what follows is entered into the queue that came of what was before it.
pub proof fn law_changes_are_entered_in_turn(
    tasks: Seq<TaskView>,
    project_id: Seq<char>,
    a: Seq<ChangeView>,
    b: Seq<ChangeView>,
    c: ChangeView,
    now: i64,
    platform: Platform,
)
    ensures
        enqueued(tasks, project_id, Seq::empty(), now, platform) == tasks,
        enqueued(tasks, project_id, seq![c], now, platform) == upserted(
            tasks,
            project_id,
            c.rel,
            c.kind,
            c.before,
            c.after,
            now,
            platform,
        ),
        enqueued(tasks, project_id, a + b, now, platform) == enqueued(
            enqueued(tasks, project_id, a, now, platform),
            project_id,
            b,
            now,
            platform,
        ),
    decreases b.len(),
{
    reveal_with_fuel(enqueued, 2);
    assert(seq![c].drop_last() =~= Seq::<ChangeView>::empty());
    if b.len() == 0 {
        assert(a + b =~= a);
    } else {
        law_changes_are_entered_in_turn(tasks, project_id, a, b.drop_last(), c, now, platform);
        assert((a + b).drop_last() =~= a + b.drop_last());
    }
}

/// A file that was not known and is there was created, one that was known and is not there was
/// deleted, and one that was known and is there was modified if its digest or its size is
/// another. No other file changed.
pub proof fn law_what_counts_as_a_change(before: Option<MetaView>, after: Option<MetaView>)
    ensures
        change_kind(before, after) == Some(FileChangeKind::Created) <==> before is None && after
            is Some,
        change_kind(before, after) == Some(FileChangeKind::Deleted) <==> before is Some && after
            is None,
        change_kind(before, after) == Some(FileChangeKind::Modified) <==> before is Some && after
            is Some && (before->0.hash != after->0.hash || before->0.size != after->0.size),
{
}

/// Whether a file that was read is another than the snapshot knows.
pub open spec fn differs(files: Map<Seq<char>, MetaView>, reading: ReadingView) -> bool {
    if files.dom().contains(reading.rel) {
        reading.meta is None || files[reading.rel].hash != reading.meta->0.hash
            || files[reading.rel].size != reading.meta->0.size
    } else {
        reading.meta is Some
    }
}

/// The changes that readings show are those of the files that differ from what the snapshot
/// knows, all of them and in the order of the readings, each with what was known and what was
/// read.
pub proof fn law_changes_are_those_that_differ(
    files: Map<Seq<char>, MetaView>,
    readings: Seq<ReadingView>,
)
    ensures
        ({
            let differing = readings.filter(|r: ReadingView| differs(files, r));
            let changes = changes_in(files, readings);
            &&& changes.len() == differing.len()
            &&& forall|i: int|
                0 <= i < changes.len() ==> {
                    &&& (#[trigger] changes[i]).rel == differing[i].rel
                    &&& changes[i].after == differing[i].meta
                    &&& changes[i].before is Some == files.dom().contains(differing[i].rel)
                    &&& changes[i].before is Some ==> changes[i].before->0
                        == files[differing[i].rel]
                    &&& changes[i].kind is Created <==> changes[i].before is None
                    &&& changes[i].kind is Deleted <==> changes[i].after is None
                }
        }),
    decreases readings.len(),
{
    reveal(Seq::filter);
    if readings.len() > 0 {
        let rest = readings.drop_last();
        law_changes_are_those_that_differ(files, rest);
        let last = readings.last();
        let f = |r: ReadingView| differs(files, r);
        assert(differs(files, last) == (change_kind(known(files, last.rel), last.meta) is Some));
        let a = changes_in(files, rest);
        let b = rest.filter(f);
        if differs(files, last) {
            assert(readings.filter(f) =~= b.push(last));
            let changes = changes_in(files, readings);
            assert forall|i: int| 0 <= i < changes.len() implies {
                &&& (#[trigger] changes[i]).rel == b.push(last)[i].rel
                &&& changes[i].after == b.push(last)[i].meta
                &&& changes[i].before is Some == files.dom().contains(b.push(last)[i].rel)
                &&& changes[i].before is Some ==> changes[i].before->0 == files[b.push(last)[i].rel]
                &&& changes[i].kind is Created <==> changes[i].before is None
                &&& changes[i].kind is Deleted <==> changes[i].after is None
            } by {
                if i < a.len() {
                    assert(changes[i] == a[i]);
                }
            }
        }
    }
}

/// What was read of a file is what is known of it once it is taken in, and what is known of
/// every other file stays: a file that is gone is known no more.
pub proof fn law_taken_in_file_is_known(
    files: Map<Seq<char>, MetaView>,
    rel: Seq<char>,
    meta: Option<MetaView>,
    other: Seq<char>,
)
    requires
        other != rel,
    ensures
        taken_in(files, rel, meta).dom().contains(rel) == (meta is Some),
        meta is Some ==> taken_in(files, rel, meta)[rel] == meta->0,
        taken_in(files, rel, meta).dom().contains(other) == files.dom().contains(other),
        files.dom().contains(other) ==> taken_in(files, rel, meta)[other] == files[other],
{
}

/// Of every file the last reading counts, and files that were not read stay as they were known.
pub proof fn law_last_reading_counts(
    files: Map<Seq<char>, MetaView>,
    readings: Seq<ReadingView>,
    i: int,
    other: Seq<char>,
)
    requires
        0 <= i < readings.len(),
        forall|j: int| i < j < readings.len() ==> (#[trigger] readings[j]).rel != readings[i].rel,
        forall|j: int| 0 <= j < readings.len() ==> (#[trigger] readings[j]).rel != other,
    ensures
        ({
            let after = all_taken_in(files, readings);
            let rel = readings[i].rel;
            &&& after.dom().contains(rel) == (readings[i].meta is Some)
            &&& readings[i].meta is Some ==> after[rel] == readings[i].meta->0
            &&& after.dom().contains(other) == files.dom().contains(other)
            &&& files.dom().contains(other) ==> after[other] == files[other]
        }),
    decreases readings.len(),
{
    let rest = readings.drop_last();
    let rel = readings[i].rel;
    if i < rest.len() {
        assert forall|j: int| 0 <= j < rest.len() implies (#[trigger] rest[j]) == readings[j] by {}
        law_last_reading_counts(files, rest, i, other);
        assert(readings[readings.len() - 1].rel != rel);
        assert(readings[readings.len() - 1].rel != other);
    } else {
        lemma_unread_stays(files, rest, other);
        assert(readings[readings.len() - 1].rel != other);
    }
}

/// A file that was not read stays as it was known.
proof fn lemma_unread_stays(
    files: Map<Seq<char>, MetaView>,
    readings: Seq<ReadingView>,
    other: Seq<char>,
)
    requires
        forall|j: int| 0 <= j < readings.len() ==> (#[trigger] readings[j]).rel != other,
    ensures
        all_taken_in(files, readings).dom().contains(other) == files.dom().contains(other),
        files.dom().contains(other) ==> all_taken_in(files, readings)[other] == files[other],
    decreases readings.len(),
{
    if readings.len() > 0 {
        let rest = readings.drop_last();
        assert forall|j: int| 0 <= j < rest.len() implies (#[trigger] rest[j]).rel != other by {
            assert(rest[j] == readings[j]);
        }
        lemma_unread_stays(files, rest, other);
        assert(readings[readings.len() - 1].rel != other);
    }
}

/// What is known of a file: its size, the time when it was modified, which is 0 where the system
/// does not tell, and the digest of its contents unless it is larger than 32 MB. Nothing is
/// known of what is no file. Without its contents the same is known but for the digest.
pub proof fn law_what_is_known_of_a_file(stat: Option<FileStat>, contents: Seq<u8>)
    ensures
        meta_of(stat, contents) is Some <==> stat is Some && stat->0.is_file,
        is_digested(stat) <==> stat is Some && stat->0.is_file && stat->0.size <= 32 * 1024 * 1024,
        meta_of(stat, contents) is Some ==> {
            let m = meta_of(stat, contents)->0;
            &&& m.size == stat->0.size
            &&& stat->0.modified is None ==> m.mtime_ms == 0
            &&& stat->0.modified is Some && stat->0.modified->0 <= i64::MAX ==> m.mtime_ms
                == stat->0.modified->0
            &&& stat->0.size <= 32 * 1024 * 1024 ==> m.hash == Some(md5_hex(contents))
            &&& stat->0.size > 32 * 1024 * 1024 ==> m.hash is None
            &&& fast_meta_of(stat) == Some(
                MetaView { hash: None, size: m.size, mtime_ms: m.mtime_ms },
            )
        },
        fast_meta_of(stat) is Some <==> stat is Some && stat->0.is_file,
{
}

/// Stored data of no version counts as that of the first, and other versions stay.
pub proof fn law_version_of_stored_data(version: u32)
    ensures
        version_read(version) > 0,
        version > 0 ==> version_read(version) == version,
        version_read(0) == 1,
{
}

/// After a reset the queue holds the tasks of the project, all of them in their order and no
/// others. Those that were in process wait, as if nothing had happened to them; the others are
/// as they were. There was something to reset if one was in process.
pub proof fn law_reset_keeps_the_tasks_of_the_project(
    tasks: Seq<TaskView>,
    project_id: Seq<char>,
    now: i64,
)
    ensures
        ({
            let own = tasks.filter(|t: TaskView| t.project_id == project_id);
            let after = reset(tasks, project_id, now);
            &&& after.len() == own.len()
            &&& forall|i: int|
                0 <= i < own.len() ==> if (#[trigger] own[i]).status is Processing {
                    after[i] == TaskView {
                        status: FileChangeStatus::Pending,
                        needs_rerun: false,
                        error: None,
                        updated_at: now,
                        ..own[i]
                    }
                } else {
                    after[i] == own[i]
                }
        }),
        any_processing(tasks, project_id) <==> exists|i: int|
            0 <= i < tasks.len() && (#[trigger] tasks[i]).project_id == project_id
                && tasks[i].status == FileChangeStatus::Processing,
    decreases tasks.len(),
{
    reveal(Seq::filter);
    let f = |t: TaskView| t.project_id == project_id;
    if tasks.len() > 0 {
        let rest = tasks.drop_last();
        law_reset_keeps_the_tasks_of_the_project(rest, project_id, now);
        let a = rest.filter(f);
        let b = reset(rest, project_id, now);
        if tasks.last().project_id == project_id {
            let own = tasks.filter(f);
            let after = reset(tasks, project_id, now);
            assert(own =~= a.push(tasks.last()));
            assert forall|i: int| 0 <= i < own.len() implies if (
            #[trigger] own[i]).status is Processing {
                after[i] == TaskView {
                    status: FileChangeStatus::Pending,
                    needs_rerun: false,
                    error: None,
                    updated_at: now,
                    ..own[i]
                }
            } else {
                after[i] == own[i]
            } by {
                if i < a.len() {
                    assert(own[i] == a[i]);
                    assert(after[i] == b[i]);
                }
            }
        }
    }
}

} // verus!
