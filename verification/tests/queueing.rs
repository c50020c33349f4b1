use llm_wiki::clock::now_ms;
use llm_wiki::machine::{process_queue_inner, ProcessInput, ProcessMachine, ProcessStep};
use llm_wiki::order::TextSet;
use llm_wiki::paths::{PathComponent, Platform};
use llm_wiki::plan::{
    collect_known_paths, enqueue_rescan_changes, enqueue_rescan_changes_for_prefixes,
    plan_changed_paths, rescan_project_files, ChangedPath, FoundFile, KnownPath,
};
use llm_wiki::process::{
    get_file_change_queue, ignore_file_change_task, retry_file_change_task,
    retry_file_change_task_at, QUEUE_EMIT_EVERY,
};
use llm_wiki::queue::{
    apply_task_to_snapshot, enqueue_paths, enqueue_paths_at, merge_kind, path_changes, read_meta,
    read_meta_fast, read_queue, read_snapshot, reset_processing_tasks, reset_processing_tasks_at,
    stable_path_hash, sync_snapshot_paths, temp_file_name, upsert_task, wants_contents,
    write_task_meta_to_snapshot, FileChangeKind, FileChangeQueue, FileChangeStatus, FileChangeTask,
    FileMeta, FileSnapshot, FileStat, Reading, MAX_HASH_BYTES, MAX_RETRY_COUNT,
};
use llm_wiki::sync::{
    emit_changed_batch, emit_queue, AppWriteIgnores, SyncEvent, EVENT_CHANGED, EVENT_QUEUE_UPDATED,
};
use llm_wiki::watch::{SourceWatchConfig, SourceWatchRules};
use llm_wiki::watcher::rescan_result;
use std::collections::BTreeMap;
use std::path::{Component, Path};

/// The components of a path, as the system sees them.
fn components_of(path: &str) -> Vec<PathComponent> {
    Path::new(path)
        .components()
        .map(|c| match c {
            Component::Prefix(p) => {
                PathComponent::Prefix(p.as_os_str().to_string_lossy().to_string())
            }
            Component::RootDir => PathComponent::RootDir,
            Component::CurDir => PathComponent::CurDir,
            Component::ParentDir => PathComponent::ParentDir,
            Component::Normal(s) => PathComponent::Normal(s.to_string_lossy().to_string()),
        })
        .collect()
}

/// A project whose files, queue and snapshot are kept in memory.
#[derive(Default)]
struct Project {
    files: BTreeMap<String, Vec<u8>>,
    queue: FileChangeQueue,
    snapshot: FileSnapshot,
    snapshot_broken: bool,
}

impl Project {
    fn write(&mut self, rel: &str, contents: &str) {
        self.files.insert(rel.to_string(), contents.as_bytes().to_vec());
    }

    fn stat(&self, rel: &str) -> Option<FileStat> {
        self.files.get(rel).map(|c| FileStat {
            is_file: true,
            size: c.len() as u64,
            modified: Some(c.iter().map(|b| *b as u128).sum()),
        })
    }

    fn meta(&self, rel: &str) -> Option<FileMeta> {
        let none = Vec::new();
        read_meta(&self.stat(rel), self.files.get(rel).unwrap_or(&none))
    }

    fn readings(&self, rels: &[String]) -> Vec<Reading> {
        rels.iter()
            .map(|rel| Reading { rel: rel.clone(), meta: self.meta(rel) })
            .collect()
    }

    fn enqueue(&mut self, project_id: &str, rels: &[String]) {
        let changes = path_changes(&self.snapshot, self.readings(rels));
        if !changes.is_empty() {
            enqueue_paths(&mut self.queue, project_id, changes, Platform::Linux);
        }
    }

    fn sync(&mut self, rels: &[String]) {
        let readings = self.readings(rels);
        sync_snapshot_paths(&mut self.snapshot, &readings);
    }

    fn found(&self) -> Vec<FoundFile> {
        self.files
            .keys()
            .map(|rel| FoundFile {
                rel: Some(components_of(rel)),
                exists_now: true,
                size: self.stat(rel).map(|s| s.size),
                ignored: false,
                stat: Ok(self.stat(rel)),
            })
            .collect()
    }

    fn known(&self) -> Vec<KnownPath> {
        self.snapshot
            .files
            .key_list()
            .iter()
            .map(|rel| KnownPath {
                rel: rel.clone(),
                exists_now: self.files.contains_key(rel),
            })
            .collect()
    }

    /// Works the queue off, and says how.
    fn process(
        &mut self,
        project_id: &str,
        mut on_queue: impl FnMut(&mut Project, &FileChangeQueue),
        mut on_changed: impl FnMut(Vec<FileChangeTask>),
    ) -> Result<Vec<FileChangeTask>, String> {
        let (mut machine, mut step) = ProcessMachine::new(project_id);
        loop {
            let input = match step {
                ProcessStep::ReadQueue => ProcessInput::Queue(Ok(self.queue.clone())),
                ProcessStep::StoreQueue(q) => {
                    self.queue = q;
                    ProcessInput::Stored(Ok(()))
                }
                ProcessStep::StoreAndReadQueue(q) => {
                    self.queue = q;
                    ProcessInput::Queue(Ok(self.queue.clone()))
                }
                ProcessStep::ReadMeta(path) => {
                    if path.starts_with("unreadable") {
                        ProcessInput::Meta(Err("no access".to_string()))
                    } else {
                        ProcessInput::Meta(Ok(self.meta(&path)))
                    }
                }
                ProcessStep::StoreMeta(task, meta) => {
                    if self.snapshot_broken {
                        ProcessInput::Stored(Err("snapshot is broken".to_string()))
                    } else {
                        write_task_meta_to_snapshot(&mut self.snapshot, &task, &meta);
                        ProcessInput::Stored(Ok(()))
                    }
                }
                ProcessStep::End(result) => return result,
            };
            let (next, output) = process_queue_inner(machine, input);
            machine = next;
            if let Some(tasks) = output.changed {
                on_changed(tasks);
            }
            if let Some(queue) = output.queue {
                on_queue(self, &queue);
            }
            step = output.step;
        }
    }

    /// Looks at all files again, and tells what listeners are told.
    fn rescan(&mut self, project_id: &str) -> Vec<SyncEvent> {
        let rels = rescan_project_files(
            &self.found(),
            &self.known(),
            None,
            SourceWatchConfig::default(),
        );
        let rels = rels.items().clone();
        self.enqueue(project_id, &rels);
        let events = std::cell::RefCell::new(Vec::new());
        let changed = self
            .process(
                project_id,
                |_, q| events.borrow_mut().push(emit_queue(project_id, q)),
                |tasks| {
                    if let Some(e) = emit_changed_batch(project_id, tasks) {
                        events.borrow_mut().push(e);
                    }
                },
            )
            .unwrap();
        let (result, event) = rescan_result(project_id, self.queue.clone(), changed);
        assert_eq!(result.queue.tasks.len(), self.queue.tasks.len());
        let mut events = events.into_inner();
        events.push(event);
        events
    }
}

fn one(rel: &str) -> Vec<String> {
    vec![rel.to_string()]
}

fn task(id: &str, path: &str, status: FileChangeStatus) -> FileChangeTask {
    FileChangeTask {
        id: id.into(),
        project_id: "p1".into(),
        path: path.into(),
        kind: FileChangeKind::Modified,
        status,
        hash_before: None,
        hash_after: None,
        size: None,
        mtime_ms: None,
        created_at: 1,
        updated_at: 1,
        retry_count: 0,
        error: None,
        needs_rerun: false,
    }
}

#[test]
fn repeated_changes_upsert_one_pending_task() {
    let mut project = Project::default();
    let rel = "raw/sources/a.md";
    project.write(rel, "one");
    project.enqueue("p1", &one(rel));
    project.write(rel, "two");
    project.enqueue("p1", &one(rel));

    let queue = read_queue(Some(project.queue));
    assert_eq!(queue.tasks.len(), 1);
    assert_eq!(queue.tasks[0].status, FileChangeStatus::Pending);
    assert_eq!(queue.tasks[0].path, rel);
}

#[test]
fn retry_limit_keeps_failed_task_failed_on_new_changes() {
    let mut project = Project::default();
    let rel = "raw/sources/a.md";
    project.write(rel, "one");
    let mut failed = task("t1", rel, FileChangeStatus::Failed);
    failed.retry_count = MAX_RETRY_COUNT;
    failed.error = Some("failed".into());
    let mut queue = FileChangeQueue { version: 1, tasks: vec![failed] };
    upsert_task(
        &mut queue,
        "p1",
        rel,
        FileChangeKind::Modified,
        None,
        project.meta(rel),
        now_ms(),
        Platform::Linux,
    );

    assert_eq!(queue.tasks.len(), 1);
    assert_eq!(queue.tasks[0].status, FileChangeStatus::Failed);
    assert_eq!(queue.tasks[0].retry_count, MAX_RETRY_COUNT);
    assert_eq!(queue.tasks[0].error.as_deref(), Some("Retry limit reached (3)"));
}

#[test]
fn failed_task_is_retried_below_the_limit() {
    let mut failed = task("t1", "a", FileChangeStatus::Failed);
    failed.retry_count = MAX_RETRY_COUNT - 1;
    failed.error = Some("failed".into());
    let mut queue = FileChangeQueue { version: 1, tasks: vec![failed] };
    upsert_task(&mut queue, "p1", "a", FileChangeKind::Deleted, None, None, 9, Platform::Linux);
    let t = &queue.tasks[0];
    assert_eq!(t.status, FileChangeStatus::Pending);
    assert_eq!(t.kind, FileChangeKind::Deleted);
    assert_eq!((t.error.clone(), t.updated_at, t.size), (None, 9, None));
}

#[test]
fn change_of_a_task_in_process_asks_for_another_run() {
    let busy = task("t1", "a", FileChangeStatus::Processing);
    let mut queue = FileChangeQueue { version: 1, tasks: vec![busy] };
    let meta = FileMeta { hash: Some("h".into()), size: 3, mtime_ms: 4 };
    upsert_task(
        &mut queue,
        "p1",
        "a",
        FileChangeKind::Modified,
        None,
        Some(meta),
        9,
        Platform::Linux,
    );
    let t = &queue.tasks[0];
    assert_eq!(t.status, FileChangeStatus::Processing);
    assert!(t.needs_rerun);
    assert_eq!((t.hash_after.as_deref(), t.size, t.mtime_ms), (Some("h"), Some(3), Some(4)));
}

#[test]
fn tasks_of_other_files_projects_and_ends_are_left_alone() {
    let mut other = task("t1", "a", FileChangeStatus::Pending);
    other.project_id = "p2".into();
    let done = task("t2", "a", FileChangeStatus::Done);
    let superseded = task("t3", "a", FileChangeStatus::Superseded);
    let mut queue = FileChangeQueue { version: 7, tasks: vec![other, done, superseded] };
    upsert_task(&mut queue, "p1", "A", FileChangeKind::Created, None, None, 42, Platform::Linux);
    assert_eq!(queue.version, 7);
    assert_eq!(queue.tasks.len(), 4);
    let t = &queue.tasks[3];
    assert_eq!(t.id, format!("change_42_{}", stable_path_hash("A")));
    assert_eq!((t.created_at, t.updated_at, t.retry_count), (42, 42, 0));
    upsert_task(&mut queue, "p1", "a", FileChangeKind::Modified, None, None, 43, Platform::Linux);
    assert_eq!(queue.tasks.len(), 5);
    upsert_task(&mut queue, "p1", "a", FileChangeKind::Modified, None, None, 44, Platform::Windows);
    assert_eq!(queue.tasks.len(), 5);
    assert_eq!(queue.tasks[3].updated_at, 44);
}

#[test]
fn kinds_of_changes_are_merged() {
    let (c, d, m) = (FileChangeKind::Created, FileChangeKind::Deleted, FileChangeKind::Modified);
    assert_eq!(merge_kind(&d, &c), m);
    assert_eq!(merge_kind(&c, &d), m);
    assert_eq!(merge_kind(&c, &m), m);
    assert_eq!(merge_kind(&m, &d), d);
    assert_eq!(merge_kind(&c, &c), c);
    assert_eq!(merge_kind(&m, &c), c);
}

#[test]
fn path_hash_is_the_head_of_the_digest() {
    assert_eq!(stable_path_hash("hello world"), "5eb63bbbe01e");
    assert_eq!(stable_path_hash(""), "d41d8cd98f00");
}

#[test]
fn md5_detects_same_size_content_changes() {
    let mut project = Project::default();
    let rel = "raw/sources/a.md";
    project.write(rel, "aaaa");

    let rels = enqueue_rescan_changes(&project.found(), &project.known(), &SourceWatchConfig::default());
    project.enqueue("p1", &rels.items().clone());
    let first = project.queue.tasks[0].clone();
    let stat = project.stat(rel);
    apply_task_to_snapshot(&mut project.snapshot, &first, &stat, b"aaaa");
    project.queue = FileChangeQueue { version: 1, tasks: vec![] };

    project.write(rel, "bbbb");
    project.enqueue("p1", &one(rel));
    let queue = &project.queue;

    assert_eq!(queue.tasks.len(), 1);
    assert_eq!(queue.tasks[0].kind, FileChangeKind::Modified);
    assert_ne!(queue.tasks[0].hash_before, queue.tasks[0].hash_after);
}

#[test]
fn files_are_known_by_size_time_and_digest() {
    let stat = Some(FileStat { is_file: true, size: 11, modified: Some(1_500) });
    let meta = read_meta(&stat, b"hello world").unwrap();
    assert_eq!(meta.hash.as_deref(), Some("5eb63bbbe01eeed093cb22bb8f5acdc3"));
    assert_eq!((meta.size, meta.mtime_ms), (11, 1_500));
    let fast = read_meta_fast(&stat).unwrap();
    assert_eq!((fast.hash, fast.size, fast.mtime_ms), (None, 11, 1_500));
    let large = Some(FileStat { is_file: true, size: MAX_HASH_BYTES + 1, modified: None });
    assert!(!wants_contents(&large));
    let meta = read_meta(&large, b"").unwrap();
    assert_eq!((meta.hash, meta.mtime_ms), (None, 0));
    let limit = Some(FileStat { is_file: true, size: MAX_HASH_BYTES, modified: None });
    assert!(wants_contents(&limit));
    let dir = Some(FileStat { is_file: false, size: 1, modified: None });
    assert!(read_meta(&dir, b"").is_none() && read_meta_fast(&dir).is_none());
    assert!(read_meta(&None, b"").is_none() && read_meta_fast(&None).is_none());
    assert!(!wants_contents(&dir) && !wants_contents(&None));
    let late = Some(FileStat { is_file: true, size: 0, modified: Some(1 << 64) });
    assert_eq!(read_meta_fast(&late).unwrap().mtime_ms, 0);
}

#[test]
fn directory_delete_expands_snapshot_children() {
    let mut project = Project::default();
    let a = "raw/sources/folder/a.md";
    let b = "raw/sources/folder/b.md";
    project.write(a, "a");
    project.write(b, "b");
    project.sync(&[a.to_string(), b.to_string()]);
    project.files.clear();

    let mut rels = TextSet::new();
    let config = SourceWatchConfig::default();
    let rules = SourceWatchRules::new(&config);
    let gone = ChangedPath {
        rel: Some(components_of("raw/sources/folder")),
        is_dir: false,
        exists_now: false,
        ignored: false,
        size: None,
        found: vec![],
    };
    collect_known_paths(&gone, &project.snapshot, &mut rels, &rules);

    assert_eq!(rels.items(), &vec![a.to_string(), b.to_string()]);
    let plan = plan_changed_paths(&vec![gone], &project.snapshot, &config);
    assert_eq!(plan.rels.items(), &vec![a.to_string(), b.to_string()]);
    assert!(plan.app_written.is_empty());
}

#[test]
fn prefix_rescan_detects_raw_source_mount_style_changes() {
    let mut project = Project::default();
    let old = "raw/sources/old.md";
    let new = "raw/sources/new.md";
    project.write(old, "old");
    project.sync(&one(old));
    project.files.remove(old);
    project.write(new, "new");

    let rels = enqueue_rescan_changes_for_prefixes(
        &project.found(),
        &project.known(),
        &one("raw/sources"),
        &project.snapshot,
        &SourceWatchConfig::default(),
    )
    .unwrap();
    project.enqueue("p1", &rels.items().clone());
    let by_path = project
        .queue
        .tasks
        .iter()
        .map(|task| (task.path.as_str(), task.kind))
        .collect::<BTreeMap<_, _>>();

    assert_eq!(by_path.get(old), Some(&FileChangeKind::Deleted));
    assert_eq!(by_path.get(new), Some(&FileChangeKind::Created));
}

#[test]
fn quick_rescan_passes_over_files_that_look_the_same() {
    let mut project = Project::default();
    project.write("wiki/a.md", "ab");
    project.write("wiki/b.md", "xx");
    project.sync(&["wiki/a.md".to_string(), "wiki/b.md".to_string(), "x.md".to_string()]);
    project.write("wiki/a.md", "ba");
    project.write("wiki/b.md", "xxx");
    let config = SourceWatchConfig::default();
    let rels = enqueue_rescan_changes_for_prefixes(
        &project.found(),
        &project.known(),
        &one("wiki"),
        &project.snapshot,
        &config,
    )
    .unwrap();
    assert_eq!(rels.items(), &one("wiki/b.md"));
    let mut found = project.found();
    found[1].stat = Err("first".to_string());
    found.push(FoundFile {
        rel: Some(components_of("unwatched.bin")),
        exists_now: true,
        size: None,
        ignored: false,
        stat: Err("not asked".to_string()),
    });
    let known = vec![KnownPath { rel: "wikis/z.md".to_string(), exists_now: false }];
    let result =
        enqueue_rescan_changes_for_prefixes(&found, &known, &one("wiki"), &project.snapshot, &config);
    assert_eq!(result.err(), Some("first".to_string()));
}

#[test]
fn app_written_paths_update_snapshot_without_queueing() {
    let mut project = Project::default();
    let rel = "raw/sources/a.md";
    project.write(rel, "old");
    project.sync(&one(rel));
    project.write(rel, "new");
    let mut ignores = AppWriteIgnores::new();
    ignores.mark_at(rel.to_string(), now_ms());

    let changed = vec![ChangedPath {
        rel: Some(components_of(rel)),
        is_dir: false,
        exists_now: true,
        ignored: ignores.is_ignored_at(rel, now_ms()),
        size: Some(3),
        found: vec![],
    }];
    let plan = plan_changed_paths(&changed, &project.snapshot, &SourceWatchConfig::default());
    assert!(plan.rels.is_empty());
    project.sync(&plan.app_written.items().clone());

    assert!(project.queue.tasks.is_empty());
    assert_eq!(
        project.snapshot.files.get(rel).and_then(|m| m.hash.clone()),
        project.meta(rel).and_then(|m| m.hash)
    );
}

#[test]
fn plan_tells_own_changes_from_others() {
    let mut project = Project::default();
    project.write("wiki/a.md", "a");
    project.write("wiki/b.md", "b");
    let mut found = project.found();
    found[0].ignored = true;
    let dir = |ignored: bool, found: Vec<FoundFile>| ChangedPath {
        rel: Some(components_of("wiki")),
        is_dir: true,
        exists_now: true,
        ignored,
        size: None,
        found,
    };
    let file = |rel: &str, exists_now: bool| ChangedPath {
        rel: Some(components_of(rel)),
        is_dir: false,
        exists_now,
        ignored: false,
        size: None,
        found: vec![],
    };
    let config = SourceWatchConfig::default();
    let plan = plan_changed_paths(&vec![dir(false, found)], &project.snapshot, &config);
    assert_eq!(plan.rels.items(), &one("wiki/b.md"));
    let mut found = project.found();
    found[0].ignored = true;
    let plan = plan_changed_paths(&vec![dir(true, found)], &project.snapshot, &config);
    assert!(plan.rels.is_empty());
    assert_eq!(plan.app_written.items().len(), 2);
    let paths = vec![file("wiki/c.md", true), file("junk.bin", true), file("wiki/gone.md", false)];
    let plan = plan_changed_paths(&paths, &project.snapshot, &config);
    assert_eq!(plan.rels.items(), &vec!["wiki/c.md".to_string(), "wiki/gone.md".to_string()]);
}

#[test]
fn process_queue_updates_snapshot_and_removes_done_tasks() {
    let mut project = Project::default();
    let rel = "raw/sources/a.md";
    project.write(rel, "content");
    project.enqueue("p1", &one(rel));

    let mut queue_emits = 0;
    let mut changed_emits = 0;
    project
        .process(
            "p1",
            |_, _| queue_emits += 1,
            |tasks| {
                if !tasks.is_empty() {
                    changed_emits += 1;
                }
            },
        )
        .unwrap();

    assert!(project.queue.tasks.is_empty());
    assert!(project.snapshot.files.get(rel).is_some());
    assert!(queue_emits >= 1);
    assert_eq!(changed_emits, 1);
}

#[test]
fn process_queue_flushes_changed_tasks_before_returning_error() {
    let mut project = Project::default();
    let rels = (0..26)
        .map(|i| {
            let rel = format!("raw/sources/{i}.md");
            project.write(&rel, &format!("content {i}"));
            rel
        })
        .collect::<Vec<_>>();
    project.enqueue("p1", &rels);

    let mut queue_emits = 0;
    let mut changed_count = 0;
    let result = project.process(
        "p1",
        |project, _| {
            queue_emits += 1;
            if queue_emits == 2 {
                project.snapshot_broken = true;
            }
        },
        |tasks| changed_count += tasks.len(),
    );

    assert!(result.is_err());
    assert_eq!(changed_count, QUEUE_EMIT_EVERY);
}

#[test]
fn file_that_cannot_be_looked_at_fails_its_task() {
    let mut project = Project::default();
    project.queue.tasks.push(task("t1", "unreadable.md", FileChangeStatus::Pending));
    project.queue.tasks.push(task("t2", "gone.md", FileChangeStatus::Pending));
    let mut other = task("t3", "x", FileChangeStatus::Pending);
    other.project_id = "p2".into();
    project.queue.tasks.push(other);
    let changed = project.process("p1", |_, _| {}, |_| {}).unwrap();
    assert_eq!(changed.iter().map(|t| t.id.as_str()).collect::<Vec<_>>(), ["t1", "t2"]);
    assert!(changed.iter().all(|t| t.status == FileChangeStatus::Processing));
    assert_eq!(project.queue.tasks.len(), 2);
    let failed = &project.queue.tasks[0];
    assert_eq!(failed.status, FileChangeStatus::Failed);
    assert_eq!((failed.retry_count, failed.error.as_deref()), (1, Some("no access")));
    assert_eq!(project.queue.tasks[1].status, FileChangeStatus::Pending);
}

#[test]
fn change_during_processing_is_worked_off_as_well() {
    let mut project = Project::default();
    project.write("wiki/a.md", "one");
    project.enqueue("p1", &one("wiki/a.md"));
    let mut first = true;
    let changed = project
        .process(
            "p1",
            |project, _| {
                if first {
                    first = false;
                    project.write("wiki/a.md", "two");
                    project.enqueue("p1", &one("wiki/a.md"));
                }
            },
            |_| {},
        )
        .unwrap();
    assert!(!changed.is_empty());
    assert!(project.queue.tasks.is_empty());
    assert_eq!(
        project.snapshot.files.get("wiki/a.md").and_then(|m| m.hash.clone()),
        project.meta("wiki/a.md").and_then(|m| m.hash)
    );
}

#[test]
fn rescan_emits_queue_updated() {
    let mut project = Project::default();
    project.write("raw/sources/hello.md", "# Hello");
    let events = project.rescan("p-rescan");
    assert!(
        events.iter().any(|e| e.event == EVENT_QUEUE_UPDATED),
        "expected at least one EVENT_QUEUE_UPDATED, got: {events:?}"
    );
}

#[test]
fn rescan_emits_changed_when_files_are_new() {
    let mut project = Project::default();
    project.write("raw/sources/doc.md", "content");
    let events = project.rescan("p-changed");
    assert!(
        events.iter().any(|e| e.event == EVENT_CHANGED),
        "expected at least one EVENT_CHANGED, got: {events:?}"
    );
    let again = project.rescan("p-changed");
    assert!(again.iter().all(|e| e.event == EVENT_QUEUE_UPDATED));
}

#[test]
fn second_rescan_finds_nothing() {
    let mut project = Project::default();
    project.write("raw/sources/a.md", "a");
    project.write("wiki/b.md", "b");
    project.rescan("p1");
    project.files.remove("wiki/b.md");
    project.write("wiki/c.md", "c");
    project.rescan("p1");
    let before = format!("{:?}", project.snapshot.files);
    let events = project.rescan("p1");
    assert!(project.queue.tasks.is_empty());
    assert_eq!(format!("{:?}", project.snapshot.files), before);
    assert_eq!(project.snapshot.files.key_list().len(), 2);
    assert!(events.iter().all(|e| e.event == EVENT_QUEUE_UPDATED && e.payload.tasks.is_empty()));
}

#[test]
fn whole_run_returns_leaves_and_tells_what_it_should() {
    let mut project = Project::default();
    for i in 0..26 {
        let path = if i == 3 { "unreadable.md".to_string() } else { format!("f{i}") };
        project.queue.tasks.push(task(&format!("t{i}"), &path, FileChangeStatus::Pending));
    }
    project.queue.tasks.push(task("done", "x", FileChangeStatus::Done));
    project.queue.tasks.push(task("failed", "y", FileChangeStatus::Failed));
    project.write("f7", "seven");
    let told = std::cell::RefCell::new(Vec::new());
    let changed = project
        .process(
            "p1",
            |_, q| told.borrow_mut().push(q.tasks.len()),
            |tasks| assert_eq!(tasks.len(), 26),
        )
        .unwrap();
    let ids: Vec<_> = changed.iter().map(|t| t.id.clone()).collect();
    assert_eq!(ids, (0..26).map(|i| format!("t{i}")).collect::<Vec<_>>());
    let left: Vec<_> = project.queue.tasks.iter().map(|t| (t.id.as_str(), t.status)).collect();
    assert_eq!(
        left,
        [("t3", FileChangeStatus::Failed), ("failed", FileChangeStatus::Failed)]
    );
    assert_eq!(*project.snapshot.files.key_list(), vec!["f7".to_string()]);
    assert_eq!(told.into_inner(), [28, 3, 2]);
}

#[test]
fn tasks_with_one_id_that_all_wait_are_all_worked_off() {
    let mut project = Project::default();
    project.write("a", "a");
    project.write("b", "b");
    project.queue.tasks.push(task("same", "a", FileChangeStatus::Pending));
    project.queue.tasks.push(task("same", "b", FileChangeStatus::Pending));
    let changed = project.process("p1", |_, _| {}, |_| {}).unwrap();
    assert_eq!(changed.len(), 2);
    assert!(project.queue.tasks.is_empty());
    assert_eq!(*project.snapshot.files.key_list(), vec!["a".to_string(), "b".to_string()]);
}

#[test]
fn tasks_that_do_not_wait_are_left_as_they_are() {
    let mut project = Project::default();
    let mut kept = task("old", "x", FileChangeStatus::Superseded);
    kept.updated_at = 12345;
    project.queue.tasks.push(kept);
    project.queue.tasks.push(task("t", "a", FileChangeStatus::Pending));
    let before = format!("{:?}", project.queue.tasks[0]);
    project.process("p1", |_, _| {}, |_| {}).unwrap();
    assert_eq!(project.queue.tasks.len(), 1);
    assert_eq!(format!("{:?}", project.queue.tasks[0]), before);
}

#[test]
fn task_that_is_to_run_once_more_is_worked_off_twice() {
    let mut project = Project::default();
    project.queue.tasks.push(task("t1", "a", FileChangeStatus::Pending));
    project.queue.tasks.push(task("t2", "b", FileChangeStatus::Pending));
    project.queue.tasks[0].needs_rerun = true;
    let changed = project.process("p1", |_, _| {}, |_| {}).unwrap();
    let seen: Vec<_> = changed.iter().map(|t| (t.id.as_str(), t.needs_rerun)).collect();
    assert_eq!(seen, [("t1", true), ("t1", false), ("t2", false)]);
    assert!(project.queue.tasks.is_empty());
}

#[test]
fn task_that_failed_too_often_to_count_cannot_be_taken() {
    let mut queue = FileChangeQueue::default();
    queue.tasks.push(task("t0", "a", FileChangeStatus::Failed));
    queue.tasks.push(task("t1", "b", FileChangeStatus::Pending));
    queue.tasks[0].retry_count = u32::MAX;
    queue.tasks[1].retry_count = u32::MAX;
    for meta in [Ok(None), Err("no access".to_string())] {
        let (machine, _) = ProcessMachine::new("p1");
        let (machine, output) = process_queue_inner(machine, ProcessInput::Queue(Ok(queue.clone())));
        let ProcessStep::StoreQueue(stored) = output.step else { panic!("unexpected step") };
        let (machine, _) = process_queue_inner(machine, ProcessInput::Stored(Ok(())));
        let fails = meta.is_err();
        let (machine, _) = process_queue_inner(machine, ProcessInput::Meta(meta));
        assert_eq!(machine.can_take(&ProcessInput::Queue(Ok(stored.clone()))), !fails);
        let mut fewer = stored;
        fewer.tasks[1].retry_count = u32::MAX - 1;
        assert!(machine.can_take(&ProcessInput::Queue(Ok(fewer))));
    }
}

#[test]
fn queue_updated_precedes_changed_in_event_stream() {
    let mut project = Project::default();
    project.write("raw/sources/a.md", "aaa");
    let events = project.rescan("p-order");
    let first_queue_pos = events
        .iter()
        .position(|e| e.event == EVENT_QUEUE_UPDATED)
        .expect("no EVENT_QUEUE_UPDATED");
    let first_changed_pos = events.iter().position(|e| e.event == EVENT_CHANGED);
    if let Some(changed_pos) = first_changed_pos {
        assert!(
            first_queue_pos < changed_pos,
            "EVENT_QUEUE_UPDATED should precede EVENT_CHANGED"
        );
    }
}

#[test]
fn queue_updated_payload_has_required_fields() {
    let mut project = Project::default();
    project.write("raw/sources/x.md", "x");
    let events = project.rescan("p-payload");
    let queue_event = events
        .iter()
        .find(|e| e.event == EVENT_QUEUE_UPDATED)
        .expect("no EVENT_QUEUE_UPDATED");
    assert_eq!(queue_event.payload.project_id, "p-payload");
    assert_eq!(queue_event.payload.tasks.len(), 1);
}

#[test]
fn ignore_task_emits_queue_updated() {
    let mut project = Project::default();
    project.write("raw/sources/b.md", "b");
    project.enqueue("p-ignore", &one("raw/sources/b.md"));
    let task_id = project.queue.tasks[0].id.clone();

    ignore_file_change_task(&mut project.queue, "p-other", &task_id);
    assert_eq!(project.queue.tasks.len(), 1);
    ignore_file_change_task(&mut project.queue, "p-ignore", &task_id);
    assert!(project.queue.tasks.is_empty());
    let event = emit_queue("p-ignore", &project.queue);
    assert_eq!(event.event, EVENT_QUEUE_UPDATED);
    assert!(event.payload.tasks.is_empty());
}

#[test]
fn sixteen_files_give_sixteen_tasks() {
    let mut project = Project::default();
    for i in 0..16 {
        let rel = format!("raw/sources/{i}.md");
        project.write(&rel, &format!("content {i}"));
        project.enqueue("p1", &one(&rel));
    }
    assert_eq!(project.queue.tasks.len(), 16);
}

#[test]
fn files_that_did_not_change_are_not_queued() {
    let mut project = Project::default();
    project.write("wiki/a.md", "a");
    let rels = ["wiki/a.md".to_string(), "wiki/none.md".to_string()];
    assert_eq!(path_changes(&project.snapshot, project.readings(&rels)).len(), 1);
    project.sync(&rels);
    assert!(path_changes(&project.snapshot, project.readings(&rels)).is_empty());
    assert_eq!(project.snapshot.version, 1);
    project.files.clear();
    let changes = path_changes(&project.snapshot, project.readings(&rels));
    assert_eq!(changes.len(), 1);
    assert_eq!(changes[0].kind, FileChangeKind::Deleted);
    let mut queue = FileChangeQueue::default();
    enqueue_paths_at(&mut queue, "p1", changes, 5, Platform::Linux);
    assert_eq!(queue.tasks[0].updated_at, 5);
    assert!(queue.tasks[0].hash_before.is_some() && queue.tasks[0].hash_after.is_none());
}

#[test]
fn reset_makes_tasks_in_process_wait_again() {
    let mut busy = task("t1", "a", FileChangeStatus::Processing);
    busy.needs_rerun = true;
    busy.error = Some("e".into());
    let mut foreign = task("t2", "b", FileChangeStatus::Processing);
    foreign.project_id = "p2".into();
    let failed = task("t3", "c", FileChangeStatus::Failed);
    let mut queue = FileChangeQueue { version: 1, tasks: vec![busy, foreign, failed] };
    assert!(reset_processing_tasks_at(&mut queue, "p1", 8));
    assert_eq!(queue.tasks.len(), 2);
    let t = &queue.tasks[0];
    assert_eq!((t.status, t.needs_rerun, t.updated_at), (FileChangeStatus::Pending, false, 8));
    assert!(t.error.is_none());
    assert_eq!(queue.tasks[1].status, FileChangeStatus::Failed);
    assert!(!reset_processing_tasks(&mut queue, "p1"));
    assert!(!reset_processing_tasks(&mut queue, "p2"));
    assert!(queue.tasks.is_empty());
}

#[test]
fn retried_task_starts_afresh() {
    let mut failed = task("t1", "a", FileChangeStatus::Failed);
    failed.retry_count = 9;
    failed.error = Some("e".into());
    let mut queue = FileChangeQueue { version: 1, tasks: vec![failed] };
    retry_file_change_task_at(&mut queue, "p2", "t1", 3);
    assert_eq!(queue.tasks[0].status, FileChangeStatus::Failed);
    retry_file_change_task_at(&mut queue, "p1", "t1", 3);
    let t = &queue.tasks[0];
    assert_eq!((t.status, t.retry_count, t.updated_at), (FileChangeStatus::Pending, 0, 3));
    assert!(t.error.is_none());
    retry_file_change_task(&mut queue, "p1", "t1");
    assert!(queue.tasks[0].updated_at > 3);
}

#[test]
fn stored_data_without_a_version_counts_as_the_first() {
    assert_eq!(read_queue(None).version, 1);
    assert_eq!(read_snapshot(None).version, 1);
    assert_eq!(read_queue(Some(FileChangeQueue { version: 4, tasks: vec![] })).version, 4);
    assert_eq!(get_file_change_queue(Some(FileChangeQueue::default())).version, 1);
    assert_eq!(read_snapshot(Some(FileSnapshot::default())).version, 1);
}

#[test]
fn temporary_names_are_hidden() {
    assert_eq!(temp_file_name("queue.json", -12), ".queue.json.-12.tmp");
}

#[test]
fn no_tasks_are_not_told_of() {
    assert!(emit_changed_batch("p", vec![]).is_none());
    let event = emit_changed_batch("p", vec![task("t", "a", FileChangeStatus::Done)]).unwrap();
    assert_eq!(event.event, "file-sync://changed");
    assert_eq!(event.payload.tasks[0].id, "t");
}
