use llm_wiki::glob::{wildcard_match, wildcard_match_inner};
use llm_wiki::order::TextSet;
use llm_wiki::paths::{
    normalize_key, normalize_path_key, normalize_rel_path, path_key, PathComponent, Platform,
    ResolvedPath,
};
use llm_wiki::sync::{is_app_write_ignored, mark_app_write_path, AppWriteIgnores, FileSyncError};
use llm_wiki::queue::IngestQueueError;
use llm_wiki::watch::{
    extension_of, normalize_rel_string, normalize_source_watch_config, relative_watch_path,
    should_watch_rel, PartialWatchConfig, SourceWatchConfig, SourceWatchRules,
};
use llm_wiki::watcher::{
    is_active_watcher_generation, maybe_periodic_rescan, maybe_periodic_rescan_at,
    next_sync_step, next_watcher_generation, stage_after, stop_project_file_watcher,
    watch_prefixes, watch_project, worker_step, FileSyncInner, SyncStage, SyncStep, WorkerEvent,
    WorkerStep,
};
use std::path::{Component, Path};

fn components(path: &Path) -> Vec<PathComponent> {
    path.components()
        .map(|c| match c {
            Component::Prefix(p) => {
                PathComponent::Prefix(p.as_os_str().to_string_lossy().to_string())
            }
            Component::RootDir => PathComponent::RootDir,
            Component::CurDir => PathComponent::CurDir,
            Component::ParentDir => PathComponent::ParentDir,
            Component::Normal(s) => PathComponent::Normal(s.to_string_lossy().to_string()),
        })
        .collect()
}

fn default_watch_config() -> SourceWatchConfig {
    SourceWatchConfig::default()
}

#[test]
fn wildcard_match_is_unicode_character_based() {
    assert!(wildcard_match("?稿.md", "草稿.md"));
    assert!(wildcard_match("草*.md", "草稿文件.md"));
    assert!(!wildcard_match("??.md", "草稿文件.md"));
}

#[test]
fn normalize_rel_path_tolerates_current_dir_segments() {
    let path = Path::new("raw").join(".").join("sources").join("doc.md");
    assert_eq!(
        normalize_rel_path(&components(&path)),
        Some("raw/sources/doc.md".to_string())
    );
}

#[test]
fn windows_path_key_is_case_insensitive() {
    assert_eq!(
        normalize_path_key(r"C:\Proj\raw\sources\File.md", Platform::Windows),
        normalize_path_key(r"c:\proj\RAW\sources\file.md", Platform::Windows)
    );
}

#[test]
fn path_keys_keep_case_elsewhere() {
    assert_eq!(normalize_key("A/b", Platform::Linux), "A/b");
    assert_eq!(normalize_key("A/b", Platform::Windows), "a/b");
    assert_eq!(normalize_path_key(r"A\b", Platform::Other), "A/b");
    assert_ne!(
        normalize_path_key("/A", Platform::Linux),
        normalize_path_key("/a", Platform::Linux)
    );
}

#[test]
fn path_key_is_stable_after_leaf_deletion() {
    let path = "/tmp/link/raw/sources/a.md";
    let before = path_key(
        path,
        &Some(ResolvedPath {
            base: "/private/tmp/raw/sources/a.md".to_string(),
            missing: vec![],
        }),
        Platform::Linux,
    );
    let after = path_key(
        path,
        &Some(ResolvedPath {
            base: "/private/tmp/raw/sources".to_string(),
            missing: vec!["a.md".to_string()],
        }),
        Platform::Linux,
    );
    assert_eq!(before, "/private/tmp/raw/sources/a.md");
    assert_eq!(before, after);
}

#[test]
fn path_key_survives_deletion_whichever_slash_joins() {
    let key = |base: &str, missing: &[&str]| {
        let missing = missing.iter().map(|s| s.to_string()).collect();
        let place = Some(ResolvedPath { base: base.to_string(), missing });
        path_key("x", &place, Platform::Windows)
    };
    assert_eq!(key(r"C:\Proj\a.md", &[]), "c:/proj/a.md");
    assert_eq!(key(r"C:\Proj\a.md", &[]), key(r"C:\Proj", &["a.md"]));
    assert_eq!(key(r"C:\a.md", &[]), key("C:\\", &["a.md"]));
}

#[test]
fn path_key_of_a_path_of_which_nothing_exists_is_the_path() {
    assert_eq!(path_key(r"x\y", &None, Platform::Linux), "x/y");
    let deep = Some(ResolvedPath {
        base: "/".to_string(),
        missing: vec!["a".to_string(), "b".to_string()],
    });
    assert_eq!(path_key("/a/b", &deep, Platform::Linux), "/a/b");
}

#[test]
fn wildcards_follow_their_meaning() {
    assert!(wildcard_match("*", ""));
    assert!(wildcard_match("*.MD", "Notes.md"));
    assert!(wildcard_match("a*b*c", "a-b-b-c"));
    assert!(!wildcard_match("a*b*c", "a-c-b"));
    assert!(wildcard_match("?", "x"));
    assert!(!wildcard_match("?", ""));
    assert!(!wildcard_match("", "x"));
    assert!(wildcard_match("plain", "plain"));
    assert!(!wildcard_match("plain", "plainer"));
    assert!(wildcard_match("**", "anything"));
}

#[test]
fn star_facing_a_star_stands_for_it_alone() {
    let chars = |s: &str| s.chars().collect::<Vec<char>>();
    assert!(wildcard_match_inner(&chars("*"), &chars("*")));
    assert!(!wildcard_match_inner(&chars("*"), &chars("*a")));
    assert!(wildcard_match_inner(&chars("*"), &chars("a*")));
}

#[test]
fn rel_paths_that_do_not_go_down_have_no_text() {
    assert_eq!(normalize_rel_path(&components(Path::new("../x"))), None);
    assert_eq!(normalize_rel_path(&components(Path::new("/x"))), None);
    assert_eq!(
        normalize_rel_path(&components(Path::new(""))),
        Some(String::new())
    );
}

#[test]
fn watch_rules_exclude_temporary_and_app_dirs() {
    let config = default_watch_config();
    let rules = SourceWatchRules::new(&config);
    assert!(should_watch_rel("raw/sources/document.docx", &rules));
    assert!(should_watch_rel("wiki/concepts/topic.md", &rules));
    assert!(!should_watch_rel(
        ".llm-wiki/file-change-queue.json",
        &rules
    ));
    assert!(!should_watch_rel("raw/sources/~$Document.docx", &rules));
    assert!(!should_watch_rel(
        "raw/sources/.~lock.Document.odt#",
        &rules
    ));
    assert!(!should_watch_rel("raw/sources/Thumbs.db", &rules));
    assert!(!should_watch_rel("raw/sources/desktop.ini", &rules));
    assert!(!should_watch_rel("raw/sources/download.crdownload", &rules));
    assert!(!should_watch_rel(".vscode/settings.json", &rules));
    assert!(!should_watch_rel("wiki/media/image.png", &rules));
}

#[test]
fn source_watch_config_filters_raw_source_extensions_and_dirs() {
    let config = SourceWatchConfig {
        include_extensions: vec!["md".into(), "pdf".into()],
        exclude_dirs: vec!["drafts".into(), "subdir/drafts".into()],
        exclude_globs: vec!["*.private.*".into()],
        ..SourceWatchConfig::default()
    };
    let config = normalize_source_watch_config(Some(config), default_watch_config());
    let rules = SourceWatchRules::new(&config);

    assert!(should_watch_rel("raw/sources/final.md", &rules));
    assert!(!should_watch_rel("raw/sources/data.json", &rules));
    assert!(!should_watch_rel("raw/sources/drafts/final.md", &rules));
    assert!(!should_watch_rel(
        "raw/sources/subdir/drafts/final.md",
        &rules
    ));
    assert!(!should_watch_rel("raw/sources/report.private.md", &rules));
    assert!(should_watch_rel("wiki/index.md", &rules));
}

#[test]
fn source_watch_config_skips_oversized_raw_sources() {
    let rel = Some(components(Path::new("raw/sources/large.md")));
    let config = SourceWatchConfig {
        max_file_size_mb: 1,
        ..SourceWatchConfig::default()
    };
    let config = normalize_source_watch_config(Some(config), default_watch_config());
    let rules = SourceWatchRules::new(&config);
    let watched = Some("raw/sources/large.md".to_string());

    assert_eq!(
        relative_watch_path(&rel, &rules, true, Some(2 * 1024 * 1024)),
        None
    );
    assert_eq!(relative_watch_path(&rel, &rules, true, Some(1024 * 1024)), watched);
    assert_eq!(relative_watch_path(&rel, &rules, true, None), None);
    assert_eq!(relative_watch_path(&rel, &rules, false, None), watched);
    assert_eq!(relative_watch_path(&None, &rules, true, Some(1)), None);
    let page = Some(components(Path::new("wiki/large.md")));
    assert_eq!(
        relative_watch_path(&page, &rules, true, None),
        Some("wiki/large.md".to_string())
    );
}

#[test]
fn source_watch_defaults_are_loaded_from_shared_json_and_tolerate_missing_fields() {
    let default = SourceWatchConfig::default();
    assert!(default.include_extensions.contains(&"md".to_string()));
    assert!(default.exclude_dirs.contains(&".git".to_string()));

    let given: serde_json::Value =
        serde_json::from_str(r#"{"enabled":false,"includeExtensions":["md"]}"#).unwrap();
    let list = |key: &str| {
        given.get(key).and_then(|v| v.as_array()).map(|a| {
            a.iter().map(|v| v.as_str().unwrap().to_string()).collect::<Vec<_>>()
        })
    };
    let partial = PartialWatchConfig {
        enabled: given.get("enabled").and_then(|v| v.as_bool()),
        auto_ingest: given.get("autoIngest").and_then(|v| v.as_bool()),
        include_extensions: list("includeExtensions"),
        exclude_extensions: list("excludeExtensions"),
        exclude_dirs: list("excludeDirs"),
        exclude_globs: list("excludeGlobs"),
        max_file_size_mb: given.get("maxFileSizeMb").and_then(|v| v.as_u64()),
    }
    .fill_in(SourceWatchConfig::default());
    assert!(!partial.enabled);
    assert!(partial.auto_ingest);
    assert!(partial.exclude_dirs.contains(&".git".to_string()));
    assert_eq!(partial.include_extensions, vec!["md".to_string()]);
    assert_eq!(partial.exclude_globs, default.exclude_globs);
    assert_eq!(partial.max_file_size_mb, default.max_file_size_mb);
}

#[test]
fn normal_form_is_ordered_without_repetition_and_within_limits() {
    let given = SourceWatchConfig {
        include_extensions: vec![" .PDF".into(), "md".into(), "..Md ".into(), " . ".into()],
        exclude_extensions: vec![],
        exclude_dirs: vec!["  b ".into(), "a".into(), "".into(), "b".into()],
        exclude_globs: vec!["\u{3000}*.x\t".into()],
        max_file_size_mb: 0,
        ..SourceWatchConfig::default()
    };
    let config = normalize_source_watch_config(Some(given), default_watch_config());
    assert_eq!(config.include_extensions, vec!["md", "pdf"]);
    assert!(config.exclude_extensions.is_empty());
    assert_eq!(config.exclude_dirs, vec!["a", "b"]);
    assert_eq!(config.exclude_globs, vec!["*.x"]);
    assert_eq!(config.max_file_size_mb, 1);
    let large = SourceWatchConfig {
        max_file_size_mb: 9999,
        ..SourceWatchConfig::default()
    };
    let large = normalize_source_watch_config(Some(large), default_watch_config());
    assert_eq!(large.max_file_size_mb, 4096);
    assert!(normalize_source_watch_config(None, default_watch_config()).enabled);
}

#[test]
fn defaults_that_are_handed_in_count() {
    let own = || SourceWatchConfig {
        enabled: false,
        include_extensions: vec![".XYZ".into()],
        max_file_size_mb: 7,
        ..SourceWatchConfig::default()
    };
    let config = normalize_source_watch_config(None, own());
    assert!(!config.enabled);
    assert_eq!(config.include_extensions, vec!["xyz"]);
    assert_eq!(config.max_file_size_mb, 7);
    let partial = PartialWatchConfig {
        enabled: Some(true),
        auto_ingest: None,
        include_extensions: None,
        exclude_extensions: None,
        exclude_dirs: Some(vec![]),
        exclude_globs: None,
        max_file_size_mb: None,
    };
    let filled = partial.fill_in(own());
    assert!(filled.enabled && filled.exclude_dirs.is_empty());
    assert_eq!(filled.include_extensions, vec![".XYZ"]);
    assert_eq!(filled.max_file_size_mb, 7);
}

#[test]
fn excluded_directories_are_matched_whole() {
    let config = SourceWatchConfig {
        exclude_dirs: vec!["\\Build\\".into(), "a/b".into()],
        ..SourceWatchConfig::default()
    };
    let rules = SourceWatchRules::new(&config);
    assert!(rules.matches_excluded_dir("x/build/y"));
    assert!(rules.matches_excluded_dir("build"));
    assert!(!rules.matches_excluded_dir("x/builds/y"));
    assert!(rules.matches_excluded_dir("a/b"));
    assert!(rules.matches_excluded_dir("a/b/c"));
    assert!(rules.matches_excluded_dir("x/a/b/c"));
    assert!(!rules.matches_excluded_dir("x/a/b"));
    assert!(!rules.matches_excluded_dir("a/bc"));
}

#[test]
fn other_files_of_a_project_are_watched_by_name() {
    let config = default_watch_config();
    let rules = SourceWatchRules::new(&config);
    assert!(should_watch_rel("purpose.md", &rules));
    assert!(should_watch_rel("schema.md", &rules));
    assert!(!should_watch_rel("other.md", &rules));
    assert!(!should_watch_rel("wiki/page.txt", &rules));
    assert!(!should_watch_rel("", &rules));
    assert!(!should_watch_rel("wiki/.DS_Store", &rules));
    assert!(!should_watch_rel("x/.LLM-wiki/y.md", &rules));
    assert!(!should_watch_rel("raw/sources/README", &rules));
    assert!(should_watch_rel("raw/sources/Report.PDF", &rules));
}

#[test]
fn parts_of_names_are_found() {
    assert_eq!(extension_of("a.tar.gz"), "gz");
    assert_eq!(extension_of("none"), "");
    assert_eq!(extension_of("dot."), "");
    assert_eq!(normalize_rel_string("\\a\\b//"), "a/b");
}

#[test]
fn marked_paths_are_ignored_for_a_while() {
    let mut ignores = AppWriteIgnores::new();
    ignores.mark_at("/p/raw".to_string(), 1_000);
    assert!(ignores.is_ignored_at("/p/raw", 1_000));
    assert!(ignores.is_ignored_at("/p/raw/a.md", 4_999));
    assert!(!ignores.is_ignored_at("/p/rawer", 4_999));
    assert!(!ignores.is_ignored_at("/p/raw", 5_000));
    ignores.mark_at("/q".to_string(), 10);
    ignores.mark_at("/r".to_string(), 4_010);
    assert!(!ignores.is_ignored_at("/q", 100));
    assert!(ignores.is_ignored_at("/r", 100));
}

#[test]
fn a_path_marked_now_is_ignored_now() {
    let mut ignores = AppWriteIgnores::new();
    let place = Some(ResolvedPath {
        base: "/p".to_string(),
        missing: vec!["new.md".to_string()],
    });
    assert!(!is_app_write_ignored(&mut ignores, "new.md", &place, Platform::Linux));
    mark_app_write_path(&mut ignores, "new.md", &place, Platform::Linux);
    assert!(is_app_write_ignored(&mut ignores, "new.md", &place, Platform::Linux));
    assert!(!is_app_write_ignored(&mut ignores, "new.md", &None, Platform::Linux));
}

#[test]
fn watchers_end_with_their_generation() {
    let mut state = FileSyncInner::default();
    let first = next_watcher_generation(&mut state);
    watch_project(&mut state, "p1", "/p1");
    assert_eq!(state.project_id.as_deref(), Some("p1"));
    assert!(is_active_watcher_generation(&state, first));
    assert_eq!(next_sync_step(&state, first, SyncStage::Noticed), SyncStep::Plan);
    assert_eq!(next_sync_step(&state, first, SyncStage::Entered), SyncStep::WorkOff);
    assert_eq!(next_sync_step(&state, first, SyncStage::Reread), SyncStep::Tell);
    let second = next_watcher_generation(&mut state);
    assert!(!is_active_watcher_generation(&state, first));
    assert_eq!(next_sync_step(&state, first, SyncStage::Reread), SyncStep::Stop);
    stop_project_file_watcher(&mut state);
    assert!(!is_active_watcher_generation(&state, second));
    assert!(state.project_id.is_none() && state.project_path.is_none());
    state.generation = u64::MAX;
    stop_project_file_watcher(&mut state);
    assert_eq!(state.generation, 0);
}

/// The steps of the handling of a change, where the watcher ends before the step at `end`.
fn steps(own: bool, others: bool, end: usize) -> Vec<SyncStep> {
    let mut state = FileSyncInner::default();
    let generation = next_watcher_generation(&mut state);
    let mut out = Vec::new();
    let mut stage = Some(SyncStage::Noticed);
    while let Some(s) = stage {
        if out.len() == end {
            stop_project_file_watcher(&mut state);
        }
        let step = next_sync_step(&state, generation, s);
        out.push(step);
        stage = stage_after(step, own, others);
    }
    out
}

#[test]
fn changes_are_handled_step_by_step() {
    assert_all(&[
        (
            steps(true, true, 99),
            vec![
                SyncStep::Plan,
                SyncStep::Record,
                SyncStep::Enter,
                SyncStep::WorkOff,
                SyncStep::Reread,
                SyncStep::Tell,
            ],
        ),
        (steps(true, false, 99), vec![SyncStep::Plan, SyncStep::Record, SyncStep::Stop]),
        (steps(false, false, 99), vec![SyncStep::Plan, SyncStep::Stop]),
    ]);
}

#[test]
fn ended_watcher_leaves_queue_snapshot_and_listeners_alone() {
    assert_all(&[
        (steps(true, true, 0), vec![SyncStep::Stop]),
        (steps(true, true, 1), vec![SyncStep::Plan, SyncStep::Record, SyncStep::Stop]),
        (steps(false, true, 1), vec![SyncStep::Plan, SyncStep::Stop]),
        (steps(false, true, 2), vec![SyncStep::Plan, SyncStep::Enter, SyncStep::Stop]),
        (
            steps(false, true, 3),
            vec![
                SyncStep::Plan,
                SyncStep::Enter,
                SyncStep::WorkOff,
                SyncStep::Reread,
                SyncStep::Stop,
            ],
        ),
    ]);
}

fn assert_all(cases: &[(Vec<SyncStep>, Vec<SyncStep>)]) {
    for (got, expected) in cases {
        assert_eq!(got, expected);
    }
}

#[test]
fn files_are_looked_at_again_where_needed() {
    let mut last = 1_000;
    assert!(!maybe_periodic_rescan_at(Platform::Linux, &mut last, 10_999, 77));
    assert_eq!(last, 1_000);
    assert!(!maybe_periodic_rescan_at(Platform::Other, &mut last, 99_000, 77));
    assert!(maybe_periodic_rescan_at(Platform::Linux, &mut last, 11_000, 77));
    assert_eq!(last, 77);
    assert!(maybe_periodic_rescan(Platform::Linux, &mut last));
    assert!(last > 1_600_000_000_000);
    assert!(!maybe_periodic_rescan(Platform::Linux, &mut last));
    assert_eq!(watch_prefixes(), vec!["raw/sources", "wiki", "purpose.md", "schema.md"]);
}

#[test]
fn worker_collects_paths_until_it_is_quiet() {
    let mut pending = TextSet::new();
    let changed = |p: &str| WorkerEvent::Changed(p.to_string());
    assert!(matches!(worker_step(&mut pending, WorkerEvent::Quiet), WorkerStep::LookAgain));
    assert!(matches!(worker_step(&mut pending, changed("b")), WorkerStep::Wait));
    assert!(matches!(worker_step(&mut pending, changed("a")), WorkerStep::Wait));
    assert!(matches!(worker_step(&mut pending, changed("b")), WorkerStep::Wait));
    match worker_step(&mut pending, WorkerEvent::Quiet) {
        WorkerStep::Handle(paths) => assert_eq!(paths, vec!["a", "b"]),
        other => panic!("unexpected {other:?}"),
    }
    assert!(pending.is_empty());
    assert!(matches!(worker_step(&mut pending, WorkerEvent::Gone), WorkerStep::End));
}

#[test]
fn sync_errors_are_shown_with_their_kind() {
    let x = || "x".to_string();
    assert_eq!(FileSyncError::from(x()).message(), "internal: x");
    assert_eq!(FileSyncError::Io(x()).message(), "io: x");
    assert_eq!(FileSyncError::Notify(x()).message(), "notify: x");
    assert_eq!(FileSyncError::InvalidArgument(x()).message(), "invalid argument: x");
    assert_eq!(
        FileSyncError::from(IngestQueueError::internal(x())).message(),
        "queue: internal: x"
    );
    assert_eq!(IngestQueueError::from(x()).message(), "internal: x");
    assert_eq!(IngestQueueError::Io(x()).message(), "io: x");
    assert_eq!(IngestQueueError::Json(x()).message(), "json: x");
}
