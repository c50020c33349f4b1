//! Which files of a project are looked at: those below a changed path, or all of them.

use vstd::prelude::*;

use crate::order::TextSet;
use crate::paths::{goes_down, names_of, normalize_rel_path, Part, PathComponent};
use crate::queue::{
    fast_meta_of, known, known_meta, opt_meta, read_meta_fast, FileMeta, FileSnapshot, FileStat,
    MetaView,
};
use crate::sync::{covers, path_covers};
use crate::text::{join, texts};
use crate::watch::{
    given_config, is_normal_form, is_watched, normalize_source_watch_config, opt_parts,
    relative_watch_path, rules_of, should_watch_rel, watch_path, ConfigView, RulesView,
    SourceWatchConfig, SourceWatchRules,
};

verus! {

/// A file that was found: its path below the project's directory, whether it still exists,
/// its size, whether the application wrote it, and what the file system says of it.
#[derive(Debug)]
pub struct FoundFile {
    pub rel: Option<Vec<PathComponent>>,
    pub exists_now: bool,
    pub size: Option<u64>,
    pub ignored: bool,
    pub stat: Result<Option<FileStat>, String>,
}

#[verifier::ext_equal]
pub struct FoundView {
    pub rel: Option<Seq<Part>>,
    pub exists_now: bool,
    pub size: Option<u64>,
    pub ignored: bool,
    pub stat: Result<Option<FileStat>, Seq<char>>,
}

impl View for FoundFile {
    type V = FoundView;

    open spec fn view(&self) -> FoundView {
        FoundView {
            rel: opt_parts(self.rel),
            exists_now: self.exists_now,
            size: self.size,
            ignored: self.ignored,
            stat: match self.stat {
                Ok(s) => Ok(s),
                Err(e) => Err(e@),
            },
        }
    }
}

/// The views of the files that were found.
pub open spec fn found_views(found: Seq<FoundFile>) -> Seq<FoundView> {
    found.map_values(|f: FoundFile| f@)
}

/// The set with one more member, if there is one.
pub open spec fn with_some(s: Set<Seq<char>>, item: Option<Seq<char>>) -> Set<Seq<char>> {
    match item {
        Some(x) => s.insert(x),
        None => s,
    }
}

/// The watched paths among the files that were found, `but_own` those that the application
/// wrote.
pub open spec fn found_set(
    found: Seq<FoundView>,
    rules: RulesView,
    but_own: bool,
) -> Set<Seq<char>>
    decreases found.len(),
{
    if found.len() == 0 {
        Set::empty()
    } else {
        let rest = found_set(found.drop_last(), rules, but_own);
        let f = found.last();
        if but_own && f.ignored {
            rest
        } else {
            with_some(rest, watch_path(f.rel, rules, f.exists_now, f.size))
        }
    }
}

/// Adds the watched paths among the files that were found.
fn add_found(
    found: &Vec<FoundFile>,
    rules: &SourceWatchRules,
    but_own: bool,
    rels: &mut TextSet,
)
    ensures
        final(rels)@ == old(rels)@.union(found_set(found_views(found@), rules@, but_own)),
{
    let ghost all = found_views(found@);
    let mut i: usize = 0;
    assert(rels@ =~= old(rels)@.union(found_set(all.take(0), rules@, but_own)));
    while i < found.len()
        invariant
            i <= found@.len(),
            all == found_views(found@),
            rels@ == old(rels)@.union(found_set(all.take(i as int), rules@, but_own)),
        decreases found@.len() - i,
    {
        let f = &found[i];
        proof {
            assert(all.take(i as int + 1).drop_last() =~= all.take(i as int));
            assert(all.take(i as int + 1).last() == f@);
        }
        if !(but_own && f.ignored) {
            match relative_watch_path(&f.rel, rules, f.exists_now, f.size) {
                Some(rel) => {
                    rels.insert(rel);
                },
                None => {},
            }
        }
        assert(rels@ =~= old(rels)@.union(found_set(all.take(i as int + 1), rules@, but_own)));
        i += 1;
    }
    assert(all.take(i as int) =~= all);
}

/// A path that changed, with what was found below it where it is a directory.
#[derive(Debug)]
pub struct ChangedPath {
    pub rel: Option<Vec<PathComponent>>,
    pub is_dir: bool,
    pub exists_now: bool,
    pub ignored: bool,
    pub size: Option<u64>,
    pub found: Vec<FoundFile>,
}

#[verifier::ext_equal]
pub struct ChangedView {
    pub rel: Option<Seq<Part>>,
    pub is_dir: bool,
    pub exists_now: bool,
    pub ignored: bool,
    pub size: Option<u64>,
    pub found: Seq<FoundView>,
}

impl View for ChangedPath {
    type V = ChangedView;

    open spec fn view(&self) -> ChangedView {
        ChangedView {
            rel: opt_parts(self.rel),
            is_dir: self.is_dir,
            exists_now: self.exists_now,
            ignored: self.ignored,
            size: self.size,
            found: found_views(self.found@),
        }
    }
}

/// The views of the paths that changed.
pub open spec fn changed_views(paths: Seq<ChangedPath>) -> Seq<ChangedView> {
    paths.map_values(|p: ChangedPath| p@)
}

/// The paths that a change concerns: the watched files of a directory, a watched file, or,
/// where the path is gone, every file of the snapshot that was at it or below it.
pub open spec fn known_paths(
    path: ChangedView,
    files: Map<Seq<char>, MetaView>,
    rules: RulesView,
) -> Set<Seq<char>> {
    if path.is_dir {
        found_set(path.found, rules, false)
    } else {
        match path.rel {
            None => Set::empty(),
            Some(ps) => {
                let rel = join(names_of(ps), seq!['/']);
                if !goes_down(ps) {
                    Set::empty()
                } else if !path.exists_now {
                    files.dom().filter(|k: Seq<char>| covers(rel, k))
                } else if is_watched(rel, rules) {
                    set![rel]
                } else {
                    Set::empty()
                }
            },
        }
    }
}

/// Adds the files of the snapshot that are at `rel` or below it.
fn add_covered(rel: &str, snapshot: &FileSnapshot, rels: &mut TextSet)
    ensures
        final(rels)@ == old(rels)@.union(
            snapshot@.files.dom().filter(|k: Seq<char>| covers(rel@, k)),
        ),
{
    let names = snapshot.files.key_list();
    let ghost keys = snapshot.files.keys();
    let mut i: usize = 0;
    while i < names.len()
        invariant
            i <= names@.len(),
            keys == texts(names@),
            keys == snapshot.files.keys(),
            forall|k: Seq<char>| #[trigger]
                rels@.contains(k) == (old(rels)@.contains(k) || exists|j: int|
                    0 <= j < i && #[trigger] keys[j] == k && covers(rel@, k)),
        decreases names@.len() - i,
    {
        let ghost before = rels@;
        assert(keys[i as int] == names@[i as int]@);
        if path_covers(rel, names[i].as_str()) {
            rels.insert(names[i].clone());
        }
        assert forall|k: Seq<char>| #[trigger]
            rels@.contains(k) == (old(rels)@.contains(k) || exists|j: int|
                0 <= j < i + 1 && #[trigger] keys[j] == k && covers(rel@, k)) by {
            if before.contains(k) && !old(rels)@.contains(k) {
                let j = choose|j: int| 0 <= j < i && #[trigger] keys[j] == k && covers(rel@, k);
                assert(keys[j] == k);
            }
        }
        i += 1;
    }
    proof {
        let goal = snapshot@.files.dom().filter(|k: Seq<char>| covers(rel@, k));
        assert forall|k: Seq<char>| rels@.contains(k) == old(rels)@.union(goal).contains(k) by {
            assert(snapshot@.files.dom().contains(k) == keys.contains(k));
            if goal.contains(k) {
                let j = keys.index_of(k);
                assert(keys[j] == k);
            }
            if exists|j: int| 0 <= j < keys.len() && #[trigger] keys[j] == k && covers(rel@, k) {
                assert(keys.contains(k));
            }
        }
        assert(rels@ =~= old(rels)@.union(goal));
    }
}

/// Adds the paths that a change concerns.
pub fn collect_known_paths(
    path: &ChangedPath,
    snapshot: &FileSnapshot,
    rels: &mut TextSet,
    rules: &SourceWatchRules,
)
    ensures
        final(rels)@ == old(rels)@.union(known_paths(path@, snapshot@.files, rules@)),
{
    if path.is_dir {
        add_found(&path.found, rules, false, rels);
        return ;
    }
    assert(rels@.union(Set::<Seq<char>>::empty()) =~= rels@);
    match &path.rel {
        None => {},
        Some(components) => match normalize_rel_path(components) {
            None => {},
            Some(rel) => {
                if !path.exists_now {
                    add_covered(rel.as_str(), snapshot, rels);
                } else if should_watch_rel(rel.as_str(), rules) {
                    let ghost text = rel@;
                    rels.insert(rel);
                    assert(rels@ =~= old(rels)@.union(set![text]));
                }
            },
        },
    }
}

/// What is to be done about paths that changed: the files to look at, and the files that
/// the application wrote, which are only taken into the snapshot.
pub struct ChangePlan {
    pub rels: TextSet,
    pub app_written: TextSet,
}

#[verifier::ext_equal]
pub struct PlanView {
    pub rels: Set<Seq<char>>,
    pub app_written: Set<Seq<char>>,
}

impl View for ChangePlan {
    type V = PlanView;

    open spec fn view(&self) -> PlanView {
        PlanView { rels: self.rels@, app_written: self.app_written@ }
    }
}

/// The plan with one more path. A path that the application wrote only concerns the
/// snapshot; of a directory the watched files are looked at, of a file the file itself,
/// and of one that is gone and not watched what was known at it or below it.
pub open spec fn plan_with(
    plan: PlanView,
    path: ChangedView,
    files: Map<Seq<char>, MetaView>,
    rules: RulesView,
) -> PlanView {
    if path.ignored {
        PlanView { app_written: plan.app_written.union(known_paths(path, files, rules)), ..plan }
    } else if path.is_dir {
        PlanView { rels: plan.rels.union(found_set(path.found, rules, true)), ..plan }
    } else {
        match watch_path(path.rel, rules, path.exists_now, path.size) {
            Some(rel) => PlanView { rels: plan.rels.insert(rel), ..plan },
            None => if path.exists_now {
                plan
            } else {
                PlanView { rels: plan.rels.union(known_paths(path, files, rules)), ..plan }
            },
        }
    }
}

/// The plan for all the paths.
pub open spec fn plan_of(
    paths: Seq<ChangedView>,
    files: Map<Seq<char>, MetaView>,
    rules: RulesView,
) -> PlanView
    decreases paths.len(),
{
    if paths.len() == 0 {
        PlanView { rels: Set::empty(), app_written: Set::empty() }
    } else {
        plan_with(plan_of(paths.drop_last(), files, rules), paths.last(), files, rules)
    }
}

/// What is to be done about the paths that changed.
pub fn plan_changed_paths(
    paths: &Vec<ChangedPath>,
    snapshot: &FileSnapshot,
    config: &SourceWatchConfig,
) -> (r: ChangePlan)
    ensures
        r@ == plan_of(changed_views(paths@), snapshot@.files, rules_of(config@)),
{
    let rules = SourceWatchRules::new(config);
    let mut rels = TextSet::new();
    let mut app_written = TextSet::new();
    let ghost all = changed_views(paths@);
    let mut i: usize = 0;
    while i < paths.len()
        invariant
            i <= paths@.len(),
            all == changed_views(paths@),
            rules@ == rules_of(config@),
            (PlanView { rels: rels@, app_written: app_written@ }) == plan_of(
                all.take(i as int),
                snapshot@.files,
                rules@,
            ),
        decreases paths@.len() - i,
    {
        let path = &paths[i];
        proof {
            assert(all.take(i as int + 1).drop_last() =~= all.take(i as int));
            assert(all.take(i as int + 1).last() == path@);
        }
        if path.ignored {
            collect_known_paths(path, snapshot, &mut app_written, &rules);
        } else if path.is_dir {
            add_found(&path.found, &rules, true, &mut rels);
        } else {
            match relative_watch_path(&path.rel, &rules, path.exists_now, path.size) {
                Some(rel) => {
                    rels.insert(rel);
                },
                None => {
                    if !path.exists_now {
                        collect_known_paths(path, snapshot, &mut rels, &rules);
                    }
                },
            }
        }
        i += 1;
    }
    assert(all.take(i as int) =~= all);
    ChangePlan { rels, app_written }
}

/// A file of the snapshot, and whether it still exists.
#[derive(Debug)]
pub struct KnownPath {
    pub rel: String,
    pub exists_now: bool,
}

/// The files of the snapshot that are gone.
pub open spec fn gone(paths: Seq<KnownPath>) -> Set<Seq<char>>
    decreases paths.len(),
{
    if paths.len() == 0 {
        Set::empty()
    } else {
        let rest = gone(paths.drop_last());
        if paths.last().exists_now {
            rest
        } else {
            rest.insert(paths.last().rel@)
        }
    }
}

/// The files that a rescan looks at: those that are watched, and those of the snapshot
/// that are gone.
pub open spec fn rescanned(
    found: Seq<FoundView>,
    paths: Seq<KnownPath>,
    rules: RulesView,
) -> Set<Seq<char>> {
    found_set(found, rules, false).union(gone(paths))
}

/// The files that a rescan looks at.
pub fn enqueue_rescan_changes(
    found: &Vec<FoundFile>,
    paths: &Vec<KnownPath>,
    config: &SourceWatchConfig,
) -> (r: TextSet)
    ensures
        r@ == rescanned(found_views(found@), paths@, rules_of(config@)),
{
    let rules = SourceWatchRules::new(config);
    let mut rels = TextSet::new();
    add_found(found, &rules, false, &mut rels);
    let ghost base = found_set(found_views(found@), rules@, false);
    assert(rels@ =~= base);
    let mut i: usize = 0;
    assert(rels@ =~= base.union(gone(paths@.take(0))));
    while i < paths.len()
        invariant
            i <= paths@.len(),
            rels@ == base.union(gone(paths@.take(i as int))),
        decreases paths@.len() - i,
    {
        assert(paths@.take(i as int + 1).drop_last() =~= paths@.take(i as int));
        if !paths[i].exists_now {
            rels.insert(paths[i].rel.clone());
        }
        assert(rels@ =~= base.union(gone(paths@.take(i as int + 1))));
        i += 1;
    }
    assert(paths@.take(i as int) =~= paths@);
    rels
}

/// The files that a rescan of the whole project looks at, by the normal form of the
/// configuration or of the default one.
pub fn rescan_project_files(
    found: &Vec<FoundFile>,
    paths: &Vec<KnownPath>,
    config: Option<SourceWatchConfig>,
    defaults: SourceWatchConfig,
) -> (r: TextSet)
    ensures
        exists|c: ConfigView| #[trigger]
            is_normal_form(c, given_config(config, defaults)) && r@ == rescanned(
                found_views(found@),
                paths@,
                rules_of(c),
            ),
{
    let config = normalize_source_watch_config(config, defaults);
    enqueue_rescan_changes(found, paths, &config)
}

/// Whether a file looks changed by its size and the time when it was modified alone.
pub open spec fn looks_changed(before: Option<MetaView>, fast: Option<MetaView>) -> bool {
    match (before, fast) {
        (None, None) => false,
        (Some(b), Some(f)) => b.size != f.size || b.mtime_ms != f.mtime_ms,
        _ => true,
    }
}

/// Whether a file looks changed by its size and the time when it was modified alone.
fn seems_changed(before: &Option<FileMeta>, fast: &Option<FileMeta>) -> (r: bool)
    ensures
        r == looks_changed(opt_meta(*before), opt_meta(*fast)),
{
    match (before, fast) {
        (None, None) => false,
        (Some(b), Some(f)) => b.size != f.size || b.mtime_ms != f.mtime_ms,
        _ => true,
    }
}

/// The watched files that look changed, or what went wrong with the first that could not
/// be looked at.
pub open spec fn seen_changed(
    found: Seq<FoundView>,
    files: Map<Seq<char>, MetaView>,
    rules: RulesView,
) -> Result<Set<Seq<char>>, Seq<char>>
    decreases found.len(),
{
    if found.len() == 0 {
        Ok(Set::empty())
    } else {
        let f = found.last();
        match seen_changed(found.drop_last(), files, rules) {
            Err(e) => Err(e),
            Ok(rest) => match watch_path(f.rel, rules, f.exists_now, f.size) {
                None => Ok(rest),
                Some(rel) => match f.stat {
                    Err(e) => Err(e),
                    Ok(stat) => if looks_changed(known(files, rel), fast_meta_of(stat)) {
                        Ok(rest.insert(rel))
                    } else {
                        Ok(rest)
                    },
                },
            },
        }
    }
}

/// Whether one of the prefixes covers the path.
pub open spec fn any_covers(prefixes: Seq<Seq<char>>, rel: Seq<char>) -> bool {
    exists|i: int| 0 <= i < prefixes.len() && covers(#[trigger] prefixes[i], rel)
}

/// The files of the snapshot below the prefixes that are gone.
pub open spec fn gone_below(paths: Seq<KnownPath>, prefixes: Seq<Seq<char>>) -> Set<Seq<char>>
    decreases paths.len(),
{
    if paths.len() == 0 {
        Set::empty()
    } else {
        let rest = gone_below(paths.drop_last(), prefixes);
        if !paths.last().exists_now && any_covers(prefixes, paths.last().rel@) {
            rest.insert(paths.last().rel@)
        } else {
            rest
        }
    }
}

/// Whether one of the prefixes covers the path.
fn is_below_any(prefixes: &Vec<String>, rel: &str) -> (r: bool)
    ensures
        r == any_covers(texts(prefixes@), rel@),
{
    let ghost all = texts(prefixes@);
    let mut i: usize = 0;
    while i < prefixes.len()
        invariant
            i <= prefixes@.len(),
            all == texts(prefixes@),
            forall|j: int| 0 <= j < i ==> !covers(#[trigger] all[j], rel@),
        decreases prefixes@.len() - i,
    {
        if path_covers(prefixes[i].as_str(), rel) {
            assert(covers(all[i as int], rel@));
            return true;
        }
        i += 1;
    }
    false
}

/// The files below the prefixes that a quick rescan looks at: those that look changed by
/// size and time, and those of the snapshot that are gone.
pub fn enqueue_rescan_changes_for_prefixes(
    found: &Vec<FoundFile>,
    paths: &Vec<KnownPath>,
    prefixes: &Vec<String>,
    snapshot: &FileSnapshot,
    config: &SourceWatchConfig,
) -> (r: Result<TextSet, String>)
    ensures
        match (r, seen_changed(found_views(found@), snapshot@.files, rules_of(config@))) {
            (Ok(rels), Ok(seen)) => rels@ == seen.union(gone_below(paths@, texts(prefixes@))),
            (Err(e), Err(why)) => e@ == why,
            _ => false,
        },
{
    let rules = SourceWatchRules::new(config);
    let mut rels = TextSet::new();
    let ghost all = found_views(found@);
    let ghost files = snapshot@.files;
    let mut i: usize = 0;
    while i < found.len()
        invariant
            i <= found@.len(),
            all == found_views(found@),
            files == snapshot@.files,
            rules@ == rules_of(config@),
            seen_changed(all.take(i as int), files, rules@) == Ok::<Set<Seq<char>>, Seq<char>>(
                rels@,
            ),
        decreases found@.len() - i,
    {
        let f = &found[i];
        proof {
            assert(all.take(i as int + 1).drop_last() =~= all.take(i as int));
            assert(all.take(i as int + 1).last() == f@);
        }
        match relative_watch_path(&f.rel, &rules, f.exists_now, f.size) {
            Some(rel) => match &f.stat {
                Err(e) => {
                    proof {
                        lemma_seen_error(all, files, rules@, i as int + 1);
                    }
                    return Err(e.clone());
                },
                Ok(stat) => {
                    let before = known_meta(snapshot, rel.as_str());
                    let fast = read_meta_fast(stat);
                    if seems_changed(&before, &fast) {
                        rels.insert(rel);
                    }
                },
            },
            None => {},
        }
        i += 1;
    }
    assert(all.take(i as int) =~= all);
    let ghost seen = rels@;
    let ghost pre = texts(prefixes@);
    let mut k: usize = 0;
    assert(rels@ =~= seen.union(gone_below(paths@.take(0), pre)));
    while k < paths.len()
        invariant
            k <= paths@.len(),
            pre == texts(prefixes@),
            rels@ == seen.union(gone_below(paths@.take(k as int), pre)),
        decreases paths@.len() - k,
    {
        assert(paths@.take(k as int + 1).drop_last() =~= paths@.take(k as int));
        if is_below_any(prefixes, paths[k].rel.as_str()) && !paths[k].exists_now {
            rels.insert(paths[k].rel.clone());
        }
        assert(rels@ =~= seen.union(gone_below(paths@.take(k as int + 1), pre)));
        k += 1;
    }
    assert(paths@.take(k as int) =~= paths@);
    Ok(rels)
}

/// What went wrong with the files up to an index is what went wrong with all of them.
proof fn lemma_seen_error(
    found: Seq<FoundView>,
    files: Map<Seq<char>, MetaView>,
    rules: RulesView,
    n: int,
)
    requires
        0 <= n <= found.len(),
        seen_changed(found.take(n), files, rules) is Err,
    ensures
        seen_changed(found, files, rules) == seen_changed(found.take(n), files, rules),
    decreases found.len() - n,
{
    if n == found.len() {
        assert(found.take(n) =~= found);
    } else {
        assert(found.take(n + 1).drop_last() =~= found.take(n));
        lemma_seen_error(found, files, rules, n + 1);
    }
}

/// Changes that the application made itself are not queued: where all the paths were
/// written by it, no file is looked at, and what they concern is only taken into the
/// snapshot.
pub proof fn law_own_changes_are_not_queued(
    paths: Seq<ChangedView>,
    files: Map<Seq<char>, MetaView>,
    rules: RulesView,
)
    requires
        forall|i: int| 0 <= i < paths.len() ==> (#[trigger] paths[i]).ignored,
    ensures
        plan_of(paths, files, rules).rels == Set::<Seq<char>>::empty(),
    decreases paths.len(),
{
    if paths.len() > 0 {
        let rest = paths.drop_last();
        assert forall|i: int| 0 <= i < rest.len() implies (#[trigger] rest[i]).ignored by {
            assert(rest[i] == paths[i]);
        }
        law_own_changes_are_not_queued(rest, files, rules);
        assert(paths[paths.len() - 1] == paths.last());
    }
}

/// Where a directory is gone, every file of the snapshot below it is looked at.
pub proof fn law_gone_directory_concerns_its_files(
    path: ChangedView,
    ps: Seq<Part>,
    files: Map<Seq<char>, MetaView>,
    rules: RulesView,
    file: Seq<char>,
)
    requires
        path.rel == Some(ps),
        goes_down(ps),
        !path.is_dir,
        !path.exists_now,
        files.contains_key(file),
        (join(names_of(ps), seq!['/']) + seq!['/']).is_prefix_of(file),
    ensures
        known_paths(path, files, rules).contains(file),
{
    assert(covers(join(names_of(ps), seq!['/']), file));
}

/// A plan grows with the paths: what one path concerns stays in it whatever follows.
pub proof fn law_plan_grows(
    paths: Seq<ChangedView>,
    n: int,
    files: Map<Seq<char>, MetaView>,
    rules: RulesView,
)
    requires
        0 <= n <= paths.len(),
    ensures
        plan_of(paths.take(n), files, rules).rels.subset_of(plan_of(paths, files, rules).rels),
        plan_of(paths.take(n), files, rules).app_written.subset_of(
            plan_of(paths, files, rules).app_written,
        ),
    decreases paths.len() - n,
{
    if n < paths.len() {
        law_plan_grows(paths, n + 1, files, rules);
        assert(paths.take(n + 1).drop_last() =~= paths.take(n));
    } else {
        assert(paths.take(n) =~= paths);
    }
}

/// Every watched file that is found is looked at in a rescan.
pub proof fn law_rescan_looks_at_watched_files(
    found: Seq<FoundView>,
    paths: Seq<KnownPath>,
    rules: RulesView,
    i: int,
)
    requires
        0 <= i < found.len(),
        watch_path(found[i].rel, rules, found[i].exists_now, found[i].size) is Some,
    ensures
        rescanned(found, paths, rules).contains(
            watch_path(found[i].rel, rules, found[i].exists_now, found[i].size)->0,
        ),
{
    lemma_found(found, rules, i);
}

/// Every file of the snapshot that is gone is looked at in a rescan.
pub proof fn law_rescan_looks_at_gone_files(
    found: Seq<FoundView>,
    paths: Seq<KnownPath>,
    rules: RulesView,
    k: int,
)
    requires
        0 <= k < paths.len(),
        !paths[k].exists_now,
    ensures
        rescanned(found, paths, rules).contains(paths[k].rel@),
{
    lemma_gone(paths, k);
}

/// A watched file that was found is in the set.
proof fn lemma_found(found: Seq<FoundView>, rules: RulesView, i: int)
    requires
        0 <= i < found.len(),
        watch_path(found[i].rel, rules, found[i].exists_now, found[i].size) is Some,
    ensures
        found_set(found, rules, false).contains(
            watch_path(found[i].rel, rules, found[i].exists_now, found[i].size)->0,
        ),
    decreases found.len(),
{
    if i < found.len() - 1 {
        assert(found.drop_last()[i] == found[i]);
        lemma_found(found.drop_last(), rules, i);
    }
}

/// A file of the snapshot that is gone is in the set.
proof fn lemma_gone(paths: Seq<KnownPath>, k: int)
    requires
        0 <= k < paths.len(),
        !paths[k].exists_now,
    ensures
        gone(paths).contains(paths[k].rel@),
    decreases paths.len(),
{
    if k < paths.len() - 1 {
        assert(paths.drop_last()[k] == paths[k]);
        lemma_gone(paths.drop_last(), k);
    }
}

} // verus!
