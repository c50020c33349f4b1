//! What holds of which files are looked at after a change, whatever changed.

use vstd::prelude::*;

use crate::paths::{names_of, Platform};
use crate::plan::{
    any_covers, found_set, gone, gone_below, known_paths, looks_changed, plan_of, plan_with,
    rescanned, seen_changed, ChangedView, FoundView, KnownPath,
};
use crate::queue::{fast_meta_of, FileStat, MetaView};
use crate::sync::{covers, is_covered, marked, unexpired};
use crate::text::join;
use crate::watch::{is_watched, watch_path, RulesView};
use crate::watcher::{
    following, handled_by, is_rescan_due, pending_after, step_after, SyncStage, WorkerEvent,
};

verus! {

/// A path covers itself and whatever lies below it, and nothing else: not a path that merely
/// begins alike.
pub proof fn law_what_a_path_covers(prefix: Seq<char>, path: Seq<char>)
    ensures
        covers(prefix, path) <==> path == prefix || exists|rest: Seq<char>|
            path == #[trigger] (prefix.push('/') + rest),
{
    let edge = prefix + seq!['/'];
    if edge.is_prefix_of(path) {
        let rest = path.skip(edge.len() as int);
        assert(path =~= prefix.push('/') + rest) by {
            assert forall|k: int| 0 <= k < edge.len() implies path[k] == edge[k] by {
                assert(path.subrange(0, edge.len() as int)[k] == edge[k]);
            }
        }
    }
    if exists|rest: Seq<char>| path == #[trigger] (prefix.push('/') + rest) {
        let rest = choose|rest: Seq<char>| path == #[trigger] (prefix.push('/') + rest);
        assert(path.subrange(0, edge.len() as int) =~= edge);
    }
}

/// Whether the file that was found is watched by that path.
pub open spec fn is_found_as(f: FoundView, rules: RulesView, path: Seq<char>) -> bool {
    watch_path(f.rel, rules, f.exists_now, f.size) == Some(path)
}

/// The watched paths among the files that were found are those by which one of the files is
/// watched, but for those that the application wrote where these are left out.
pub proof fn law_watched_files_that_were_found(
    found: Seq<FoundView>,
    rules: RulesView,
    but_own: bool,
    path: Seq<char>,
)
    ensures
        found_set(found, rules, but_own).contains(path) <==> exists|i: int|
            0 <= i < found.len() && is_found_as(#[trigger] found[i], rules, path) && !(but_own
                && found[i].ignored),
    decreases found.len(),
{
    if found.len() > 0 {
        let rest = found.drop_last();
        let last = found.last();
        law_watched_files_that_were_found(rest, rules, but_own, path);
        assert(found[found.len() - 1] == last);
        if found_set(rest, rules, but_own).contains(path) {
            let i = choose|i: int|
                0 <= i < rest.len() && is_found_as(#[trigger] rest[i], rules, path) && !(but_own
                    && rest[i].ignored);
            assert(found[i] == rest[i]);
        }
        if exists|i: int|
            0 <= i < found.len() && is_found_as(#[trigger] found[i], rules, path) && !(but_own
                && found[i].ignored) {
            let i = choose|i: int|
                0 <= i < found.len() && is_found_as(#[trigger] found[i], rules, path) && !(but_own
                    && found[i].ignored);
            if i < rest.len() {
                assert(rest[i] == found[i]);
            }
        }
    }
}

/// Whether the change of a path concerns the file: a directory those in it that are watched; a
/// path at which something is, the file itself if it is watched; and one at which nothing is any
/// more, every file that was known at it or below it.
pub open spec fn concerns(
    path: ChangedView,
    files: Map<Seq<char>, MetaView>,
    rules: RulesView,
    file: Seq<char>,
) -> bool {
    if path.is_dir {
        exists|i: int|
            0 <= i < path.found.len() && is_found_as(#[trigger] path.found[i], rules, file)
    } else {
        path.rel matches Some(ps) && {
            let rel = join(names_of(ps), seq!['/']);
            &&& forall|i: int|
                0 <= i < ps.len() ==> (#[trigger] ps[i] is Normal || ps[i] is CurDir)
            &&& if path.exists_now {
                file == rel && is_watched(rel, rules)
            } else {
                files.dom().contains(file) && covers(rel, file)
            }
        }
    }
}

/// The files that a change concerns are those, and no others.
pub proof fn law_what_a_change_concerns(
    path: ChangedView,
    files: Map<Seq<char>, MetaView>,
    rules: RulesView,
    file: Seq<char>,
)
    ensures
        known_paths(path, files, rules).contains(file) <==> concerns(path, files, rules, file),
{
    if path.is_dir {
        law_watched_files_that_were_found(path.found, rules, false, file);
        if known_paths(path, files, rules).contains(file) {
            let i = choose|i: int|
                0 <= i < path.found.len() && is_found_as(#[trigger] path.found[i], rules, file)
                    && !(false && path.found[i].ignored);
            assert(is_found_as(path.found[i], rules, file));
        }
    } else if path.rel is Some {
        let ps = path.rel->0;
        let rel = join(names_of(ps), seq!['/']);
        let below = files.dom().filter(|k: Seq<char>| covers(rel, k));
        assert(below.contains(file) == (files.dom().contains(file) && covers(rel, file)));
    }
}

/// Whether one changed path asks for a look at the file. What the application wrote itself does
/// not; of a directory every watched file in it does that the application did not write; a
/// watched file does itself; and one that is gone and not watched does for all that was known at
/// it or below it.
pub open spec fn asks_for(
    path: ChangedView,
    files: Map<Seq<char>, MetaView>,
    rules: RulesView,
    file: Seq<char>,
) -> bool {
    &&& !path.ignored
    &&& if path.is_dir {
        exists|i: int|
            0 <= i < path.found.len() && is_found_as(#[trigger] path.found[i], rules, file)
                && !path.found[i].ignored
    } else {
        match watch_path(path.rel, rules, path.exists_now, path.size) {
            Some(own) => file == own,
            None => !path.exists_now && concerns(path, files, rules, file),
        }
    }
}

/// After changes the files are looked at that one of the changed paths asks for, and no others;
/// and what the application wrote itself is taken into the snapshot, and nothing else.
pub proof fn law_which_files_are_looked_at(
    paths: Seq<ChangedView>,
    files: Map<Seq<char>, MetaView>,
    rules: RulesView,
    file: Seq<char>,
)
    ensures
        plan_of(paths, files, rules).rels.contains(file) <==> exists|i: int|
            0 <= i < paths.len() && asks_for(#[trigger] paths[i], files, rules, file),
        plan_of(paths, files, rules).app_written.contains(file) <==> exists|i: int|
            0 <= i < paths.len() && (#[trigger] paths[i]).ignored && concerns(
                paths[i],
                files,
                rules,
                file,
            ),
    decreases paths.len(),
{
    if paths.len() > 0 {
        let rest = paths.drop_last();
        let last = paths.last();
        let plan = plan_of(rest, files, rules);
        law_which_files_are_looked_at(rest, files, rules, file);
        law_what_a_change_concerns(last, files, rules, file);
        law_watched_files_that_were_found(last.found, rules, true, file);
        assert(paths[paths.len() - 1] == last);
        let next = plan_with(plan, last, files, rules);
        assert(next.rels.contains(file) == (plan.rels.contains(file) || asks_for(
            last,
            files,
            rules,
            file,
        ))) by {
            if last.is_dir && !last.ignored {
                if found_set(last.found, rules, true).contains(file) {
                    let i = choose|i: int|
                        0 <= i < last.found.len() && is_found_as(
                            #[trigger] last.found[i],
                            rules,
                            file,
                        ) && !(true && last.found[i].ignored);
                    assert(is_found_as(last.found[i], rules, file));
                }
            }
        }
        assert(next.app_written.contains(file) == (plan.app_written.contains(file) || (last.ignored
            && concerns(last, files, rules, file))));
        if plan.rels.contains(file) {
            let i = choose|i: int|
                0 <= i < rest.len() && asks_for(#[trigger] rest[i], files, rules, file);
            assert(paths[i] == rest[i]);
        }
        if plan.app_written.contains(file) {
            let i = choose|i: int|
                0 <= i < rest.len() && (#[trigger] rest[i]).ignored && concerns(
                    rest[i],
                    files,
                    rules,
                    file,
                );
            assert(paths[i] == rest[i]);
        }
        if exists|i: int|
            0 <= i < paths.len() && asks_for(#[trigger] paths[i], files, rules, file) {
            let i = choose|i: int|
                0 <= i < paths.len() && asks_for(#[trigger] paths[i], files, rules, file);
            if i < rest.len() {
                assert(rest[i] == paths[i]);
            }
        }
        if exists|i: int|
            0 <= i < paths.len() && (#[trigger] paths[i]).ignored && concerns(
                paths[i],
                files,
                rules,
                file,
            ) {
            let i = choose|i: int|
                0 <= i < paths.len() && (#[trigger] paths[i]).ignored && concerns(
                    paths[i],
                    files,
                    rules,
                    file,
                );
            if i < rest.len() {
                assert(rest[i] == paths[i]);
            }
        }
    }
}

/// A rescan looks at the files that are watched and at those that were known and are gone, and
/// at no others.
pub proof fn law_which_files_a_rescan_looks_at(
    found: Seq<FoundView>,
    paths: Seq<KnownPath>,
    rules: RulesView,
    file: Seq<char>,
)
    ensures
        rescanned(found, paths, rules).contains(file) <==> {
            ||| exists|i: int| 0 <= i < found.len() && is_found_as(#[trigger] found[i], rules, file)
            ||| exists|k: int|
                0 <= k < paths.len() && (#[trigger] paths[k]).rel@ == file && !paths[k].exists_now
        },
{
    law_watched_files_that_were_found(found, rules, false, file);
    lemma_gone_files(paths, file);
    if found_set(found, rules, false).contains(file) {
        let i = choose|i: int|
            0 <= i < found.len() && is_found_as(#[trigger] found[i], rules, file) && !(false
                && found[i].ignored);
        assert(is_found_as(found[i], rules, file));
    }
}

/// The files that are gone are those of the paths that are.
proof fn lemma_gone_files(paths: Seq<KnownPath>, file: Seq<char>)
    ensures
        gone(paths).contains(file) <==> exists|k: int|
            0 <= k < paths.len() && (#[trigger] paths[k]).rel@ == file && !paths[k].exists_now,
    decreases paths.len(),
{
    if paths.len() > 0 {
        let rest = paths.drop_last();
        lemma_gone_files(rest, file);
        assert(paths[paths.len() - 1] == paths.last());
        if gone(rest).contains(file) {
            let k = choose|k: int|
                0 <= k < rest.len() && (#[trigger] rest[k]).rel@ == file && !rest[k].exists_now;
            assert(paths[k] == rest[k]);
        }
        if exists|k: int|
            0 <= k < paths.len() && (#[trigger] paths[k]).rel@ == file && !paths[k].exists_now {
            let k = choose|k: int|
                0 <= k < paths.len() && (#[trigger] paths[k]).rel@ == file && !paths[k].exists_now;
            if k < rest.len() {
                assert(rest[k] == paths[k]);
            }
        }
    }
}

/// A quick rescan looks at the files that were known below one of the prefixes and are gone.
pub proof fn law_gone_files_below_the_prefixes(
    paths: Seq<KnownPath>,
    prefixes: Seq<Seq<char>>,
    file: Seq<char>,
)
    ensures
        gone_below(paths, prefixes).contains(file) <==> (exists|k: int|
            0 <= k < paths.len() && (#[trigger] paths[k]).rel@ == file && !paths[k].exists_now) && (
        exists|i: int| 0 <= i < prefixes.len() && covers(#[trigger] prefixes[i], file)),
    decreases paths.len(),
{
    if paths.len() > 0 {
        let rest = paths.drop_last();
        law_gone_files_below_the_prefixes(rest, prefixes, file);
        assert(paths[paths.len() - 1] == paths.last());
        if exists|k: int|
            0 <= k < rest.len() && (#[trigger] rest[k]).rel@ == file && !rest[k].exists_now {
            let k = choose|k: int|
                0 <= k < rest.len() && (#[trigger] rest[k]).rel@ == file && !rest[k].exists_now;
            assert(paths[k] == rest[k]);
        }
        if exists|k: int|
            0 <= k < paths.len() && (#[trigger] paths[k]).rel@ == file && !paths[k].exists_now {
            let k = choose|k: int|
                0 <= k < paths.len() && (#[trigger] paths[k]).rel@ == file && !paths[k].exists_now;
            if k < rest.len() {
                assert(rest[k] == paths[k]);
            }
        }
        assert(any_covers(prefixes, file) == exists|i: int|
            0 <= i < prefixes.len() && covers(#[trigger] prefixes[i], file));
    }
}

/// Whether a file that is there, or not, is another than was known by its size or the time when
/// it was modified.
pub open spec fn looks_other(known: Option<MetaView>, stat: Option<FileStat>) -> bool {
    let there = stat is Some && stat->0.is_file;
    ||| known is Some != there
    ||| known is Some && there && (known->0.size != stat->0.size || known->0.mtime_ms
        != stat->0.mtime())
}

/// A file looks changed if it came or went, or has another size or another time.
pub proof fn law_when_a_file_looks_changed(known: Option<MetaView>, stat: Option<FileStat>)
    ensures
        looks_changed(known, fast_meta_of(stat)) <==> looks_other(known, stat),
{
}

/// What is known of the file, if anything.
pub open spec fn known_of(files: Map<Seq<char>, MetaView>, file: Seq<char>) -> Option<MetaView> {
    if files.dom().contains(file) {
        Some(files[file])
    } else {
        None
    }
}

/// A quick rescan looks at the watched files that look changed, and at no others, as long as the
/// system tells of every watched file; and else fails with what it said of the first that it does
/// not tell of.
pub proof fn law_files_that_look_changed(
    found: Seq<FoundView>,
    files: Map<Seq<char>, MetaView>,
    rules: RulesView,
    file: Seq<char>,
)
    ensures
        (forall|i: int|
            0 <= i < found.len() && watch_path(
                (#[trigger] found[i]).rel,
                rules,
                found[i].exists_now,
                found[i].size,
            ) is Some ==> found[i].stat is Ok) ==> {
            &&& seen_changed(found, files, rules) is Ok
            &&& seen_changed(found, files, rules)->Ok_0.contains(file) <==> exists|i: int|
                0 <= i < found.len() && is_found_as(#[trigger] found[i], rules, file)
                    && looks_other(known_of(files, file), found[i].stat->Ok_0)
        },
    decreases found.len(),
{
    if found.len() > 0 {
        let rest = found.drop_last();
        let last = found.last();
        law_files_that_look_changed(rest, files, rules, file);
        assert(found[found.len() - 1] == last);
        if forall|i: int|
            0 <= i < found.len() && watch_path(
                (#[trigger] found[i]).rel,
                rules,
                found[i].exists_now,
                found[i].size,
            ) is Some ==> found[i].stat is Ok {
            assert forall|i: int|
                0 <= i < rest.len() && watch_path(
                    (#[trigger] rest[i]).rel,
                    rules,
                    rest[i].exists_now,
                    rest[i].size,
                ) is Some implies rest[i].stat is Ok by {
                assert(found[i] == rest[i]);
            }
            let before = seen_changed(rest, files, rules)->Ok_0;
            if before.contains(file) {
                let i = choose|i: int|
                    0 <= i < rest.len() && is_found_as(#[trigger] rest[i], rules, file)
                        && looks_other(known_of(files, file), rest[i].stat->Ok_0);
                assert(found[i] == rest[i]);
            }
            if exists|i: int|
                0 <= i < found.len() && is_found_as(#[trigger] found[i], rules, file)
                    && looks_other(known_of(files, file), found[i].stat->Ok_0) {
                let i = choose|i: int|
                    0 <= i < found.len() && is_found_as(#[trigger] found[i], rules, file)
                        && looks_other(known_of(files, file), found[i].stat->Ok_0);
                if i < rest.len() {
                    assert(rest[i] == found[i]);
                }
            }
        }
    }
}

/// A file that the system does not tell of ends a quick rescan with what it said, if it is
/// watched and the first such.
pub proof fn law_first_untold_file_ends_the_rescan(
    found: Seq<FoundView>,
    files: Map<Seq<char>, MetaView>,
    rules: RulesView,
    i: int,
)
    requires
        0 <= i < found.len(),
        watch_path(found[i].rel, rules, found[i].exists_now, found[i].size) is Some,
        found[i].stat is Err,
        forall|j: int|
            0 <= j < i && watch_path(
                (#[trigger] found[j]).rel,
                rules,
                found[j].exists_now,
                found[j].size,
            ) is Some ==> found[j].stat is Ok,
    ensures
        seen_changed(found, files, rules) == Err::<Set<Seq<char>>, Seq<char>>(found[i].stat->Err_0),
    decreases found.len(),
{
    let rest = found.drop_last();
    if i < rest.len() {
        assert forall|j: int|
            0 <= j < i && watch_path(
                (#[trigger] rest[j]).rel,
                rules,
                rest[j].exists_now,
                rest[j].size,
            ) is Some implies rest[j].stat is Ok by {
            assert(found[j] == rest[j]);
        }
        assert(rest[i] == found[i]);
        law_first_untold_file_ends_the_rescan(rest, files, rules, i);
    } else {
        assert forall|j: int|
            0 <= j < rest.len() && watch_path(
                (#[trigger] rest[j]).rel,
                rules,
                rest[j].exists_now,
                rest[j].size,
            ) is Some implies rest[j].stat is Ok by {
            assert(found[j] == rest[j]);
        }
        law_files_that_look_changed(rest, files, rules, Seq::empty());
        assert(found[found.len() - 1] == found.last());
    }
}

/// A path that the application wrote is passed over for four seconds, and with it all that lies
/// below it. Other paths are passed over as long as they were, and none for longer.
pub proof fn law_what_was_written_is_passed_over_for_a_while(
    m: Map<Seq<char>, i64>,
    key: Seq<char>,
    other: Seq<char>,
    path: Seq<char>,
    now: i64,
    later: i64,
)
    requires
        now <= later,
        now <= i64::MAX - 4000,
        other != key,
    ensures
        ({
            let left = unexpired(marked(m, key, now), later);
            &&& left.contains_key(key) <==> later < now + 4000
            &&& left.contains_key(other) <==> m.contains_key(other) && later < m[other]
            &&& left.contains_key(other) ==> left[other] == m[other]
            &&& is_covered(left, path) <==> exists|k: Seq<char>| #[trigger]
                left.contains_key(k) && (path == k || exists|rest: Seq<char>|
                    path == #[trigger] (k.push('/') + rest))
        }),
{
    let left = unexpired(marked(m, key, now), later);
    assert forall|k: Seq<char>| #[trigger] covers(k, path) == (path == k || exists|rest: Seq<char>|
        path == #[trigger] (k.push('/') + rest)) by {
        law_what_a_path_covers(k, path);
    }
    if is_covered(left, path) {
        let k = choose|k: Seq<char>| left.contains_key(k) && #[trigger] covers(k, path);
        law_what_a_path_covers(k, path);
        assert(left.contains_key(k));
    }
    if exists|k: Seq<char>| #[trigger]
        left.contains_key(k) && (path == k || exists|rest: Seq<char>|
            path == #[trigger] (k.push('/') + rest)) {
        let k = choose|k: Seq<char>| #[trigger]
            left.contains_key(k) && (path == k || exists|rest: Seq<char>|
                path == #[trigger] (k.push('/') + rest));
        law_what_a_path_covers(k, path);
        assert(covers(k, path));
    }
}

/// Files are looked at again on Linux, ten seconds after the last look and later.
pub proof fn law_when_files_are_looked_at_again(platform: Platform, now: i64, last: i64)
    ensures
        is_rescan_due(platform, now, last) <==> platform == Platform::Linux && now >= last + 10_000,
{
}

/// What a watcher does after each stage. It stops as soon as it is not active, but that it records
/// what the application wrote, and reads the queue again that it worked off.
pub proof fn law_what_a_watcher_does_next(own: bool, others: bool, active: bool, g: u64)
    ensures
        step_after(SyncStage::Noticed, active) is Plan <==> active,
        step_after(SyncStage::Planned { own, others }, active) is Record <==> own,
        step_after(SyncStage::Planned { own, others }, active) is Enter <==> !own && others
            && active,
        step_after(SyncStage::Recorded { others }, active) is Enter <==> others && active,
        step_after(SyncStage::Entered, active) is WorkOff <==> active,
        step_after(SyncStage::WorkedOff, active) is Reread,
        step_after(SyncStage::Reread, active) is Tell <==> active,
        step_after(SyncStage::Noticed, false) is Stop,
        step_after(SyncStage::Planned { own: false, others: false }, active) is Stop,
        step_after(SyncStage::Planned { own: false, others }, false) is Stop,
        step_after(SyncStage::Recorded { others: false }, active) is Stop,
        step_after(SyncStage::Recorded { others }, false) is Stop,
        step_after(SyncStage::Entered, false) is Stop,
        step_after(SyncStage::Reread, false) is Stop,
        following(g) != g,
        g < u64::MAX ==> following(g) == g + 1,
{
}

/// What waits to be handled after several events.
pub open spec fn waiting_after(pending: Set<Seq<char>>, events: Seq<WorkerEvent>) -> Set<Seq<char>>
    decreases events.len(),
{
    if events.len() == 0 {
        pending
    } else {
        pending_after(waiting_after(pending, events.drop_last()), events.last())
    }
}

/// Paths that changed are handled together once nothing came for a while: all that were told of
/// since they were last handled, and no others. Then none is left to be handled.
pub proof fn law_changed_paths_are_handled_together(
    pending: Set<Seq<char>>,
    events: Seq<WorkerEvent>,
    path: Seq<char>,
)
    requires
        forall|i: int| 0 <= i < events.len() ==> !(#[trigger] events[i] is Quiet),
    ensures
        handled_by(waiting_after(pending, events), WorkerEvent::Quiet).contains(path) <==> {
            ||| pending.contains(path)
            ||| exists|i: int|
                0 <= i < events.len() && #[trigger] events[i] is Changed && events[i]->Changed_0@
                    == path
        },
        pending_after(waiting_after(pending, events), WorkerEvent::Quiet) == Set::<
            Seq<char>,
        >::empty(),
    decreases events.len(),
{
    if events.len() > 0 {
        let rest = events.drop_last();
        assert forall|i: int| 0 <= i < rest.len() implies !(#[trigger] rest[i] is Quiet) by {
            assert(events[i] == rest[i]);
        }
        law_changed_paths_are_handled_together(pending, rest, path);
        assert(events[events.len() - 1] == events.last());
        if exists|i: int|
            0 <= i < rest.len() && #[trigger] rest[i] is Changed && rest[i]->Changed_0@ == path {
            let i = choose|i: int|
                0 <= i < rest.len() && #[trigger] rest[i] is Changed && rest[i]->Changed_0@ == path;
            assert(events[i] == rest[i]);
        }
        if exists|i: int|
            0 <= i < events.len() && #[trigger] events[i] is Changed && events[i]->Changed_0@
                == path {
            let i = choose|i: int|
                0 <= i < events.len() && #[trigger] events[i] is Changed && events[i]->Changed_0@
                    == path;
            if i < rest.len() {
                assert(rest[i] == events[i]);
            }
        }
    }
}

} // verus!
