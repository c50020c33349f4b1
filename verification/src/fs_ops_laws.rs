//! What holds of the tree of a directory, whatever is in it.

use vstd::prelude::*;

use crate::fs_ops::{
    arranged, first_error, is_node, is_office, is_tree, is_visible, law_arranged,
    lower_extension, precedes, tree_error, FileNode, RawDir, RawEntry,
};
use crate::order::before;
use crate::text::lowercase;

verus! {

/// Whether an entry has a name that is text and does not begin with a dot.
pub open spec fn has_plain_name(entry: RawEntry) -> bool {
    entry.name matches Some(name) && (name@.len() == 0 || name@[0] != '.')
}

/// What is shown of a directory are the entries whose names do not begin with a dot, all of them
/// and no others. Directories stand before files, and among either those whose names come first
/// stand first.
pub proof fn law_entries_are_shown_in_order(entries: Seq<RawEntry>)
    ensures
        ({
            let shown = arranged(entries);
            &&& shown.to_multiset() == entries.filter(
                |e: RawEntry| has_plain_name(e),
            ).to_multiset()
            &&& forall|i: int| 0 <= i < shown.len() ==> has_plain_name(#[trigger] shown[i])
            &&& forall|i: int, j: int|
                0 <= i < j < shown.len() && (#[trigger] shown[j]).dir is Some ==> (
                #[trigger] shown[i]).dir is Some
            &&& forall|i: int, j: int|
                0 <= i < j < shown.len() && (#[trigger] shown[i]).dir is Some == (
                #[trigger] shown[j]).dir is Some ==> !before(shown[j].name->0@, shown[i].name->0@)
        }),
{
    law_arranged(entries);
    let shown = arranged(entries);
    let f = |e: RawEntry| is_visible(e);
    let g = |e: RawEntry| has_plain_name(e);
    assert(f =~= g);
    let kept = entries.filter(g);
    assert forall|i: int| 0 <= i < shown.len() implies has_plain_name(#[trigger] shown[i]) by {
        shown.to_multiset_ensures();
        kept.to_multiset_ensures();
        assert(shown.contains(shown[i]));
        assert(shown.to_multiset().count(shown[i]) > 0);
        assert(kept.to_multiset().count(shown[i]) > 0);
        assert(kept.contains(shown[i]));
        let k = choose|k: int| 0 <= k < kept.len() && kept[k] == shown[i];
        entries.lemma_filter_pred(g, k);
    }
    assert forall|i: int, j: int| 0 <= i < j < shown.len() && (#[trigger] shown[j]).dir
        is Some implies (#[trigger] shown[i]).dir is Some by {
        assert(!precedes(shown[j], shown[i]));
    }
    assert forall|i: int, j: int|
        0 <= i < j < shown.len() && (#[trigger] shown[i]).dir is Some == (
        #[trigger] shown[j]).dir is Some implies !before(
        shown[j].name->0@,
        shown[i].name->0@,
    ) by {
        assert(!precedes(shown[j], shown[i]));
        assert(has_plain_name(shown[i]) && has_plain_name(shown[j]));
    }
}

/// The tree of a directory has one node for each entry that is shown, in their order: with its
/// name, its path with slashes for backslashes, and whether it is a directory. Below the node of
/// a directory is the tree of that, one level deeper; where that is empty, and below a file, is
/// nothing. Nothing is below the greatest depth.
pub proof fn law_tree_of_a_directory(
    nodes: Seq<FileNode>,
    dir: RawDir,
    depth: nat,
    max_depth: nat,
    i: int,
)
    requires
        is_tree(nodes, dir, depth, max_depth),
    ensures
        depth >= max_depth ==> nodes.len() == 0,
        depth < max_depth ==> dir.entries is Ok && nodes.len() == arranged(
            dir.entries->Ok_0@,
        ).len(),
        depth < max_depth && 0 <= i < nodes.len() ==> {
            let entry = arranged(dir.entries->Ok_0@)[i];
            let node = nodes[i];
            &&& node.name@ == entry.name->0@
            &&& node.path@.len() == entry.path@.len()
            &&& forall|k: int|
                0 <= k < node.path@.len() ==> #[trigger] node.path@[k] == if entry.path@[k]
                    == '\\' {
                    '/'
                } else {
                    entry.path@[k]
                }
            &&& node.is_dir <==> entry.dir is Some
            &&& entry.dir is None ==> node.children is None
            &&& entry.dir is Some && node.children is Some ==> node.children->0@.len() > 0
                && is_tree(node.children->0@, entry.dir->0, depth + 1, max_depth)
            &&& entry.dir is Some && node.children is None ==> is_tree(
                Seq::empty(),
                entry.dir->0,
                depth + 1,
                max_depth,
            )
        },
{
    if depth < max_depth && 0 <= i < nodes.len() {
        let shown = arranged(dir.entries->Ok_0@);
        assert(is_node(nodes[i], shown[i], depth, max_depth));
        law_entries_are_shown_in_order(dir.entries->Ok_0@);
        assert(has_plain_name(shown[i]));
    }
}

/// A directory that cannot be read is told by its path and the reason, unless it lies too deep to
/// be read at all.
pub proof fn law_unreadable_directory_is_told(
    dir: RawDir,
    why: String,
    depth: nat,
    max_depth: nat,
)
    requires
        dir.entries == Err::<Vec<RawEntry>, String>(why),
    ensures
        depth < max_depth ==> tree_error(dir, depth, max_depth) == Some(
            "Failed to read directory '"@ + dir.path@ + "': "@ + why@,
        ),
        depth >= max_depth ==> tree_error(dir, depth, max_depth) is None,
{
}

/// What went wrong with a directory that can be read is what went wrong with the first in it with
/// which something did, in the order in which they are shown; nothing where nothing did.
pub proof fn law_first_failure_is_told(
    entries: Seq<RawEntry>,
    depth: nat,
    max_depth: nat,
    i: int,
)
    requires
        depth < max_depth,
        0 <= i <= entries.len(),
        forall|j: int|
            0 <= j < i && (#[trigger] entries[j]).dir is Some ==> tree_error(
                entries[j].dir->0,
                depth + 1,
                max_depth,
            ) is None,
        i < entries.len() ==> entries[i].dir is Some && tree_error(
            entries[i].dir->0,
            depth + 1,
            max_depth,
        ) is Some,
    ensures
        i < entries.len() ==> first_error(entries, depth, max_depth) == tree_error(
            entries[i].dir->0,
            depth + 1,
            max_depth,
        ),
        i == entries.len() ==> first_error(entries, depth, max_depth) is None,
    decreases entries.len(),
{
    if entries.len() > 0 {
        let rest = entries.drop_last();
        let k = if i < rest.len() {
            i
        } else {
            rest.len() as int
        };
        assert forall|j: int| 0 <= j < k && (#[trigger] rest[j]).dir is Some implies tree_error(
            rest[j].dir->0,
            depth + 1,
            max_depth,
        ) is None by {
            assert(entries[j] == rest[j]);
        }
        if i < rest.len() {
            assert(rest[i] == entries[i]);
        }
        law_first_failure_is_told(rest, depth, max_depth, k);
        assert(entries[entries.len() - 1] == entries.last());
    }
}

/// A directory that can be read fails as what is shown in it does.
pub proof fn law_failure_of_a_readable_directory(dir: RawDir, depth: nat, max_depth: nat)
    requires
        dir.entries is Ok,
        depth < max_depth,
    ensures
        tree_error(dir, depth, max_depth) == first_error(
            arranged(dir.entries->Ok_0@),
            depth,
            max_depth,
        ),
{
}

/// The documents that text is taken out of by their extensions, which are compared in lower case.
pub proof fn law_office_documents(ext: Seq<char>)
    ensures
        is_office(ext) <==> seq![
            "doc"@,
            "docx"@,
            "odp"@,
            "ods"@,
            "odt"@,
            "pptx"@,
            "xls"@,
            "xlsx"@,
        ].contains(ext),
        lower_extension(Some(ext)) == lowercase(ext),
{
    let all = seq![
        "doc"@,
        "docx"@,
        "odp"@,
        "ods"@,
        "odt"@,
        "pptx"@,
        "xls"@,
        "xlsx"@,
    ];
    assert(all[0] == "doc"@ && all[1] == "docx"@ && all[2] == "odp"@ && all[3] == "ods"@);
    assert(all[4] == "odt"@ && all[5] == "pptx"@ && all[6] == "xls"@ && all[7] == "xlsx"@);
}

} // verus!
