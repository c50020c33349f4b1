//! The tree of files below a directory, and what is made of a file before it is read.

use vstd::prelude::*;

use crate::order::{
    before, is_before, lemma_before_irreflexive, lemma_before_total, lemma_before_transitive,
};
use crate::text::{
    chars_of, concat, concat3, eq, lowercase, opt_text, replace, replace_char, text_of, to_lowercase,
};

verus! {

/// What went wrong with a directory or a file.
#[derive(Debug)]
pub enum FsOpsError {
    Io(String),
    NotFound(String),
    InvalidArgument(String),
    Join(String),
    Internal(String),
}

impl FsOpsError {
    /// The text that the error is shown by.
    pub open spec fn shown(self) -> Seq<char> {
        match self {
            FsOpsError::Io(s) => "io error: "@ + s@,
            FsOpsError::NotFound(s) => "not found: "@ + s@,
            FsOpsError::InvalidArgument(s) => "invalid argument: "@ + s@,
            FsOpsError::Join(s) => "blocking task panicked: "@ + s@,
            FsOpsError::Internal(s) => "internal: "@ + s@,
        }
    }

    /// The text that the error is shown by.
    pub fn message(&self) -> (r: String)
        ensures
            r@ == self.shown(),
    {
        match self {
            FsOpsError::Io(s) => concat("io error: ", s.as_str()),
            FsOpsError::NotFound(s) => concat("not found: ", s.as_str()),
            FsOpsError::InvalidArgument(s) => concat("invalid argument: ", s.as_str()),
            FsOpsError::Join(s) => concat("blocking task panicked: ", s.as_str()),
            FsOpsError::Internal(s) => concat("internal: ", s.as_str()),
        }
    }
}

/// A directory as it was read: its path, and its entries or why they could not be read.
#[derive(Debug)]
pub struct RawDir {
    pub path: String,
    pub entries: Result<Vec<RawEntry>, String>,
}

/// An entry of a directory: its name where that is text, its path, and what is in it where
/// it is a directory.
#[derive(Debug)]
pub struct RawEntry {
    pub name: Option<String>,
    pub path: String,
    pub dir: Option<RawDir>,
}

/// A file or directory in a tree. A directory in which nothing is shown has no children.
#[derive(Debug)]
pub struct FileNode {
    pub name: String,
    pub path: String,
    pub is_dir: bool,
    pub children: Option<Vec<FileNode>>,
}

/// The name of an entry, empty where it is not text.
pub open spec fn entry_name(entry: RawEntry) -> Seq<char> {
    match entry.name {
        Some(name) => name@,
        None => Seq::empty(),
    }
}

/// Whether an entry is shown: its name is text and does not begin with a dot.
pub open spec fn is_visible(entry: RawEntry) -> bool {
    match entry.name {
        Some(name) => !(name@.len() > 0 && name@[0] == '.'),
        None => false,
    }
}

/// Whether one entry is shown before another: directories first, then by name.
pub open spec fn precedes(a: RawEntry, b: RawEntry) -> bool {
    if a.dir is Some != b.dir is Some {
        a.dir is Some
    } else {
        before(entry_name(a), entry_name(b))
    }
}

/// The entries with one more, which stands before the first that it precedes.
pub open spec fn placed(s: Seq<RawEntry>, entry: RawEntry) -> Seq<RawEntry>
    decreases s.len(),
{
    if s.len() > 0 && precedes(entry, s.last()) {
        placed(s.drop_last(), entry).push(s.last())
    } else {
        s.push(entry)
    }
}

/// The entries that are shown, in the order in which they are shown.
pub open spec fn arranged(entries: Seq<RawEntry>) -> Seq<RawEntry>
    decreases entries.len(),
{
    if entries.len() == 0 {
        Seq::empty()
    } else {
        let rest = arranged(entries.drop_last());
        if is_visible(entries.last()) {
            placed(rest, entries.last())
        } else {
            rest
        }
    }
}

/// What is said of a directory that could not be read.
pub open spec fn unreadable(path: Seq<char>, why: Seq<char>) -> Seq<char> {
    "Failed to read directory '"@ + path + "': "@ + why
}

/// What went wrong in building the tree of a directory, if anything did.
pub open spec fn tree_error(dir: RawDir, depth: nat, max_depth: nat) -> Option<Seq<char>>
    decreases max_depth - depth, 1nat, 0nat,
{
    if depth >= max_depth {
        None
    } else {
        match dir.entries {
            Err(why) => Some(unreadable(dir.path@, why@)),
            Ok(entries) => first_error(arranged(entries@), depth, max_depth),
        }
    }
}

/// What went wrong with the first of the entries with which something did.
pub open spec fn first_error(entries: Seq<RawEntry>, depth: nat, max_depth: nat) -> Option<
    Seq<char>,
>
    decreases max_depth - depth, 0nat, entries.len(),
{
    if depth >= max_depth || entries.len() == 0 {
        None
    } else {
        match first_error(entries.drop_last(), depth, max_depth) {
            Some(e) => Some(e),
            None => match entries.last().dir {
                Some(dir) => tree_error(dir, depth + 1, max_depth),
                None => None,
            },
        }
    }
}

/// The nodes below a node.
pub open spec fn below(node: FileNode) -> Seq<FileNode> {
    match node.children {
        Some(children) => children@,
        None => Seq::empty(),
    }
}

/// Whether the nodes are the tree of the directory, `max_depth` levels deep at most.
pub open spec fn is_tree(nodes: Seq<FileNode>, dir: RawDir, depth: nat, max_depth: nat) -> bool
    decreases max_depth - depth, 1nat,
{
    if depth >= max_depth {
        nodes.len() == 0
    } else {
        match dir.entries {
            Err(_) => false,
            Ok(entries) => {
                let shown = arranged(entries@);
                &&& nodes.len() == shown.len()
                &&& forall|i: int|
                    0 <= i < nodes.len() ==> is_node(#[trigger] nodes[i], shown[i], depth, max_depth)
            },
        }
    }
}

/// Whether the node is that of the entry.
pub open spec fn is_node(node: FileNode, entry: RawEntry, depth: nat, max_depth: nat) -> bool
    decreases max_depth - depth, 0nat,
{
    &&& depth < max_depth
    &&& node.name@ == entry_name(entry)
    &&& node.path@ == replace_char(entry.path@, '\\', '/')
    &&& node.is_dir == (entry.dir is Some)
    &&& node.children is Some ==> below(node).len() > 0
    &&& match entry.dir {
        Some(dir) => is_tree(below(node), dir, depth + 1, max_depth),
        None => node.children is None,
    }
}

/// Whether one entry is shown before another.
fn entry_precedes(a: &RawEntry, b: &RawEntry) -> (r: bool)
    ensures
        r == precedes(*a, *b),
{
    if a.dir.is_some() != b.dir.is_some() {
        return a.dir.is_some();
    }
    is_before(shown_name(a).as_str(), shown_name(b).as_str())
}

/// The name of an entry, empty where it is not text.
fn shown_name(entry: &RawEntry) -> (r: String)
    ensures
        r@ == entry_name(*entry),
{
    match &entry.name {
        Some(name) => name.clone(),
        None => {
            proof {
                reveal_strlit("");
                assert(""@ =~= Seq::<char>::empty());
            }
            "".to_owned()
        },
    }
}

/// The entries at the given indices.
spec fn at(entries: Seq<RawEntry>, order: Seq<usize>) -> Seq<RawEntry> {
    order.map_values(|k: usize| entries[k as int])
}

/// An entry that precedes the last `n` of the others is placed before those.
proof fn lemma_placed(s: Seq<RawEntry>, entry: RawEntry, n: int)
    requires
        0 <= n <= s.len(),
        forall|j: int| n <= j < s.len() ==> precedes(entry, #[trigger] s[j]),
        n > 0 ==> !precedes(entry, s[n - 1]),
    ensures
        placed(s, entry) == s.insert(n, entry),
    decreases s.len(),
{
    if n < s.len() {
        let rest = s.drop_last();
        assert(precedes(entry, s[s.len() - 1]));
        assert forall|j: int| n <= j < rest.len() implies precedes(entry, #[trigger] rest[j]) by {
            assert(rest[j] == s[j]);
        }
        if n > 0 {
            assert(rest[n - 1] == s[n - 1]);
        }
        lemma_placed(rest, entry, n);
        assert(rest.insert(n, entry).push(s.last()) =~= s.insert(n, entry));
    } else {
        assert(s.insert(n, entry) =~= s.push(entry));
    }
}

/// The indices of the entries that are shown, in the order in which they are shown.
fn arrange(entries: &Vec<RawEntry>) -> (r: Vec<usize>)
    ensures
        forall|k: int| 0 <= k < r@.len() ==> #[trigger] r@[k] < entries@.len(),
        at(entries@, r@) == arranged(entries@),
{
    let mut order: Vec<usize> = Vec::new();
    let ghost all = entries@;
    let mut i: usize = 0;
    assert(at(all, order@) =~= arranged(all.take(0)));
    while i < entries.len()
        invariant
            i <= entries@.len(),
            all == entries@,
            forall|k: int| 0 <= k < order@.len() ==> #[trigger] order@[k] < all.len(),
            at(all, order@) == arranged(all.take(i as int)),
        decreases entries@.len() - i,
    {
        let entry = &entries[i];
        proof {
            assert(all.take(i as int + 1).drop_last() =~= all.take(i as int));
            assert(all.take(i as int + 1).last() == *entry);
        }
        let visible = match &entry.name {
            Some(name) => {
                let chars = chars_of(name.as_str());
                !(chars.len() > 0 && chars[0] == '.')
            },
            None => false,
        };
        if visible {
            let ghost s = at(all, order@);
            let mut n: usize = order.len();
            while n > 0 && entry_precedes(entry, &entries[order[n - 1]])
                invariant
                    n <= order@.len(),
                    all == entries@,
                    *entry == all[i as int],
                    s == at(all, order@),
                    forall|k: int| 0 <= k < order@.len() ==> #[trigger] order@[k] < all.len(),
                    forall|j: int| n <= j < s.len() ==> precedes(*entry, #[trigger] s[j]),
                decreases n,
            {
                assert(s[n - 1] == all[order@[n - 1] as int]);
                n -= 1;
            }
            proof {
                if n > 0 {
                    assert(s[n - 1] == all[order@[n - 1] as int]);
                }
                lemma_placed(s, *entry, n as int);
            }
            order.insert(n, i);
            assert(at(all, order@) =~= s.insert(n as int, *entry));
        }
        i += 1;
    }
    assert(all.take(i as int) =~= all);
    order
}

/// What went wrong with entries up to an index is what went wrong with all of them.
proof fn lemma_first_error(entries: Seq<RawEntry>, depth: nat, max_depth: nat, n: int)
    requires
        0 <= n <= entries.len(),
        first_error(entries.take(n), depth, max_depth) is Some,
    ensures
        first_error(entries, depth, max_depth) == first_error(entries.take(n), depth, max_depth),
    decreases entries.len() - n,
{
    if n == entries.len() {
        assert(entries.take(n) =~= entries);
    } else {
        assert(entries.take(n + 1).drop_last() =~= entries.take(n));
        lemma_first_error(entries, depth, max_depth, n + 1);
    }
}

/// The tree of a directory, without entries whose names begin with a dot, directories
/// before files and each by name, `max_depth` levels deep at most.
pub fn build_tree(dir: &RawDir, depth: usize, max_depth: usize) -> (r: Result<
    Vec<FileNode>,
    String,
>)
    ensures
        match r {
            Ok(nodes) => is_tree(nodes@, *dir, depth as nat, max_depth as nat) && tree_error(
                *dir,
                depth as nat,
                max_depth as nat,
            ) is None,
            Err(e) => tree_error(*dir, depth as nat, max_depth as nat) == Some(e@),
        },
    decreases max_depth - depth,
{
    let mut nodes: Vec<FileNode> = Vec::new();
    if depth >= max_depth {
        return Ok(nodes);
    }
    match &dir.entries {
        Err(why) => {
            let mut text = concat3("Failed to read directory '", dir.path.as_str(), "': ");
            text.append(why.as_str());
            Err(text)
        },
        Ok(entries) => {
            let order = arrange(entries);
            let ghost shown = arranged(entries@);
            let mut i: usize = 0;
            while i < order.len()
                invariant
                    depth < max_depth,
                    dir.entries == Ok::<Vec<RawEntry>, String>(*entries),
                    shown == arranged(entries@),
                    shown == at(entries@, order@),
                    i <= order@.len(),
                    forall|k: int| 0 <= k < order@.len() ==> #[trigger] order@[k] < entries@.len(),
                    nodes@.len() == i,
                    forall|j: int|
                        0 <= j < i ==> is_node(
                            #[trigger] nodes@[j],
                            shown[j],
                            depth as nat,
                            max_depth as nat,
                        ),
                    first_error(shown.take(i as int), depth as nat, max_depth as nat) is None,
                decreases order@.len() - i,
            {
                let entry = &entries[order[i]];
                proof {
                    assert(shown[i as int] == *entry);
                    assert(shown.take(i as int + 1).drop_last() =~= shown.take(i as int));
                    assert(shown.take(i as int + 1).last() == *entry);
                }
                let name = shown_name(entry);
                let path = text_of(
                    replace(chars_of(entry.path.as_str()).as_slice(), '\\', '/').as_slice(),
                );
                let (is_dir, children) = match &entry.dir {
                    Some(inner) => {
                        match build_tree(inner, depth + 1, max_depth) {
                            Ok(kids) => {
                                if kids.len() == 0 {
                                    assert(kids@ =~= Seq::<FileNode>::empty());
                                    (true, None)
                                } else {
                                    (true, Some(kids))
                                }
                            },
                            Err(e) => {
                                proof {
                                    lemma_first_error(
                                        shown,
                                        depth as nat,
                                        max_depth as nat,
                                        i as int + 1,
                                    );
                                }
                                return Err(e);
                            },
                        }
                    },
                    None => (false, None),
                };
                let node = FileNode { name, path, is_dir, children };
                assert(is_node(node, *entry, depth as nat, max_depth as nat));
                nodes.push(node);
                i += 1;
            }
            assert(shown.take(i as int) =~= shown);
            Ok(nodes)
        },
    }
}

/// How deep a directory is listed.
pub const MAX_TREE_DEPTH: usize = 30;

/// The tree of the directory at a path. What is there is missing where nothing is, and is
/// no directory where `dir` is missing.
pub fn list_directory(path: &str, exists_now: bool, dir: &Option<RawDir>) -> (r: Result<
    Vec<FileNode>,
    String,
>)
    ensures
        !exists_now ==> match r {
            Err(e) => e@ == "Path does not exist: '"@ + path@ + "'"@,
            Ok(_) => false,
        },
        exists_now && *dir is None ==> match r {
            Err(e) => e@ == "Path is not a directory: '"@ + path@ + "'"@,
            Ok(_) => false,
        },
        exists_now && *dir is Some ==> match r {
            Ok(nodes) => is_tree(nodes@, dir->0, 0, 30) && tree_error(dir->0, 0, 30) is None,
            Err(e) => tree_error(dir->0, 0, 30) == Some(e@),
        },
{
    if !exists_now {
        return Err(concat3("Path does not exist: '", path, "'"));
    }
    match dir {
        None => Err(concat3("Path is not a directory: '", path, "'")),
        Some(d) => build_tree(d, 0, MAX_TREE_DEPTH),
    }
}

/// Refuses an operation on a path that is not absolute.
pub fn require_absolute_path(operation: &str, path: &str, absolute: bool) -> (r: Result<
    (),
    String,
>)
    ensures
        match r {
            Ok(_) => absolute,
            Err(e) => !absolute && e@ == operation@ + " requires an absolute path: '"@ + path@
                + "'"@,
        },
{
    if absolute {
        return Ok(());
    }
    let head = concat(operation, " requires an absolute path: '");
    Err(concat3(head.as_str(), path, "'"))
}

/// What making a directory at a path ends with, given what the system said to it.
pub fn create_directory(path: &str, made: Result<(), String>) -> (r: Result<(), String>)
    ensures
        match (made, r) {
            (Ok(_), Ok(_)) => true,
            (Err(why), Err(e)) => e@ == "Failed to create directory '"@ + path@ + "': "@ + why@,
            _ => false,
        },
{
    match made {
        Ok(_) => Ok(()),
        Err(why) => {
            let head = concat3("Failed to create directory '", path, "': ");
            Err(concat(head.as_str(), why.as_str()))
        },
    }
}

/// What is made of a file before it is read.
#[derive(Debug)]
pub enum Preparation {
    /// The text of a PDF document is taken out.
    Pdf,
    /// The text of an office document with that extension is taken out.
    Office(String),
    /// The file is left as it is.
    Nothing,
}

/// Whether the extension is that of an office document.
pub open spec fn is_office(ext: Seq<char>) -> bool {
    ||| ext == "doc"@
    ||| ext == "docx"@
    ||| ext == "pptx"@
    ||| ext == "xls"@
    ||| ext == "xlsx"@
    ||| ext == "odt"@
    ||| ext == "ods"@
    ||| ext == "odp"@
}

/// An extension in lower case, empty where there is none.
pub open spec fn lower_extension(extension: Option<Seq<char>>) -> Seq<char> {
    match extension {
        Some(ext) => lowercase(ext),
        None => lowercase(Seq::empty()),
    }
}

/// An extension in lower case, empty where there is none.
pub fn extension_lower(extension: &Option<String>) -> (r: String)
    ensures
        r@ == lower_extension(opt_text(*extension)),
{
    match extension {
        Some(ext) => to_lowercase(ext.as_str()),
        None => {
            proof {
                reveal_strlit("");
                assert(""@ =~= Seq::<char>::empty());
            }
            to_lowercase("")
        },
    }
}

/// What is made of a file before it is read, by its extension as the system sees it.
pub fn preparation(extension: &Option<String>) -> (r: Preparation)
    ensures
        match r {
            Preparation::Pdf => lower_extension(opt_text(*extension)) == "pdf"@,
            Preparation::Office(ext) => {
                &&& lower_extension(opt_text(*extension)) != "pdf"@
                &&& is_office(lower_extension(opt_text(*extension)))
                &&& ext@ == lower_extension(opt_text(*extension))
            },
            Preparation::Nothing => {
                &&& lower_extension(opt_text(*extension)) != "pdf"@
                &&& !is_office(lower_extension(opt_text(*extension)))
            },
        },
{
    let ext = extension_lower(extension);
    let e = ext.as_str();
    if eq(e, "pdf") {
        return Preparation::Pdf;
    }
    if eq(e, "doc") || eq(e, "docx") || eq(e, "pptx") || eq(e, "xls") || eq(e, "xlsx") || eq(
        e,
        "odt",
    ) || eq(e, "ods") || eq(e, "odp") {
        return Preparation::Office(ext);
    }
    Preparation::Nothing
}

/// What is said of a file that is left as it is.
pub const NO_PREPROCESSING: &'static str = "no preprocessing needed";

/// What preparing a file comes to, given the text that was taken out of it where it was to
/// be, or why that failed: that text, which is then to be kept, or a remark.
pub fn preprocess_file(preparation: &Preparation, extracted: Result<String, String>) -> (r: Result<
    String,
    String,
>)
    ensures
        match *preparation {
            Preparation::Nothing => match r {
                Ok(text) => text@ == NO_PREPROCESSING@,
                Err(_) => false,
            },
            _ => r == extracted,
        },
{
    match preparation {
        Preparation::Nothing => Ok(NO_PREPROCESSING.to_owned()),
        _ => extracted,
    }
}

/// Whether no entry stands after one that it precedes.
pub open spec fn is_ordered(s: Seq<RawEntry>) -> bool {
    forall|i: int, j: int| 0 <= i < j < s.len() ==> !precedes(#[trigger] s[j], #[trigger] s[i])
}

/// An entry that does not precede a second, which does not precede a third, does not
/// precede the third.
proof fn lemma_precedes(a: RawEntry, b: RawEntry, c: RawEntry)
    requires
        !precedes(a, b),
        !precedes(b, c),
    ensures
        !precedes(a, c),
{
    let (x, y, z) = (entry_name(a), entry_name(b), entry_name(c));
    lemma_before_total(x, y);
    lemma_before_total(y, z);
    lemma_before_irreflexive(x);
    if before(x, z) {
        if before(z, y) {
            lemma_before_transitive(x, z, y);
        }
    }
}

/// Of two entries one at most precedes the other.
proof fn lemma_precedes_once(a: RawEntry, b: RawEntry)
    requires
        precedes(a, b),
    ensures
        !precedes(b, a),
{
    let (x, y) = (entry_name(a), entry_name(b));
    lemma_before_irreflexive(x);
    if before(x, y) && before(y, x) {
        lemma_before_transitive(x, y, x);
    }
}

/// Placing an entry among ordered ones keeps them ordered and adds that entry alone.
proof fn lemma_placed_ordered(s: Seq<RawEntry>, entry: RawEntry)
    requires
        is_ordered(s),
    ensures
        is_ordered(placed(s, entry)),
        placed(s, entry).to_multiset() == s.to_multiset().insert(entry),
        placed(s, entry).len() == s.len() + 1,
        forall|k: int|
            0 <= k < placed(s, entry).len() ==> #[trigger] placed(s, entry)[k] == entry || s.contains(
                placed(s, entry)[k],
            ),
    decreases s.len(),
{
    let t = placed(s, entry);
    if s.len() > 0 && precedes(entry, s.last()) {
        let rest = s.drop_last();
        assert(is_ordered(rest)) by {
            assert forall|i: int, j: int| 0 <= i < j < rest.len() implies !precedes(
                #[trigger] rest[j],
                #[trigger] rest[i],
            ) by {
                assert(!precedes(s[j], s[i]));
            }
        }
        lemma_placed_ordered(rest, entry);
        lemma_precedes_once(entry, s.last());
        let head = placed(rest, entry);
        assert forall|k: int| 0 <= k < head.len() implies !precedes(s.last(), #[trigger] head[k])
            && (head[k] == entry || s.contains(head[k])) by {
            if head[k] != entry {
                let m = choose|m: int| 0 <= m < rest.len() && rest[m] == head[k];
                assert(s[m] == head[k]);
                assert(!precedes(s[s.len() - 1], s[m]));
            }
        }
        assert forall|i: int, j: int| 0 <= i < j < t.len() implies !precedes(
            #[trigger] t[j],
            #[trigger] t[i],
        ) by {
            if j < head.len() {
                assert(!precedes(head[j], head[i]));
            } else {
                assert(!precedes(s.last(), head[i]));
            }
        }
        assert forall|k: int| 0 <= k < t.len() implies #[trigger] t[k] == entry || s.contains(
            t[k],
        ) by {
            if k < head.len() {
                assert(t[k] == head[k]);
            } else {
                assert(s[s.len() - 1] == t[k]);
            }
        }
        head.to_multiset_ensures();
        rest.to_multiset_ensures();
        assert(s =~= rest.push(s.last()));
        assert(t.to_multiset() =~= s.to_multiset().insert(entry));
    } else {
        assert forall|i: int, j: int| 0 <= i < j < t.len() implies !precedes(
            #[trigger] t[j],
            #[trigger] t[i],
        ) by {
            if j < s.len() {
                assert(!precedes(s[j], s[i]));
            } else if i == s.len() - 1 {
            } else {
                assert(!precedes(s[s.len() - 1], s[i]));
                lemma_precedes(entry, s.last(), s[i]);
            }
        }
        assert forall|k: int| 0 <= k < t.len() implies #[trigger] t[k] == entry || s.contains(
            t[k],
        ) by {
            if k < s.len() {
                assert(s[k] == t[k]);
            }
        }
        s.to_multiset_ensures();
    }
}

/// A directory is shown with its directories first, then its files, each in the order of
/// their names, and holds exactly the entries whose names do not begin with a dot.
pub proof fn law_arranged(entries: Seq<RawEntry>)
    ensures
        is_ordered(arranged(entries)),
        arranged(entries).to_multiset() == entries.filter(
            |e: RawEntry| is_visible(e),
        ).to_multiset(),
    decreases entries.len(),
{
    reveal(Seq::filter);
    if entries.len() > 0 {
        let rest = entries.drop_last();
        law_arranged(rest);
        if is_visible(entries.last()) {
            lemma_placed_ordered(arranged(rest), entries.last());
            rest.filter(|e: RawEntry| is_visible(e)).to_multiset_ensures();
        }
    } else {
        assert(entries.filter(|e: RawEntry| is_visible(e)) =~= arranged(entries));
    }
}

/// Nothing is listed below the greatest depth.
pub proof fn law_tree_depth_is_limited(
    nodes: Seq<FileNode>,
    dir: RawDir,
    depth: nat,
    max_depth: nat,
)
    requires
        is_tree(nodes, dir, depth, max_depth),
    ensures
        depth >= max_depth ==> nodes.len() == 0,
        forall|i: int|
            0 <= i < nodes.len() && depth + 1 == max_depth ==> (#[trigger] nodes[i]).children is None,
{
    assert forall|i: int| 0 <= i < nodes.len() && depth + 1 == max_depth implies (
    #[trigger] nodes[i]).children is None by {
        let shown = arranged(dir.entries->Ok_0@);
        assert(is_node(nodes[i], shown[i], depth, max_depth));
    }
}

} // verus!
