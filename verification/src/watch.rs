//! Which files of a project are watched.

use vstd::prelude::*;

use crate::glob::{fits, wildcard_match};
use crate::order::{increasing, TextSet};
use crate::paths::{goes_down, names_of, normalize_rel_path, parts, Part, PathComponent};
use crate::text::{
    after_last, chars_of, concat, concat3, contains_text, eq, find_last, has_prefix, has_suffix,
    has_text, join, just, last_index, lowercase, opt_text, parts_of, replace, replace_char,
    same, split, split_on, strip_char_front, strip_front, text_of, texts, to_lowercase, trim,
    trim_char, trimmed, trimmed_of,
};

verus! {

/// How the sources of a project are watched.
#[derive(Debug)]
pub struct SourceWatchConfig {
    pub enabled: bool,
    pub auto_ingest: bool,
    pub include_extensions: Vec<String>,
    pub exclude_extensions: Vec<String>,
    pub exclude_dirs: Vec<String>,
    pub exclude_globs: Vec<String>,
    pub max_file_size_mb: u64,
}

#[verifier::ext_equal]
pub struct ConfigView {
    pub enabled: bool,
    pub auto_ingest: bool,
    pub include_extensions: Seq<Seq<char>>,
    pub exclude_extensions: Seq<Seq<char>>,
    pub exclude_dirs: Seq<Seq<char>>,
    pub exclude_globs: Seq<Seq<char>>,
    pub max_file_size_mb: u64,
}

impl View for SourceWatchConfig {
    type V = ConfigView;

    open spec fn view(&self) -> ConfigView {
        ConfigView {
            enabled: self.enabled,
            auto_ingest: self.auto_ingest,
            include_extensions: texts(self.include_extensions@),
            exclude_extensions: texts(self.exclude_extensions@),
            exclude_dirs: texts(self.exclude_dirs@),
            exclude_globs: texts(self.exclude_globs@),
            max_file_size_mb: self.max_file_size_mb,
        }
    }
}

/// The extensions of the files that are taken in where nothing else is said.
pub open spec fn default_includes() -> Seq<Seq<char>> {
    seq![
        "md"@,
        "mdx"@,
        "txt"@,
        "pdf"@,
        "docx"@,
        "pptx"@,
        "xlsx"@,
        "odt"@,
        "odp"@,
        "ods"@,
        "csv"@,
        "json"@,
        "html"@,
        "htm"@,
        "rtf"@,
    ]
}

/// The extensions of the files that are passed over where nothing else is said.
pub open spec fn default_excludes() -> Seq<Seq<char>> {
    seq!["tmp"@, "temp"@, "part"@, "partial"@, "crdownload"@, "download"@, "swp"@, "bak"@]
}

/// The directories that are passed over where nothing else is said.
pub open spec fn default_dirs() -> Seq<Seq<char>> {
    seq![".git"@, ".obsidian"@, ".vscode"@, ".idea"@, "node_modules"@, ".cache"@, ".trash"@]
}

/// The patterns of the names that are passed over where nothing else is said.
pub open spec fn default_globs() -> Seq<Seq<char>> {
    seq!["~$*"@, ".~lock.*#"@, "*.tmp"@, "._*"@]
}

/// How sources are watched where no other defaults are handed in.
pub open spec fn default_config() -> ConfigView {
    ConfigView {
        enabled: true,
        auto_ingest: true,
        include_extensions: default_includes(),
        exclude_extensions: default_excludes(),
        exclude_dirs: default_dirs(),
        exclude_globs: default_globs(),
        max_file_size_mb: 100,
    }
}

/// The extensions of the files that are taken in where nothing else is said.
pub fn default_source_watch_include_extensions() -> (r: Vec<String>)
    ensures
        texts(r@) == default_includes(),
{
    let mut v: Vec<String> = Vec::new();
    v.push("md".to_owned());
    v.push("mdx".to_owned());
    v.push("txt".to_owned());
    v.push("pdf".to_owned());
    v.push("docx".to_owned());
    v.push("pptx".to_owned());
    v.push("xlsx".to_owned());
    v.push("odt".to_owned());
    v.push("odp".to_owned());
    v.push("ods".to_owned());
    v.push("csv".to_owned());
    v.push("json".to_owned());
    v.push("html".to_owned());
    v.push("htm".to_owned());
    v.push("rtf".to_owned());
    assert(texts(v@) =~= default_includes());
    v
}

/// The extensions of the files that are passed over where nothing else is said.
pub fn default_source_watch_exclude_extensions() -> (r: Vec<String>)
    ensures
        texts(r@) == default_excludes(),
{
    let mut v: Vec<String> = Vec::new();
    v.push("tmp".to_owned());
    v.push("temp".to_owned());
    v.push("part".to_owned());
    v.push("partial".to_owned());
    v.push("crdownload".to_owned());
    v.push("download".to_owned());
    v.push("swp".to_owned());
    v.push("bak".to_owned());
    assert(texts(v@) =~= default_excludes());
    v
}

/// The directories that are passed over where nothing else is said.
pub fn default_source_watch_exclude_dirs() -> (r: Vec<String>)
    ensures
        texts(r@) == default_dirs(),
{
    let mut v: Vec<String> = Vec::new();
    v.push(".git".to_owned());
    v.push(".obsidian".to_owned());
    v.push(".vscode".to_owned());
    v.push(".idea".to_owned());
    v.push("node_modules".to_owned());
    v.push(".cache".to_owned());
    v.push(".trash".to_owned());
    assert(texts(v@) =~= default_dirs());
    v
}

/// The patterns of the names that are passed over where nothing else is said.
pub fn default_source_watch_exclude_globs() -> (r: Vec<String>)
    ensures
        texts(r@) == default_globs(),
{
    let mut v: Vec<String> = Vec::new();
    v.push("~$*".to_owned());
    v.push(".~lock.*#".to_owned());
    v.push("*.tmp".to_owned());
    v.push("._*".to_owned());
    assert(texts(v@) =~= default_globs());
    v
}

impl Default for SourceWatchConfig {
    fn default() -> (r: SourceWatchConfig)
        ensures
            r@ == default_config(),
    {
        SourceWatchConfig {
            enabled: true,
            auto_ingest: true,
            include_extensions: default_source_watch_include_extensions(),
            exclude_extensions: default_source_watch_exclude_extensions(),
            exclude_dirs: default_source_watch_exclude_dirs(),
            exclude_globs: default_source_watch_exclude_globs(),
            max_file_size_mb: 100,
        }
    }
}

/// What was said of how sources are watched; what was left unsaid is missing.
#[derive(Debug)]
pub struct PartialWatchConfig {
    pub enabled: Option<bool>,
    pub auto_ingest: Option<bool>,
    pub include_extensions: Option<Vec<String>>,
    pub exclude_extensions: Option<Vec<String>>,
    pub exclude_dirs: Option<Vec<String>>,
    pub exclude_globs: Option<Vec<String>>,
    pub max_file_size_mb: Option<u64>,
}

/// The list that was given, or the default one.
pub open spec fn list_or(given: Option<Vec<String>>, default: Seq<Seq<char>>) -> Seq<Seq<char>> {
    match given {
        Some(v) => texts(v@),
        None => default,
    }
}

/// The configuration with what the defaults say of everything that was left unsaid.
pub open spec fn filled_in(said: PartialWatchConfig, defaults: ConfigView) -> ConfigView {
    ConfigView {
        enabled: match said.enabled {
            Some(b) => b,
            None => defaults.enabled,
        },
        auto_ingest: match said.auto_ingest {
            Some(b) => b,
            None => defaults.auto_ingest,
        },
        include_extensions: list_or(said.include_extensions, defaults.include_extensions),
        exclude_extensions: list_or(said.exclude_extensions, defaults.exclude_extensions),
        exclude_dirs: list_or(said.exclude_dirs, defaults.exclude_dirs),
        exclude_globs: list_or(said.exclude_globs, defaults.exclude_globs),
        max_file_size_mb: match said.max_file_size_mb {
            Some(n) => n,
            None => defaults.max_file_size_mb,
        },
    }
}

impl PartialWatchConfig {
    /// The configuration with what the defaults say of everything that was left unsaid.
    pub fn fill_in(self, defaults: SourceWatchConfig) -> (r: SourceWatchConfig)
        ensures
            r@ == filled_in(self, defaults@),
    {
        SourceWatchConfig {
            enabled: match self.enabled {
                Some(b) => b,
                None => defaults.enabled,
            },
            auto_ingest: match self.auto_ingest {
                Some(b) => b,
                None => defaults.auto_ingest,
            },
            include_extensions: match self.include_extensions {
                Some(v) => v,
                None => defaults.include_extensions,
            },
            exclude_extensions: match self.exclude_extensions {
                Some(v) => v,
                None => defaults.exclude_extensions,
            },
            exclude_dirs: match self.exclude_dirs {
                Some(v) => v,
                None => defaults.exclude_dirs,
            },
            exclude_globs: match self.exclude_globs {
                Some(v) => v,
                None => defaults.exclude_globs,
            },
            max_file_size_mb: match self.max_file_size_mb {
                Some(n) => n,
                None => defaults.max_file_size_mb,
            },
        }
    }
}

/// The form in which extensions are compared: in lower case, without white space at the
/// ends and without dots in front.
pub open spec fn ext_form(value: Seq<char>) -> Seq<char> {
    lowercase(strip_front(trimmed(value), just('.')))
}

/// The set with one more member, unless that is empty.
pub open spec fn with_nonempty(s: Set<Seq<char>>, item: Seq<char>) -> Set<Seq<char>> {
    if item.len() > 0 {
        s.insert(item)
    } else {
        s
    }
}

/// The extensions that a list names.
pub open spec fn ext_set(values: Seq<Seq<char>>) -> Set<Seq<char>>
    decreases values.len(),
{
    if values.len() == 0 {
        Set::empty()
    } else {
        with_nonempty(ext_set(values.drop_last()), ext_form(values.last()))
    }
}

/// The texts of a list without white space at their ends, but for empty ones.
pub open spec fn trimmed_set(values: Seq<Seq<char>>) -> Set<Seq<char>>
    decreases values.len(),
{
    if values.len() == 0 {
        Set::empty()
    } else {
        with_nonempty(trimmed_set(values.drop_last()), trimmed(values.last()))
    }
}

/// The members of a set, in increasing order.
pub open spec fn lists(list: Seq<Seq<char>>, set: Set<Seq<char>>) -> bool {
    increasing(list) && list.to_set() == set
}

/// The copies of the strings.
pub fn clone_texts(v: &Vec<String>) -> (r: Vec<String>)
    ensures
        r@ == v@,
{
    let mut out: Vec<String> = Vec::new();
    let mut i: usize = 0;
    while i < v.len()
        invariant
            i <= v@.len(),
            out@ == v@.take(i as int),
        decreases v@.len() - i,
    {
        out.push(v[i].clone());
        assert(v@.take(i as int + 1) =~= v@.take(i as int).push(v@[i as int]));
        i += 1;
    }
    assert(v@.take(i as int) =~= v@);
    out
}

/// The extensions that a list names, each once and in increasing order.
pub fn normalize_ext_list(values: Vec<String>) -> (r: Vec<String>)
    ensures
        lists(texts(r@), ext_set(texts(values@))),
{
    let mut set = TextSet::new();
    let ghost all = texts(values@);
    let mut i: usize = 0;
    while i < values.len()
        invariant
            i <= values@.len(),
            all == texts(values@),
            set@ == ext_set(all.take(i as int)),
        decreases values@.len() - i,
    {
        assert(all.take(i as int + 1).drop_last() =~= all.take(i as int));
        let chars = chars_of(values[i].as_str());
        let bare = text_of(strip_char_front(trim(chars.as_slice()), '.'));
        let ext = to_lowercase(bare.as_str());
        if chars_of(ext.as_str()).len() > 0 {
            set.insert(ext);
        }
        i += 1;
    }
    assert(all.take(i as int) =~= all);
    clone_texts(set.items())
}

/// The texts of a list without white space at their ends, each once and in increasing
/// order.
pub fn normalize_string_list(values: Vec<String>) -> (r: Vec<String>)
    ensures
        lists(texts(r@), trimmed_set(texts(values@))),
{
    let mut set = TextSet::new();
    let ghost all = texts(values@);
    let mut i: usize = 0;
    while i < values.len()
        invariant
            i <= values@.len(),
            all == texts(values@),
            set@ == trimmed_set(all.take(i as int)),
        decreases values@.len() - i,
    {
        assert(all.take(i as int + 1).drop_last() =~= all.take(i as int));
        let chars = chars_of(values[i].as_str());
        let bare = trim(chars.as_slice());
        if bare.len() > 0 {
            set.insert(text_of(bare));
        }
        i += 1;
    }
    assert(all.take(i as int) =~= all);
    clone_texts(set.items())
}

/// Whether one configuration is the normal form of the other.
pub open spec fn is_normal_form(r: ConfigView, c: ConfigView) -> bool {
    &&& r.enabled == c.enabled
    &&& r.auto_ingest == c.auto_ingest
    &&& lists(r.include_extensions, ext_set(c.include_extensions))
    &&& lists(r.exclude_extensions, ext_set(c.exclude_extensions))
    &&& lists(r.exclude_dirs, trimmed_set(c.exclude_dirs))
    &&& lists(r.exclude_globs, trimmed_set(c.exclude_globs))
    &&& r.max_file_size_mb == if c.max_file_size_mb < 1 {
        1
    } else if c.max_file_size_mb > 4096 {
        4096
    } else {
        c.max_file_size_mb
    }
}

/// The configuration that was given, or the default one.
pub open spec fn given_config(
    config: Option<SourceWatchConfig>,
    defaults: SourceWatchConfig,
) -> ConfigView {
    match config {
        Some(c) => c@,
        None => defaults@,
    }
}

/// The normal form of a configuration, of the default one where none is given: lists
/// ordered and without repetition, the size limit from 1 to 4096.
pub fn normalize_source_watch_config(
    config: Option<SourceWatchConfig>,
    defaults: SourceWatchConfig,
) -> (r: SourceWatchConfig)
    ensures
        is_normal_form(r@, given_config(config, defaults)),
{
    let config = match config {
        Some(c) => c,
        None => defaults,
    };
    let max: u64 = if config.max_file_size_mb < 1 {
        1
    } else if config.max_file_size_mb > 4096 {
        4096
    } else {
        config.max_file_size_mb
    };
    SourceWatchConfig {
        enabled: config.enabled,
        auto_ingest: config.auto_ingest,
        include_extensions: normalize_ext_list(config.include_extensions),
        exclude_extensions: normalize_ext_list(config.exclude_extensions),
        exclude_dirs: normalize_string_list(config.exclude_dirs),
        exclude_globs: normalize_string_list(config.exclude_globs),
        max_file_size_mb: max,
    }
}

/// The form in which a directory to pass over is compared.
pub open spec fn dir_form(dir: Seq<char>) -> Seq<char> {
    lowercase(trimmed_of(replace_char(dir, '\\', '/'), '/'))
}

/// The directories that a list names.
pub open spec fn dir_set(dirs: Seq<Seq<char>>) -> Set<Seq<char>>
    decreases dirs.len(),
{
    if dirs.len() == 0 {
        Set::empty()
    } else {
        with_nonempty(dir_set(dirs.drop_last()), dir_form(dirs.last()))
    }
}

/// A path with slashes for backslashes and without slashes at its ends.
pub fn normalize_rel_string(value: &str) -> (r: String)
    ensures
        r@ == trimmed_of(replace_char(value@, '\\', '/'), '/'),
{
    let slashed = replace(chars_of(value).as_slice(), '\\', '/');
    text_of(trim_char(slashed.as_slice(), '/'))
}

/// The rules by which files are watched or passed over.
#[derive(Debug)]
pub struct SourceWatchRules<'a> {
    pub config: &'a SourceWatchConfig,
    pub include_extensions: TextSet,
    pub exclude_extensions: TextSet,
    pub exclude_dirs: TextSet,
    pub exclude_globs: Vec<String>,
}

#[verifier::ext_equal]
pub struct RulesView {
    pub include_extensions: Set<Seq<char>>,
    pub exclude_extensions: Set<Seq<char>>,
    pub exclude_dirs: Set<Seq<char>>,
    pub exclude_globs: Seq<Seq<char>>,
    pub max_file_size_mb: u64,
}

impl<'a> View for SourceWatchRules<'a> {
    type V = RulesView;

    open spec fn view(&self) -> RulesView {
        RulesView {
            include_extensions: self.include_extensions@,
            exclude_extensions: self.exclude_extensions@,
            exclude_dirs: self.exclude_dirs@,
            exclude_globs: texts(self.exclude_globs@),
            max_file_size_mb: self.config.max_file_size_mb,
        }
    }
}

/// The rules that a configuration sets.
pub open spec fn rules_of(c: ConfigView) -> RulesView {
    RulesView {
        include_extensions: c.include_extensions.to_set(),
        exclude_extensions: c.exclude_extensions.to_set(),
        exclude_dirs: dir_set(c.exclude_dirs),
        exclude_globs: c.exclude_globs,
        max_file_size_mb: c.max_file_size_mb,
    }
}

/// The set of the texts of a list.
fn set_of(values: &Vec<String>) -> (r: TextSet)
    ensures
        r@ == texts(values@).to_set(),
{
    let mut set = TextSet::new();
    let ghost all = texts(values@);
    let mut i: usize = 0;
    assert(all.take(0).to_set() =~= Set::<Seq<char>>::empty());
    while i < values.len()
        invariant
            i <= values@.len(),
            all == texts(values@),
            set@ == all.take(i as int).to_set(),
        decreases values@.len() - i,
    {
        set.insert(values[i].clone());
        proof {
            let a = all.take(i as int);
            let b = all.take(i as int + 1);
            assert(b =~= a.push(all[i as int]));
            assert forall|x: Seq<char>| b.contains(x) == (a.contains(x) || x == all[i as int]) by {
                if a.contains(x) {
                    let j = choose|j: int| 0 <= j < a.len() && a[j] == x;
                    assert(b[j] == x);
                }
                if x == all[i as int] {
                    assert(b[i as int] == x);
                }
                if b.contains(x) && x != all[i as int] {
                    let j = choose|j: int| 0 <= j < b.len() && b[j] == x;
                    assert(a[j] == x);
                }
            }
            assert(b.to_set() =~= a.to_set().insert(all[i as int]));
        }
        i += 1;
    }
    assert(all.take(i as int) =~= all);
    set
}

/// Whether a path in lower case lies in a directory that is passed over. A directory given
/// by one name counts wherever that name stands in the path.
pub open spec fn lies_in(dir: Seq<char>, rel: Seq<char>) -> bool {
    if dir.contains('/') {
        ||| rel == dir
        ||| (dir + seq!['/']).is_prefix_of(rel)
        ||| contains_text(rel, seq!['/'] + dir + seq!['/'])
    } else {
        split_on(rel, '/').contains(dir)
    }
}

/// Whether a path in lower case lies in one of the directories.
pub open spec fn lies_in_any(dirs: Set<Seq<char>>, rel: Seq<char>) -> bool {
    exists|dir: Seq<char>| dirs.contains(dir) && #[trigger] lies_in(dir, rel)
}

/// Whether a path in lower case lies in a directory that is passed over.
fn lies_in_dir(dir: &str, rel: &str) -> (r: bool)
    ensures
        r == lies_in(dir@, rel@),
{
    let chars = chars_of(dir);
    proof {
        reveal_strlit("/");
        assert("/"@ =~= seq!['/']);
        crate::text::lemma_last_index(dir@, '/');
    }
    match find_last(chars.as_slice(), '/') {
        Some(_) => eq(rel, dir) || has_prefix(rel, concat(dir, "/").as_str()) || has_text(
            rel,
            concat3("/", dir, "/").as_str(),
        ),
        None => {
            let rel_chars = chars_of(rel);
            let pieces = split(rel_chars.as_slice(), '/');
            let ghost all = parts_of(pieces@);
            let mut i: usize = 0;
            while i < pieces.len()
                invariant
                    i <= pieces@.len(),
                    chars@ == dir@,
                    all == parts_of(pieces@),
                    forall|j: int| 0 <= j < i ==> all[j] != dir@,
                    all == split_on(rel@, '/'),
                    !dir@.contains('/'),
                decreases pieces@.len() - i,
            {
                if same(pieces[i].as_slice(), chars.as_slice()) {
                    assert(all[i as int] == dir@);
                    return true;
                }
                i += 1;
            }
            false
        },
    }
}

impl<'a> SourceWatchRules<'a> {
    /// The rules that the configuration sets.
    pub fn new(config: &'a SourceWatchConfig) -> (r: SourceWatchRules<'a>)
        ensures
            r@ == rules_of(config@),
            r.config == config,
    {
        let mut dirs = TextSet::new();
        let ghost all = texts(config.exclude_dirs@);
        let mut i: usize = 0;
        while i < config.exclude_dirs.len()
            invariant
                i <= config.exclude_dirs@.len(),
                all == texts(config.exclude_dirs@),
                dirs@ == dir_set(all.take(i as int)),
            decreases config.exclude_dirs@.len() - i,
        {
            assert(all.take(i as int + 1).drop_last() =~= all.take(i as int));
            let dir = to_lowercase(normalize_rel_string(config.exclude_dirs[i].as_str()).as_str());
            if chars_of(dir.as_str()).len() > 0 {
                dirs.insert(dir);
            }
            i += 1;
        }
        assert(all.take(i as int) =~= all);
        SourceWatchRules {
            config,
            include_extensions: set_of(&config.include_extensions),
            exclude_extensions: set_of(&config.exclude_extensions),
            exclude_dirs: dirs,
            exclude_globs: clone_texts(&config.exclude_globs),
        }
    }

    /// Whether a path in lower case lies in a directory that is passed over.
    pub fn matches_excluded_dir(&self, rel_lower: &str) -> (r: bool)
        ensures
            r == lies_in_any(self@.exclude_dirs, rel_lower@),
    {
        let dirs = self.exclude_dirs.items();
        let ghost list = self.exclude_dirs.listed();
        let mut i: usize = 0;
        while i < dirs.len()
            invariant
                i <= dirs@.len(),
                list == texts(dirs@),
                list == self.exclude_dirs.listed(),
                forall|j: int| 0 <= j < i ==> !lies_in(#[trigger] list[j], rel_lower@),
            decreases dirs@.len() - i,
        {
            if lies_in_dir(dirs[i].as_str(), rel_lower) {
                assert(list[i as int] == dirs@[i as int]@);
                assert(list.contains(list[i as int]));
                assert(self@.exclude_dirs.contains(list[i as int]));
                return true;
            }
            i += 1;
        }
        proof {
            if lies_in_any(self@.exclude_dirs, rel_lower@) {
                let dir = choose|dir: Seq<char>|
                    self@.exclude_dirs.contains(dir) && #[trigger] lies_in(dir, rel_lower@);
                assert(list.contains(dir));
                let j = choose|j: int| 0 <= j < list.len() && list[j] == dir;
                assert(!lies_in(list[j], rel_lower@));
            }
        }
        false
    }
}

/// The extension of a file name: what follows its last dot.
pub open spec fn ext_of(name: Seq<char>) -> Seq<char> {
    if last_index(name, '.') < 0 {
        Seq::empty()
    } else {
        after_last(name, '.')
    }
}

/// The extension of a file name.
pub fn extension_of(name: &str) -> (r: String)
    ensures
        r@ == ext_of(name@),
{
    let chars = chars_of(name);
    match find_last(chars.as_slice(), '.') {
        Some(i) => {
            proof {
                crate::text::lemma_last_index(name@, '.');
            }
            let n: usize = chars.len();
            let tail = &chars.as_slice()[i + 1..n];
            assert(tail@ =~= after_last(name@, '.'));
            text_of(tail)
        },
        None => {
            proof {
                crate::text::lemma_last_index(name@, '.');
                reveal_strlit("");
                assert(""@ =~= Seq::<char>::empty());
            }
            "".to_owned()
        },
    }
}

/// Whether a pattern of the list fits the path or the name.
pub open spec fn is_globbed(globs: Seq<Seq<char>>, rel: Seq<char>, name: Seq<char>) -> bool {
    exists|i: int|
        0 <= i < globs.len() && (fits(#[trigger] globs[i], rel) || fits(globs[i], name))
}

/// Whether the path is one that the application itself writes, or the system leaves
/// about. Both the path and the name are in lower case.
pub open spec fn is_internal(lower: Seq<char>, name: Seq<char>) -> bool {
    ||| contains_text(lower, "/.llm-wiki/"@)
    ||| ".llm-wiki/"@.is_prefix_of(lower)
    ||| "wiki/media/"@.is_prefix_of(lower)
    ||| ".ds_store"@.is_suffix_of(lower)
    ||| name == "thumbs.db"@
    ||| name == "desktop.ini"@
}

/// Whether a source with that extension is taken in.
pub open spec fn is_included(ext: Seq<char>, rules: RulesView) -> bool {
    &&& ext.len() > 0 ==> !rules.exclude_extensions.contains(ext)
    &&& rules.include_extensions != Set::<Seq<char>>::empty() ==> ext.len() > 0
        && rules.include_extensions.contains(ext)
}

/// Whether a file of the project is watched: a source of a wanted kind, a page of the
/// wiki, or one of the two files that describe the project.
pub open spec fn is_watched(rel: Seq<char>, rules: RulesView) -> bool {
    let lower = lowercase(rel);
    let name = after_last(lower, '/');
    &&& rel.len() > 0
    &&& !is_internal(lower, name)
    &&& !lies_in_any(rules.exclude_dirs, lower)
    &&& !is_globbed(rules.exclude_globs, rel, name)
    &&& if "raw/sources/"@.is_prefix_of(rel) {
        is_included(ext_of(name), rules)
    } else {
        ||| rel == "purpose.md"@
        ||| rel == "schema.md"@
        ||| "wiki/"@.is_prefix_of(rel) && ".md"@.is_suffix_of(rel)
    }
}

/// Whether a file of the project is watched.
pub fn should_watch_rel(rel: &str, rules: &SourceWatchRules) -> (r: bool)
    ensures
        r == is_watched(rel@, rules@),
{
    if chars_of(rel).len() == 0 {
        return false;
    }
    let lower = to_lowercase(rel);
    let lower_chars = chars_of(lower.as_str());
    proof {
        crate::text::lemma_last_index(lower@, '/');
    }
    let name = match find_last(lower_chars.as_slice(), '/') {
        Some(i) => {
            let n: usize = lower_chars.len();
            let tail = &lower_chars.as_slice()[i + 1..n];
            assert(tail@ =~= after_last(lower@, '/'));
            text_of(tail)
        },
        None => {
            assert(after_last(lower@, '/') =~= lower@);
            lower.clone()
        },
    };
    assert(name@ == after_last(lower@, '/'));
    if has_text(lower.as_str(), "/.llm-wiki/") || has_prefix(lower.as_str(), ".llm-wiki/")
        || has_prefix(lower.as_str(), "wiki/media/") || has_suffix(lower.as_str(), ".ds_store") {
        return false;
    }
    if eq(name.as_str(), "thumbs.db") || eq(name.as_str(), "desktop.ini") {
        return false;
    }
    if rules.matches_excluded_dir(lower.as_str()) {
        return false;
    }
    let ghost globs = texts(rules.exclude_globs@);
    let mut i: usize = 0;
    while i < rules.exclude_globs.len()
        invariant
            i <= rules.exclude_globs@.len(),
            globs == texts(rules.exclude_globs@),
            globs == rules@.exclude_globs,
            lower@ == lowercase(rel@),
            name@ == after_last(lower@, '/'),
            forall|j: int|
                0 <= j < i ==> !fits(#[trigger] globs[j], rel@) && !fits(globs[j], name@),
        decreases rules.exclude_globs@.len() - i,
    {
        let pattern = rules.exclude_globs[i].as_str();
        assert(globs[i as int] == pattern@);
        if wildcard_match(pattern, rel) || wildcard_match(pattern, name.as_str()) {
            assert(is_globbed(globs, rel@, name@));
            return false;
        }
        i += 1;
    }
    assert(!is_globbed(globs, rel@, name@));
    if has_prefix(rel, "raw/sources/") {
        let ext = extension_of(name.as_str());
        let bare = chars_of(ext.as_str()).len() == 0;
        if !bare && rules.exclude_extensions.contains(ext.as_str()) {
            return false;
        }
        if !rules.include_extensions.is_empty() && (bare || !rules.include_extensions.contains(
            ext.as_str(),
        )) {
            return false;
        }
        return true;
    }
    eq(rel, "purpose.md") || eq(rel, "schema.md") || (has_prefix(rel, "wiki/") && has_suffix(
        rel,
        ".md",
    ))
}

/// The size in bytes up to which a source is taken in.
pub open spec fn size_limit(max_file_size_mb: u64) -> u64 {
    if max_file_size_mb * 1_048_576 > u64::MAX {
        u64::MAX
    } else {
        (max_file_size_mb * 1_048_576) as u64
    }
}

/// The path by which a file of the project is watched, or nothing where it is not: one
/// that is not below the project's directory, that the rules pass over, or that is a
/// source that exists and is too large, or of unknown size.
pub open spec fn watch_path(
    rel: Option<Seq<Part>>,
    rules: RulesView,
    exists_now: bool,
    size: Option<u64>,
) -> Option<Seq<char>> {
    match rel {
        None => None,
        Some(ps) => {
            let text = join(names_of(ps), seq!['/']);
            if !goes_down(ps) || !is_watched(text, rules) {
                None
            } else if "raw/sources/"@.is_prefix_of(text) && exists_now {
                match size {
                    Some(n) => if n > size_limit(rules.max_file_size_mb) {
                        None
                    } else {
                        Some(text)
                    },
                    None => None,
                }
            } else {
                Some(text)
            }
        },
    }
}

/// The components of a path below the project's directory.
pub open spec fn opt_parts(rel: Option<Vec<PathComponent>>) -> Option<Seq<Part>> {
    match rel {
        Some(v) => Some(parts(v@)),
        None => None,
    }
}

/// The path by which a file of the project is watched. `rel` holds the components of the
/// file's path below the project's directory, and is missing where it is not below it.
pub fn relative_watch_path(
    rel: &Option<Vec<PathComponent>>,
    rules: &SourceWatchRules,
    exists_now: bool,
    size: Option<u64>,
) -> (r: Option<String>)
    ensures
        opt_text(r) == watch_path(opt_parts(*rel), rules@, exists_now, size),
{
    match rel {
        None => None,
        Some(components) => match normalize_rel_path(components) {
            None => None,
            Some(text) => {
                if !should_watch_rel(text.as_str(), rules) {
                    return None;
                }
                if has_prefix(text.as_str(), "raw/sources/") && exists_now {
                    let mb: u64 = rules.config.max_file_size_mb;
                    let max_bytes: u64 = if mb > 17_592_186_044_415 {
                        u64::MAX
                    } else {
                        mb * 1_048_576
                    };
                    match size {
                        Some(n) => {
                            if n > max_bytes {
                                return None;
                            }
                        },
                        None => {
                            return None;
                        },
                    }
                }
                Some(text)
            },
        },
    }
}

/// What the application itself writes below its own directory, and the media that it makes
/// for the wiki, is never watched.
pub proof fn law_own_files_are_not_watched(rel: Seq<char>, rules: RulesView)
    requires
        ".llm-wiki/"@.is_prefix_of(lowercase(rel)) || contains_text(lowercase(rel), "/.llm-wiki/"@)
            || "wiki/media/"@.is_prefix_of(lowercase(rel)),
    ensures
        !is_watched(rel, rules),
{
}

/// A file in a directory that is passed over is not watched.
pub proof fn law_excluded_directory_is_not_watched(
    rel: Seq<char>,
    dir: Seq<char>,
    rules: RulesView,
)
    requires
        rules.exclude_dirs.contains(dir),
        lies_in(dir, lowercase(rel)),
    ensures
        !is_watched(rel, rules),
{
    assert(lies_in_any(rules.exclude_dirs, lowercase(rel)));
}

/// A source with an extension that is passed over is not watched, whichever extensions are
/// taken in.
pub proof fn law_excluded_extension_is_not_watched(rel: Seq<char>, rules: RulesView)
    requires
        "raw/sources/"@.is_prefix_of(rel),
        ext_of(after_last(lowercase(rel), '/')).len() > 0,
        rules.exclude_extensions.contains(ext_of(after_last(lowercase(rel), '/'))),
    ensures
        !is_watched(rel, rules),
{
}

/// A source that exists and is larger than the limit is not watched.
pub proof fn law_oversized_source_is_not_watched(ps: Seq<Part>, rules: RulesView, size: u64)
    requires
        "raw/sources/"@.is_prefix_of(join(names_of(ps), seq!['/'])),
        size > size_limit(rules.max_file_size_mb),
    ensures
        watch_path(Some(ps), rules, true, Some(size)) is None,
{
}

/// A source that is gone is watched by its path alone, so that its removal is noticed.
pub proof fn law_gone_source_is_watched(ps: Seq<Part>, rules: RulesView, size: Option<u64>)
    requires
        goes_down(ps),
        is_watched(join(names_of(ps), seq!['/']), rules),
    ensures
        watch_path(Some(ps), rules, false, size) == Some(join(names_of(ps), seq!['/'])),
{
}

} // verus!
