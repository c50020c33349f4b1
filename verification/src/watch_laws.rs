//! What holds of which files are watched, whatever the configuration.

use vstd::prelude::*;

use crate::glob::fits;
use crate::order::before;
use crate::paths::{names_of, Part};
use crate::text::{
    contains_text, join, just, lowercase, replace_char, split_on, strip_front, texts, trimmed,
    trimmed_of,
};
use crate::text_laws::law_text_parts_at_its_last_separator;
use crate::watch::{
    default_config, default_dirs, default_excludes, default_globs, default_includes, dir_form,
    dir_set, ext_form, ext_set, filled_in, given_config, is_globbed, is_internal, is_normal_form,
    is_watched, lies_in, lies_in_any, rules_of, trimmed_set, watch_path, ConfigView,
    PartialWatchConfig, RulesView, SourceWatchConfig,
};

verus! {

/// Whether a path in lower case lies in the directory: a directory of one name is any of the
/// names of the path; one of several stands in the path from its beginning on, or after a slash,
/// with a slash behind it, or is the path.
pub open spec fn is_inside(dir: Seq<char>, lower: Seq<char>) -> bool {
    if dir.contains('/') {
        ||| lower == dir
        ||| exists|rest: Seq<char>| lower == #[trigger] (dir.push('/') + rest)
        ||| exists|a: Seq<char>, b: Seq<char>|
            lower == #[trigger] (a.push('/') + dir + b) && b.len() > 0 && b[0] == '/'
    } else {
        exists|i: int|
            0 <= i < split_on(lower, '/').len() && #[trigger] split_on(lower, '/')[i] == dir
    }
}

/// Whether a file with that path and, in lower case, that path and name is passed over wherever
/// it lies: the application or the system wrote it, or the configuration says so.
pub open spec fn is_passed_over(
    rel: Seq<char>,
    lower: Seq<char>,
    name: Seq<char>,
    rules: RulesView,
) -> bool {
    ||| ".llm-wiki/"@.is_prefix_of(lower)
    ||| contains_text(lower, "/.llm-wiki/"@)
    ||| "wiki/media/"@.is_prefix_of(lower)
    ||| ".ds_store"@.is_suffix_of(lower)
    ||| name == "thumbs.db"@
    ||| name == "desktop.ini"@
    ||| exists|dir: Seq<char>| rules.exclude_dirs.contains(dir) && #[trigger] is_inside(dir, lower)
    ||| exists|i: int|
        0 <= i < rules.exclude_globs.len() && (fits(#[trigger] rules.exclude_globs[i], rel)
            || fits(rules.exclude_globs[i], name))
}

/// Lying in a directory is lying in it, however that is said.
proof fn lemma_inside(dir: Seq<char>, lower: Seq<char>)
    ensures
        lies_in(dir, lower) == is_inside(dir, lower),
{
    if dir.contains('/') {
        let edge = dir + seq!['/'];
        let middle = seq!['/'] + dir + seq!['/'];
        if edge.is_prefix_of(lower) {
            let rest = lower.skip(edge.len() as int);
            assert(lower =~= dir.push('/') + rest) by {
                assert(lower.subrange(0, edge.len() as int) =~= edge);
                assert forall|k: int| 0 <= k < edge.len() implies lower[k] == edge[k] by {
                    assert(lower.subrange(0, edge.len() as int)[k] == edge[k]);
                }
            }
        }
        if exists|rest: Seq<char>| lower == #[trigger] (dir.push('/') + rest) {
            let rest = choose|rest: Seq<char>| lower == #[trigger] (dir.push('/') + rest);
            assert(lower.subrange(0, edge.len() as int) =~= edge);
        }
        crate::text_laws::law_contained_text_is_surrounded(lower, middle);
        if contains_text(lower, middle) {
            let (a, b) = choose|a: Seq<char>, b: Seq<char>| lower == #[trigger] (a + middle + b);
            assert(lower =~= a.push('/') + dir + (seq!['/'] + b));
        }
        if exists|a: Seq<char>, b: Seq<char>|
            lower == #[trigger] (a.push('/') + dir + b) && b.len() > 0 && b[0] == '/' {
            let (a, b) = choose|a: Seq<char>, b: Seq<char>|
                lower == #[trigger] (a.push('/') + dir + b) && b.len() > 0 && b[0] == '/';
            assert(lower =~= a + middle + b.drop_first());
        }
    } else {
        let pieces = split_on(lower, '/');
        if pieces.contains(dir) {
            let i = choose|i: int| 0 <= i < pieces.len() && pieces[i] == dir;
            assert(pieces[i] == dir);
        }
    }
}

/// What is passed over is passed over, however that is said.
proof fn lemma_passed_over(rel: Seq<char>, lower: Seq<char>, name: Seq<char>, rules: RulesView)
    ensures
        is_passed_over(rel, lower, name, rules) == (is_internal(lower, name) || lies_in_any(
            rules.exclude_dirs,
            lower,
        ) || is_globbed(rules.exclude_globs, rel, name)),
{
    assert forall|dir: Seq<char>| #[trigger] lies_in(dir, lower) == is_inside(dir, lower) by {
        lemma_inside(dir, lower);
    }
    assert forall|dir: Seq<char>| #[trigger] is_inside(dir, lower) == lies_in(dir, lower) by {
        lemma_inside(dir, lower);
    }
}

/// A file below `raw/sources/`, in whatever folder, is watched if it is not passed over and its
/// extension is not excluded and is among those that are taken in, or none are named. A file
/// without an extension is watched only where none are named. `name` is the name of the file in
/// lower case, and `stem` and `ext` are what stands before and after its last dot.
pub proof fn law_sources_are_watched_at_any_depth(
    rel: Seq<char>,
    folder: Seq<char>,
    name: Seq<char>,
    stem: Seq<char>,
    ext: Seq<char>,
    rules: RulesView,
)
    requires
        exists|below: Seq<char>| rel == #[trigger] ("raw/sources/"@ + below),
        lowercase(rel) == folder.push('/') + name,
        !name.contains('/'),
        name == stem.push('.') + ext || (name == stem && ext.len() == 0 && !name.contains('.')),
        !ext.contains('.'),
    ensures
        is_watched(rel, rules) <==> {
            &&& !is_passed_over(rel, lowercase(rel), name, rules)
            &&& ext.len() > 0 ==> !rules.exclude_extensions.contains(ext)
            &&& (forall|e: Seq<char>| !rules.include_extensions.contains(e)) || (ext.len() > 0
                && rules.include_extensions.contains(ext))
        },
{
    let below = choose|below: Seq<char>| rel == #[trigger] ("raw/sources/"@ + below);
    reveal_strlit("raw/sources/");
    assert(rel.subrange(0, "raw/sources/"@.len() as int) =~= "raw/sources/"@);
    assert("raw/sources/"@.is_prefix_of(rel));
    law_text_parts_at_its_last_separator(folder, name, '/');
    if name == stem.push('.') + ext {
        law_text_parts_at_its_last_separator(stem, ext, '.');
    } else {
        law_text_parts_at_its_last_separator(stem, name, '.');
    }
    lemma_passed_over(rel, lowercase(rel), name, rules);
    let set = rules.include_extensions;
    if forall|e: Seq<char>| !set.contains(e) {
        assert(set =~= Set::empty());
    }
}

/// Outside of `raw/sources/` the two files that describe the project and the Markdown pages of
/// the wiki are watched unless they are passed over, and nothing else. `name` is the name of the
/// file in lower case, below `folder` where it lies in one.
pub proof fn law_pages_are_watched(
    rel: Seq<char>,
    folder: Seq<char>,
    name: Seq<char>,
    rules: RulesView,
)
    requires
        !"raw/sources/"@.is_prefix_of(rel),
        lowercase(rel) == folder.push('/') + name || lowercase(rel) == name,
        !name.contains('/'),
    ensures
        is_watched(rel, rules) <==> {
            &&& !is_passed_over(rel, lowercase(rel), name, rules)
            &&& rel == "purpose.md"@ || rel == "schema.md"@ || exists|page: Seq<char>|
                rel == #[trigger] ("wiki/"@ + page) && ".md"@.is_suffix_of(rel)
        },
{
    law_text_parts_at_its_last_separator(folder, name, '/');
    lemma_passed_over(rel, lowercase(rel), name, rules);
    reveal_strlit("purpose.md");
    reveal_strlit("schema.md");
    reveal_strlit("wiki/");
    reveal_strlit(".md");
    if "wiki/"@.is_prefix_of(rel) {
        assert(rel =~= "wiki/"@ + rel.skip(5)) by {
            assert forall|k: int| 0 <= k < 5 implies rel[k] == "wiki/"@[k] by {
                assert(rel.subrange(0, 5)[k] == "wiki/"@[k]);
            }
        }
    }
    if exists|page: Seq<char>| rel == #[trigger] ("wiki/"@ + page) {
        let page = choose|page: Seq<char>| rel == #[trigger] ("wiki/"@ + page);
        assert(rel.subrange(0, 5) =~= "wiki/"@);
    }
}

/// The empty path is watched under no rules.
pub proof fn law_nothing_is_not_watched(rules: RulesView)
    ensures
        !is_watched(Seq::empty(), rules),
{
}

/// The path by which a file below the project is watched is made of the names in its path with
/// slashes between them. A file is watched by it if the path goes down only and the rules say
/// so, unless it is a source that is there and larger than the limit, in megabytes, or of unknown
/// size. What is not below the project is not watched.
pub proof fn law_path_of_a_watched_file(
    ps: Seq<Part>,
    rules: RulesView,
    exists_now: bool,
    size: Option<u64>,
)
    ensures
        watch_path(None, rules, exists_now, size) is None,
        ({
            let text = join(names_of(ps), seq!['/']);
            let r = watch_path(Some(ps), rules, exists_now, size);
            &&& r is Some ==> r->0 == text
            &&& r is Some <==> {
                &&& forall|i: int|
                    0 <= i < ps.len() ==> (#[trigger] ps[i] is Normal || ps[i] is CurDir)
                &&& is_watched(text, rules)
                &&& "raw/sources/"@.is_prefix_of(text) && exists_now ==> size is Some && size->0
                    <= rules.max_file_size_mb * 1024 * 1024
            }
        }),
{
}

/// The names of a path are those of its components that are names, in their order.
pub proof fn law_names_of_a_path(ps: Seq<Part>)
    ensures
        names_of(ps) == ps.filter(|p: Part| p is Normal).map_values(|p: Part| p->Normal_0),
    decreases ps.len(),
{
    reveal(Seq::filter);
    let f = |p: Part| p is Normal;
    let g = |p: Part| p->Normal_0;
    if ps.len() > 0 {
        law_names_of_a_path(ps.drop_last());
        if ps.last() is Normal {
            assert(ps.filter(f) =~= ps.drop_last().filter(f).push(ps.last()));
        }
        assert(names_of(ps) =~= ps.filter(f).map_values(g));
    } else {
        assert(names_of(ps) =~= ps.filter(f).map_values(g));
    }
}

/// The extensions that a list names are its members in lower case, without white space at their
/// ends and without dots in front, but for empty ones.
pub proof fn law_extensions_of_a_list(values: Seq<Seq<char>>, x: Seq<char>)
    ensures
        ext_set(values).contains(x) <==> x.len() > 0 && exists|i: int|
            0 <= i < values.len() && x == lowercase(
                strip_front(trimmed(#[trigger] values[i]), |c: char| c == '.'),
            ),
        trimmed_set(values).contains(x) <==> x.len() > 0 && exists|i: int|
            0 <= i < values.len() && x == trimmed(#[trigger] values[i]),
        dir_set(values).contains(x) <==> x.len() > 0 && exists|i: int|
            0 <= i < values.len() && x == lowercase(
                trimmed_of(replace_char(#[trigger] values[i], '\\', '/'), '/'),
            ),
    decreases values.len(),
{
    assert(just('.') =~= (|c: char| c == '.'));
    if values.len() > 0 {
        let rest = values.drop_last();
        law_extensions_of_a_list(rest, x);
        assert(values[values.len() - 1] == values.last());
        assert forall|i: int| 0 <= i < rest.len() implies #[trigger] rest[i] == values[i] by {}
        assert forall|i: int| 0 <= i < rest.len() implies #[trigger] values[i] == rest[i] by {}
        let e = |v: Seq<char>| x == ext_form(v);
        let t = |v: Seq<char>| x == trimmed(v);
        let d = |v: Seq<char>| x == dir_form(v);
        lemma_last_or_before(values, e);
        lemma_last_or_before(values, t);
        lemma_last_or_before(values, d);
        let e2 = |v: Seq<char>| x == lowercase(strip_front(trimmed(v), |c: char| c == '.'));
        assert(e =~= e2);
        assert((exists|i: int|
            0 <= i < values.len() && x == lowercase(
                strip_front(trimmed(#[trigger] values[i]), |c: char| c == '.'),
            )) == is_met(values, e)) by {
            if is_met(values, e) {
                let i = choose|i: int| 0 <= i < values.len() && e(#[trigger] values[i]);
                assert(e2(values[i]));
            }
        }
        assert((exists|i: int|
            0 <= i < rest.len() && x == lowercase(
                strip_front(trimmed(#[trigger] rest[i]), |c: char| c == '.'),
            )) == is_met(rest, e)) by {
            if is_met(rest, e) {
                let i = choose|i: int| 0 <= i < rest.len() && e(#[trigger] rest[i]);
                assert(e2(rest[i]));
            }
        }
    }
}

/// Whether a member of the list meets the condition.
spec fn is_met(values: Seq<Seq<char>>, p: spec_fn(Seq<char>) -> bool) -> bool {
    exists|i: int| 0 <= i < values.len() && p(#[trigger] values[i])
}

/// A condition is met by the last member, or by one before it.
proof fn lemma_last_or_before(values: Seq<Seq<char>>, p: spec_fn(Seq<char>) -> bool)
    requires
        values.len() > 0,
    ensures
        is_met(values, p) == (p(values.last()) || is_met(values.drop_last(), p)),
{
    let rest = values.drop_last();
    if is_met(values, p) && !p(values.last()) {
        let i = choose|i: int| 0 <= i < values.len() && p(#[trigger] values[i]);
        assert(rest[i] == values[i]);
    }
    if is_met(rest, p) {
        let i = choose|i: int| 0 <= i < rest.len() && p(#[trigger] rest[i]);
        assert(values[i] == rest[i]);
    }
    if p(values.last()) {
        assert(p(values[values.len() - 1]));
    }
}

/// The normal form of a configuration names the same extensions, directories and patterns, each
/// once and in order, and its limit is the one that was given, but at least 1 and at most 4096.
pub proof fn law_normal_form_of_a_configuration(r: ConfigView, c: ConfigView, x: Seq<char>)
    requires
        is_normal_form(r, c),
    ensures
        r.enabled == c.enabled,
        r.auto_ingest == c.auto_ingest,
        r.include_extensions.contains(x) <==> ext_set(c.include_extensions).contains(x),
        r.exclude_extensions.contains(x) <==> ext_set(c.exclude_extensions).contains(x),
        r.exclude_dirs.contains(x) <==> trimmed_set(c.exclude_dirs).contains(x),
        r.exclude_globs.contains(x) <==> trimmed_set(c.exclude_globs).contains(x),
        forall|i: int, j: int|
            0 <= i < j < r.include_extensions.len() ==> before(
                #[trigger] r.include_extensions[i],
                #[trigger] r.include_extensions[j],
            ),
        forall|i: int, j: int|
            0 <= i < j < r.exclude_extensions.len() ==> before(
                #[trigger] r.exclude_extensions[i],
                #[trigger] r.exclude_extensions[j],
            ),
        forall|i: int, j: int|
            0 <= i < j < r.exclude_dirs.len() ==> before(
                #[trigger] r.exclude_dirs[i],
                #[trigger] r.exclude_dirs[j],
            ),
        forall|i: int, j: int|
            0 <= i < j < r.exclude_globs.len() ==> before(
                #[trigger] r.exclude_globs[i],
                #[trigger] r.exclude_globs[j],
            ),
        1 <= r.max_file_size_mb <= 4096,
        1 <= c.max_file_size_mb <= 4096 ==> r.max_file_size_mb == c.max_file_size_mb,
        c.max_file_size_mb == 0 ==> r.max_file_size_mb == 1,
        c.max_file_size_mb > 4096 ==> r.max_file_size_mb == 4096,
{
    lemma_members(r.include_extensions, x);
    lemma_members(r.exclude_extensions, x);
    lemma_members(r.exclude_dirs, x);
    lemma_members(r.exclude_globs, x);
}

/// The set of a list holds its members.
proof fn lemma_members(list: Seq<Seq<char>>, x: Seq<char>)
    ensures
        list.contains(x) == list.to_set().contains(x),
{
}

/// The rules of a configuration name the extensions, directories and patterns that it names.
pub proof fn law_rules_of_a_configuration(c: ConfigView, x: Seq<char>)
    ensures
        rules_of(c).include_extensions.contains(x) <==> c.include_extensions.contains(x),
        rules_of(c).exclude_extensions.contains(x) <==> c.exclude_extensions.contains(x),
        rules_of(c).exclude_dirs.contains(x) <==> x.len() > 0 && exists|i: int|
            0 <= i < c.exclude_dirs.len() && x == lowercase(
                trimmed_of(replace_char(#[trigger] c.exclude_dirs[i], '\\', '/'), '/'),
            ),
        rules_of(c).exclude_globs == c.exclude_globs,
        rules_of(c).max_file_size_mb == c.max_file_size_mb,
{
    law_extensions_of_a_list(c.exclude_dirs, x);
}

/// What is watched where nothing is said.
pub proof fn law_default_configuration(x: Seq<char>)
    ensures
        default_config().enabled,
        default_config().auto_ingest,
        default_config().max_file_size_mb == 100,
        default_config().include_extensions.contains(x) <==> {
            ||| x == "md"@ || x == "mdx"@ || x == "txt"@ || x == "pdf"@ || x == "docx"@
            ||| x == "pptx"@ || x == "xlsx"@ || x == "odt"@ || x == "odp"@ || x == "ods"@
            ||| x == "csv"@ || x == "json"@ || x == "html"@ || x == "htm"@ || x == "rtf"@
        },
        default_config().exclude_extensions.contains(x) <==> {
            ||| x == "tmp"@ || x == "temp"@ || x == "part"@ || x == "partial"@
            ||| x == "crdownload"@ || x == "download"@ || x == "swp"@ || x == "bak"@
        },
        default_config().exclude_dirs.contains(x) <==> {
            ||| x == ".git"@ || x == ".obsidian"@ || x == ".vscode"@ || x == ".idea"@
            ||| x == "node_modules"@ || x == ".cache"@ || x == ".trash"@
        },
        default_config().exclude_globs.contains(x) <==> {
            x == "~$*"@ || x == ".~lock.*#"@ || x == "*.tmp"@ || x == "._*"@
        },
{
    let a = default_includes();
    let b = default_excludes();
    let c = default_dirs();
    let d = default_globs();
    assert(a[0] == "md"@ && a[1] == "mdx"@ && a[2] == "txt"@ && a[3] == "pdf"@ && a[4] == "docx"@);
    assert(a[5] == "pptx"@ && a[6] == "xlsx"@ && a[7] == "odt"@ && a[8] == "odp"@ && a[9]
        == "ods"@);
    assert(a[10] == "csv"@ && a[11] == "json"@ && a[12] == "html"@ && a[13] == "htm"@ && a[14]
        == "rtf"@);
    assert(b[0] == "tmp"@ && b[1] == "temp"@ && b[2] == "part"@ && b[3] == "partial"@);
    assert(b[4] == "crdownload"@ && b[5] == "download"@ && b[6] == "swp"@ && b[7] == "bak"@);
    assert(c[0] == ".git"@ && c[1] == ".obsidian"@ && c[2] == ".vscode"@ && c[3] == ".idea"@);
    assert(c[4] == "node_modules"@ && c[5] == ".cache"@ && c[6] == ".trash"@);
    assert(d[0] == "~$*"@ && d[1] == ".~lock.*#"@ && d[2] == "*.tmp"@ && d[3] == "._*"@);
}

/// What was said of how sources are watched counts, an empty list as well as any other; of what
/// was left unsaid, and of that alone, the defaults count.
pub proof fn law_defaults_fill_in_what_was_left_unsaid(
    said: PartialWatchConfig,
    defaults: ConfigView,
)
    ensures
        ({
            let r = filled_in(said, defaults);
            &&& said.enabled is Some ==> r.enabled == said.enabled->0
            &&& said.enabled is None ==> r.enabled == defaults.enabled
            &&& said.auto_ingest is Some ==> r.auto_ingest == said.auto_ingest->0
            &&& said.auto_ingest is None ==> r.auto_ingest == defaults.auto_ingest
            &&& said.include_extensions is Some ==> r.include_extensions == texts(
                said.include_extensions->0@,
            )
            &&& said.include_extensions is None ==> r.include_extensions
                == defaults.include_extensions
            &&& said.exclude_extensions is Some ==> r.exclude_extensions == texts(
                said.exclude_extensions->0@,
            )
            &&& said.exclude_extensions is None ==> r.exclude_extensions
                == defaults.exclude_extensions
            &&& said.exclude_dirs is Some ==> r.exclude_dirs == texts(said.exclude_dirs->0@)
            &&& said.exclude_dirs is None ==> r.exclude_dirs == defaults.exclude_dirs
            &&& said.exclude_globs is Some ==> r.exclude_globs == texts(said.exclude_globs->0@)
            &&& said.exclude_globs is None ==> r.exclude_globs == defaults.exclude_globs
            &&& said.max_file_size_mb is Some ==> r.max_file_size_mb == said.max_file_size_mb->0
            &&& said.max_file_size_mb is None ==> r.max_file_size_mb == defaults.max_file_size_mb
        }),
{
}

/// A configuration that is given counts, and the defaults only where none is.
pub proof fn law_given_configuration_counts(config: SourceWatchConfig, defaults: SourceWatchConfig)
    ensures
        given_config(Some(config), defaults) == config@,
        given_config(None, defaults) == defaults@,
{
}

} // verus!
