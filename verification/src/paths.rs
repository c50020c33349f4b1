//! Paths: their components, the keys that files are known by, and what it takes to stay
//! below a directory.

use vstd::prelude::*;

use crate::text::{
    chars_of, concat, join, join_texts, lowercase, replace, replace_char, text_of, texts,
    to_lowercase,
};

verus! {

/// The kind of system that the files are kept on.
#[derive(Debug, Clone, Copy, PartialEq, Eq, Structural)]
pub enum Platform {
    Windows,
    Linux,
    Other,
}

/// A component of a path.
#[derive(Debug)]
pub enum PathComponent {
    Prefix(String),
    RootDir,
    CurDir,
    ParentDir,
    Normal(String),
}

/// A component of a path, its text as a sequence of characters.
#[verifier::ext_equal]
pub enum Part {
    Prefix(Seq<char>),
    RootDir,
    CurDir,
    ParentDir,
    Normal(Seq<char>),
}

impl View for PathComponent {
    type V = Part;

    open spec fn view(&self) -> Part {
        match self {
            PathComponent::Prefix(s) => Part::Prefix(s@),
            PathComponent::RootDir => Part::RootDir,
            PathComponent::CurDir => Part::CurDir,
            PathComponent::ParentDir => Part::ParentDir,
            PathComponent::Normal(s) => Part::Normal(s@),
        }
    }
}

impl Clone for PathComponent {
    fn clone(&self) -> (r: PathComponent)
        ensures
            r == *self,
    {
        match self {
            PathComponent::Prefix(s) => PathComponent::Prefix(s.clone()),
            PathComponent::RootDir => PathComponent::RootDir,
            PathComponent::CurDir => PathComponent::CurDir,
            PathComponent::ParentDir => PathComponent::ParentDir,
            PathComponent::Normal(s) => PathComponent::Normal(s.clone()),
        }
    }
}

/// The views of the components.
pub open spec fn parts(components: Seq<PathComponent>) -> Seq<Part> {
    components.map_values(|c: PathComponent| c@)
}

/// The names among the components.
pub open spec fn names_of(ps: Seq<Part>) -> Seq<Seq<char>>
    decreases ps.len(),
{
    if ps.len() == 0 {
        Seq::empty()
    } else {
        let before = names_of(ps.drop_last());
        match ps.last() {
            Part::Normal(name) => before.push(name),
            _ => before,
        }
    }
}

/// Whether every component is a name or stands for the directory itself.
pub open spec fn goes_down(ps: Seq<Part>) -> bool {
    forall|i: int| 0 <= i < ps.len() ==> (#[trigger] ps[i] is Normal || ps[i] is CurDir)
}

/// The names of a relative path with slashes between them; nothing where the path is not
/// made of names alone. Components that stand for the directory itself are passed over.
pub fn normalize_rel_path(path: &Vec<PathComponent>) -> (r: Option<String>)
    ensures
        match r {
            Some(rel) => goes_down(parts(path@)) && rel@ == join(names_of(parts(path@)), seq!['/']),
            None => !goes_down(parts(path@)),
        },
{
    let mut names: Vec<String> = Vec::new();
    let ghost all = parts(path@);
    let mut i: usize = 0;
    while i < path.len()
        invariant
            i <= path@.len(),
            all == parts(path@),
            goes_down(all.take(i as int)),
            texts(names@) == names_of(all.take(i as int)),
        decreases path@.len() - i,
    {
        let ghost upto = all.take(i as int + 1);
        proof {
            assert(upto.drop_last() =~= all.take(i as int));
            assert(upto.last() == path@[i as int]@);
            assert(all[i as int] == path@[i as int]@);
        }
        match &path[i] {
            PathComponent::Normal(name) => {
                names.push(name.clone());
            },
            PathComponent::CurDir => {},
            _ => {
                return None;
            },
        }
        proof {
            assert(texts(names@) =~= names_of(upto));
            assert forall|j: int| 0 <= j < upto.len() implies (#[trigger] upto[j] is Normal
                || upto[j] is CurDir) by {
                if j < i {
                    assert(upto[j] == all.take(i as int)[j]);
                }
            }
        }
        i += 1;
    }
    assert(all.take(i as int) =~= all);
    proof {
        reveal_strlit("/");
        assert("/"@ =~= seq!['/']);
    }
    Some(join_texts(&names, "/"))
}

/// The form of a path by which it is compared: without regard to case on Windows, as it
/// stands elsewhere.
pub open spec fn key_of(path: Seq<char>, platform: Platform) -> Seq<char> {
    if platform == Platform::Windows {
        lowercase(path)
    } else {
        path
    }
}

/// The form of a path by which it is compared.
pub fn normalize_key(path: &str, platform: Platform) -> (r: String)
    ensures
        r@ == key_of(path@, platform),
{
    if platform == Platform::Windows {
        to_lowercase(path)
    } else {
        path.to_owned()
    }
}

/// The key of a path as the system writes it.
pub open spec fn path_key_of(path: Seq<char>, platform: Platform) -> Seq<char> {
    key_of(replace_char(path, '\\', '/'), platform)
}

/// The key of a path as the system writes it, with slashes for backslashes.
pub fn normalize_path_key(path: &str, platform: Platform) -> (r: String)
    ensures
        r@ == path_key_of(path@, platform),
{
    let slashed = text_of(replace(chars_of(path).as_slice(), '\\', '/').as_slice());
    normalize_key(slashed.as_str(), platform)
}

/// Where a path leads: the resolved form of the nearest part of it that exists, and the
/// names that follow it, outermost first.
#[derive(Debug)]
pub struct ResolvedPath {
    pub base: String,
    pub missing: Vec<String>,
}

/// Whether the character stands between names on that platform.
pub open spec fn is_separator(c: char, platform: Platform) -> bool {
    c == '/' || (c == '\\' && platform == Platform::Windows)
}

/// A name below a directory.
pub open spec fn below(base: Seq<char>, name: Seq<char>, platform: Platform) -> Seq<char> {
    if base.len() == 0 || is_separator(base.last(), platform) {
        base + name
    } else {
        base + seq!['/'] + name
    }
}

/// Names below a directory, each below the one before it.
pub open spec fn all_below(
    base: Seq<char>,
    names: Seq<Seq<char>>,
    platform: Platform,
) -> Seq<char>
    decreases names.len(),
{
    if names.len() == 0 {
        base
    } else {
        below(all_below(base, names.drop_last(), platform), names.last(), platform)
    }
}

/// The key of a path, given where it leads.
pub open spec fn resolved_key(
    path: Seq<char>,
    resolved: Option<(Seq<char>, Seq<Seq<char>>)>,
    platform: Platform,
) -> Seq<char> {
    match resolved {
        Some((base, missing)) => path_key_of(all_below(base, missing, platform), platform),
        None => path_key_of(path, platform),
    }
}

/// Where a path leads, as texts.
pub open spec fn resolution(resolved: Option<ResolvedPath>) -> Option<
    (Seq<char>, Seq<Seq<char>>),
> {
    match resolved {
        Some(r) => Some((r.base@, texts(r.missing@))),
        None => None,
    }
}

/// A name below a directory.
fn push_name(base: &str, name: &str, platform: Platform) -> (r: String)
    ensures
        r@ == below(base@, name@, platform),
{
    let chars = chars_of(base);
    let n: usize = chars.len();
    let joined = n == 0 || chars[n - 1] == '/' || (chars[n - 1] == '\\' && platform
        == Platform::Windows);
    let mut out = concat(base, "");
    proof {
        reveal_strlit("");
        assert(out@ =~= base@);
    }
    if !joined {
        out.push('/');
    }
    out.append(name);
    assert(out@ =~= below(base@, name@, platform));
    out
}

/// The key of a path: that of the place it leads to where some part of it exists, else
/// that of the path as it is written. The key of a file stays the same when the file is
/// removed.
pub fn path_key(path: &str, resolved: &Option<ResolvedPath>, platform: Platform) -> (r: String)
    ensures
        r@ == resolved_key(path@, resolution(*resolved), platform),
{
    match resolved {
        Some(found) => {
            let mut out = found.base.clone();
            let ghost all = texts(found.missing@);
            let mut i: usize = 0;
            while i < found.missing.len()
                invariant
                    i <= found.missing@.len(),
                    all == texts(found.missing@),
                    out@ == all_below(found.base@, all.take(i as int), platform),
                decreases found.missing@.len() - i,
            {
                assert(all.take(i as int + 1).drop_last() =~= all.take(i as int));
                out = push_name(out.as_str(), found.missing[i].as_str(), platform);
                i += 1;
            }
            assert(all.take(i as int) =~= all);
            normalize_path_key(out.as_str(), platform)
        },
        None => normalize_path_key(path, platform),
    }
}

/// The key of a file is the same before and after the file is removed: what was the last
/// name of the resolved path is then the one missing name below its directory. It does not
/// matter which kind of slash joins the two in the resolved path.
pub proof fn law_path_key_survives_deletion(
    path: Seq<char>,
    resolved: Seq<char>,
    directory: Seq<char>,
    name: Seq<char>,
    platform: Platform,
)
    requires
        replace_char(resolved, '\\', '/') == replace_char(
            below(directory, name, platform),
            '\\',
            '/',
        ),
    ensures
        resolved_key(path, Some((resolved, Seq::empty())), platform) == resolved_key(
            path,
            Some((directory, seq![name])),
            platform,
        ),
{
    reveal_with_fuel(all_below, 2);
    assert(seq![name].drop_last() =~= Seq::empty());
}

/// On Windows a path whose last name follows a backslash agrees with the one that is put
/// together from the two, once slashes are written for backslashes.
pub proof fn law_backslash_joins_as_well(directory: Seq<char>, name: Seq<char>)
    requires
        directory.len() > 0,
        directory.last() != '/' && directory.last() != '\\',
    ensures
        replace_char(directory.push('\\') + name, '\\', '/') == replace_char(
            below(directory, name, Platform::Windows),
            '\\',
            '/',
        ),
{
    assert(replace_char(directory.push('\\') + name, '\\', '/') =~= replace_char(
        below(directory, name, Platform::Windows),
        '\\',
        '/',
    ));
}

/// On Windows two paths that agree in lower case, slashes written for backslashes, have
/// one key.
pub proof fn law_windows_key_ignores_case(a: Seq<char>, b: Seq<char>)
    requires
        lowercase(replace_char(a, '\\', '/')) == lowercase(replace_char(b, '\\', '/')),
    ensures
        path_key_of(a, Platform::Windows) == path_key_of(b, Platform::Windows),
{
}

/// One more component on a path: `.` adds nothing, `..` takes the last name away, and a
/// path that starts anew replaces what there was.
pub open spec fn pushed(out: Seq<Part>, part: Part) -> Seq<Part> {
    match part {
        Part::CurDir => out,
        Part::ParentDir => if out.len() > 0 && out.last() is Normal {
            out.drop_last()
        } else {
            out
        },
        Part::Normal(_) => out.push(part),
        Part::RootDir => if out.len() > 0 && out[0] is Prefix {
            seq![out[0], part]
        } else {
            seq![part]
        },
        Part::Prefix(_) => seq![part],
    }
}

/// The path without `.` and `..`.
pub open spec fn normalized(ps: Seq<Part>) -> Seq<Part>
    decreases ps.len(),
{
    if ps.len() == 0 {
        Seq::empty()
    } else {
        pushed(normalized(ps.drop_last()), ps.last())
    }
}

/// The path without `.` and `..`, worked out from its components alone.
pub fn normalize_path_no_canonicalize(path: &Vec<PathComponent>) -> (r: Vec<PathComponent>)
    ensures
        parts(r@) == normalized(parts(path@)),
{
    let mut out: Vec<PathComponent> = Vec::new();
    let ghost all = parts(path@);
    let mut i: usize = 0;
    assert(parts(out@) =~= normalized(all.take(0)));
    while i < path.len()
        invariant
            i <= path@.len(),
            all == parts(path@),
            parts(out@) == normalized(all.take(i as int)),
        decreases path@.len() - i,
    {
        let ghost before = parts(out@);
        proof {
            let upto = all.take(i as int + 1);
            assert(upto.drop_last() =~= all.take(i as int));
            assert(upto.last() == path@[i as int]@);
        }
        match &path[i] {
            PathComponent::CurDir => {},
            PathComponent::ParentDir => {
                if out.len() > 0 {
                    let n: usize = out.len();
                    assert(before.last() == out@[n - 1]@);
                    if let PathComponent::Normal(_) = &out[n - 1] {
                        let _ = out.pop();
                        assert(parts(out@) =~= before.drop_last());
                    }
                }
            },
            PathComponent::Normal(name) => {
                out.push(PathComponent::Normal(name.clone()));
                assert(parts(out@) =~= before.push(all[i as int]));
            },
            PathComponent::RootDir => {
                let mut fresh: Vec<PathComponent> = Vec::new();
                if out.len() > 0 {
                    assert(before[0] == out@[0]@);
                    if let PathComponent::Prefix(p) = &out[0] {
                        fresh.push(PathComponent::Prefix(p.clone()));
                    }
                }
                fresh.push(PathComponent::RootDir);
                out = fresh;
                assert(parts(out@) =~= pushed(before, all[i as int]));
            },
            PathComponent::Prefix(p) => {
                let mut fresh: Vec<PathComponent> = Vec::new();
                fresh.push(PathComponent::Prefix(p.clone()));
                out = fresh;
                assert(parts(out@) =~= seq![all[i as int]]);
            },
        }
        assert(parts(out@) == pushed(before, all[i as int]));
        i += 1;
    }
    assert(all.take(i as int) =~= all);
    out
}

/// Whether two components are equal.
pub fn same_component(a: &PathComponent, b: &PathComponent) -> (r: bool)
    ensures
        r == (a@ == b@),
{
    match (a, b) {
        (PathComponent::Prefix(s), PathComponent::Prefix(t)) => crate::text::eq(
            s.as_str(),
            t.as_str(),
        ),
        (PathComponent::RootDir, PathComponent::RootDir) => true,
        (PathComponent::CurDir, PathComponent::CurDir) => true,
        (PathComponent::ParentDir, PathComponent::ParentDir) => true,
        (PathComponent::Normal(s), PathComponent::Normal(t)) => crate::text::eq(
            s.as_str(),
            t.as_str(),
        ),
        _ => false,
    }
}

/// Whether the path begins with the components of `base`.
pub fn is_under(path: &Vec<PathComponent>, base: &Vec<PathComponent>) -> (r: bool)
    ensures
        r == parts(base@).is_prefix_of(parts(path@)),
{
    let ghost p = parts(path@);
    let ghost b = parts(base@);
    if base.len() > path.len() {
        return false;
    }
    let mut i: usize = 0;
    while i < base.len()
        invariant
            i <= base@.len() <= path@.len(),
            p == parts(path@),
            b == parts(base@),
            forall|j: int| 0 <= j < i ==> b[j] == p[j],
        decreases base@.len() - i,
    {
        if !same_component(&base[i], &path[i]) {
            assert(b[i as int] != p[i as int]);
            assert(p.subrange(0, b.len() as int)[i as int] == p[i as int]);
            return false;
        }
        i += 1;
    }
    assert(b =~= p.subrange(0, b.len() as int));
    true
}

/// Whether the components are those of a resolved path: where it starts, and names.
pub open spec fn is_resolved(ps: Seq<Part>) -> bool {
    forall|i: int|
        0 <= i < ps.len() ==> {
            ||| #[trigger] ps[i] is Normal
            ||| ps[i] is Prefix && i == 0
            ||| ps[i] is RootDir && (i == 0 || (i == 1 && ps[0] is Prefix))
        }
}

/// A resolved path is its own normal form.
pub proof fn lemma_resolved_is_normal(ps: Seq<Part>)
    requires
        is_resolved(ps),
    ensures
        normalized(ps) == ps,
    decreases ps.len(),
{
    if ps.len() > 0 {
        let before = ps.drop_last();
        assert forall|i: int| 0 <= i < before.len() implies {
            ||| #[trigger] before[i] is Normal
            ||| before[i] is Prefix && i == 0
            ||| before[i] is RootDir && (i == 0 || (i == 1 && before[0] is Prefix))
        } by {
            assert(ps[i] == before[i]);
            assert(ps[0] == before[0]);
        }
        lemma_resolved_is_normal(before);
        assert(ps[ps.len() - 1] == ps.last());
        if ps.last() is RootDir && ps.len() == 2 {
            assert(before[0] == ps[0]);
        }
        assert(pushed(before, ps.last()) =~= ps);
    } else {
        assert(normalized(ps) =~= ps);
    }
}

/// Names below a resolved path, as components.
pub open spec fn normals(names: Seq<Seq<char>>) -> Seq<Part> {
    names.map_values(|n: Seq<char>| Part::Normal(n))
}

/// Components that go down add their names and nothing else.
pub proof fn lemma_goes_down(root: Seq<Part>, ps: Seq<Part>)
    requires
        is_resolved(root),
        goes_down(ps),
    ensures
        normalized(root + ps) == root + normals(names_of(ps)),
    decreases ps.len(),
{
    if ps.len() == 0 {
        lemma_resolved_is_normal(root);
        assert(root + ps =~= root);
        assert(root + normals(names_of(ps)) =~= root);
    } else {
        let before = ps.drop_last();
        assert forall|i: int| 0 <= i < before.len() implies (#[trigger] before[i] is Normal
            || before[i] is CurDir) by {
            assert(ps[i] == before[i]);
        }
        lemma_goes_down(root, before);
        assert((root + ps).drop_last() =~= root + before);
        assert((root + ps).last() == ps.last());
        assert(ps[ps.len() - 1] == ps.last());
        match ps.last() {
            Part::Normal(name) => {
                assert(normals(names_of(ps)) =~= normals(names_of(before)).push(ps.last()));
                assert(root + normals(names_of(ps)) =~= (root + normals(names_of(before))).push(
                    ps.last(),
                ));
            },
            _ => {},
        }
    }
}

} // verus!
