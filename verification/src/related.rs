//! Which pages of a wiki refer to a source.

use vstd::prelude::*;

use crate::paths::{parts, Part, PathComponent};
use crate::text::{
    before_last, chars_of, concat, concat3, contains_text, eq, find, find_last, has_prefix,
    has_text, lemma_last_index, lowercase, occurs_at, opt_text, parts_of, replace, replace_char,
    split, split_on, starts_with, text_of, texts, to_lowercase,
};

verus! {

/// What went wrong with the pages of a wiki.
#[derive(Debug)]
pub enum WikiError {
    Io(String),
    Join(String),
    Internal(String),
}

impl WikiError {
    /// The text that the error is shown by.
    pub open spec fn shown(self) -> Seq<char> {
        match self {
            WikiError::Io(s) => "io error: "@ + s@,
            WikiError::Join(s) => "blocking task panicked: "@ + s@,
            WikiError::Internal(s) => "internal: "@ + s@,
        }
    }

    /// The text that the error is shown by.
    pub fn message(&self) -> (r: String)
        ensures
            r@ == self.shown(),
    {
        match self {
            WikiError::Io(s) => concat("io error: ", s.as_str()),
            WikiError::Join(s) => concat("blocking task panicked: ", s.as_str()),
            WikiError::Internal(s) => concat("internal: ", s.as_str()),
        }
    }
}

/// A file of a wiki: its path, the components of its path below the directory of the wiki,
/// its name where that is text, its extension, and its contents where they could be read as
/// text.
#[derive(Debug)]
pub struct WikiPage {
    pub path: String,
    pub components: Vec<PathComponent>,
    pub name: Option<String>,
    pub extension: Option<String>,
    pub content: Option<String>,
}

#[verifier::ext_equal]
pub struct PageView {
    pub path: Seq<char>,
    pub components: Seq<Part>,
    pub name: Option<Seq<char>>,
    pub extension: Option<Seq<char>>,
    pub content: Option<Seq<char>>,
}

impl View for WikiPage {
    type V = PageView;

    open spec fn view(&self) -> PageView {
        PageView {
            path: self.path@,
            components: parts(self.components@),
            name: opt_text(self.name),
            extension: opt_text(self.extension),
            content: opt_text(self.content),
        }
    }
}

/// The views of the pages.
pub open spec fn page_views(pages: Seq<WikiPage>) -> Seq<PageView> {
    pages.map_values(|p: WikiPage| p@)
}

/// A source as pages refer to it: the name of its file, and the name without the
/// extension, both in lower case.
#[verifier::ext_equal]
pub struct SourceKey {
    pub name: Seq<char>,
    pub stem: Seq<char>,
}

/// The name of the file of a source: that of the file at the source's path, or the source's
/// name as it is where the path has none.
pub open spec fn source_file(source_name: Seq<char>, file_name: Option<Seq<char>>) -> Seq<char> {
    match file_name {
        Some(name) => name,
        None => source_name,
    }
}

/// How pages refer to a source. A name without an extension is its own stem.
pub open spec fn source_key(source_name: Seq<char>, file_name: Option<Seq<char>>) -> SourceKey {
    let file = source_file(source_name, file_name);
    let stem = before_last(file, '.');
    SourceKey {
        name: lowercase(file),
        stem: if stem.len() == 0 {
            lowercase(file)
        } else {
            lowercase(stem)
        },
    }
}

/// Whether the text names the source in quotation marks.
pub open spec fn quotes(content: Seq<char>, name: Seq<char>) -> bool {
    ||| contains_text(lowercase(content), seq!['"'] + name + seq!['"'])
    ||| contains_text(lowercase(content), seq!['\''] + name + seq!['\''])
}

/// What stands between the line of dashes that a page begins with and the next one.
pub open spec fn front_matter(content: Seq<char>) -> Option<Seq<char>> {
    let rest = content.skip(4);
    if "---\n"@.is_prefix_of(content) && contains_text(rest, "\n---"@) {
        let end = choose|i: int|
            occurs_at(rest, "\n---"@, i) && forall|j: int|
                j < i ==> !occurs_at(rest, "\n---"@, j);
        Some(rest.take(end))
    } else {
        None
    }
}

/// Whether the line opens the list of sources.
pub open spec fn opens_sources(line: Seq<char>) -> bool {
    "sources:"@.is_prefix_of(line)
}

/// Whether the line is one that goes on with what the lines before it began.
pub open spec fn goes_on(line: Seq<char>) -> bool {
    line.len() == 0 || line[0] == ' ' || line[0] == '\t'
}

/// Whether the line at `i` belongs to the list of sources: it opens it, or goes on with it.
pub open spec fn in_sources(lines: Seq<Seq<char>>, i: int) -> bool
    decreases i + 1,
{
    0 <= i < lines.len() && (opens_sources(lines[i]) || (goes_on(lines[i]) && in_sources(
        lines,
        i - 1,
    )))
}

/// Whether the list of sources mentions the name.
pub open spec fn lists_source(lines: Seq<Seq<char>>, name: Seq<char>) -> bool {
    exists|i: int| #[trigger] in_sources(lines, i) && contains_text(lines[i], name)
}

/// Whether the front matter of the page lists the source.
pub open spec fn front_lists(content: Seq<char>, name: Seq<char>) -> bool {
    match front_matter(content) {
        Some(front) => lists_source(split_on(lowercase(front), '\n'), name),
        None => false,
    }
}

/// Whether the page lies in the wiki's directory of sources.
pub open spec fn among_sources(components: Seq<Part>) -> bool {
    components.len() > 0 && components[0] == Part::Normal("sources"@)
}

/// Whether the page is one that lists others and is kept up apart.
pub open spec fn is_listing(name: Seq<char>) -> bool {
    name == "index.md"@ || name == "log.md"@ || name == "overview.md"@
}

/// The name of a page, empty where it is not text.
pub open spec fn page_name(page: PageView) -> Seq<char> {
    match page.name {
        Some(name) => name,
        None => Seq::empty(),
    }
}

/// Whether the page refers to the source: it quotes its name, it is the summary of it
/// among the sources, or its front matter lists it.
pub open spec fn refers(page: PageView, source: SourceKey) -> bool {
    &&& page.extension == Some("md"@)
    &&& !is_listing(page_name(page))
    &&& match page.content {
        Some(content) => {
            ||| quotes(content, source.name)
            ||| among_sources(page.components) && source.stem.is_prefix_of(
                lowercase(page_name(page)),
            )
            ||| front_lists(content, source.name)
        },
        None => false,
    }
}

/// The paths of the pages that refer to the source, in the order of the pages and with
/// slashes for backslashes.
pub open spec fn related(pages: Seq<PageView>, source: SourceKey) -> Seq<Seq<char>>
    decreases pages.len(),
{
    if pages.len() == 0 {
        Seq::empty()
    } else {
        let before = related(pages.drop_last(), source);
        if refers(pages.last(), source) {
            before.push(replace_char(pages.last().path, '\\', '/'))
        } else {
            before
        }
    }
}

/// The name without its extension.
fn stem_of(name: &str) -> (r: String)
    ensures
        r@ == before_last(name@, '.'),
{
    let chars = chars_of(name);
    proof {
        lemma_last_index(name@, '.');
        reveal_strlit("");
        assert(""@ =~= Seq::<char>::empty());
    }
    match find_last(chars.as_slice(), '.') {
        Some(i) => {
            let head = &chars.as_slice()[0..i];
            assert(head@ =~= name@.take(i as int));
            text_of(head)
        },
        None => "".to_owned(),
    }
}

/// Whether the list of sources in these lines mentions the name.
fn lines_list_source(lines: &Vec<Vec<char>>, name: &[char]) -> (r: bool)
    ensures
        r == lists_source(parts_of(lines@), name@),
{
    let opening = chars_of("sources:");
    let ghost all = parts_of(lines@);
    let mut inside = false;
    let mut i: usize = 0;
    while i < lines.len()
        invariant
            i <= lines@.len(),
            all == parts_of(lines@),
            opening@ == "sources:"@,
            inside == in_sources(all, i - 1),
            forall|j: int|
                j < i ==> !(#[trigger] in_sources(all, j) && contains_text(all[j], name@)),
        decreases lines@.len() - i,
    {
        let line = lines[i].as_slice();
        assert(all[i as int] == line@);
        if starts_with(line, opening.as_slice()) {
            inside = true;
        } else if inside {
            inside = line.len() == 0 || line[0] == ' ' || line[0] == '\t';
        }
        assert(inside == in_sources(all, i as int));
        if inside && crate::text::contains(line, name) {
            assert(in_sources(all, i as int) && contains_text(all[i as int], name@));
            return true;
        }
        i += 1;
    }
    false
}

/// What stands between the line of dashes that a page begins with and the next one.
pub fn front_matter_of(content: &str) -> (r: Option<String>)
    ensures
        opt_text(r) == front_matter(content@),
{
    if !has_prefix(content, "---\n") {
        return None;
    }
    proof {
        reveal_strlit("---\n");
    }
    let chars = chars_of(content);
    let n: usize = chars.len();
    let rest = &chars.as_slice()[4..n];
    assert(rest@ =~= content@.skip(4));
    let mark = chars_of("\n---");
    match find(rest, mark.as_slice()) {
        Some(end) => {
            let front = &rest[0..end];
            proof {
                let k = choose|i: int|
                    occurs_at(rest@, "\n---"@, i) && forall|j: int|
                        j < i ==> !occurs_at(rest@, "\n---"@, j);
                assert(occurs_at(rest@, "\n---"@, end as int));
                assert(k == end);
                assert(front@ =~= rest@.take(end as int));
                assert(contains_text(rest@, "\n---"@));
                assert(front_matter(content@) == Some(front@));
            }
            Some(text_of(front))
        },
        None => None,
    }
}

/// Whether the front matter of the page lists the source.
fn front_matter_lists(content: &str, name: &str) -> (r: bool)
    ensures
        r == front_lists(content@, name@),
{
    match front_matter_of(content) {
        Some(front) => {
            let lower = to_lowercase(front.as_str());
            let lines = split(chars_of(lower.as_str()).as_slice(), '\n');
            lines_list_source(&lines, chars_of(name).as_slice())
        },
        None => false,
    }
}

/// Whether the page lies in the wiki's directory of sources.
fn lies_among_sources(components: &Vec<PathComponent>) -> (r: bool)
    ensures
        r == among_sources(parts(components@)),
{
    if components.len() == 0 {
        return false;
    }
    assert(parts(components@)[0] == components@[0]@);
    match &components[0] {
        PathComponent::Normal(name) => eq(name.as_str(), "sources"),
        _ => false,
    }
}

/// Whether the page refers to the source with that name and stem in lower case.
fn page_refers(page: &WikiPage, name: &str, stem: &str) -> (r: bool)
    ensures
        r == refers(page@, (SourceKey { name: name@, stem: stem@ })),
{
    match &page.extension {
        Some(ext) => {
            if !eq(ext.as_str(), "md") {
                return false;
            }
        },
        None => {
            return false;
        },
    }
    proof {
        reveal_strlit("");
        assert(""@ =~= Seq::<char>::empty());
        reveal_strlit("\"");
        assert("\""@ =~= seq!['"']);
        reveal_strlit("'");
        assert("'"@ =~= seq!['\'']);
    }
    let own = match &page.name {
        Some(n) => n.clone(),
        None => "".to_owned(),
    };
    assert(own@ == page_name(page@));
    if eq(own.as_str(), "index.md") || eq(own.as_str(), "log.md") || eq(
        own.as_str(),
        "overview.md",
    ) {
        return false;
    }
    match &page.content {
        Some(content) => {
            let lower = to_lowercase(content.as_str());
            let quoted = has_text(lower.as_str(), concat3("\"", name, "\"").as_str()) || has_text(
                lower.as_str(),
                concat3("'", name, "'").as_str(),
            );
            let summary = lies_among_sources(&page.components) && has_prefix(
                to_lowercase(own.as_str()).as_str(),
                stem,
            );
            quoted || summary || front_matter_lists(content.as_str(), name)
        },
        None => false,
    }
}

/// Adds the paths of the pages that refer to the source. `file_name` is the name of the file
/// at the source's path, as the system sees it.
pub fn collect_related_pages(
    pages: &Vec<WikiPage>,
    source_name: &str,
    file_name: &Option<String>,
    results: &mut Vec<String>,
)
    ensures
        texts(final(results)@) == texts(old(results)@) + related(
            page_views(pages@),
            source_key(source_name@, opt_text(*file_name)),
        ),
{
    let file = match file_name {
        Some(name) => name.clone(),
        None => source_name.to_owned(),
    };
    let name = to_lowercase(file.as_str());
    let bare = stem_of(file.as_str());
    let stem = if chars_of(bare.as_str()).len() == 0 {
        name.clone()
    } else {
        to_lowercase(bare.as_str())
    };
    let ghost key = SourceKey { name: name@, stem: stem@ };
    assert(key =~= source_key(source_name@, opt_text(*file_name)));
    let ghost all = page_views(pages@);
    let mut i: usize = 0;
    assert(texts(results@) =~= texts(old(results)@) + related(all.take(0), key));
    while i < pages.len()
        invariant
            i <= pages@.len(),
            all == page_views(pages@),
            key == (SourceKey { name: name@, stem: stem@ }),
            texts(results@) == texts(old(results)@) + related(all.take(i as int), key),
        decreases pages@.len() - i,
    {
        let ghost so_far = texts(results@);
        proof {
            assert(all.take(i as int + 1).drop_last() =~= all.take(i as int));
            assert(all.take(i as int + 1).last() == pages@[i as int]@);
        }
        if page_refers(&pages[i], name.as_str(), stem.as_str()) {
            let path = text_of(
                replace(chars_of(pages[i].path.as_str()).as_slice(), '\\', '/').as_slice(),
            );
            let ghost text = path@;
            results.push(path);
            assert(texts(results@) =~= so_far.push(text));
        }
        assert(texts(results@) =~= texts(old(results)@) + related(all.take(i as int + 1), key));
        i += 1;
    }
    assert(all.take(i as int) =~= all);
}

/// The paths of the pages that refer to the source; none where there is no wiki.
pub fn find_related_wiki_pages(
    pages: &Option<Vec<WikiPage>>,
    source_name: &str,
    file_name: &Option<String>,
) -> (r: Vec<String>)
    ensures
        texts(r@) == match *pages {
            Some(found) => related(page_views(found@), source_key(source_name@, opt_text(*file_name))),
            None => Seq::empty(),
        },
{
    let mut out: Vec<String> = Vec::new();
    assert(texts(out@) =~= Seq::empty());
    match pages {
        Some(found) => {
            collect_related_pages(found, source_name, file_name, &mut out);
            assert(texts(out@) =~= related(
                page_views(found@),
                source_key(source_name@, opt_text(*file_name)),
            ));
        },
        None => {},
    }
    out
}

/// A page that mentions a source, be it in its title, its description or its text, is not
/// related to it unless the mention is quoted, stands in the list of sources, or the page
/// is the summary among the sources.
pub proof fn law_mention_is_no_reference(page: PageView, content: Seq<char>, source: SourceKey)
    requires
        page.content == Some(content),
        !quotes(content, source.name),
        !among_sources(page.components),
        match front_matter(content) {
            Some(front) => {
                let lines = split_on(lowercase(front), '\n');
                forall|i: int|
                    #[trigger] in_sources(lines, i) ==> !contains_text(lines[i], source.name)
            },
            None => true,
        },
    ensures
        !refers(page, source),
{
}

/// The list of sources ends with the first line that neither opens it nor goes on with it:
/// the lines after that do not belong to it until another line opens it.
pub proof fn law_sources_end_at_next_field(lines: Seq<Seq<char>>, end: int, i: int)
    requires
        0 <= end <= i < lines.len(),
        !opens_sources(lines[end]),
        !goes_on(lines[end]),
        forall|j: int| end < j <= i ==> !opens_sources(#[trigger] lines[j]),
    ensures
        !in_sources(lines, i),
    decreases i,
{
    if i > end {
        law_sources_end_at_next_field(lines, end, i - 1);
    }
}

/// Pages that list others are never related to a source.
pub proof fn law_listing_is_never_related(page: PageView, source: SourceKey)
    requires
        is_listing(page_name(page)),
    ensures
        !refers(page, source),
{
}

} // verus!
