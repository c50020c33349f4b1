//! What holds of which pages refer to a source, whatever the wiki.

use vstd::prelude::*;

use crate::paths::Part;
use crate::related::{
    front_matter, in_sources, lists_source, refers, related, source_key,
    PageView, SourceKey,
};
use crate::text::{contains_text, lowercase, occurs_at, replace_char, split_on};
use crate::text_laws::law_text_parts_at_its_last_separator;

verus! {

/// What stands between the dashes that a page begins with and the next line of dashes is its
/// front matter.
pub proof fn law_front_matter_stands_between_dashes(front: Seq<char>, rest: Seq<char>)
    requires
        forall|j: int| 0 <= j < front.len() ==> !occurs_at(front + "\n---"@ + rest, "\n---"@, j),
    ensures
        front_matter("---\n"@ + front + "\n---"@ + rest) == Some(front),
{
    reveal_strlit("---\n");
    reveal_strlit("\n---");
    let content = "---\n"@ + front + "\n---"@ + rest;
    let body = front + "\n---"@ + rest;
    let n = front.len() as int;
    assert(content.skip(4) =~= body);
    assert(content.subrange(0, 4) =~= "---\n"@);
    assert(body.subrange(n, n + 4) =~= "\n---"@);
    assert(occurs_at(body, "\n---"@, n));
    let end = choose|i: int|
        occurs_at(body, "\n---"@, i) && forall|j: int| j < i ==> !occurs_at(body, "\n---"@, j);
    assert(end == n) by {
        assert forall|j: int| j < n implies !occurs_at(body, "\n---"@, j) by {}
    }
    assert(body.take(n) =~= front);
}

/// A page that does not begin with dashes, or in which no line of dashes follows, has no front
/// matter.
pub proof fn law_page_without_front_matter(content: Seq<char>)
    ensures
        front_matter(content) is Some ==> exists|front: Seq<char>, rest: Seq<char>|
            content == #[trigger] ("---\n"@ + front + "\n---"@ + rest) && front_matter(content)
                == Some(front),
{
    reveal_strlit("---\n");
    reveal_strlit("\n---");
    let body = content.skip(4);
    if front_matter(content) is Some {
        lemma_first_occurrence(body, "\n---"@);
        let end = choose|i: int|
            occurs_at(body, "\n---"@, i) && forall|j: int| j < i ==> !occurs_at(body, "\n---"@, j);
        let front = body.take(end);
        let rest = body.skip(end + 4);
        assert(content.subrange(0, 4) == "---\n"@);
        assert(body.subrange(end, end + 4) == "\n---"@);
        assert(content =~= "---\n"@ + front + "\n---"@ + rest) by {
            assert forall|k: int| 0 <= k < 4 implies content[k] == "---\n"@[k] by {
                assert(content.subrange(0, 4)[k] == "---\n"@[k]);
            }
            assert forall|k: int| 0 <= k < 4 implies body[end + k] == "\n---"@[k] by {
                assert(body.subrange(end, end + 4)[k] == "\n---"@[k]);
            }
        }
    }
}

/// A text that stands in another stands in it for the first time somewhere.
proof fn lemma_first_occurrence(hay: Seq<char>, needle: Seq<char>)
    requires
        contains_text(hay, needle),
    ensures
        exists|i: int|
            occurs_at(hay, needle, i) && forall|j: int| j < i ==> !occurs_at(hay, needle, j),
{
    let i = choose|i: int| occurs_at(hay, needle, i);
    lemma_first_up_to(hay, needle, i);
}

/// Among the places up to one where the text stands, there is a first.
proof fn lemma_first_up_to(hay: Seq<char>, needle: Seq<char>, i: int)
    requires
        occurs_at(hay, needle, i),
    ensures
        exists|k: int|
            occurs_at(hay, needle, k) && forall|j: int| j < k ==> !occurs_at(hay, needle, j),
    decreases i,
{
    if exists|j: int| j < i && occurs_at(hay, needle, j) {
        let j = choose|j: int| j < i && occurs_at(hay, needle, j);
        lemma_first_up_to(hay, needle, j);
    }
}

/// Whether the line at `i` belongs to the block that the line at `k` opens: that begins with
/// `sources:`, and every line after it up to `i` is empty or begins with a space or a tab.
pub open spec fn is_in_block(lines: Seq<Seq<char>>, k: int, i: int) -> bool {
    &&& 0 <= k <= i < lines.len()
    &&& "sources:"@.is_prefix_of(lines[k])
    &&& forall|j: int|
        k < j <= i ==> (#[trigger] lines[j]).len() == 0 || lines[j][0] == ' ' || lines[j][0] == '\t'
}

/// A line belongs to the list of sources if a line before it opens the list, or it does itself,
/// and the lines between go on with it.
pub proof fn law_list_of_sources(lines: Seq<Seq<char>>, i: int)
    ensures
        in_sources(lines, i) <==> exists|k: int| is_in_block(lines, k, i),
    decreases i + 1,
{
    if 0 <= i < lines.len() {
        law_list_of_sources(lines, i - 1);
        if in_sources(lines, i) {
            if "sources:"@.is_prefix_of(lines[i]) {
                assert(is_in_block(lines, i, i));
            } else {
                let h = i - 1;
                let k = choose|k: int| is_in_block(lines, k, h);
                assert(is_in_block(lines, k, i));
            }
        }
        if exists|k: int| is_in_block(lines, k, i) {
            let k = choose|k: int| is_in_block(lines, k, i);
            if k < i {
                assert(is_in_block(lines, k, i - 1));
            }
        }
    }
}

/// Whether a line of the list of sources in the front matter names the source.
pub open spec fn is_listed(front: Seq<char>, name: Seq<char>) -> bool {
    let lines = split_on(lowercase(front), '\n');
    exists|k: int, i: int| #[trigger] is_in_block(lines, k, i) && contains_text(lines[i], name)
}

/// Whether the page refers to the source with that name and stem, in lower case: it is a Markdown
/// page that could be read, other than the three that list pages, and names the source in
/// quotation marks, is a summary of it among the sources, or lists it in its front matter.
pub open spec fn is_reference(page: PageView, name: Seq<char>, stem: Seq<char>) -> bool {
    let own = match page.name {
        Some(n) => n,
        None => Seq::empty(),
    };
    &&& page.extension == Some("md"@)
    &&& own != "index.md"@ && own != "log.md"@ && own != "overview.md"@
    &&& page.content is Some
    &&& {
        let content = page.content->0;
        ||| contains_text(lowercase(content), seq!['"'] + name + seq!['"'])
        ||| contains_text(lowercase(content), seq!['\''] + name + seq!['\''])
        ||| page.components.len() > 0 && page.components[0] == Part::Normal("sources"@)
            && stem.is_prefix_of(lowercase(own))
        ||| front_matter(content) is Some && is_listed(front_matter(content)->0, name)
    }
}

/// A page refers to a source in those ways and in no other.
pub proof fn law_what_counts_as_a_reference(page: PageView, source: SourceKey)
    ensures
        refers(page, source) <==> is_reference(page, source.name, source.stem),
{
    if page.content is Some {
        let content = page.content->0;
        if front_matter(content) is Some {
            let front = front_matter(content)->0;
            let lines = split_on(lowercase(front), '\n');
            if lists_source(lines, source.name) {
                let i = choose|i: int|
                    #[trigger] in_sources(lines, i) && contains_text(lines[i], source.name);
                law_list_of_sources(lines, i);
                let k = choose|k: int| is_in_block(lines, k, i);
                assert(is_in_block(lines, k, i) && contains_text(lines[i], source.name));
            }
            if is_listed(front, source.name) {
                let (k, i) = choose|k: int, i: int| #[trigger]
                    is_in_block(lines, k, i) && contains_text(lines[i], source.name);
                law_list_of_sources(lines, i);
                assert(in_sources(lines, i));
            }
        }
    }
}

/// The pages that are found are all those that refer to the source, and no others, in the order
/// of the pages, each by its path with slashes for backslashes.
pub proof fn law_all_pages_that_refer_are_found(pages: Seq<PageView>, source: SourceKey)
    ensures
        ({
            let referring = pages.filter(
                |p: PageView| is_reference(p, source.name, source.stem),
            );
            let found = related(pages, source);
            &&& found.len() == referring.len()
            &&& forall|i: int|
                0 <= i < found.len() ==> {
                    &&& (#[trigger] found[i]).len() == referring[i].path.len()
                    &&& forall|k: int|
                        0 <= k < found[i].len() ==> #[trigger] found[i][k] == if referring[i].path[k]
                            == '\\' {
                            '/'
                        } else {
                            referring[i].path[k]
                        }
                }
        }),
        forall|i: int|
            0 <= i < pages.len() && is_reference(#[trigger] pages[i], source.name, source.stem)
                ==> related(pages, source).contains(replace_char(pages[i].path, '\\', '/')),
    decreases pages.len(),
{
    reveal(Seq::filter);
    let f = |p: PageView| is_reference(p, source.name, source.stem);
    if pages.len() > 0 {
        let rest = pages.drop_last();
        let last = pages.last();
        law_all_pages_that_refer_are_found(rest, source);
        law_what_counts_as_a_reference(last, source);
        let a = related(rest, source);
        let b = rest.filter(f);
        let found = related(pages, source);
        if f(last) {
            assert(pages.filter(f) =~= b.push(last));
            let referring = b.push(last);
            assert forall|i: int| 0 <= i < found.len() implies {
                &&& (#[trigger] found[i]).len() == referring[i].path.len()
                &&& forall|k: int|
                    0 <= k < found[i].len() ==> #[trigger] found[i][k] == if referring[i].path[k]
                        == '\\' {
                        '/'
                    } else {
                        referring[i].path[k]
                    }
            } by {
                if i < a.len() {
                    assert(found[i] == a[i]);
                    assert(referring[i] == b[i]);
                }
            }
        }
        assert forall|i: int|
            0 <= i < pages.len() && is_reference(
                #[trigger] pages[i],
                source.name,
                source.stem,
            ) implies found.contains(replace_char(pages[i].path, '\\', '/')) by {
            let path = replace_char(pages[i].path, '\\', '/');
            if i < rest.len() {
                assert(rest[i] == pages[i]);
                assert(a.contains(path));
                let k = choose|k: int| 0 <= k < a.len() && a[k] == path;
                assert(found[k] == path);
            } else {
                assert(found[found.len() - 1] == path);
            }
        }
    }
}

/// A source is known by the name of its file in lower case, and by what stands before the last
/// dot of that; a name without a dot, or with none but in front, is its own stem. Where the path
/// of the source has no file name the source's name counts.
pub proof fn law_what_a_source_is_known_by(
    source_name: Seq<char>,
    stem: Seq<char>,
    ext: Seq<char>,
    bare: Seq<char>,
)
    requires
        !ext.contains('.'),
        !bare.contains('.'),
    ensures
        ({
            let file = stem.push('.') + ext;
            let key = source_key(source_name, Some(file));
            &&& key.name == lowercase(file)
            &&& stem.len() > 0 ==> key.stem == lowercase(stem)
            &&& stem.len() == 0 ==> key.stem == lowercase(file)
        }),
        source_key(source_name, Some(bare)).name == lowercase(bare),
        source_key(source_name, Some(bare)).stem == lowercase(bare),
        source_key(source_name, None) == source_key(source_name, Some(source_name)),
{
    law_text_parts_at_its_last_separator(stem, ext, '.');
    law_text_parts_at_its_last_separator(stem, bare, '.');
}

} // verus!
