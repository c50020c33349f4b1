use llm_wiki::paths::PathComponent;
use llm_wiki::related::{collect_related_pages, find_related_wiki_pages, WikiError, WikiPage};
use std::path::{Component, Path};

/// The components of a path, as the system sees them.
fn components_of(path: &str) -> Vec<PathComponent> {
    Path::new(path)
        .components()
        .map(|c| match c {
            Component::Prefix(p) => {
                PathComponent::Prefix(p.as_os_str().to_string_lossy().to_string())
            }
            Component::RootDir => PathComponent::RootDir,
            Component::CurDir => PathComponent::CurDir,
            Component::ParentDir => PathComponent::ParentDir,
            Component::Normal(s) => PathComponent::Normal(s.to_string_lossy().to_string()),
        })
        .collect()
}

fn file_name(path: &str) -> Option<String> {
    Path::new(path).file_name().map(|n| n.to_string_lossy().to_string())
}

/// A page at `rel` below the directory of the wiki.
fn page(dir: &str, rel: &str, content: Option<&str>) -> WikiPage {
    WikiPage {
        path: format!("{dir}/{rel}"),
        components: components_of(rel),
        name: file_name(rel),
        extension: Path::new(rel).extension().map(|n| n.to_string_lossy().to_string()),
        content: content.map(str::to_string),
    }
}

fn make_wiki(files: &[(&str, &str)]) -> Vec<WikiPage> {
    files
        .iter()
        .map(|(rel, body)| page("/tmp/wiki", rel, Some(body)))
        .collect()
}

fn collect(wiki: &Vec<WikiPage>, source: &str) -> Vec<String> {
    let mut out = Vec::new();
    collect_related_pages(wiki, source, &file_name(source), &mut out);
    out.into_iter()
        .map(|p| p.strip_prefix("/tmp/wiki/").map(str::to_string).unwrap_or(p))
        .collect()
}

#[test]
fn collect_related_strategy1_inline_quoted_sources() {
    let wiki = make_wiki(&[
        (
            "concepts/rope.md",
            "---\ntitle: RoPE\nsources: [\"test.md\"]\n---\nbody\n",
        ),
        (
            "concepts/unrelated.md",
            "---\ntitle: Unrelated\nsources: [\"other.md\"]\n---\nbody\n",
        ),
    ]);
    let mut got = collect(&wiki, "test.md");
    got.sort();
    assert_eq!(got, vec!["concepts/rope.md"]);
}

#[test]
fn collect_related_strategy1_single_quoted_sources() {
    let wiki = make_wiki(&[(
        "concepts/rope.md",
        "---\ntitle: RoPE\nsources: ['test.md']\n---\nbody\n",
    )]);
    let got = collect(&wiki, "test.md");
    assert_eq!(got, vec!["concepts/rope.md"]);
}

#[test]
fn collect_related_strategy2_source_summary_page() {
    let wiki = make_wiki(&[
        ("sources/test.md", "---\ntitle: Test Summary\n---\nbody\n"),
        (
            "concepts/unrelated.md",
            "---\ntitle: Unrelated\nsources: [\"other.md\"]\n---\nbody\n",
        ),
    ]);
    let got = collect(&wiki, "test.md");
    assert_eq!(got, vec!["sources/test.md"]);
}

#[test]
fn collect_related_strategy3_multi_line_yaml_list() {
    let wiki = make_wiki(&[(
        "concepts/rope.md",
        "---\ntitle: RoPE\nsources:\n  - test.md\n  - \"other.md\"\ntags: []\n---\nbody\n",
    )]);
    let got = collect(&wiki, "test.md");
    assert_eq!(got, vec!["concepts/rope.md"]);
}

#[test]
fn collect_related_strategy3_does_not_false_positive_on_title_substring() {
    let wiki = make_wiki(&[
        (
            "concepts/rope.md",
            "---\ntitle: Analysis of test.md\ndescription: Discusses test.md in depth\nsources: [\"other.md\"]\n---\nbody\n",
        ),
        (
            "concepts/real-match.md",
            "---\ntitle: Real\nsources: [\"test.md\"]\n---\nbody\n",
        ),
    ]);
    let got = collect(&wiki, "test.md");
    assert_eq!(got, vec!["concepts/real-match.md"]);
}

#[test]
fn collect_related_strategy3_stops_at_next_top_level_field() {
    let wiki = make_wiki(&[(
        "concepts/rope.md",
        "---\ntitle: RoPE\nsources:\n  - other.md\nnotes: See test.md for context\n---\nbody\n",
    )]);
    let got = collect(&wiki, "test.md");
    assert!(got.is_empty(), "expected empty, got {got:?}");
}

#[test]
fn collect_related_returns_empty_when_nothing_matches() {
    let wiki = make_wiki(&[(
        "concepts/unrelated.md",
        "---\ntitle: X\nsources: [\"other.md\"]\n---\nbody\n",
    )]);
    let got = collect(&wiki, "nonexistent.md");
    assert!(got.is_empty());
}

#[test]
fn collect_related_skips_index_log_overview() {
    let wiki = make_wiki(&[
        (
            "index.md",
            "---\ntitle: Index\n---\n- [[Test]]\nsources: [\"test.md\"]\n",
        ),
        (
            "log.md",
            "---\ntitle: Log\n---\nIngested test.md on 2026-01-01\n",
        ),
        (
            "overview.md",
            "---\ntitle: Overview\n---\nCovers test.md and other.md\n",
        ),
        (
            "concepts/real.md",
            "---\ntitle: Real\nsources: [\"test.md\"]\n---\nbody\n",
        ),
    ]);
    let got = collect(&wiki, "test.md");
    assert_eq!(got, vec!["concepts/real.md"]);
}

#[test]
fn collect_related_case_insensitive_filename_match() {
    let wiki = make_wiki(&[(
        "concepts/rope.md",
        "---\ntitle: RoPE\nsources: [\"Test.md\"]\n---\nbody\n",
    )]);
    let got = collect(&wiki, "test.md");
    assert_eq!(got, vec!["concepts/rope.md"]);
}

#[test]
fn only_the_file_name_of_the_source_counts() {
    let wiki = make_wiki(&[("a.md", "see \"paper.pdf\"")]);
    assert_eq!(collect(&wiki, "raw/sources/Paper.PDF"), vec!["a.md"]);
    assert_eq!(collect(&wiki, "raw/sources/"), Vec::<String>::new());
    let mut out = Vec::new();
    let source = "raw\\sources\\paper.pdf";
    collect_related_pages(&wiki, source, &Some("paper.pdf".to_string()), &mut out);
    assert_eq!(out.len(), 1);
    out.clear();
    collect_related_pages(&wiki, source, &Some(source.to_string()), &mut out);
    assert!(out.is_empty());
}

#[test]
fn a_second_list_of_sources_counts_too() {
    let body = "---\nsources:\n  - a.md\nx: 1\nsources:\n\n\t- b.md\n---\n";
    let wiki = make_wiki(&[("p.md", body)]);
    assert_eq!(collect(&wiki, "b.md"), vec!["p.md"]);
    assert_eq!(collect(&wiki, "c.md"), Vec::<String>::new());
}

#[test]
fn pages_that_cannot_be_read_or_are_no_markdown_are_passed_over() {
    let wiki = vec![
        page("/w", "a.md", None),
        page("/w", "b.txt", Some("\"s.md\"")),
        page("/w", ".md", Some("\"s.md\"")),
        page("C:\\w", "c.md", Some("\"s.md\"")),
    ];
    let mut out = vec!["before".to_string()];
    collect_related_pages(&wiki, "s.md", &Some("s.md".to_string()), &mut out);
    assert_eq!(out, vec!["before".to_string(), "C:/w/c.md".to_string()]);
}

#[test]
fn directory_above_the_wiki_does_not_count() {
    let body = "---\ntitle: Testing\n---\nabout tests\n";
    let wiki = vec![page("/data/sources/proj/wiki", "concepts/testing.md", Some(body))];
    let mut out = Vec::new();
    collect_related_pages(&wiki, "test.md", &Some("test.md".to_string()), &mut out);
    assert_eq!(out, Vec::<String>::new());
    let wiki = vec![page("/data/sources/proj/wiki", "sources/testing.md", Some(body))];
    collect_related_pages(&wiki, "test.md", &Some("test.md".to_string()), &mut out);
    assert_eq!(out, vec!["/data/sources/proj/wiki/sources/testing.md".to_string()]);
}

#[test]
fn no_wiki_has_no_related_pages() {
    let name = Some("s.md".to_string());
    assert!(find_related_wiki_pages(&None, "s.md", &name).is_empty());
    let pages = Some(make_wiki(&[("a.md", "'s.md'")]));
    assert_eq!(
        find_related_wiki_pages(&pages, "s.md", &name),
        vec!["/tmp/wiki/a.md".to_string()]
    );
}

#[test]
fn wiki_errors_are_shown_with_their_kind() {
    assert_eq!(WikiError::Io("x".to_string()).message(), "io error: x");
    assert_eq!(
        WikiError::Join("x".to_string()).message(),
        "blocking task panicked: x"
    );
    assert_eq!(WikiError::Internal("x".to_string()).message(), "internal: x");
}
