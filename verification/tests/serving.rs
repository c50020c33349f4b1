use llm_wiki::api::{
    asset_path, check_page_path, content_type, etag_for, etag_header, events_session,
    extracted_text_reply, file_path_failure, file_reply, file_target, graph_unavailable,
    list_projects, page_reply, read_page, log_in, project_path_failure, requested_version, require_user,
    resolve_write_page, session_user, sign_in_reply, spa_fallback, text_extractor, write_page,
    ApiError, ExtractFailure, FileTarget, PathFailure, ProjectEntry, ReadFailure, SpaReply,
};
use llm_wiki::fs_ops::{
    build_tree, create_directory, list_directory, preparation, preprocess_file,
    require_absolute_path, FileNode, FsOpsError, Preparation, RawDir, RawEntry,
};
use llm_wiki::extract::{
    open_error, page_text_error, wants_object, ExtractError, ExtractOptions, ImageCollector,
    MarkdownWriter, ObjectRead, SavedCollector,
};
use llm_wiki::paths::{normalize_path_no_canonicalize, PathComponent};
use llm_wiki::users::{hash_password, AuthError, User, UserRecord, Users};
use std::path::{Component, Path};

/// The components of a path, as the system sees them.
fn components_of(path: &str) -> Vec<PathComponent> {
    Path::new(path)
        .components()
        .map(|c| match c {
            Component::Prefix(p) => {
                PathComponent::Prefix(p.as_os_str().to_string_lossy().to_string())
            }
            Component::RootDir => PathComponent::RootDir,
            Component::CurDir => PathComponent::CurDir,
            Component::ParentDir => PathComponent::ParentDir,
            Component::Normal(s) => PathComponent::Normal(s.to_string_lossy().to_string()),
        })
        .collect()
}

fn ext(extension: &str) -> Option<String> {
    Some(extension.to_string())
}

/// Where a page is written in the project at `root`.
fn target(root: &str, page: &str) -> Result<Vec<PathComponent>, ApiError> {
    resolve_write_page(&components_of(root), page, &components_of(page.trim()))
}

fn shown(path: &[PathComponent]) -> String {
    let mut out = String::new();
    for c in path {
        match c {
            PathComponent::RootDir => out.push('/'),
            PathComponent::Normal(s) => {
                if !out.is_empty() && !out.ends_with('/') {
                    out.push('/');
                }
                out.push_str(s);
            }
            other => out.push_str(&format!("{other:?}")),
        }
    }
    out
}

fn write_error(page: &str) -> String {
    let e = target("/srv/p", page).unwrap_err();
    assert_eq!((e.status, e.code.as_str()), (400, "PATH_ESCAPE"));
    e.message
}

#[test]
fn pages_are_written_below_their_project() {
    let path = target("/srv/p", "  wiki/./new page.md\n").unwrap();
    assert_eq!(shown(&path), "/srv/p/wiki/new page.md");
    assert_eq!(shown(&target("/srv/p", "./a").unwrap()), "/srv/p/a");
    assert_eq!(write_error(" \t"), "page_path must not be empty");
    assert_eq!(write_error("/etc/passwd"), "page_path must be relative");
    assert_eq!(write_error("a/../../b"), "page_path contains .. segment");
    assert_eq!(write_error(".."), "page_path contains .. segment");
}

#[test]
fn page_below_a_directory_that_is_not_resolved_is_refused() {
    let e = target("/srv/../p", "x").unwrap_err();
    assert_eq!(e.message, "page_path escapes project root");
}

#[test]
fn page_on_another_drive_or_above_is_refused_wherever_that_is_said() {
    let name = |s: &str| PathComponent::Normal(s.to_string());
    let drive = PathComponent::Prefix("C:".to_string());
    let refused = |page: &str, components: Vec<PathComponent>| {
        let e = check_page_path(page, &components).unwrap_err();
        assert_eq!((e.status, e.code.as_str()), (400, "PATH_ESCAPE"));
        let root = components_of("/srv/p");
        let same = resolve_write_page(&root, page, &components).unwrap_err();
        assert_eq!(same.message, e.message);
        e.message
    };
    assert_eq!(
        refused("a\\..\\b", vec![name("a"), PathComponent::ParentDir, name("b")]),
        "page_path contains .. segment"
    );
    assert_eq!(refused("C:x", vec![drive, name("x")]), "page_path must be relative");
    assert_eq!(
        refused("\\x", vec![PathComponent::RootDir, name("x")]),
        "page_path must be relative"
    );
    assert_eq!(refused(" ", vec![]), "page_path must not be empty");
    assert!(check_page_path("a\\b", &vec![name("a"), name("b")]).is_ok());
}

#[test]
fn paths_are_normalized_by_their_components() {
    let norm = |s: &str| shown(&normalize_path_no_canonicalize(&components_of(s)));
    assert_eq!(norm("/a/./b/../c"), "/a/c");
    assert_eq!(norm("/../a"), "/a");
    assert_eq!(norm("../a"), "a");
    assert_eq!(norm("a/.."), "");
}

fn read_failure(not_found: bool) -> ReadFailure {
    ReadFailure { not_found, message: "disk on fire".to_string() }
}

#[test]
fn page_that_was_read_can_be_written() {
    let bytes = b"first".to_vec();
    let tag = read_page("p.md", &Ok(bytes.clone())).unwrap().etag;
    assert_eq!(tag.len(), 16);
    let sent = requested_version(&Some(etag_header(&tag))).unwrap();
    assert_eq!(sent, tag);
    let new = write_page("p.md", &sent, &Ok(bytes), "second").unwrap();
    assert_eq!(new, etag_for(b"second"));
    assert_ne!(new, tag);
    let stale = write_page("p.md", &tag, &Ok(b"second".to_vec()), "third").unwrap_err();
    assert_eq!((stale.status, stale.code.as_str()), (412, "WIKI_PAGE_STALE"));
    assert_eq!(stale.message, "page was modified since you loaded it");
    assert_eq!(stale.details, Some(("current_etag".to_string(), new)));
}

#[test]
fn page_is_answered_with_its_text_front_matter_and_version() {
    let text = "---\ntitle: \u{e9}\n---\nbody\n";
    let reply = read_page("p.md", &Ok(text.as_bytes().to_vec())).unwrap();
    assert_eq!(reply.content, text);
    assert_eq!(reply.front_matter.as_deref(), Some("title: \u{e9}"));
    assert_eq!(reply.etag, etag_for(text.as_bytes()));
    let empty = read_page("p.md", &Ok(vec![])).unwrap();
    assert_eq!((empty.content.as_str(), empty.front_matter), ("", None));
    assert_eq!(empty.etag, "af1349b9f5f9a1a6");
    let broken = read_page("p.md", &Ok(vec![b'a', 0xff, b'b'])).unwrap();
    assert_eq!(broken.content, "a\u{fffd}b");
    assert_eq!(broken.etag, etag_for(&[b'a', 0xff, b'b']));
    let reply = page_reply(b"x", "---\na: 1\nb".to_string());
    assert_eq!((reply.content.as_str(), reply.front_matter), ("---\na: 1\nb", None));
}

#[test]
fn version_is_the_head_of_the_digest() {
    assert_eq!(etag_for(b""), "af1349b9f5f9a1a6");
    assert_eq!(etag_header("abc"), "\"abc\"");
}

#[test]
fn writes_need_a_version_and_a_page() {
    let e = requested_version(&None).unwrap_err();
    assert_eq!((e.status, e.code.as_str()), (400, "BAD_REQUEST"));
    assert_eq!(e.message, "If-Match header required for wiki page writes");
    let e = write_page("p.md", "x", &Err(read_failure(true)), "c").unwrap_err();
    assert_eq!((e.status, e.message.as_str()), (404, "page not found: p.md"));
    let e = write_page("p.md", "x", &Err(read_failure(false)), "c").unwrap_err();
    assert_eq!((e.status, e.code.as_str(), e.message.as_str()), (500, "INTERNAL", "disk on fire"));
    let e = read_page("p.md", &Err(read_failure(true))).unwrap_err();
    assert_eq!((e.status, e.code.as_str()), (404, "NOT_FOUND"));
    assert_eq!(e.message, "page not found: p.md");
    assert_eq!(read_page("p.md", &Err(read_failure(false))).unwrap_err().status, 500);
}

#[test]
fn paths_that_cannot_be_followed_are_told_apart() {
    let missing = PathFailure { not_found: true, message: "gone".to_string() };
    let outside = PathFailure { not_found: false, message: "outside".to_string() };
    let e = project_path_failure("../x", &missing);
    assert_eq!((e.status, e.code.as_str(), e.message.as_str()), (400, "PATH_ESCAPE", "gone"));
    assert_eq!(e.details, Some(("requested".to_string(), "../x".to_string())));
    let e = file_path_failure("a.pdf", &missing);
    assert_eq!((e.status, e.message.as_str()), (404, "file not found: a.pdf"));
    assert_eq!(e.details, None);
    assert_eq!(file_path_failure("a.pdf", &outside).status, 400);
}

#[test]
fn files_are_answered_with_their_type() {
    let reply = file_reply("a.png", &ext("png"), true, Ok(vec![1, 2])).unwrap();
    assert_eq!((reply.bytes, reply.mime.as_str()), (vec![1, 2], "image/png"));
    assert_eq!(content_type(&ext("HTML")), "text/html");
    assert_eq!(content_type(&None), "application/octet-stream");
    assert_eq!(content_type(&ext("is-this")), "application/octet-stream");
    assert_eq!(content_type(&ext("")), "application/octet-stream");
    let e = file_reply("a.png", &ext("png"), false, Ok(vec![])).unwrap_err();
    assert_eq!((e.status, e.message.as_str()), (404, "file not found: a.png"));
    let e = file_reply("a.png", &ext("png"), true, Err(read_failure(true))).unwrap_err();
    assert_eq!(e.status, 404);
    let e = file_reply("a.png", &ext("png"), true, Err(read_failure(false))).unwrap_err();
    assert_eq!((e.status, e.message.as_str()), (500, "disk on fire"));
}

#[test]
fn files_are_looked_for_in_a_project_that_is_named() {
    assert!(matches!(file_target(&None), FileTarget::ByPath));
    assert!(matches!(file_target(&Some(String::new())), FileTarget::ByPath));
    match file_target(&Some("proj".to_string())) {
        FileTarget::InProject(p) => assert_eq!(p, "proj"),
        other => panic!("unexpected {other:?}"),
    }
}

#[test]
fn text_is_taken_out_of_pdf_alone() {
    assert!(text_extractor("a.PDF", &ext("PDF"), true).is_ok());
    let e = text_extractor("a.docx", &ext("Docx"), true).unwrap_err();
    assert_eq!((e.status, e.code.as_str()), (415, "UNSUPPORTED"));
    assert_eq!(e.message, "no text extractor for .docx");
    assert_eq!(text_extractor("a.pdf", &ext("pdf"), false).unwrap_err().status, 404);
    assert_eq!(extracted_text_reply(Ok("t".to_string())).unwrap(), "t");
    let failed = Err(ExtractFailure::Failed("bad".to_string()));
    assert_eq!(extracted_text_reply(failed).unwrap_err().message, "pdf extract: bad");
    let panicked = Err(ExtractFailure::Panicked("boom".to_string()));
    assert_eq!(
        extracted_text_reply(panicked).unwrap_err().message,
        "blocking task panicked: boom"
    );
}

#[test]
fn projects_have_a_schema_and_a_wiki() {
    let entry = |name: &str, bits: [bool; 4]| ProjectEntry {
        id: format!("id-{name}"),
        name: name.to_string(),
        path: name.to_string(),
        is_dir: bits[0],
        has_schema: bits[1],
        has_hidden_schema: bits[2],
        has_wiki: bits[3],
    };
    let list = list_projects(&vec![
        entry("a", [true, true, false, true]),
        entry("b", [true, false, true, true]),
        entry("c", [true, false, false, true]),
        entry("d", [true, true, true, false]),
        entry("e", [false, true, true, true]),
    ]);
    let names: Vec<_> = list.iter().map(|p| p.id.as_str()).collect();
    assert_eq!(names, ["id-a", "id-b"]);
}

#[test]
fn front_end_answers_what_is_left() {
    assert_eq!(asset_path("//a/b.js"), "a/b.js");
    assert!(matches!(spa_fallback("/api/v1/x", &None, true, true), SpaReply::NotFound));
    assert!(matches!(spa_fallback("/some/route", &None, false, true), SpaReply::Index));
    assert!(matches!(spa_fallback("/some/route", &None, false, false), SpaReply::NotFound));
    match spa_fallback("/style.css", &ext("css"), true, true) {
        SpaReply::Asset { path, mime } => {
            assert_eq!((path.as_str(), mime.as_str()), ("style.css", "text/css"))
        }
        other => panic!("unexpected {other:?}"),
    }
}

#[test]
fn sessions_lead_to_users() {
    let users = Users::load(Ok(vec![UserRecord {
        name: "Ann".to_string(),
        password_hash: "x".to_string(),
    }]))
    .unwrap();
    let user = session_user(&users, &Some("ANN".to_string())).unwrap();
    assert_eq!((user.id.as_str(), user.username.as_str()), ("ann", "Ann"));
    assert!(session_user(&users, &Some("bob".to_string())).is_none());
    assert!(session_user(&users, &None).is_none());
    assert_eq!(require_user(Some(user)).unwrap().0.id, "ann");
    let refused = require_user(None::<User>).unwrap_err();
    assert_eq!((refused.status, refused.code.as_str()), (401, "UNAUTHENTICATED"));
    assert_eq!(refused.message, "authentication required");
}

fn users_with(username: &str, password: &str) -> Users {
    Users::load(Ok(vec![UserRecord {
        name: username.to_string(),
        password_hash: hash_password(password).unwrap(),
    }]))
    .unwrap()
}

#[test]
fn whoami_without_cookie_is_401() {
    let users = users_with("alice", "pw");
    let refused = require_user(session_user(&users, &None)).unwrap_err();
    assert_eq!(refused.status, 401);
}

#[test]
fn login_with_wrong_password_is_401() {
    let users = users_with("alice", "pw");
    let refused = log_in(&users, "alice", "wrong").unwrap_err();
    assert_eq!(refused.status, 401);
    assert_eq!(refused.code, "INVALID_CREDENTIALS");
    assert_eq!(refused.message, "invalid username or password");
    let unknown = log_in(&users, "bob", "pw").unwrap_err();
    assert_eq!((unknown.status, unknown.message), (refused.status, refused.message));
    assert_eq!(log_in(&users, "Alice", "pw").unwrap().id, "alice");
    let broken = sign_in_reply(Err(AuthError::Hash("x".to_string()))).unwrap_err();
    assert_eq!((broken.status, broken.message.as_str()), (500, "password hashing failed: x"));
}

#[test]
fn events_without_cookie_is_401() {
    assert_eq!(events_session(None, true).unwrap_err().status, 401);
    assert_eq!(events_session(Some("sid".to_string()), false).unwrap_err().status, 401);
    assert_eq!(events_session(Some("sid".to_string()), true).unwrap(), "sid");
}

#[test]
fn graph_is_left_to_the_front_end() {
    let e = graph_unavailable();
    assert_eq!((e.status, e.code.as_str()), (501, "NOT_IMPLEMENTED"));
    let e = ApiError::bad_request("X", "y".to_string()).with_details("k", "v");
    assert_eq!(e.details, Some(("k".to_string(), "v".to_string())));
}

fn file(name: &str) -> RawEntry {
    RawEntry { name: Some(name.to_string()), path: format!("C:\\r\\{name}"), dir: None }
}

fn dir(name: &str, entries: Vec<RawEntry>) -> RawEntry {
    RawEntry {
        name: Some(name.to_string()),
        path: format!("/r/{name}"),
        dir: Some(RawDir { path: format!("/r/{name}"), entries: Ok(entries) }),
    }
}

fn outline(nodes: &[FileNode]) -> String {
    let mut out = String::new();
    for n in nodes {
        out.push_str(&n.name);
        if n.is_dir {
            out.push('/');
        }
        if let Some(children) = &n.children {
            out.push_str(&format!("({})", outline(children)));
        }
        out.push(' ');
    }
    out.trim_end().to_string()
}

#[test]
fn tree_shows_directories_first_and_no_dot_files() {
    let root = RawDir {
        path: "/r".to_string(),
        entries: Ok(vec![
            file("b.md"),
            dir("zoo", vec![file("x"), file(".hidden")]),
            file("a.md"),
            dir("empty", vec![file(".only")]),
            dir(".git", vec![file("HEAD")]),
            RawEntry { name: None, path: "?".to_string(), dir: None },
        ]),
    };
    let nodes = build_tree(&root, 0, 30).unwrap();
    assert_eq!(outline(&nodes), "empty/ zoo/(x) a.md b.md");
    assert_eq!(nodes[2].path, "C:/r/a.md");
    assert_eq!(outline(&build_tree(&root, 0, 1).unwrap()), "empty/ zoo/ a.md b.md");
    assert!(build_tree(&root, 3, 3).unwrap().is_empty());
}

#[test]
fn first_unreadable_directory_is_told_of() {
    let broken = |name: &str| RawEntry {
        name: Some(name.to_string()),
        path: format!("/r/{name}"),
        dir: Some(RawDir { path: format!("/r/{name}"), entries: Err("denied".to_string()) }),
    };
    let root = RawDir {
        path: "/r".to_string(),
        entries: Ok(vec![broken("b"), broken("a"), broken(".c")]),
    };
    assert_eq!(
        build_tree(&root, 0, 30).unwrap_err(),
        "Failed to read directory '/r/a': denied"
    );
    assert!(build_tree(&root, 0, 1).is_ok());
    let e = list_directory("/r", true, &Some(root)).unwrap_err();
    assert_eq!(e, "Failed to read directory '/r/a': denied");
    assert_eq!(
        list_directory("/x", false, &None).unwrap_err(),
        "Path does not exist: '/x'"
    );
    assert_eq!(
        list_directory("/x", true, &None).unwrap_err(),
        "Path is not a directory: '/x'"
    );
}

#[test]
fn files_are_prepared_by_extension() {
    assert!(matches!(preparation(&ext("PDF")), Preparation::Pdf));
    match preparation(&ext("XLSX")) {
        Preparation::Office(ext) => assert_eq!(ext, "xlsx"),
        other => panic!("unexpected {other:?}"),
    }
    for name in ["doc", "docx", "pptx", "xls", "xlsx", "odt", "ods", "odp"] {
        assert!(matches!(preparation(&ext(name)), Preparation::Office(_)));
    }
    assert!(matches!(preparation(&ext("md")), Preparation::Nothing));
    assert!(matches!(preparation(&None), Preparation::Nothing));
    assert_eq!(
        preprocess_file(&Preparation::Nothing, Err("x".to_string())).unwrap(),
        "no preprocessing needed"
    );
    assert_eq!(preprocess_file(&Preparation::Pdf, Ok("t".to_string())).unwrap(), "t");
    assert_eq!(preprocess_file(&Preparation::Pdf, Err("e".to_string())).unwrap_err(), "e");
}

#[test]
fn directory_errors_are_shown_with_their_kind() {
    let x = || "x".to_string();
    assert_eq!(FsOpsError::Io(x()).message(), "io error: x");
    assert_eq!(FsOpsError::NotFound(x()).message(), "not found: x");
    assert_eq!(FsOpsError::InvalidArgument(x()).message(), "invalid argument: x");
    assert_eq!(FsOpsError::Join(x()).message(), "blocking task panicked: x");
    assert_eq!(FsOpsError::Internal(x()).message(), "internal: x");
}

fn options(max_images: usize) -> ExtractOptions {
    ExtractOptions { min_width: 10, min_height: 20, max_images }
}

#[test]
fn markdown_interleaves_text_and_images() {
    let mut w = MarkdownWriter::new("/media//", &options(3));
    w.begin_page(1, "one");
    let name = w.number_image();
    assert_eq!(name, "img-1.png");
    assert!(!w.image_saved(&name));
    let lost = w.number_image();
    assert_eq!(lost, "img-2.png");
    let name = w.number_image();
    assert!(!w.image_saved(&name));
    assert!(!w.end_page());
    w.begin_page(2, "two");
    assert!(!w.end_page());
    w.begin_page(3, "three");
    let name = w.number_image();
    assert!(w.image_saved(&name));
    assert!(w.end_page());
    assert_eq!(
        w.take_text(),
        "## Page 1\n\none\n\n![](/media/img-1.png)\n![](/media/img-3.png)\n\n\n\
         ## Page 2\n\ntwo\n\n\n\
         ## Page 3\n\nthree\n\n![](/media/img-4.png)\n"
    );
}

#[test]
fn no_wanted_images_end_the_document_with_its_first_page() {
    let mut w = MarkdownWriter::new("", &options(0));
    w.begin_page(1, "");
    assert!(w.end_page());
    assert_eq!(w.take_text(), "## Page 1\n\n\n");
}

#[test]
fn small_and_unreadable_objects_are_passed_over() {
    let o = options(1);
    assert_eq!(wants_object(&o, ObjectRead::NotImage), None);
    assert_eq!(wants_object(&o, ObjectRead::Unreadable), None);
    assert_eq!(wants_object(&o, ObjectRead::Decoded { width: 9, height: 20 }), None);
    assert_eq!(wants_object(&o, ObjectRead::Decoded { width: 10, height: 19 }), None);
    assert_eq!(
        wants_object(&o, ObjectRead::Decoded { width: 10, height: 20 }),
        Some((10, 20))
    );
}

#[test]
fn images_are_numbered_and_encoded() {
    let mut c = ImageCollector::new(&options(2));
    assert!(!c.add_image(1, 10, 20, b"Man", "d1".to_string()));
    assert!(c.add_image(3, 11, 21, b"hello world~", "d2".to_string()));
    let images = c.take_all();
    assert_eq!(images.len(), 2);
    assert_eq!((images[0].index, images[0].page), (1, Some(1)));
    assert_eq!(images[0].data_base64, "TWFu");
    assert_eq!(images[1].data_base64, "aGVsbG8gd29ybGR+");
    assert_eq!((images[1].index, images[1].sha256.as_str()), (2, "d2"));
    assert_eq!(images[1].mime_type, "image/png");
    let mut c = ImageCollector::new(&options(9));
    c.add_image(1, 1, 1, b"", String::new());
    c.add_image(1, 1, 1, b"M", String::new());
    c.add_image(1, 1, 1, b"Ma", String::new());
    c.add_image(1, 1, 1, &[0xff, 0xfe, 0xfd, 0xfc], String::new());
    let texts: Vec<_> = c.take_all().into_iter().map(|i| i.data_base64).collect();
    assert_eq!(texts, ["", "TQ==", "TWE=", "//79/A=="]);
}

#[test]
fn saved_images_keep_their_places() {
    let mut c = SavedCollector::new(&options(1));
    assert_eq!(c.next_name(), "img-1.png");
    assert!(c.add_image(2, 5, 6, "r".to_string(), "/a/r".to_string(), "d".to_string()));
    assert_eq!(c.next_name(), "img-2.png");
    let images = c.take_all();
    assert_eq!((images[0].index, images[0].page), (1, Some(2)));
    assert_eq!((images[0].rel_path.as_str(), images[0].abs_path.as_str()), ("r", "/a/r"));
}

#[test]
fn documents_that_cannot_be_read_are_told_of() {
    let text = |e: ExtractError| match e {
        ExtractError::Pdfium(s) => s,
        ExtractError::Io(s) => s,
    };
    assert_eq!(
        text(open_error("a.pdf", true, "e")),
        "PDF is password-protected and cannot be read: 'a.pdf'"
    );
    assert_eq!(text(open_error("a.pdf", false, "e")), "Failed to open PDF 'a.pdf': e");
    assert_eq!(
        text(page_text_error(12, "a.pdf", "e")),
        "Page 12 text extraction failed in 'a.pdf': e"
    );
}

#[test]
fn directories_are_made_at_absolute_paths_alone() {
    assert_eq!(require_absolute_path("create_directory", "/a", true), Ok(()));
    assert_eq!(
        require_absolute_path("create_directory", "a/b", false),
        Err("create_directory requires an absolute path: 'a/b'".to_string())
    );
    assert_eq!(create_directory("/a", Ok(())), Ok(()));
    assert_eq!(
        create_directory("/a", Err("read-only".to_string())),
        Err("Failed to create directory '/a': read-only".to_string())
    );
}
