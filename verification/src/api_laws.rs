//! What holds of what the server answers, whatever the request.

use vstd::prelude::*;
use vstd::utf8::encode_utf8;

use crate::api::{
    asset_name, component_error, etag, file_path_error, is_project, mime_of, mime_of_extension,
    page_text, project_path_error, projects_in, quoted, read_error, reply_with, sign_in_answer,
    spa_answer, unauthenticated_error, write_outcome, write_target, ErrorView, ProjectEntry, SpaView,
};
use crate::digest::blake3_hex;
use crate::paths::{
    all_below, key_of, normalized, normals, path_key_of, resolved_key, Part, Platform,
};
use crate::related::front_matter;
use crate::text::{just, lowercase, replace_char, trimmed};
use crate::text_laws::law_stripped_front;
use crate::users::UserView;

verus! {

/// Whether the digests of two contents agree in their first sixteen digits.
pub open spec fn digests_begin_alike(a: Seq<u8>, b: Seq<u8>) -> bool {
    forall|i: int| 0 <= i < 16 ==> #[trigger] blake3_hex(a)[i] == blake3_hex(b)[i]
}

/// The version of contents is made from all of them: it is what the digest of the whole begins
/// with, so two contents have one version if and only if their digests begin alike, whatever
/// part of them differs.
pub proof fn law_version_tells_contents_apart(a: Seq<u8>, b: Seq<u8>)
    requires
        blake3_hex(a).len() == 64,
        blake3_hex(b).len() == 64,
    ensures
        etag(a).len() == 16,
        forall|i: int| 0 <= i < 16 ==> #[trigger] etag(a)[i] == blake3_hex(a)[i],
        etag(a) == etag(b) <==> digests_begin_alike(a, b),
{
    if digests_begin_alike(a, b) {
        assert(etag(a) =~= etag(b)) by {
            assert forall|i: int| 0 <= i < 16 implies etag(a)[i] == etag(b)[i] by {
                assert(blake3_hex(a)[i] == blake3_hex(b)[i]);
            }
        }
    }
    if etag(a) == etag(b) {
        assert forall|i: int| 0 <= i < 16 implies #[trigger] blake3_hex(a)[i]
            == blake3_hex(b)[i] by {
            assert(etag(a)[i] == etag(b)[i]);
        }
    }
}

/// A page that was loaded is written only as long as it is what was loaded. Once it holds
/// something with another digest, wherever the difference lies, the request is refused as stale
/// and told the version that there is; and as long as it holds what was loaded the request is
/// met with the version of what is then written.
pub proof fn law_change_in_between_is_not_lost(
    page: Seq<char>,
    loaded: Seq<u8>,
    stored: Seq<u8>,
    content: Seq<char>,
)
    requires
        blake3_hex(loaded).len() == 64,
        blake3_hex(stored).len() == 64,
        blake3_hex(encode_utf8(content)).len() == 64,
    ensures
        ({
            let version = reply_with(loaded, page_text(loaded)).etag;
            let r = write_outcome(page, version, Ok(stored), content);
            &&& r is Ok <==> digests_begin_alike(loaded, stored)
            &&& r is Ok ==> r->Ok_0.len() == 16 && forall|i: int|
                0 <= i < 16 ==> #[trigger] r->Ok_0[i] == blake3_hex(encode_utf8(content))[i]
            &&& r is Err ==> {
                let e = r->Err_0;
                &&& e.status == 412
                &&& e.code == "WIKI_PAGE_STALE"@
                &&& e.message == "page was modified since you loaded it"@
                &&& e.details == Some(("current_etag"@, blake3_hex(stored).take(16)))
            }
        }),
{
    law_version_tells_contents_apart(loaded, stored);
    law_version_tells_contents_apart(encode_utf8(content), stored);
    law_version_tells_contents_apart(stored, loaded);
    let taken = blake3_hex(stored).take(16);
    assert(etag(stored) =~= taken) by {
        assert forall|i: int| 0 <= i < 16 implies etag(stored)[i] == taken[i] by {
            assert(etag(stored)[i] == blake3_hex(stored)[i]);
        }
    }
}

/// A page that is not there is answered with `404`, and any other failure to read it with `500`
/// and its own text; nothing is written either way.
pub proof fn law_unread_page_is_not_written(
    page: Seq<char>,
    if_match: Seq<char>,
    not_found: bool,
    message: Seq<char>,
    content: Seq<char>,
)
    ensures
        ({
            let r = write_outcome(page, if_match, Err((not_found, message)), content);
            &&& r is Err
            &&& not_found ==> r->Err_0 == (ErrorView {
                status: 404,
                code: "NOT_FOUND"@,
                message: "page"@ + " not found: "@ + page,
                details: None,
            })
            &&& !not_found ==> r->Err_0 == (ErrorView {
                status: 500,
                code: "INTERNAL"@,
                message,
                details: None,
            })
        }),
        read_error("file"@, page, not_found, message).status == if not_found {
            404u16
        } else {
            500u16
        },
{
}

/// A page is answered with its whole text, with the front matter of that text, and with the
/// version of its bytes.
pub proof fn law_page_is_answered_whole(bytes: Seq<u8>, content: Seq<char>)
    requires
        blake3_hex(bytes).len() == 64,
    ensures
        reply_with(bytes, content).content == content,
        reply_with(bytes, content).front_matter == front_matter(content),
        forall|i: int|
            0 <= i < 16 ==> #[trigger] reply_with(bytes, content).etag[i] == blake3_hex(bytes)[i],
        reply_with(bytes, content).etag.len() == 16,
{
    law_version_tells_contents_apart(bytes, bytes);
    assert forall|i: int| 0 <= i < 16 implies #[trigger] reply_with(bytes, content).etag[i]
        == blake3_hex(bytes)[i] by {
        assert(etag(bytes)[i] == blake3_hex(bytes)[i]);
    }
}

/// A version stands in a header between quotation marks.
pub proof fn law_version_is_quoted(tag: Seq<char>)
    ensures
        quoted(tag).len() == tag.len() + 2,
        quoted(tag).first() == '"',
        quoted(tag).last() == '"',
        quoted(tag).subrange(1, tag.len() as int + 1) == tag,
{
    assert(quoted(tag).subrange(1, tag.len() as int + 1) =~= tag);
}

/// The projects that are listed are the directories that have a wiki and a schema, be it hidden:
/// all of them, in their order, each as it is.
pub proof fn law_all_projects_are_listed(entries: Seq<ProjectEntry>)
    ensures
        ({
            let kept = entries.filter(
                |e: ProjectEntry| e.is_dir && e.has_wiki && (e.has_schema || e.has_hidden_schema),
            );
            let listed = projects_in(entries);
            &&& listed.len() == kept.len()
            &&& forall|i: int|
                0 <= i < listed.len() ==> (#[trigger] listed[i]).id == kept[i].id@ && listed[i].name
                    == kept[i].name@ && listed[i].path == kept[i].path@
        }),
    decreases entries.len(),
{
    reveal(Seq::filter);
    let f = |e: ProjectEntry| e.is_dir && e.has_wiki && (e.has_schema || e.has_hidden_schema);
    if entries.len() > 0 {
        let rest = entries.drop_last();
        law_all_projects_are_listed(rest);
        assert(is_project(entries.last()) == f(entries.last()));
        let a = projects_in(rest);
        let b = rest.filter(f);
        if f(entries.last()) {
            let listed = projects_in(entries);
            assert(entries.filter(f) =~= b.push(entries.last()));
            assert forall|i: int| 0 <= i < listed.len() implies (#[trigger] listed[i]).id
                == b.push(entries.last())[i].id@ && listed[i].name == b.push(
                entries.last(),
            )[i].name@ && listed[i].path == b.push(entries.last())[i].path@ by {
                if i < a.len() {
                    assert(listed[i] == a[i]);
                }
            }
        }
    }
}

/// Somebody who signs in is answered with who they are. Whoever is refused is told only that name
/// or password is wrong; a stored password that cannot be read is a failure of the server.
pub proof fn law_answer_to_a_sign_in(user: UserView, why: Seq<char>)
    ensures
        sign_in_answer(Ok(user)) == Ok::<UserView, ErrorView>(user),
        ({
            let r = sign_in_answer(Err(None));
            &&& r is Err
            &&& r->Err_0.status == 401
            &&& r->Err_0.code == "INVALID_CREDENTIALS"@
            &&& r->Err_0.message == "invalid username or password"@
            &&& r->Err_0.details is None
        }),
        ({
            let r = sign_in_answer(Err(Some(why)));
            &&& r is Err
            &&& r->Err_0.status == 500
            &&& r->Err_0.code == "INTERNAL"@
            &&& r->Err_0.message == "password hashing failed: "@ + why
        }),
        unauthenticated_error().status == 401,
        unauthenticated_error().code == "UNAUTHENTICATED"@,
{
}

/// The path of a file that leads where it may not is answered with `400` and with what was asked
/// for, one at which nothing is with `404`.
pub proof fn law_answer_to_a_path(requested: Seq<char>, message: Seq<char>)
    ensures
        file_path_error(requested, true, message).status == 404,
        file_path_error(requested, true, message).code == "NOT_FOUND"@,
        file_path_error(requested, true, message).message == "file not found: "@ + requested,
        file_path_error(requested, false, message) == project_path_error(requested, message),
        project_path_error(requested, message).status == 400,
        project_path_error(requested, message).code == "PATH_ESCAPE"@,
        project_path_error(requested, message).message == message,
        project_path_error(requested, message).details == Some(("requested"@, requested)),
{
}

/// A file without an extension is answered as bytes of no known kind, any other by its
/// extension.
pub proof fn law_kind_of_a_file(ext: Seq<char>)
    ensures
        mime_of(None) == "application/octet-stream"@,
        mime_of(Some(ext)) == mime_of_extension(ext),
{
}

/// The file of the front end that a request is for is its path without any slash in front.
pub proof fn law_asset_has_no_slash_in_front(uri: Seq<char>)
    ensures
        ({
            let name = asset_name(uri);
            let k = uri.len() - name.len();
            &&& 0 <= k
            &&& name == uri.skip(k)
            &&& forall|i: int| 0 <= i < k ==> #[trigger] uri[i] == '/'
            &&& name.len() > 0 ==> name[0] != '/'
        }),
{
    law_stripped_front(uri, just('/'));
}

/// Why the path of a page is refused: because of the first component that leads up or starts
/// anew, and as the one or the other.
pub proof fn law_why_a_page_is_refused(ps: Seq<Part>, i: int)
    requires
        0 <= i < ps.len(),
        forall|j: int| 0 <= j < i ==> (#[trigger] ps[j] is Normal || ps[j] is CurDir),
    ensures
        ps[i] is ParentDir ==> component_error(ps) == Some("page_path contains .. segment"@),
        ps[i] is RootDir || ps[i] is Prefix ==> component_error(ps) == Some(
            "page_path must be relative"@,
        ),
    decreases ps.len(),
{
    let rest = ps.drop_last();
    if i < rest.len() {
        assert forall|j: int| 0 <= j < i implies (#[trigger] rest[j] is Normal || rest[j]
            is CurDir) by {
            assert(rest[j] == ps[j]);
        }
        assert(rest[i] == ps[i]);
        law_why_a_page_is_refused(rest, i);
    } else {
        lemma_no_error(rest);
        assert(ps[ps.len() - 1] == ps.last());
    }
}

/// Components that lead down give no error.
proof fn lemma_no_error(ps: Seq<Part>)
    requires
        forall|j: int| 0 <= j < ps.len() ==> (#[trigger] ps[j] is Normal || ps[j] is CurDir),
    ensures
        component_error(ps) is None,
    decreases ps.len(),
{
    if ps.len() > 0 {
        let rest = ps.drop_last();
        assert forall|j: int| 0 <= j < rest.len() implies (#[trigger] rest[j] is Normal || rest[j]
            is CurDir) by {
            assert(rest[j] == ps[j]);
        }
        lemma_no_error(rest);
        assert(ps[ps.len() - 1] == ps.last());
    }
}

/// A page whose path is made of nothing but white space is refused as empty.
pub proof fn law_empty_page_is_refused(root: Seq<Part>, page_path: Seq<char>, page: Seq<Part>)
    requires
        trimmed(page_path).len() == 0,
    ensures
        write_target(root, page_path, page) == Err::<Seq<Part>, Seq<char>>(
            "page_path must not be empty"@,
        ),
{
}

/// What a path leads to, component by component: a name leads down, `.` nowhere, and `..` back
/// over the name before it; at the top `..` leads nowhere. A root starts anew below the prefix,
/// and a prefix altogether.
pub proof fn law_where_a_path_leads(
    ps: Seq<Part>,
    name: Seq<char>,
    prefix: Seq<char>,
)
    ensures
        normalized(Seq::empty()) == Seq::<Part>::empty(),
        normalized(ps.push(Part::Normal(name))) == normalized(ps).push(Part::Normal(name)),
        normalized(ps.push(Part::CurDir)) == normalized(ps),
        normalized(ps.push(Part::Normal(name)).push(Part::ParentDir)) == normalized(ps),
        normalized(ps).len() == 0 || normalized(ps).last() !is Normal ==> normalized(
            ps.push(Part::ParentDir),
        ) == normalized(ps),
        normalized(ps.push(Part::Prefix(prefix))) == seq![Part::Prefix(prefix)],
        normalized(ps.push(Part::Prefix(prefix)).push(Part::RootDir)) == seq![
            Part::Prefix(prefix),
            Part::RootDir,
        ],
        normalized(ps).len() == 0 || normalized(ps)[0] !is Prefix ==> normalized(
            ps.push(Part::RootDir),
        ) == seq![Part::RootDir],
{
    assert(ps.push(Part::Normal(name)).drop_last() =~= ps);
    assert(ps.push(Part::CurDir).drop_last() =~= ps);
    assert(ps.push(Part::ParentDir).drop_last() =~= ps);
    assert(ps.push(Part::RootDir).drop_last() =~= ps);
    let p = ps.push(Part::Prefix(prefix));
    assert(p.drop_last() =~= ps);
    assert(p.push(Part::RootDir).drop_last() =~= p);
    let n = ps.push(Part::Normal(name));
    assert(n.push(Part::ParentDir).drop_last() =~= n);
    assert(normalized(ps).push(Part::Normal(name)).drop_last() =~= normalized(ps));
    reveal_with_fuel(normalized, 3);
}

/// Files are told apart by case everywhere but on Windows, and there by nothing but case.
pub proof fn law_which_paths_are_one_file(a: Seq<char>, b: Seq<char>, platform: Platform)
    ensures
        platform != Platform::Windows ==> (key_of(a, platform) == key_of(b, platform) <==> a == b),
        platform == Platform::Windows ==> (key_of(a, platform) == key_of(b, platform) <==>
            lowercase(a) == lowercase(b)),
{
}

/// The key of a path is that of the place that it leads to, with slashes for backslashes, where
/// some part of it exists, and else that of the path as it is written. The names that are missing
/// follow what exists, each after a slash unless one stands there.
pub proof fn law_key_of_a_place(
    path: Seq<char>,
    base: Seq<char>,
    names: Seq<Seq<char>>,
    name: Seq<char>,
    platform: Platform,
)
    ensures
        platform == Platform::Windows ==> path_key_of(path, platform) == lowercase(
            replace_char(path, '\\', '/'),
        ),
        platform != Platform::Windows ==> path_key_of(path, platform) == replace_char(
            path,
            '\\',
            '/',
        ),
        resolved_key(path, None, platform) == path_key_of(path, platform),
        resolved_key(path, Some((base, names)), platform) == path_key_of(
            all_below(base, names, platform),
            platform,
        ),
        all_below(base, Seq::empty(), platform) == base,
        ({
            let dir = all_below(base, names, platform);
            let joined = dir.len() == 0 || dir.last() == '/' || (dir.last() == '\\' && platform
                == Platform::Windows);
            &&& joined ==> all_below(base, names.push(name), platform) == dir + name
            &&& !joined ==> all_below(base, names.push(name), platform) == dir + seq!['/'] + name
        }),
{
    assert(names.push(name).drop_last() =~= names);
    assert(names.push(name).last() == name);
}

/// Names as components are those names in their order.
pub proof fn law_names_as_components(names: Seq<Seq<char>>, i: int)
    requires
        0 <= i < names.len(),
    ensures
        normals(names).len() == names.len(),
        normals(names)[i] == Part::Normal(names[i]),
{
}

/// A request to the server itself is never answered with the front end; any other is answered
/// with the file that it is for where there is one, with the first page where there is that, and
/// not at all where there is neither.
pub proof fn law_answer_of_the_front_end(
    uri: Seq<char>,
    extension: Option<Seq<char>>,
    has_asset: bool,
    has_index: bool,
    rest: Seq<char>,
)
    ensures
        asset_name(uri) == "api/"@ + rest ==> spa_answer(uri, extension, has_asset, has_index)
            is NotFound,
        !"api/"@.is_prefix_of(asset_name(uri)) ==> {
            let r = spa_answer(uri, extension, has_asset, has_index);
            &&& has_asset ==> r == (SpaView::Asset {
                path: asset_name(uri),
                mime: mime_of(extension),
            })
            &&& r is Index <==> !has_asset && has_index
            &&& r is NotFound <==> !has_asset && !has_index
        },
{
    if asset_name(uri) == "api/"@ + rest {
        assert(asset_name(uri).subrange(0, "api/"@.len() as int) =~= "api/"@);
    }
}

} // verus!
