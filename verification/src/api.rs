//! What the server answers: errors, pages of the wiki and their versions, files, and the
//! front end.

use mime_guess::MimeGuess;
use vstd::prelude::*;
use vstd::utf8::{
    decode_utf8, encode_utf8, encode_utf8_decode_utf8, encode_utf8_valid_utf8, valid_utf8,
};

use crate::digest::{blake3_hex, blake3_text, is_hex};
use crate::fs_ops::{extension_lower, lower_extension};
use crate::paths::{
    goes_down, is_resolved, is_under, lemma_goes_down, names_of, normalized,
    normals, normalize_path_no_canonicalize, parts, Part, PathComponent,
};
use crate::related::{front_matter, front_matter_of};
use crate::text::{
    chars_of, concat, concat3, eq, has_prefix, just, lowercase, opt_text, strip_back,
    strip_char_front, strip_front, text_of, trim, trim_char, trimmed, trimmed_of,
};
use crate::users::{
    phc_error, sign_in, sign_in_view, takes, AuthError, User, UserView, Users, UsersView,
};

verus! {

/// An error that is answered: the status, a code for programs, a message for people, and
/// one more thing worth knowing, by name.
#[derive(Debug)]
pub struct ApiError {
    pub status: u16,
    pub code: String,
    pub message: String,
    pub details: Option<(String, String)>,
}

#[verifier::ext_equal]
pub struct ErrorView {
    pub status: u16,
    pub code: Seq<char>,
    pub message: Seq<char>,
    pub details: Option<(Seq<char>, Seq<char>)>,
}

impl View for ApiError {
    type V = ErrorView;

    open spec fn view(&self) -> ErrorView {
        ErrorView {
            status: self.status,
            code: self.code@,
            message: self.message@,
            details: match self.details {
                Some((k, v)) => Some((k@, v@)),
                None => None,
            },
        }
    }
}

/// An error without details.
pub open spec fn plain_error(status: u16, code: Seq<char>, message: Seq<char>) -> ErrorView {
    ErrorView { status, code, message, details: None }
}

/// The error for a path that leads where it may not.
pub open spec fn escape_error(message: Seq<char>) -> ErrorView {
    plain_error(400, "PATH_ESCAPE"@, message)
}

/// The error for something that the server itself failed at.
pub open spec fn internal_error(message: Seq<char>) -> ErrorView {
    plain_error(500, "INTERNAL"@, message)
}

/// The error for something that is not there.
pub open spec fn not_found_error(message: Seq<char>) -> ErrorView {
    plain_error(404, "NOT_FOUND"@, message)
}

/// The error for somebody who has not signed in.
pub open spec fn unauthenticated_error() -> ErrorView {
    plain_error(401, "UNAUTHENTICATED"@, "authentication required"@)
}

/// The error with something worth knowing.
pub open spec fn with_detail(e: ErrorView, name: Seq<char>, value: Seq<char>) -> ErrorView {
    ErrorView { details: Some((name, value)), ..e }
}

impl ApiError {
    /// An error without details.
    pub fn new(status: u16, code: &str, message: String) -> (r: ApiError)
        ensures
            r@ == plain_error(status, code@, message@),
    {
        ApiError { status, code: code.to_owned(), message, details: None }
    }

    /// The error for a request that cannot be met.
    pub fn bad_request(code: &str, message: String) -> (r: ApiError)
        ensures
            r@ == plain_error(400, code@, message@),
    {
        ApiError::new(400, code, message)
    }

    /// The error for something that the server itself failed at.
    pub fn internal(message: String) -> (r: ApiError)
        ensures
            r@ == internal_error(message@),
    {
        ApiError::new(500, "INTERNAL", message)
    }

    /// The error for something that is not there.
    pub fn not_found(message: String) -> (r: ApiError)
        ensures
            r@ == not_found_error(message@),
    {
        ApiError::new(404, "NOT_FOUND", message)
    }

    /// The error for somebody who has not signed in.
    pub fn unauthenticated() -> (r: ApiError)
        ensures
            r@ == unauthenticated_error(),
    {
        ApiError::new(401, "UNAUTHENTICATED", "authentication required".to_owned())
    }

    /// The error with something worth knowing.
    pub fn with_details(self, name: &str, value: &str) -> (r: ApiError)
        ensures
            r@ == with_detail(self@, name@, value@),
    {
        ApiError {
            status: self.status,
            code: self.code,
            message: self.message,
            details: Some((name.to_owned(), value.to_owned())),
        }
    }
}

/// Whoever has signed in.
#[derive(Debug)]
pub struct AuthUser(pub User);

impl Clone for AuthUser {
    fn clone(&self) -> (r: AuthUser)
        ensures
            r == *self,
    {
        AuthUser(self.0.clone())
    }
}

/// Whoever has signed in, or the error where nobody has.
pub fn require_user(user: Option<User>) -> (r: Result<AuthUser, ApiError>)
    ensures
        match (user, r) {
            (Some(u), Ok(a)) => a.0 == u,
            (None, Err(e)) => e@ == unauthenticated_error(),
            _ => false,
        },
{
    match user {
        Some(u) => Ok(AuthUser(u)),
        None => Err(ApiError::unauthenticated()),
    }
}

/// Whoever a session belongs to, given the id of the user that the session was opened by:
/// nobody where there is no such session or no such user.
pub fn session_user(users: &Users, session_owner: &Option<String>) -> (r: Option<User>)
    ensures
        match (*session_owner, r) {
            (Some(id), Some(user)) => {
                let key = lowercase(id@);
                &&& users@.hashes.contains_key(key)
                &&& user@ == (UserView { id: key, username: users@.names[key] })
            },
            (Some(id), None) => !users@.hashes.contains_key(lowercase(id@)),
            (None, Some(_)) => false,
            (None, None) => true,
        },
{
    match session_owner {
        Some(id) => users.lookup_user(id.as_str()),
        None => None,
    }
}

/// The answer to a sign-in that came to `outcome`, which holds a text where the stored
/// password is malformed. The answer does not tell whether the name or the password was
/// wrong.
pub open spec fn sign_in_answer(outcome: Result<UserView, Option<Seq<char>>>) -> Result<
    UserView,
    ErrorView,
> {
    match outcome {
        Ok(user) => Ok(user),
        Err(None) => Err(
            plain_error(401, "INVALID_CREDENTIALS"@, "invalid username or password"@),
        ),
        Err(Some(why)) => Err(internal_error("password hashing failed: "@ + why)),
    }
}

/// The answer to a sign-in that came to `outcome`.
pub fn sign_in_reply(outcome: Result<User, AuthError>) -> (r: Result<User, ApiError>)
    ensures
        match r {
            Ok(user) => sign_in_answer(sign_in_view(outcome)) == Ok::<UserView, ErrorView>(user@),
            Err(e) => sign_in_answer(sign_in_view(outcome)) == Err::<UserView, ErrorView>(e@),
        },
{
    match outcome {
        Ok(user) => Ok(user),
        Err(AuthError::InvalidCredentials) => Err(
            ApiError::new(401, "INVALID_CREDENTIALS", "invalid username or password".to_owned()),
        ),
        Err(AuthError::Hash(why)) => Err(
            ApiError::internal(concat("password hashing failed: ", why.as_str())),
        ),
    }
}

/// The answer to somebody who signs in by name and password.
pub fn log_in(users: &Users, username: &str, plaintext: &str) -> (r: Result<User, ApiError>)
    ensures
        match r {
            Ok(user) => sign_in_answer(sign_in(users@, username@, plaintext@)) == Ok::<
                UserView,
                ErrorView,
            >(user@),
            Err(e) => sign_in_answer(sign_in(users@, username@, plaintext@)) == Err::<
                UserView,
                ErrorView,
            >(e@),
        },
{
    sign_in_reply(users.verify_password(username, plaintext))
}

/// The session that a stream of events is opened for, given the cookie that names it and
/// whether there is such a session.
pub fn events_session(cookie: Option<String>, session_known: bool) -> (r: Result<String, ApiError>)
    ensures
        match r {
            Ok(session) => cookie == Some(session) && session_known,
            Err(e) => (cookie is None || !session_known) && e@ == unauthenticated_error(),
        },
{
    match cookie {
        None => Err(ApiError::unauthenticated()),
        Some(session) => if session_known {
            Ok(session)
        } else {
            Err(ApiError::unauthenticated())
        },
    }
}

/// Why a path could not be followed: nothing is there, or it leads where it may not.
#[derive(Debug)]
pub struct PathFailure {
    pub not_found: bool,
    pub message: String,
}

/// The error for a path to a project that could not be followed.
pub open spec fn project_path_error(requested: Seq<char>, message: Seq<char>) -> ErrorView {
    with_detail(escape_error(message), "requested"@, requested)
}

/// The error for a path to a project, or to a page that must exist, that could not be
/// followed.
pub fn project_path_failure(requested: &str, failure: &PathFailure) -> (r: ApiError)
    ensures
        r@ == project_path_error(requested@, failure.message@),
{
    ApiError::bad_request("PATH_ESCAPE", failure.message.clone()).with_details(
        "requested",
        requested,
    )
}

/// The error for a path to a file that could not be followed.
pub open spec fn file_path_error(
    requested: Seq<char>,
    not_found: bool,
    message: Seq<char>,
) -> ErrorView {
    if not_found {
        not_found_error("file not found: "@ + requested)
    } else {
        project_path_error(requested, message)
    }
}

/// The error for a path to a file that could not be followed.
pub fn file_path_failure(requested: &str, failure: &PathFailure) -> (r: ApiError)
    ensures
        r@ == file_path_error(requested@, failure.not_found, failure.message@),
{
    if failure.not_found {
        ApiError::not_found(concat("file not found: ", requested))
    } else {
        project_path_failure(requested, failure)
    }
}

/// Why something could not be read: nothing is there, or something else.
#[derive(Debug)]
pub struct ReadFailure {
    pub not_found: bool,
    pub message: String,
}

/// The error for something of that kind that could not be read.
pub open spec fn read_error(
    kind: Seq<char>,
    requested: Seq<char>,
    not_found: bool,
    message: Seq<char>,
) -> ErrorView {
    if not_found {
        not_found_error(kind + " not found: "@ + requested)
    } else {
        internal_error(message)
    }
}

/// The error for something of that kind that could not be read.
fn read_failure(kind: &str, requested: &str, failure: &ReadFailure) -> (r: ApiError)
    ensures
        r@ == read_error(kind@, requested@, failure.not_found, failure.message@),
{
    if failure.not_found {
        ApiError::not_found(concat3(kind, " not found: ", requested))
    } else {
        ApiError::internal(failure.message.clone())
    }
}

/// The media type of files with that extension.
pub uninterp spec fn mime_of_extension(ext: Seq<char>) -> Seq<char>;

/// `mime_guess::MimeGuess::from_ext` and `first_or_octet_stream`: the first media type that
/// is known for the extension, and `application/octet-stream` for an empty one. Which type
/// goes with which extension is left to the name `mime_of_extension`.
#[verifier::external_body]
fn guess_mime(ext: &str) -> (r: String)
    ensures
        r@ == mime_of_extension(ext@),
        ext@.len() == 0 ==> r@ == "application/octet-stream"@,
{
    MimeGuess::from_ext(ext).first_or_octet_stream().to_string()
}

/// The media type of a file, by the extension of its name.
pub open spec fn mime_of(extension: Option<Seq<char>>) -> Seq<char> {
    match extension {
        Some(ext) => mime_of_extension(ext),
        None => "application/octet-stream"@,
    }
}

/// The media type of a file, by the extension of its name as the system sees it.
pub fn content_type(extension: &Option<String>) -> (r: String)
    ensures
        r@ == mime_of(opt_text(*extension)),
{
    match extension {
        Some(ext) => guess_mime(ext.as_str()),
        None => "application/octet-stream".to_owned(),
    }
}

/// A file that is answered: its bytes and their media type.
#[derive(Debug)]
pub struct FileReply {
    pub bytes: Vec<u8>,
    pub mime: String,
}

/// The answer to a request for a file, given the extension of its name, whether a file is
/// there, and what reading it came to.
pub fn file_reply(
    requested: &str,
    extension: &Option<String>,
    is_file: bool,
    bytes: Result<Vec<u8>, ReadFailure>,
) -> (r: Result<FileReply, ApiError>)
    ensures
        match r {
            Ok(reply) => {
                &&& is_file
                &&& bytes == Ok::<Vec<u8>, ReadFailure>(reply.bytes)
                &&& reply.mime@ == mime_of(opt_text(*extension))
            },
            Err(e) => if !is_file {
                e@ == not_found_error("file not found: "@ + requested@)
            } else {
                match bytes {
                    Ok(_) => false,
                    Err(f) => e@ == read_error("file"@, requested@, f.not_found, f.message@),
                }
            },
        },
{
    if !is_file {
        return Err(ApiError::not_found(concat("file not found: ", requested)));
    }
    match bytes {
        Ok(bytes) => Ok(FileReply { bytes, mime: content_type(extension) }),
        Err(f) => Err(read_failure("file", requested, &f)),
    }
}

/// Where the file of a request is looked for: below a project, or by a path of its own.
#[derive(Debug)]
pub enum FileTarget {
    InProject(String),
    ByPath,
}

/// Where the file of a request is looked for. A project that is named by an empty text is
/// none.
pub fn file_target(project_path: &Option<String>) -> (r: FileTarget)
    ensures
        match r {
            FileTarget::InProject(p) => opt_text(*project_path) == Some(p@) && p@.len() > 0,
            FileTarget::ByPath => match *project_path {
                Some(p) => p@.len() == 0,
                None => true,
            },
        },
{
    match project_path {
        Some(p) => if chars_of(p.as_str()).len() > 0 {
            FileTarget::InProject(p.clone())
        } else {
            FileTarget::ByPath
        },
        None => FileTarget::ByPath,
    }
}

/// Refuses to take the text out of a file that no way of doing so is known for, by the
/// extension of its name.
pub fn text_extractor(requested: &str, extension: &Option<String>, is_file: bool) -> (r: Result<
    (),
    ApiError,
>)
    ensures
        match r {
            Ok(_) => is_file && lower_extension(opt_text(*extension)) == "pdf"@,
            Err(e) => if !is_file {
                e@ == not_found_error("file not found: "@ + requested@)
            } else {
                &&& lower_extension(opt_text(*extension)) != "pdf"@
                &&& e@ == plain_error(
                    415,
                    "UNSUPPORTED"@,
                    "no text extractor for ."@ + lower_extension(opt_text(*extension)),
                )
            },
        },
{
    if !is_file {
        return Err(ApiError::not_found(concat("file not found: ", requested)));
    }
    let ext = extension_lower(extension);
    if eq(ext.as_str(), "pdf") {
        return Ok(());
    }
    Err(ApiError::new(415, "UNSUPPORTED", concat("no text extractor for .", ext.as_str())))
}

/// Why the text of a file could not be taken out: the work was broken off, or it failed.
#[derive(Debug)]
pub enum ExtractFailure {
    Panicked(String),
    Failed(String),
}

/// The answer to a request for the text of a file.
pub fn extracted_text_reply(text: Result<String, ExtractFailure>) -> (r: Result<String, ApiError>)
    ensures
        match (text, r) {
            (Ok(t), Ok(u)) => u == t,
            (Err(ExtractFailure::Panicked(s)), Err(e)) => e@ == internal_error(
                "blocking task panicked: "@ + s@,
            ),
            (Err(ExtractFailure::Failed(s)), Err(e)) => e@ == internal_error(
                "pdf extract: "@ + s@,
            ),
            _ => false,
        },
{
    match text {
        Ok(t) => Ok(t),
        Err(ExtractFailure::Panicked(s)) => Err(
            ApiError::internal(concat("blocking task panicked: ", s.as_str())),
        ),
        Err(ExtractFailure::Failed(s)) => Err(
            ApiError::internal(concat("pdf extract: ", s.as_str())),
        ),
    }
}

/// What is known of an entry of the directory of projects.
#[derive(Debug)]
pub struct ProjectEntry {
    pub id: String,
    pub name: String,
    pub path: String,
    pub is_dir: bool,
    pub has_schema: bool,
    pub has_hidden_schema: bool,
    pub has_wiki: bool,
}

/// A project as it is listed.
#[derive(Debug)]
pub struct ProjectInfo {
    pub id: String,
    pub name: String,
    pub path: String,
}

#[verifier::ext_equal]
pub struct ProjectView {
    pub id: Seq<char>,
    pub name: Seq<char>,
    pub path: Seq<char>,
}

impl View for ProjectInfo {
    type V = ProjectView;

    open spec fn view(&self) -> ProjectView {
        ProjectView { id: self.id@, name: self.name@, path: self.path@ }
    }
}

/// Whether the entry is a project: a directory with a schema and a wiki.
pub open spec fn is_project(entry: ProjectEntry) -> bool {
    entry.is_dir && (entry.has_schema || entry.has_hidden_schema) && entry.has_wiki
}

/// The projects among the entries.
pub open spec fn projects_in(entries: Seq<ProjectEntry>) -> Seq<ProjectView>
    decreases entries.len(),
{
    if entries.len() == 0 {
        Seq::empty()
    } else {
        let rest = projects_in(entries.drop_last());
        let e = entries.last();
        if is_project(e) {
            rest.push(ProjectView { id: e.id@, name: e.name@, path: e.path@ })
        } else {
            rest
        }
    }
}

/// The projects among the entries of the directory of projects, in their order.
pub fn list_projects(entries: &Vec<ProjectEntry>) -> (r: Vec<ProjectInfo>)
    ensures
        r@.map_values(|p: ProjectInfo| p@) == projects_in(entries@),
{
    let mut out: Vec<ProjectInfo> = Vec::new();
    let mut i: usize = 0;
    assert(out@.map_values(|p: ProjectInfo| p@) =~= projects_in(entries@.take(0)));
    while i < entries.len()
        invariant
            i <= entries@.len(),
            out@.map_values(|p: ProjectInfo| p@) == projects_in(entries@.take(i as int)),
        decreases entries@.len() - i,
    {
        let ghost so_far = out@.map_values(|p: ProjectInfo| p@);
        assert(entries@.take(i as int + 1).drop_last() =~= entries@.take(i as int));
        let e = &entries[i];
        if e.is_dir && (e.has_schema || e.has_hidden_schema) && e.has_wiki {
            let info = ProjectInfo {
                id: e.id.clone(),
                name: e.name.clone(),
                path: e.path.clone(),
            };
            let ghost view = info@;
            out.push(info);
            assert(out@.map_values(|p: ProjectInfo| p@) =~= so_far.push(view));
        }
        i += 1;
    }
    assert(entries@.take(i as int) =~= entries@);
    out
}

/// The version of contents: the first sixteen digits of their digest.
pub open spec fn etag(content: Seq<u8>) -> Seq<char> {
    blake3_hex(content).take(16)
}

/// The version of contents.
pub fn etag_for(content: &[u8]) -> (r: String)
    ensures
        r@ == etag(content@),
        r@.len() == 16,
        forall|i: int| 0 <= i < r@.len() ==> is_hex(#[trigger] r@[i]),
{
    let digits = chars_of(blake3_text(content).as_str());
    let head = &digits.as_slice()[0..16];
    assert(head@ =~= digits@.take(16));
    text_of(head)
}

/// A version as it stands in a header.
pub open spec fn quoted(tag: Seq<char>) -> Seq<char> {
    seq!['"'] + tag + seq!['"']
}

/// A version as it stands in a header.
pub fn etag_header(tag: &str) -> (r: String)
    ensures
        r@ == quoted(tag@),
{
    proof {
        reveal_strlit("\"");
        assert("\""@ =~= seq!['"']);
    }
    concat3("\"", tag, "\"")
}

/// What `String::from_utf8_lossy` makes of bytes.
pub uninterp spec fn lossy_text(bytes: Seq<u8>) -> Seq<char>;

/// `String::from_utf8_lossy`: the text of bytes in UTF-8. Of bytes that are not UTF-8 a text is
/// made as well, in which other characters stand for what cannot be read; which one is left
/// to the name `lossy_text`.
#[verifier::external_body]
fn decode_lossy(bytes: &Vec<u8>) -> (r: String)
    ensures
        r@ == lossy_text(bytes@),
        valid_utf8(bytes@) ==> r@ == decode_utf8(bytes@),
{
    String::from_utf8_lossy(bytes).into_owned()
}

/// The text of a page.
pub open spec fn page_text(bytes: Seq<u8>) -> Seq<char> {
    if valid_utf8(bytes) {
        decode_utf8(bytes)
    } else {
        lossy_text(bytes)
    }
}

/// A page that is answered: its text, its front matter as it stands there, and its version.
#[derive(Debug)]
pub struct PageReply {
    pub content: String,
    pub front_matter: Option<String>,
    pub etag: String,
}

#[verifier::ext_equal]
pub struct PageReplyView {
    pub content: Seq<char>,
    pub front_matter: Option<Seq<char>>,
    pub etag: Seq<char>,
}

impl View for PageReply {
    type V = PageReplyView;

    open spec fn view(&self) -> PageReplyView {
        PageReplyView {
            content: self.content@,
            front_matter: opt_text(self.front_matter),
            etag: self.etag@,
        }
    }
}

/// The answer with a page that holds those bytes and reads as that text.
pub open spec fn reply_with(bytes: Seq<u8>, content: Seq<char>) -> PageReplyView {
    PageReplyView { content, front_matter: front_matter(content), etag: etag(bytes) }
}

/// The answer with a page that holds those bytes and reads as that text.
pub fn page_reply(bytes: &[u8], content: String) -> (r: PageReply)
    ensures
        r@ == reply_with(bytes@, content@),
{
    let front_matter = front_matter_of(content.as_str());
    PageReply { content, front_matter, etag: etag_for(bytes) }
}

/// The answer with a page that was read, or the error where it could not be.
pub fn read_page(page_path: &str, bytes: &Result<Vec<u8>, ReadFailure>) -> (r: Result<
    PageReply,
    ApiError,
>)
    ensures
        match (*bytes, r) {
            (Ok(b), Ok(reply)) => reply@ == reply_with(b@, page_text(b@)),
            (Err(f), Err(e)) => e@ == read_error("page"@, page_path@, f.not_found, f.message@),
            _ => false,
        },
{
    match bytes {
        Ok(b) => Ok(page_reply(b.as_slice(), decode_lossy(b))),
        Err(f) => Err(read_failure("page", page_path, f)),
    }
}

/// The version that a header names: what stands in it between quotation marks.
pub open spec fn named_version(header: Seq<char>) -> Seq<char> {
    trimmed_of(header, '"')
}

/// The version that a request to write a page names, or the error where it names none.
pub fn requested_version(if_match: &Option<String>) -> (r: Result<String, ApiError>)
    ensures
        match (*if_match, r) {
            (Some(header), Ok(tag)) => tag@ == named_version(header@),
            (None, Err(e)) => e@ == plain_error(
                400,
                "BAD_REQUEST"@,
                "If-Match header required for wiki page writes"@,
            ),
            _ => false,
        },
{
    match if_match {
        Some(header) => Ok(text_of(trim_char(chars_of(header.as_str()).as_slice(), '"'))),
        None => Err(
            ApiError::bad_request(
                "BAD_REQUEST",
                "If-Match header required for wiki page writes".to_owned(),
            ),
        ),
    }
}

/// The error for a page that has another version than was named.
pub open spec fn stale_error(current: Seq<char>) -> ErrorView {
    with_detail(
        plain_error(412, "WIKI_PAGE_STALE"@, "page was modified since you loaded it"@),
        "current_etag"@,
        current,
    )
}

/// What comes of a request to write a page, given the version that it names and the bytes
/// that the page holds: the version of the new contents, which are then to be written, or
/// the error for which nothing is written.
pub open spec fn write_outcome(
    page_path: Seq<char>,
    if_match: Seq<char>,
    current: Result<Seq<u8>, (bool, Seq<char>)>,
    content: Seq<char>,
) -> Result<Seq<char>, ErrorView> {
    match current {
        Err((not_found, message)) => Err(
            read_error("page"@, page_path, not_found, message),
        ),
        Ok(bytes) => if etag(bytes) != if_match {
            Err(stale_error(etag(bytes)))
        } else {
            Ok(etag(encode_utf8(content)))
        },
    }
}

/// What comes of a request to write a page.
pub fn write_page(
    page_path: &str,
    if_match: &str,
    current: &Result<Vec<u8>, ReadFailure>,
    content: &str,
) -> (r: Result<String, ApiError>)
    ensures
        (match r {
            Ok(tag) => Ok(tag@),
            Err(e) => Err(e@),
        }) == write_outcome(
            page_path@,
            if_match@,
            match *current {
                Ok(b) => Ok(b@),
                Err(f) => Err((f.not_found, f.message@)),
            },
            content@,
        ),
{
    match current {
        Err(f) => Err(read_failure("page", page_path, f)),
        Ok(bytes) => {
            let tag = etag_for(bytes.as_slice());
            if !eq(tag.as_str(), if_match) {
                return Err(
                    ApiError::new(
                        412,
                        "WIKI_PAGE_STALE",
                        "page was modified since you loaded it".to_owned(),
                    ).with_details("current_etag", tag.as_str()),
                );
            }
            Ok(etag_for(content.as_bytes()))
        },
    }
}

/// Trimming takes away a run of `c` at the front and nothing else.
proof fn lemma_strip_one(tag: Seq<char>, c: char)
    requires
        tag.len() > 0,
        tag[0] != c,
        tag.last() != c,
    ensures
        trimmed_of(seq![c] + tag + seq![c], c) == tag,
{
    let all = seq![c] + tag + seq![c];
    let front = tag + seq![c];
    assert(all.drop_first() =~= front);
    assert(front.first() == tag[0]);
    reveal_with_fuel(strip_front, 3);
    assert(strip_front(all, just(c)) == front);
    assert(front.drop_last() =~= tag);
    assert(front.last() == c);
    reveal_with_fuel(strip_back, 3);
    assert(strip_back(front, just(c)) == tag);
}

/// Whoever is refused is answered alike, whether the name is unknown or the password wrong.
pub proof fn law_refusals_are_answered_alike(
    users: UsersView,
    known: Seq<char>,
    wrong: Seq<char>,
    unknown: Seq<char>,
    any: Seq<char>,
)
    requires
        users.hashes.contains_key(lowercase(known)),
        phc_error(users.hashes[lowercase(known)]) is None,
        !takes(users.hashes[lowercase(known)], wrong),
        !users.hashes.contains_key(lowercase(unknown)),
    ensures
        sign_in_answer(sign_in(users, known, wrong)) == Err::<UserView, ErrorView>(
            plain_error(401, "INVALID_CREDENTIALS"@, "invalid username or password"@),
        ),
        sign_in_answer(sign_in(users, unknown, any)) == sign_in_answer(
            sign_in(users, known, wrong),
        ),
{
}

/// The version that a page is answered with, sent back in the header of a request to write
/// it, is the version that the request names.
pub proof fn law_version_survives_header(tag: Seq<char>)
    requires
        tag.len() > 0,
        forall|i: int| 0 <= i < tag.len() ==> is_hex(#[trigger] tag[i]),
    ensures
        named_version(quoted(tag)) == tag,
{
    assert(is_hex(tag[0]) && is_hex(tag[tag.len() - 1]));
    lemma_strip_one(tag, '"');
}

/// A page that was not changed since it was read can be written with the version that the
/// reading gave.
pub proof fn law_fresh_write_is_accepted(page: Seq<char>, bytes: Seq<u8>, content: Seq<char>)
    ensures
        write_outcome(page, etag(bytes), Ok(bytes), content) == Ok::<Seq<char>, ErrorView>(
            etag(encode_utf8(content)),
        ),
{
}

/// A page that was written reads as what was written, and has the version that the writing
/// was answered with.
pub proof fn law_written_page_reads_back(page: Seq<char>, bytes: Seq<u8>, content: Seq<char>)
    ensures
        reply_with(encode_utf8(content), page_text(encode_utf8(content))).content == content,
        write_outcome(page, etag(bytes), Ok(bytes), content) == Ok::<Seq<char>, ErrorView>(
            reply_with(encode_utf8(content), page_text(encode_utf8(content))).etag,
        ),
{
    encode_utf8_valid_utf8(content);
    encode_utf8_decode_utf8(content);
}

/// A page that holds another version than the request names is not written.
pub proof fn law_stale_write_is_refused(
    page: Seq<char>,
    if_match: Seq<char>,
    bytes: Seq<u8>,
    content: Seq<char>,
)
    requires
        etag(bytes) != if_match,
    ensures
        write_outcome(page, if_match, Ok(bytes), content) == Err::<Seq<char>, ErrorView>(
            stale_error(etag(bytes)),
        ),
{
}

/// The error for the first component of a page's path that may not stand in it.
pub open spec fn component_error(ps: Seq<Part>) -> Option<Seq<char>>
    decreases ps.len(),
{
    if ps.len() == 0 {
        None
    } else {
        match component_error(ps.drop_last()) {
            Some(e) => Some(e),
            None => match ps.last() {
                Part::ParentDir => Some("page_path contains .. segment"@),
                Part::Prefix(_) => Some("page_path must be relative"@),
                Part::RootDir => Some("page_path must be relative"@),
                _ => None,
            },
        }
    }
}

/// Why a page may not be written, given its path and the components of that without the
/// white space around it.
pub open spec fn page_path_error(page_path: Seq<char>, page: Seq<Part>) -> Option<Seq<char>> {
    if trimmed(page_path).len() == 0 {
        Some("page_path must not be empty"@)
    } else {
        component_error(page)
    }
}

/// Where a page is written: the components of its path below those of the project's
/// directory, or why it may not be.
pub open spec fn write_target(root: Seq<Part>, page_path: Seq<char>, page: Seq<Part>) -> Result<
    Seq<Part>,
    Seq<char>,
> {
    let path = normalized(root + page);
    if page_path_error(page_path, page) is Some {
        Err(page_path_error(page_path, page)->0)
    } else if !root.is_prefix_of(path) {
        Err("page_path escapes project root"@)
    } else {
        Ok(path)
    }
}

/// The error for a page that may not be written.
fn page_escape(message: &str) -> (r: ApiError)
    ensures
        r@ == escape_error(message@),
{
    ApiError::bad_request("PATH_ESCAPE", message.to_owned())
}

/// The error of components up to an index is that of all of them.
proof fn lemma_component_error(ps: Seq<Part>, n: int)
    requires
        0 <= n <= ps.len(),
        component_error(ps.take(n)) is Some,
    ensures
        component_error(ps) == component_error(ps.take(n)),
    decreases ps.len() - n,
{
    if n == ps.len() {
        assert(ps.take(n) =~= ps);
    } else {
        assert(ps.take(n + 1).drop_last() =~= ps.take(n));
        lemma_component_error(ps, n + 1);
    }
}

/// Refuses the path of a page that is empty, is not relative, or leads up. `page` holds the
/// components of the path without the white space around it, as the system sees them.
pub fn check_page_path(page_path: &str, page: &Vec<PathComponent>) -> (r: Result<(), ApiError>)
    ensures
        match (r, page_path_error(page_path@, parts(page@))) {
            (Ok(_), None) => true,
            (Err(e), Some(message)) => e@ == escape_error(message),
            _ => false,
        },
{
    let chars = chars_of(page_path);
    let bare = trim(chars.as_slice());
    if bare.len() == 0 {
        return Err(page_escape("page_path must not be empty"));
    }
    let ghost ps = parts(page@);
    let mut i: usize = 0;
    while i < page.len()
        invariant
            i <= page@.len(),
            ps == parts(page@),
            trimmed(page_path@).len() > 0,
            component_error(ps.take(i as int)) is None,
        decreases page@.len() - i,
    {
        proof {
            assert(ps.take(i as int + 1).drop_last() =~= ps.take(i as int));
            assert(ps.take(i as int + 1).last() == page@[i as int]@);
        }
        match &page[i] {
            PathComponent::ParentDir => {
                proof {
                    lemma_component_error(ps, i as int + 1);
                }
                return Err(page_escape("page_path contains .. segment"));
            },
            PathComponent::Prefix(_) => {
                proof {
                    lemma_component_error(ps, i as int + 1);
                }
                return Err(page_escape("page_path must be relative"));
            },
            PathComponent::RootDir => {
                proof {
                    lemma_component_error(ps, i as int + 1);
                }
                return Err(page_escape("page_path must be relative"));
            },
            _ => {},
        }
        i += 1;
    }
    assert(ps.take(i as int) =~= ps);
    Ok(())
}

/// Where a page is written, given the components of the resolved path of the project's
/// directory, and those of the page's path without the white space around it, both as the
/// system sees them. The page need not exist yet; a path that leads out of the project is
/// refused.
pub fn resolve_write_page(
    root: &Vec<PathComponent>,
    page_path: &str,
    page: &Vec<PathComponent>,
) -> (r: Result<Vec<PathComponent>, ApiError>)
    ensures
        match (r, write_target(parts(root@), page_path@, parts(page@))) {
            (Ok(path), Ok(target)) => parts(path@) == target,
            (Err(e), Err(message)) => e@ == escape_error(message),
            _ => false,
        },
{
    match check_page_path(page_path, page) {
        Ok(_) => {},
        Err(e) => {
            return Err(e);
        },
    }
    let ghost ps = parts(page@);
    let mut joined: Vec<PathComponent> = Vec::new();
    let mut k: usize = 0;
    while k < root.len()
        invariant
            k <= root@.len(),
            joined@ == root@.take(k as int),
        decreases root@.len() - k,
    {
        joined.push(root[k].clone());
        assert(root@.take(k as int + 1) =~= root@.take(k as int).push(root@[k as int]));
        k += 1;
    }
    assert(root@.take(k as int) =~= root@);
    let mut m: usize = 0;
    while m < page.len()
        invariant
            m <= page@.len(),
            joined@ == root@ + page@.take(m as int),
        decreases page@.len() - m,
    {
        joined.push(page[m].clone());
        assert(joined@ =~= root@ + page@.take(m as int + 1));
        m += 1;
    }
    assert(page@.take(m as int) =~= page@);
    assert(parts(joined@) =~= parts(root@) + ps);
    let path = normalize_path_no_canonicalize(&joined);
    if !is_under(&path, root) {
        return Err(page_escape("page_path escapes project root"));
    }
    Ok(path)
}

/// A component without error is a name or stands for the directory itself.
proof fn lemma_no_component_error(ps: Seq<Part>)
    requires
        component_error(ps) is None,
    ensures
        goes_down(ps),
    decreases ps.len(),
{
    if ps.len() > 0 {
        lemma_no_component_error(ps.drop_last());
        assert forall|i: int| 0 <= i < ps.len() implies (#[trigger] ps[i] is Normal
            || ps[i] is CurDir) by {
            if i < ps.len() - 1 {
                assert(ps.drop_last()[i] == ps[i]);
            }
        }
    }
}

/// A page is written below the project's directory or not at all: where its path is
/// accepted, it is that of the directory followed by the names in the path of the page.
pub proof fn law_page_stays_in_project(root: Seq<Part>, page_path: Seq<char>, page: Seq<Part>)
    requires
        is_resolved(root),
    ensures
        match write_target(root, page_path, page) {
            Ok(path) => path == root + normals(names_of(page)),
            Err(_) => true,
        },
{
    if component_error(page) is None {
        lemma_no_component_error(page);
        lemma_goes_down(root, page);
    }
}

/// A path that is empty, that begins at a root or with a prefix, or that holds `..` is
/// refused, and no other is, below a resolved directory.
pub proof fn law_page_is_accepted_or_leads_elsewhere(
    root: Seq<Part>,
    page_path: Seq<char>,
    page: Seq<Part>,
)
    requires
        is_resolved(root),
    ensures
        write_target(root, page_path, page) is Ok <==> trimmed(page_path).len() > 0 && goes_down(
            page,
        ),
{
    if component_error(page) is None {
        lemma_no_component_error(page);
    }
    if goes_down(page) {
        lemma_goes_down_no_error(page);
        lemma_goes_down(root, page);
        let path = normalized(root + page);
        assert(path.subrange(0, root.len() as int) =~= root);
    }
}

/// Components that go down are free of error.
proof fn lemma_goes_down_no_error(ps: Seq<Part>)
    requires
        goes_down(ps),
    ensures
        component_error(ps) is None,
    decreases ps.len(),
{
    if ps.len() > 0 {
        let rest = ps.drop_last();
        assert forall|i: int| 0 <= i < rest.len() implies (#[trigger] rest[i] is Normal
            || rest[i] is CurDir) by {
            assert(ps[i] == rest[i]);
        }
        lemma_goes_down_no_error(rest);
        assert(ps[ps.len() - 1] == ps.last());
    }
}

/// The error for a request for the graph of a project, which the front end works out.
pub fn graph_unavailable() -> (r: ApiError)
    ensures
        r@ == plain_error(
            501,
            "NOT_IMPLEMENTED"@,
            "graph endpoint not yet implemented; frontend computes the graph client-side"@,
        ),
{
    ApiError::new(
        501,
        "NOT_IMPLEMENTED",
        "graph endpoint not yet implemented; frontend computes the graph client-side".to_owned(),
    )
}

/// The file of the front end that a request is for.
pub open spec fn asset_name(uri_path: Seq<char>) -> Seq<char> {
    strip_front(uri_path, just('/'))
}

/// The file of the front end that a request is for: its path without slashes in front.
pub fn asset_path(uri_path: &str) -> (r: String)
    ensures
        r@ == asset_name(uri_path@),
{
    text_of(strip_char_front(chars_of(uri_path).as_slice(), '/'))
}

/// How a request that nothing else answers is answered: with a file of the front end, with
/// its first page, or not at all.
#[derive(Debug)]
pub enum SpaReply {
    Asset { path: String, mime: String },
    Index,
    NotFound,
}

/// How a request that nothing else answers is answered, its texts as sequences of characters.
#[verifier::ext_equal]
pub enum SpaView {
    Asset { path: Seq<char>, mime: Seq<char> },
    Index,
    NotFound,
}

impl View for SpaReply {
    type V = SpaView;

    open spec fn view(&self) -> SpaView {
        match self {
            SpaReply::Asset { path, mime } => SpaView::Asset { path: path@, mime: mime@ },
            SpaReply::Index => SpaView::Index,
            SpaReply::NotFound => SpaView::NotFound,
        }
    }
}

/// How a request that nothing else answers is answered.
pub open spec fn spa_answer(
    uri_path: Seq<char>,
    extension: Option<Seq<char>>,
    has_asset: bool,
    has_index: bool,
) -> SpaView {
    if "api/"@.is_prefix_of(asset_name(uri_path)) {
        SpaView::NotFound
    } else if has_asset {
        SpaView::Asset { path: asset_name(uri_path), mime: mime_of(extension) }
    } else if has_index {
        SpaView::Index
    } else {
        SpaView::NotFound
    }
}

/// How a request that nothing else answers is answered, given the extension of the name of
/// the file that it is for, whether the front end has that file, and whether it has a first
/// page. Requests to the server itself are not.
pub fn spa_fallback(
    uri_path: &str,
    extension: &Option<String>,
    has_asset: bool,
    has_index: bool,
) -> (r: SpaReply)
    ensures
        r@ == spa_answer(uri_path@, opt_text(*extension), has_asset, has_index),
{
    let path = asset_path(uri_path);
    if has_prefix(path.as_str(), "api/") {
        return SpaReply::NotFound;
    }
    if has_asset {
        let mime = content_type(extension);
        return SpaReply::Asset { path, mime };
    }
    if has_index {
        return SpaReply::Index;
    }
    SpaReply::NotFound
}

} // verus!
