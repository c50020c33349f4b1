//! What the server keeps for each user: settings, the projects opened of late, and
//! conversations.

use serde_json::Value;
use vstd::prelude::*;

use crate::json::{
    contents, empty_object, is_plain, json_bytes, json_list, json_value, list_value, parse_list,
    parse_value, value_of_list, write_value, JsonView, MAX_NESTING,
};
use crate::text::{
    after_last, before_last, chars_of, concat, eq, find_last, last_index, lemma_last_index,
    text_of, texts,
};

verus! {

/// What went wrong with the data of a user.
#[derive(Debug)]
pub enum UserDataError {
    Io(String),
    Json(String),
    InvalidUserId(String),
    InvalidProjectId(String),
    InvalidConversationId(String),
}

impl UserDataError {
    /// The text that the error is shown by.
    pub open spec fn shown(self) -> Seq<char> {
        match self {
            UserDataError::Io(s) => "io error: "@ + s@,
            UserDataError::Json(s) => "json error: "@ + s@,
            UserDataError::InvalidUserId(s) => "invalid user_id: "@ + s@,
            UserDataError::InvalidProjectId(s) => "invalid project_id: "@ + s@,
            UserDataError::InvalidConversationId(s) => "invalid conversation_id: "@ + s@,
        }
    }

    /// The text that the error is shown by.
    pub fn message(&self) -> (r: String)
        ensures
            r@ == self.shown(),
    {
        match self {
            UserDataError::Io(s) => concat("io error: ", s.as_str()),
            UserDataError::Json(s) => concat("json error: ", s.as_str()),
            UserDataError::InvalidUserId(s) => concat("invalid user_id: ", s.as_str()),
            UserDataError::InvalidProjectId(s) => concat("invalid project_id: ", s.as_str()),
            UserDataError::InvalidConversationId(s) => concat(
                "invalid conversation_id: ",
                s.as_str(),
            ),
        }
    }
}

/// What a name in a path stands for.
#[derive(Debug, Clone, Copy, PartialEq, Eq, Structural)]
pub enum Segment {
    User,
    Project,
    Conversation,
}

/// Whether the character may stand in a name.
pub open spec fn is_name_char(c: char) -> bool {
    ||| 'a' <= c && c <= 'z'
    ||| 'A' <= c && c <= 'Z'
    ||| '0' <= c && c <= '9'
    ||| c == '.'
    ||| c == '_'
    ||| c == '-'
}

/// Whether the text may be a name in a path: it is not empty, and made of letters, digits,
/// dots, underscores and hyphens.
pub open spec fn is_safe(segment: Seq<char>) -> bool {
    &&& segment.len() > 0
    &&& forall|i: int| 0 <= i < segment.len() ==> is_name_char(#[trigger] segment[i])
}

/// Whether the error is that for a name of the kind.
pub open spec fn is_refusal(e: UserDataError, kind: Segment, segment: Seq<char>) -> bool {
    match e {
        UserDataError::InvalidUserId(s) => kind == Segment::User && s@ == segment,
        UserDataError::InvalidProjectId(s) => kind == Segment::Project && s@ == segment,
        UserDataError::InvalidConversationId(s) => kind == Segment::Conversation && s@ == segment,
        _ => false,
    }
}

/// Refuses a text that may not be a name in a path.
pub fn safe_segment(kind: Segment, segment: &str) -> (r: Result<(), UserDataError>)
    ensures
        match r {
            Ok(_) => is_safe(segment@),
            Err(e) => !is_safe(segment@) && is_refusal(e, kind, segment@),
        },
{
    let chars = chars_of(segment);
    let mut safe = chars.len() > 0;
    let mut i: usize = 0;
    while i < chars.len()
        invariant
            i <= chars@.len(),
            safe == (chars@.len() > 0 && forall|j: int|
                0 <= j < i ==> is_name_char(#[trigger] chars@[j])),
        decreases chars@.len() - i,
    {
        let c: char = chars[i];
        let good = ('a' <= c && c <= 'z') || ('A' <= c && c <= 'Z') || ('0' <= c && c <= '9') || c
            == '.' || c == '_' || c == '-';
        safe = safe && good;
        i += 1;
    }
    if safe {
        return Ok(());
    }
    Err(
        match kind {
            Segment::User => UserDataError::InvalidUserId(segment.to_owned()),
            Segment::Project => UserDataError::InvalidProjectId(segment.to_owned()),
            Segment::Conversation => UserDataError::InvalidConversationId(segment.to_owned()),
        },
    )
}

/// A conversation, and when it was last changed, in seconds since 1970.
#[derive(Debug)]
pub struct ConversationMeta {
    pub id: String,
    pub modified_unix: u64,
}

impl Clone for ConversationMeta {
    fn clone(&self) -> (r: ConversationMeta)
        ensures
            r == *self,
    {
        ConversationMeta { id: self.id.clone(), modified_unix: self.modified_unix }
    }
}

#[verifier::ext_equal]
pub struct ConversationView {
    pub id: Seq<char>,
    pub modified_unix: u64,
}

impl View for ConversationMeta {
    type V = ConversationView;

    open spec fn view(&self) -> ConversationView {
        ConversationView { id: self.id@, modified_unix: self.modified_unix }
    }
}

/// The views of the conversations.
pub open spec fn conversation_views(v: Seq<ConversationMeta>) -> Seq<ConversationView> {
    v.map_values(|c: ConversationMeta| c@)
}

/// A file in the directory of the conversations of a project: its name where that is text,
/// and when it was last changed where that is known.
#[derive(Debug)]
pub struct ConversationFile {
    pub name: Option<String>,
    pub modified_secs: Option<u64>,
}

/// The extension of a file name: what follows its last dot, unless that is the first
/// character.
pub open spec fn name_extension(name: Seq<char>) -> Option<Seq<char>> {
    if last_index(name, '.') <= 0 {
        None
    } else {
        Some(after_last(name, '.'))
    }
}

/// The conversation that a file holds; nothing where it holds none.
pub open spec fn conversation_in(file: ConversationFile) -> Option<ConversationView> {
    match file.name {
        Some(name) => if name_extension(name@) == Some("json"@) {
            Some(
                ConversationView {
                    id: before_last(name@, '.'),
                    modified_unix: match file.modified_secs {
                        Some(secs) => secs,
                        None => 0,
                    },
                },
            )
        } else {
            None
        },
        None => None,
    }
}

/// The conversations with one more, which stands before the first that is older.
pub open spec fn by_age(s: Seq<ConversationView>, c: ConversationView) -> Seq<ConversationView>
    decreases s.len(),
{
    if s.len() > 0 && s.last().modified_unix < c.modified_unix {
        by_age(s.drop_last(), c).push(s.last())
    } else {
        s.push(c)
    }
}

/// The conversations in the files, the latest first; those of one time in the order of the
/// files.
pub open spec fn conversations_in(files: Seq<ConversationFile>) -> Seq<ConversationView>
    decreases files.len(),
{
    if files.len() == 0 {
        Seq::empty()
    } else {
        let rest = conversations_in(files.drop_last());
        match conversation_in(files.last()) {
            Some(c) => by_age(rest, c),
            None => rest,
        }
    }
}

/// The data of the users, below a directory.
#[derive(Debug)]
pub struct UserData {
    data_root: String,
}

impl Clone for UserData {
    fn clone(&self) -> (r: UserData)
        ensures
            r.root() == self.root(),
    {
        UserData { data_root: self.data_root.clone() }
    }
}

/// The names that lead to the directory of a user.
pub open spec fn user_path(root: Seq<char>, user_id: Seq<char>) -> Seq<Seq<char>> {
    seq![root, "users"@, user_id]
}

/// The names that lead to the conversations of a user about a project.
pub open spec fn chat_path(root: Seq<char>, user_id: Seq<char>, project_id: Seq<char>) -> Seq<
    Seq<char>,
> {
    seq![root, "users"@, user_id, "chat"@, project_id]
}

/// The names that lead to a conversation.
pub open spec fn conversation_file(
    root: Seq<char>,
    user_id: Seq<char>,
    project_id: Seq<char>,
    conversation_id: Seq<char>,
) -> Seq<Seq<char>> {
    chat_path(root, user_id, project_id).push(conversation_id + ".json"@)
}

/// What the projects opened of late become when a project is opened: it stands first, and
/// nowhere else, and of the others the first that fit in a list of twenty follow.
pub open spec fn opened(recent: Seq<Seq<char>>, project_id: Seq<char>) -> Seq<Seq<char>> {
    let all = seq![project_id] + others(recent, project_id);
    if all.len() > 20 {
        all.take(20)
    } else {
        all
    }
}

/// The projects but for one.
pub open spec fn others(recent: Seq<Seq<char>>, project_id: Seq<char>) -> Seq<Seq<char>>
    decreases recent.len(),
{
    if recent.len() == 0 {
        Seq::empty()
    } else if recent.last() == project_id {
        others(recent.drop_last(), project_id)
    } else {
        others(recent.drop_last(), project_id).push(recent.last())
    }
}

/// The list that is read from what was stored; none where nothing was, or no list can be
/// read from it.
pub open spec fn stored_list(raw: Option<Seq<u8>>) -> Seq<Seq<char>> {
    match raw {
        Some(bytes) => match json_list(bytes) {
            Some(list) => list,
            None => Seq::empty(),
        },
        None => Seq::empty(),
    }
}

/// The bytes that were read, where some were.
pub open spec fn bytes_of(raw: Option<Vec<u8>>) -> Option<Seq<u8>> {
    match raw {
        Some(bytes) => Some(bytes@),
        None => None,
    }
}

/// The names that lead to the settings of a user.
pub open spec fn settings_file(root: Seq<char>, user_id: Seq<char>) -> Seq<Seq<char>> {
    user_path(root, user_id).push("config.json"@)
}

/// The names that lead to the projects that a user opened of late.
pub open spec fn opened_file(root: Seq<char>, user_id: Seq<char>) -> Seq<Seq<char>> {
    user_path(root, user_id).push("recently_opened.json"@)
}

/// Whether the value is what a user has for settings, given what was stored: what that is
/// read as, and an empty object where nothing was stored.
pub open spec fn is_settings(value: Value, raw: Option<Seq<u8>>) -> bool {
    match raw {
        Some(bytes) => json_value(bytes) == Ok::<Value, Seq<char>>(value),
        None => contents(value) == JsonView::Object(Map::empty()),
    }
}

/// Whether the error is the one for bytes that are read as no value.
pub open spec fn is_unread(e: UserDataError, bytes: Seq<u8>) -> bool {
    match e {
        UserDataError::Json(why) => json_value(bytes) == Err::<Value, Seq<char>>(why@),
        _ => false,
    }
}

/// A file to be written.
#[derive(Debug)]
pub struct SavedFile {
    pub path: Vec<String>,
    pub bytes: Vec<u8>,
}

#[verifier::ext_equal]
pub struct FileWrite {
    pub path: Seq<Seq<char>>,
    pub bytes: Seq<u8>,
}

impl View for SavedFile {
    type V = FileWrite;

    open spec fn view(&self) -> FileWrite {
        FileWrite { path: texts(self.path@), bytes: self.bytes@ }
    }
}

/// Whether the file keeps the value at the path. What it holds is read as the value again,
/// if the value is plain.
pub open spec fn keeps_value(file: FileWrite, path: Seq<Seq<char>>, value: Value) -> bool {
    &&& file.path == path
    &&& file.bytes == json_bytes(value)
    &&& is_plain(contents(value), MAX_NESTING as nat) ==> json_value(file.bytes) == Ok::<
        Value,
        Seq<char>,
    >(value)
}

/// Whether the file keeps the projects that a user opened of late, when they open one and
/// `raw` was stored before. What it holds is read as that list again.
pub open spec fn keeps_opened(
    file: FileWrite,
    root: Seq<char>,
    user_id: Seq<char>,
    project_id: Seq<char>,
    raw: Option<Seq<u8>>,
) -> bool {
    let list = opened(stored_list(raw), project_id);
    &&& file.path == opened_file(root, user_id)
    &&& file.bytes == json_bytes(list_value(list))
    &&& json_list(file.bytes) == Some(list)
}

/// What is handed on for bytes, given what they were read as.
pub fn loaded(parsed: Result<Value, String>) -> (r: Result<Value, UserDataError>)
    ensures
        r == match parsed {
            Ok(value) => Ok::<Value, UserDataError>(value),
            Err(why) => Err::<Value, UserDataError>(UserDataError::Json(why)),
        },
{
    match parsed {
        Ok(value) => Ok(value),
        Err(why) => Err(UserDataError::Json(why)),
    }
}

/// The file that keeps a value at a path.
fn saved(path: Vec<String>, value: &Value) -> (r: Result<SavedFile, UserDataError>)
    ensures
        match r {
            Ok(file) => keeps_value(file@, texts(path@), *value),
            Err(_) => false,
        },
{
    match write_value(value) {
        Ok(bytes) => Ok(SavedFile { path, bytes }),
        Err(why) => Err(UserDataError::Json(why)),
    }
}

/// What the projects opened of late become when a project is opened.
pub fn with_opened(current: &Vec<String>, project_id: &str) -> (r: Vec<String>)
    ensures
        texts(r@) == opened(texts(current@), project_id@),
{
    let ghost recent = texts(current@);
    let mut out: Vec<String> = Vec::new();
    out.push(project_id.to_owned());
    let mut i: usize = 0;
    let ghost head = seq![project_id@];
    assert(texts(out@) =~= head + others(recent.take(0), project_id@));
    while i < current.len()
        invariant
            i <= current@.len(),
            recent == texts(current@),
            head == seq![project_id@],
            texts(out@) == head + others(recent.take(i as int), project_id@),
        decreases current@.len() - i,
    {
        let ghost so_far = texts(out@);
        proof {
            assert(recent.take(i as int + 1).drop_last() =~= recent.take(i as int));
            assert(recent.take(i as int + 1).last() == current@[i as int]@);
        }
        if !eq(current[i].as_str(), project_id) {
            out.push(current[i].clone());
            assert(texts(out@) =~= so_far.push(recent[i as int]));
        }
        assert(texts(out@) =~= head + others(recent.take(i as int + 1), project_id@));
        i += 1;
    }
    assert(recent.take(i as int) =~= recent);
    let ghost all = texts(out@);
    if out.len() > 20 {
        out.truncate(20);
        assert(texts(out@) =~= all.take(20));
    }
    out
}

impl UserData {
    /// The directory that all data is below.
    pub closed spec fn root(&self) -> Seq<char> {
        self.data_root@
    }

    /// The data below a directory.
    pub fn new(data_root: String) -> (r: UserData)
        ensures
            r.root() == data_root@,
    {
        UserData { data_root }
    }

    /// The names that lead to the directory of a user.
    fn user_dir(&self, user_id: &str) -> (r: Result<Vec<String>, UserDataError>)
        ensures
            match r {
                Ok(path) => is_safe(user_id@) && texts(path@) == user_path(self.root(), user_id@),
                Err(e) => !is_safe(user_id@) && is_refusal(e, Segment::User, user_id@),
            },
    {
        match safe_segment(Segment::User, user_id) {
            Ok(_) => {},
            Err(e) => {
                return Err(e);
            },
        }
        let mut path: Vec<String> = Vec::new();
        path.push(self.data_root.clone());
        path.push("users".to_owned());
        path.push(user_id.to_owned());
        assert(texts(path@) =~= user_path(self.root(), user_id@));
        Ok(path)
    }

    /// A file in the directory of a user.
    fn user_file(&self, user_id: &str, name: &str) -> (r: Result<Vec<String>, UserDataError>)
        ensures
            match r {
                Ok(path) => is_safe(user_id@) && texts(path@) == user_path(
                    self.root(),
                    user_id@,
                ).push(name@),
                Err(e) => !is_safe(user_id@) && is_refusal(e, Segment::User, user_id@),
            },
    {
        match self.user_dir(user_id) {
            Ok(path) => {
                let mut path = path;
                let ghost before = texts(path@);
                path.push(name.to_owned());
                assert(texts(path@) =~= before.push(name@));
                Ok(path)
            },
            Err(e) => Err(e),
        }
    }

    /// Where the settings of a user are kept.
    pub fn config_path(&self, user_id: &str) -> (r: Result<Vec<String>, UserDataError>)
        ensures
            match r {
                Ok(path) => is_safe(user_id@) && texts(path@) == settings_file(
                    self.root(),
                    user_id@,
                ),
                Err(e) => !is_safe(user_id@) && is_refusal(e, Segment::User, user_id@),
            },
    {
        self.user_file(user_id, "config.json")
    }

    /// The settings of a user, given what was read of their file, which is missing where
    /// they were never saved: they are then empty.
    pub fn load_config(&self, user_id: &str, raw: Option<Result<Vec<u8>, String>>) -> (r: Result<
        Value,
        UserDataError,
    >)
        ensures
            match r {
                Ok(value) => is_safe(user_id@) && match raw {
                    None => is_settings(value, None),
                    Some(Ok(bytes)) => is_settings(value, Some(bytes@)),
                    Some(Err(_)) => false,
                },
                Err(e) => if !is_safe(user_id@) {
                    is_refusal(e, Segment::User, user_id@)
                } else {
                    match raw {
                        None => false,
                        Some(Ok(bytes)) => is_unread(e, bytes@),
                        Some(Err(why)) => e == UserDataError::Io(why),
                    }
                },
            },
    {
        match self.user_dir(user_id) {
            Ok(_) => match raw {
                None => Ok(empty_object()),
                Some(Ok(bytes)) => loaded(parse_value(bytes.as_slice())),
                Some(Err(why)) => Err(UserDataError::Io(why)),
            },
            Err(e) => Err(e),
        }
    }

    /// The file that is to keep the settings of a user.
    pub fn save_config(&self, user_id: &str, value: &Value) -> (r: Result<SavedFile, UserDataError>)
        ensures
            match r {
                Ok(file) => is_safe(user_id@) && keeps_value(
                    file@,
                    settings_file(self.root(), user_id@),
                    *value,
                ),
                Err(e) => !is_safe(user_id@) && is_refusal(e, Segment::User, user_id@),
            },
    {
        match self.config_path(user_id) {
            Ok(path) => saved(path, value),
            Err(e) => Err(e),
        }
    }

    /// Where the projects that a user opened of late are kept.
    pub fn recently_opened_path(&self, user_id: &str) -> (r: Result<Vec<String>, UserDataError>)
        ensures
            match r {
                Ok(path) => is_safe(user_id@) && texts(path@) == opened_file(
                    self.root(),
                    user_id@,
                ),
                Err(e) => !is_safe(user_id@) && is_refusal(e, Segment::User, user_id@),
            },
    {
        self.user_file(user_id, "recently_opened.json")
    }

    /// The projects that a user opened of late, given what was read of their file; none where
    /// nothing was, no list can be read from it, or the user's id may not be a name.
    pub fn recently_opened(&self, user_id: &str, raw: Option<Vec<u8>>) -> (r: Vec<String>)
        ensures
            texts(r@) == if is_safe(user_id@) {
                stored_list(bytes_of(raw))
            } else {
                Seq::empty()
            },
    {
        let none: Vec<String> = Vec::new();
        assert(texts(none@) =~= Seq::empty());
        match self.user_dir(user_id) {
            Ok(_) => match raw {
                Some(bytes) => match parse_list(bytes.as_slice()) {
                    Some(list) => list,
                    None => none,
                },
                None => none,
            },
            Err(_) => none,
        }
    }

    /// The file that is to keep the projects that a user opened of late, when they open one,
    /// given what was read of the file before.
    pub fn add_recently_opened(
        &self,
        user_id: &str,
        project_id: &str,
        raw: Option<Vec<u8>>,
    ) -> (r: Result<SavedFile, UserDataError>)
        ensures
            match r {
                Ok(file) => is_safe(user_id@) && keeps_opened(
                    file@,
                    self.root(),
                    user_id@,
                    project_id@,
                    bytes_of(raw),
                ),
                Err(e) => !is_safe(user_id@) && is_refusal(e, Segment::User, user_id@),
            },
    {
        let path = match self.recently_opened_path(user_id) {
            Ok(path) => path,
            Err(e) => {
                return Err(e);
            },
        };
        let current = self.recently_opened(user_id, raw);
        let value = value_of_list(with_opened(&current, project_id));
        match write_value(&value) {
            Ok(bytes) => Ok(SavedFile { path, bytes }),
            Err(why) => Err(UserDataError::Json(why)),
        }
    }

    /// The names that lead to the conversations of a user about a project.
    pub fn chat_dir(&self, user_id: &str, project_id: &str) -> (r: Result<
        Vec<String>,
        UserDataError,
    >)
        ensures
            match r {
                Ok(path) => {
                    &&& is_safe(user_id@)
                    &&& is_safe(project_id@)
                    &&& texts(path@) == chat_path(self.root(), user_id@, project_id@)
                },
                Err(e) => if !is_safe(user_id@) {
                    is_refusal(e, Segment::User, user_id@)
                } else {
                    !is_safe(project_id@) && is_refusal(e, Segment::Project, project_id@)
                },
            },
    {
        match safe_segment(Segment::User, user_id) {
            Ok(_) => {},
            Err(e) => {
                return Err(e);
            },
        }
        match safe_segment(Segment::Project, project_id) {
            Ok(_) => {},
            Err(e) => {
                return Err(e);
            },
        }
        let mut path: Vec<String> = Vec::new();
        path.push(self.data_root.clone());
        path.push("users".to_owned());
        path.push(user_id.to_owned());
        path.push("chat".to_owned());
        path.push(project_id.to_owned());
        assert(texts(path@) =~= chat_path(self.root(), user_id@, project_id@));
        Ok(path)
    }

    /// The conversations of a user about a project, given the files in their directory,
    /// which is missing where there were none yet: the latest first.
    pub fn list_conversations(
        &self,
        user_id: &str,
        project_id: &str,
        files: &Option<Vec<ConversationFile>>,
    ) -> (r: Result<Vec<ConversationMeta>, UserDataError>)
        ensures
            match r {
                Ok(list) => {
                    &&& is_safe(user_id@)
                    &&& is_safe(project_id@)
                    &&& conversation_views(list@) == match *files {
                        Some(found) => conversations_in(found@),
                        None => Seq::empty(),
                    }
                },
                Err(e) => if !is_safe(user_id@) {
                    is_refusal(e, Segment::User, user_id@)
                } else {
                    !is_safe(project_id@) && is_refusal(e, Segment::Project, project_id@)
                },
            },
    {
        match self.chat_dir(user_id, project_id) {
            Ok(_) => {},
            Err(e) => {
                return Err(e);
            },
        }
        let mut out: Vec<ConversationMeta> = Vec::new();
        assert(conversation_views(out@) =~= Seq::empty());
        match files {
            None => {},
            Some(found) => {
                let mut i: usize = 0;
                assert(conversation_views(out@) =~= conversations_in(found@.take(0)));
                while i < found.len()
                    invariant
                        i <= found@.len(),
                        conversation_views(out@) == conversations_in(found@.take(i as int)),
                    decreases found@.len() - i,
                {
                    assert(found@.take(i as int + 1).drop_last() =~= found@.take(i as int));
                    match read_conversation(&found[i]) {
                        Some(c) => {
                            insert_by_age(&mut out, c);
                        },
                        None => {},
                    }
                    i += 1;
                }
                assert(found@.take(i as int) =~= found@);
            },
        }
        Ok(out)
    }

    /// Where a conversation is kept.
    pub fn conversation_path(&self, user_id: &str, project_id: &str, conv_id: &str) -> (r: Result<
        Vec<String>,
        UserDataError,
    >)
        ensures
            match r {
                Ok(path) => {
                    &&& is_safe(conv_id@)
                    &&& is_safe(user_id@)
                    &&& is_safe(project_id@)
                    &&& texts(path@) == conversation_file(
                        self.root(),
                        user_id@,
                        project_id@,
                        conv_id@,
                    )
                },
                Err(e) => if !is_safe(conv_id@) {
                    is_refusal(e, Segment::Conversation, conv_id@)
                } else if !is_safe(user_id@) {
                    is_refusal(e, Segment::User, user_id@)
                } else {
                    !is_safe(project_id@) && is_refusal(e, Segment::Project, project_id@)
                },
            },
    {
        match safe_segment(Segment::Conversation, conv_id) {
            Ok(_) => {},
            Err(e) => {
                return Err(e);
            },
        }
        match self.chat_dir(user_id, project_id) {
            Ok(path) => {
                let mut path = path;
                let ghost before = texts(path@);
                path.push(concat(conv_id, ".json"));
                assert(texts(path@) =~= before.push(conv_id@ + ".json"@));
                Ok(path)
            },
            Err(e) => Err(e),
        }
    }

    /// A conversation, given what was read of its file.
    pub fn load_conversation(
        &self,
        user_id: &str,
        project_id: &str,
        conv_id: &str,
        raw: Result<Vec<u8>, String>,
    ) -> (r: Result<Value, UserDataError>)
        ensures
            match r {
                Ok(value) => {
                    &&& is_safe(conv_id@)
                    &&& is_safe(user_id@)
                    &&& is_safe(project_id@)
                    &&& match raw {
                        Ok(bytes) => json_value(bytes@) == Ok::<Value, Seq<char>>(value),
                        Err(_) => false,
                    }
                },
                Err(e) => if !is_safe(conv_id@) {
                    is_refusal(e, Segment::Conversation, conv_id@)
                } else if !is_safe(user_id@) {
                    is_refusal(e, Segment::User, user_id@)
                } else if !is_safe(project_id@) {
                    is_refusal(e, Segment::Project, project_id@)
                } else {
                    match raw {
                        Ok(bytes) => is_unread(e, bytes@),
                        Err(why) => e == UserDataError::Io(why),
                    }
                },
            },
    {
        match self.conversation_path(user_id, project_id, conv_id) {
            Ok(_) => match raw {
                Ok(bytes) => loaded(parse_value(bytes.as_slice())),
                Err(why) => Err(UserDataError::Io(why)),
            },
            Err(e) => Err(e),
        }
    }

    /// The file that is to keep a conversation.
    pub fn save_conversation(
        &self,
        user_id: &str,
        project_id: &str,
        conv_id: &str,
        value: &Value,
    ) -> (r: Result<SavedFile, UserDataError>)
        ensures
            match r {
                Ok(file) => {
                    &&& is_safe(conv_id@)
                    &&& is_safe(user_id@)
                    &&& is_safe(project_id@)
                    &&& keeps_value(
                        file@,
                        conversation_file(self.root(), user_id@, project_id@, conv_id@),
                        *value,
                    )
                },
                Err(e) => if !is_safe(conv_id@) {
                    is_refusal(e, Segment::Conversation, conv_id@)
                } else if !is_safe(user_id@) {
                    is_refusal(e, Segment::User, user_id@)
                } else {
                    !is_safe(project_id@) && is_refusal(e, Segment::Project, project_id@)
                },
            },
    {
        match self.conversation_path(user_id, project_id, conv_id) {
            Ok(path) => saved(path, value),
            Err(e) => Err(e),
        }
    }
}

/// The conversation that a file holds.
fn read_conversation(file: &ConversationFile) -> (r: Option<ConversationMeta>)
    ensures
        match r {
            Some(c) => conversation_in(*file) == Some(c@),
            None => conversation_in(*file) is None,
        },
{
    let modified_unix: u64 = match file.modified_secs {
        Some(secs) => secs,
        None => 0,
    };
    match &file.name {
        None => None,
        Some(name) => {
            let chars = chars_of(name.as_str());
            let n: usize = chars.len();
            proof {
                lemma_last_index(name@, '.');
            }
            match find_last(chars.as_slice(), '.') {
                None => None,
                Some(i) => {
                    if i == 0 {
                        return None;
                    }
                    let tail = &chars.as_slice()[i + 1..n];
                    let head = &chars.as_slice()[0..i];
                    assert(tail@ =~= after_last(name@, '.'));
                    assert(head@ =~= before_last(name@, '.'));
                    if !eq(text_of(tail).as_str(), "json") {
                        return None;
                    }
                    Some(ConversationMeta { id: text_of(head), modified_unix })
                },
            }
        },
    }
}

/// A conversation that is later than the last `n` of the others is placed before those.
proof fn lemma_by_age(s: Seq<ConversationView>, c: ConversationView, n: int)
    requires
        0 <= n <= s.len(),
        forall|j: int| n <= j < s.len() ==> (#[trigger] s[j]).modified_unix < c.modified_unix,
        n > 0 ==> s[n - 1].modified_unix >= c.modified_unix,
    ensures
        by_age(s, c) == s.insert(n, c),
    decreases s.len(),
{
    if n < s.len() {
        let rest = s.drop_last();
        assert(s[s.len() - 1].modified_unix < c.modified_unix);
        assert forall|j: int| n <= j < rest.len() implies (#[trigger] rest[j]).modified_unix
            < c.modified_unix by {
            assert(rest[j] == s[j]);
        }
        if n > 0 {
            assert(rest[n - 1] == s[n - 1]);
        }
        lemma_by_age(rest, c, n);
        assert(rest.insert(n, c).push(s.last()) =~= s.insert(n, c));
    } else {
        assert(s.insert(n, c) =~= s.push(c));
    }
}

/// Puts a conversation before the first that is older.
fn insert_by_age(list: &mut Vec<ConversationMeta>, c: ConversationMeta)
    ensures
        conversation_views(final(list)@) == by_age(conversation_views(old(list)@), c@),
{
    let ghost s = conversation_views(list@);
    let ghost view = c@;
    let mut n: usize = list.len();
    while n > 0 && list[n - 1].modified_unix < c.modified_unix
        invariant
            *list == *old(list),
            s == conversation_views(list@),
            n <= list@.len(),
            forall|j: int| n <= j < s.len() ==> (#[trigger] s[j]).modified_unix < c.modified_unix,
        decreases n,
    {
        assert(s[n - 1] == list@[n - 1]@);
        n -= 1;
    }
    proof {
        if n > 0 {
            assert(s[n - 1] == list@[n - 1]@);
        }
        lemma_by_age(s, view, n as int);
    }
    list.insert(n, c);
    assert(conversation_views(list@) =~= s.insert(n as int, view));
}

/// Conversations are listed the latest first.
pub proof fn law_conversations_latest_first(files: Seq<ConversationFile>)
    ensures
        forall|i: int, j: int|
            0 <= i < j < conversations_in(files).len() ==> (#[trigger] conversations_in(
                files,
            )[i]).modified_unix >= (#[trigger] conversations_in(files)[j]).modified_unix,
    decreases files.len(),
{
    if files.len() > 0 {
        law_conversations_latest_first(files.drop_last());
        match conversation_in(files.last()) {
            Some(c) => {
                lemma_by_age_ordered(conversations_in(files.drop_last()), c);
            },
            None => {},
        }
    }
}

/// Placing a conversation by its age keeps the others in order.
proof fn lemma_by_age_ordered(s: Seq<ConversationView>, c: ConversationView)
    requires
        forall|i: int, j: int|
            0 <= i < j < s.len() ==> (#[trigger] s[i]).modified_unix >= (
            #[trigger] s[j]).modified_unix,
    ensures
        forall|i: int, j: int|
            0 <= i < j < by_age(s, c).len() ==> (#[trigger] by_age(s, c)[i]).modified_unix >= (
            #[trigger] by_age(s, c)[j]).modified_unix,
        by_age(s, c).len() == s.len() + 1,
        forall|k: int|
            0 <= k < by_age(s, c).len() ==> (#[trigger] by_age(s, c)[k]) == c || s.contains(
                by_age(s, c)[k],
            ),
    decreases s.len(),
{
    let t = by_age(s, c);
    if s.len() > 0 && s.last().modified_unix < c.modified_unix {
        let rest = s.drop_last();
        assert forall|i: int, j: int| 0 <= i < j < rest.len() implies (
        #[trigger] rest[i]).modified_unix >= (#[trigger] rest[j]).modified_unix by {
            assert(rest[i] == s[i] && rest[j] == s[j]);
        }
        lemma_by_age_ordered(rest, c);
        let head = by_age(rest, c);
        assert forall|k: int| 0 <= k < head.len() implies (#[trigger] head[k]).modified_unix
            >= s.last().modified_unix && (head[k] == c || s.contains(head[k])) by {
            if head[k] != c {
                let m = choose|m: int| 0 <= m < rest.len() && rest[m] == head[k];
                assert(s[m] == head[k]);
                assert(s[m].modified_unix >= s[s.len() - 1].modified_unix);
            }
        }
        assert forall|k: int| 0 <= k < t.len() implies (#[trigger] t[k]) == c || s.contains(
            t[k],
        ) by {
            if k < head.len() {
                assert(t[k] == head[k]);
            } else {
                assert(s[s.len() - 1] == t[k]);
            }
        }
        assert forall|i: int, j: int| 0 <= i < j < t.len() implies (#[trigger] t[i]).modified_unix
            >= (#[trigger] t[j]).modified_unix by {
            assert(t[i] == head[i]);
            if j < head.len() {
                assert(t[j] == head[j]);
            }
        }
    } else {
        assert forall|k: int| 0 <= k < t.len() implies (#[trigger] t[k]) == c || s.contains(
            t[k],
        ) by {
            if k < s.len() {
                assert(s[k] == t[k]);
            }
        }
        assert forall|i: int, j: int| 0 <= i < j < t.len() implies (#[trigger] t[i]).modified_unix
            >= (#[trigger] t[j]).modified_unix by {
            if j == s.len() && i < s.len() - 1 {
                assert(s[i].modified_unix >= s[s.len() - 1].modified_unix);
            }
        }
    }
}

/// A name that is accepted holds no separator. So it leads to one directory, which is the one
/// above where the name is two dots, and the same where it is one.
pub proof fn law_safe_name_has_no_separator(segment: Seq<char>)
    requires
        is_safe(segment),
    ensures
        !segment.contains('/'),
        !segment.contains('\\'),
{
    if segment.contains('/') {
        let i = choose|i: int| 0 <= i < segment.len() && segment[i] == '/';
        assert(is_name_char(segment[i]));
    }
    if segment.contains('\\') {
        let i = choose|i: int| 0 <= i < segment.len() && segment[i] == '\\';
        assert(is_name_char(segment[i]));
    }
}

/// The projects but for one do not hold that one, and are among the projects.
proof fn lemma_others(recent: Seq<Seq<char>>, project_id: Seq<char>)
    ensures
        !others(recent, project_id).contains(project_id),
        forall|x: Seq<char>| #[trigger]
            others(recent, project_id).contains(x) ==> recent.contains(x),
        recent.no_duplicates() ==> others(recent, project_id).no_duplicates(),
        !recent.contains(project_id) ==> others(recent, project_id) == recent,
    decreases recent.len(),
{
    if recent.len() > 0 {
        let rest = recent.drop_last();
        let o = others(rest, project_id);
        let last = recent.last();
        lemma_others(rest, project_id);
        assert forall|x: Seq<char>| rest.contains(x) implies recent.contains(x) by {
            let i = choose|i: int| 0 <= i < rest.len() && rest[i] == x;
            assert(recent[i] == x);
        }
        assert(recent[recent.len() - 1] == last);
        assert(recent.contains(last));
        if last != project_id {
            let all = o.push(last);
            assert forall|x: Seq<char>| #[trigger] all.contains(x) implies recent.contains(x) && x
                != project_id by {
                let i = choose|i: int| 0 <= i < all.len() && all[i] == x;
                if i < o.len() {
                    assert(o[i] == x);
                    assert(o.contains(x));
                }
            }
            if recent.no_duplicates() {
                assert(rest.no_duplicates());
                assert forall|i: int, j: int|
                    0 <= i < all.len() && 0 <= j < all.len() && i != j implies all[i] != all[j] by {
                    if i < o.len() && j < o.len() {
                        assert(o[i] != o[j]);
                    } else {
                        let k = if i < o.len() {
                            i
                        } else {
                            j
                        };
                        assert(o.contains(o[k]));
                        assert(rest.contains(o[k]));
                        let m = choose|m: int| 0 <= m < rest.len() && rest[m] == o[k];
                        assert(recent[m] != recent[recent.len() - 1]);
                    }
                }
                assert(all.no_duplicates());
            }
            if !recent.contains(project_id) {
                assert(rest.push(last) =~= recent);
            }
        }
    }
}

/// Opening a project puts it first, keeps a list without repetitions without them, and
/// never lets the list grow beyond twenty.
pub proof fn law_opened_project_is_first(recent: Seq<Seq<char>>, project_id: Seq<char>)
    ensures
        opened(recent, project_id).len() > 0,
        opened(recent, project_id)[0] == project_id,
        opened(recent, project_id).len() <= 20,
        recent.no_duplicates() ==> opened(recent, project_id).no_duplicates(),
{
    lemma_others(recent, project_id);
    let o = others(recent, project_id);
    let all = seq![project_id] + o;
    if recent.no_duplicates() {
        assert forall|i: int, j: int|
            0 <= i < all.len() && 0 <= j < all.len() && i != j implies all[i] != all[j] by {
            if i > 0 && j > 0 {
                assert(o[i - 1] != o[j - 1]);
            } else {
                let k = if i > 0 {
                    i
                } else {
                    j
                };
                assert(o.contains(o[k - 1]));
            }
        }
    }
}

/// Opening a project twice in a row is the same as opening it once.
pub proof fn law_opened_twice(recent: Seq<Seq<char>>, project_id: Seq<char>)
    ensures
        opened(opened(recent, project_id), project_id) == opened(recent, project_id),
{
    lemma_others(recent, project_id);
    let once = opened(recent, project_id);
    let tail = once.drop_first();
    let o = others(recent, project_id);
    assert forall|i: int| 0 <= i < tail.len() implies #[trigger] tail[i] != project_id by {
        assert(tail[i] == o[i]);
        assert(o.contains(o[i]));
    }
    assert(!tail.contains(project_id));
    lemma_others(tail, project_id);
    lemma_others_front(once, project_id);
    assert(seq![project_id] + tail =~= once);
}

/// A project that stands first is left out of the others with the rest unchanged.
proof fn lemma_others_front(list: Seq<Seq<char>>, project_id: Seq<char>)
    requires
        list.len() > 0,
        list[0] == project_id,
    ensures
        others(list, project_id) == others(list.drop_first(), project_id),
    decreases list.len(),
{
    if list.len() == 1 {
        assert(list.drop_last() =~= Seq::empty());
        assert(list.drop_first() =~= Seq::empty());
        assert(list.last() == project_id);
    } else {
        lemma_others_front(list.drop_last(), project_id);
        assert(list.drop_last().drop_first() =~= list.drop_first().drop_last());
        assert(list.drop_first().last() == list.last());
    }
}

} // verus!
