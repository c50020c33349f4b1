//! What holds of the data of all users together: where it is kept, and that what was saved is
//! loaded again.

use serde_json::Value;
use vstd::prelude::*;

use crate::json::{contents, is_plain, json_bytes, json_list, json_value, JsonView, MAX_NESTING};
use crate::text_laws::law_text_parts_at_its_last_separator;
use crate::user_data::{
    by_age, chat_path, conversation_file, conversation_in, conversations_in, is_name_char, is_safe,
    is_settings, keeps_opened, keeps_value, law_safe_name_has_no_separator, opened, opened_file,
    others, settings_file, stored_list, user_path, ConversationFile, ConversationView, FileWrite,
};

verus! {

/// Where a name leads to from a place: one dot to the same, two dots to the one above, and any
/// other name to the entry of that name.
pub open spec fn step(from: Seq<Seq<char>>, name: Seq<char>) -> Seq<Seq<char>> {
    if name == "."@ {
        from
    } else if name == ".."@ {
        from.drop_last()
    } else {
        from.push(name)
    }
}

/// The place that a path leads to, as the names from its first one down to it.
pub open spec fn place(path: Seq<Seq<char>>) -> Seq<Seq<char>>
    decreases path.len(),
{
    if path.len() <= 1 {
        path
    } else {
        step(place(path.drop_last()), path.last())
    }
}

/// Whether the path leaves the directory that it begins with on its way.
pub open spec fn climbs_out(path: Seq<Seq<char>>) -> bool
    decreases path.len(),
{
    path.len() > 1 && (climbs_out(path.drop_last()) || (path.last() == ".."@ && place(
        path.drop_last(),
    ).len() <= 1))
}

/// What is kept of a user.
#[verifier::ext_equal]
pub enum DataFile {
    Settings { user: Seq<char> },
    Opened { user: Seq<char> },
    Conversation { user: Seq<char>, project: Seq<char>, conversation: Seq<char> },
}

impl DataFile {
    /// Whether the names are such as are accepted.
    pub open spec fn is_valid(self) -> bool {
        match self {
            DataFile::Settings { user } => is_safe(user),
            DataFile::Opened { user } => is_safe(user),
            DataFile::Conversation { user, project, conversation } => {
                &&& is_safe(user)
                &&& is_safe(project)
                &&& is_safe(conversation)
            },
        }
    }

    /// The names that lead to it.
    pub open spec fn path(self, root: Seq<char>) -> Seq<Seq<char>> {
        match self {
            DataFile::Settings { user } => settings_file(root, user),
            DataFile::Opened { user } => opened_file(root, user),
            DataFile::Conversation { user, project, conversation } => conversation_file(
                root,
                user,
                project,
                conversation,
            ),
        }
    }

    /// The name of its file.
    pub open spec fn file_name(self) -> Seq<char> {
        match self {
            DataFile::Settings { .. } => "config.json"@,
            DataFile::Opened { .. } => "recently_opened.json"@,
            DataFile::Conversation { conversation, .. } => conversation + ".json"@,
        }
    }
}

/// Whether a conversation is kept where a user has their own files, or another conversation is,
/// because a user or a project goes by a name of one or two dots. A project of two dots leads
/// to the directory of the user, and a user of one dot to that of all users, where a user
/// called `chat` has theirs.
pub open spec fn strays_to(conversation: DataFile, other: DataFile) -> bool {
    match conversation {
        DataFile::Conversation { user, project, .. } => {
            &&& conversation.file_name() == other.file_name()
            &&& match other {
                DataFile::Settings { user: owner } => {
                    ||| project == ".."@ && owner == user
                    ||| user == "."@ && project == "."@ && owner == "chat"@
                },
                DataFile::Opened { user: owner } => {
                    ||| project == ".."@ && owner == user
                    ||| user == "."@ && project == "."@ && owner == "chat"@
                },
                DataFile::Conversation { user: owner, project: project2, .. } => {
                    &&& user == "."@
                    &&& owner == "chat"@
                    &&& (project == "chat"@ && project2 == "."@) || (project == "."@ && project2
                        == ".."@)
                },
            }
        },
        _ => false,
    }
}

/// Whether the two are different, and neither strays to the other.
pub open spec fn are_apart(a: DataFile, b: DataFile) -> bool {
    a != b && !strays_to(a, b) && !strays_to(b, a)
}

/// The place that a path with one more name leads to.
proof fn lemma_push(path: Seq<Seq<char>>, name: Seq<char>)
    requires
        path.len() > 0,
    ensures
        place(path.push(name)) == step(place(path), name),
        climbs_out(path.push(name)) == (climbs_out(path) || (name == ".."@ && place(path).len()
            <= 1)),
{
    assert(path.push(name).drop_last() =~= path);
}

/// The directory of a user.
spec fn home(root: Seq<char>, user: Seq<char>) -> Seq<Seq<char>> {
    if user == "."@ {
        seq![root, "users"@]
    } else if user == ".."@ {
        seq![root]
    } else {
        seq![root, "users"@, user]
    }
}

/// The directory that a file is in.
spec fn dir(file: DataFile, root: Seq<char>) -> Seq<Seq<char>> {
    match file {
        DataFile::Settings { user } => home(root, user),
        DataFile::Opened { user } => home(root, user),
        DataFile::Conversation { user, project, .. } => step(
            home(root, user).push("chat"@),
            project,
        ),
    }
}

/// The names that all paths have differ, and lead down.
proof fn lemma_fixed_names()
    ensures
        "users"@ != "chat"@,
        "config.json"@ != "recently_opened.json"@,
        "."@ != ".."@,
        "users"@ != "."@ && "users"@ != ".."@,
        "chat"@ != "."@ && "chat"@ != ".."@,
        "config.json"@ != "."@ && "config.json"@ != ".."@,
        "recently_opened.json"@ != "."@ && "recently_opened.json"@ != ".."@,
{
    reveal_strlit("users");
    reveal_strlit("chat");
    reveal_strlit("config.json");
    reveal_strlit("recently_opened.json");
    reveal_strlit(".");
    reveal_strlit("..");
    assert("users"@.len() == 5 && "chat"@.len() == 4 && "."@.len() == 1 && ".."@.len() == 2);
    assert("config.json"@.len() == 11 && "recently_opened.json"@.len() == 20);
}

/// The name of a file leads down, and tells which conversation it is.
proof fn lemma_file_name(conversation: Seq<char>, conversation2: Seq<char>)
    requires
        is_safe(conversation),
    ensures
        conversation + ".json"@ != "."@,
        conversation + ".json"@ != ".."@,
        conversation + ".json"@ == conversation2 + ".json"@ ==> conversation == conversation2,
{
    reveal_strlit(".json");
    reveal_strlit(".");
    reveal_strlit("..");
    let name = conversation + ".json"@;
    assert(name.len() > 2);
    if name == conversation2 + ".json"@ {
        let n = name.len() - ".json"@.len();
        assert(name.take(n) =~= conversation);
        assert((conversation2 + ".json"@).take(n) =~= conversation2);
    }
}

/// The directory of a user is where their names lead.
proof fn lemma_home(root: Seq<char>, user: Seq<char>)
    ensures
        place(user_path(root, user)) == home(root, user),
        !climbs_out(user_path(root, user)),
{
    lemma_fixed_names();
    let top = seq![root];
    lemma_push(top, "users"@);
    lemma_push(top.push("users"@), user);
    assert(top.push("users"@).push(user) =~= user_path(root, user));
    assert(place(top) == top);
    assert(!climbs_out(top));
    assert(top.push("users"@) =~= seq![root, "users"@]);
    assert(top.push("users"@).drop_last() =~= top);
    assert(home(root, user) =~= step(top.push("users"@), user));
}

/// A file is in its directory, by its name.
proof fn lemma_place(file: DataFile, root: Seq<char>)
    requires
        file.is_valid(),
    ensures
        place(file.path(root)) == dir(file, root).push(file.file_name()),
        !climbs_out(file.path(root)),
        dir(file, root).len() > 0,
        dir(file, root)[0] == root,
{
    lemma_fixed_names();
    match file {
        DataFile::Settings { user } => {
            lemma_home(root, user);
            lemma_push(user_path(root, user), "config.json"@);
        },
        DataFile::Opened { user } => {
            lemma_home(root, user);
            lemma_push(user_path(root, user), "recently_opened.json"@);
        },
        DataFile::Conversation { user, project, conversation } => {
            lemma_home(root, user);
            lemma_file_name(conversation, conversation);
            let top = user_path(root, user);
            lemma_push(top, "chat"@);
            lemma_push(top.push("chat"@), project);
            lemma_push(top.push("chat"@).push(project), file.file_name());
            assert(top.push("chat"@).push(project).push(file.file_name()) =~= file.path(root));
        },
    }
}

/// Whatever is kept of a user is kept below the directory of all data, whatever names the
/// user, the project and the conversation go by, as long as they are accepted.
pub proof fn law_data_stays_below(root: Seq<char>, file: DataFile)
    requires
        file.is_valid(),
    ensures
        !climbs_out(file.path(root)),
        place(file.path(root)).len() > 1,
        place(file.path(root))[0] == root,
        forall|i: int|
            1 <= i < file.path(root).len() ==> !(#[trigger] file.path(root)[i]).contains('/')
                && !file.path(root)[i].contains('\\'),
{
    lemma_place(file, root);
    let path = file.path(root);
    reveal_strlit("users");
    reveal_strlit("chat");
    reveal_strlit("config.json");
    reveal_strlit("recently_opened.json");
    reveal_strlit(".json");
    assert forall|i: int| 1 <= i < path.len() implies is_safe(#[trigger] path[i]) by {
        let name = path[i];
        assert forall|k: int| 0 <= k < name.len() implies is_name_char(#[trigger] name[k]) by {}
    }
    assert forall|i: int| 1 <= i < path.len() implies !(#[trigger] path[i]).contains('/')
        && !path[i].contains('\\') by {
        assert(is_safe(path[i]));
        law_safe_name_has_no_separator(path[i]);
    }
}

/// Different things are kept in different places, but for conversations that stray. So no two
/// users share settings, nor the list of the projects they opened, whatever names they go by.
pub proof fn law_data_is_kept_apart(root: Seq<char>, a: DataFile, b: DataFile)
    requires
        a.is_valid(),
        b.is_valid(),
        a != b,
    ensures
        place(a.path(root)) == place(b.path(root)) <==> strays_to(a, b) || strays_to(b, a),
{
    lemma_place(a, root);
    lemma_place(b, root);
    lemma_fixed_names();
    let p = dir(a, root);
    let q = dir(b, root);
    assert(p.push(a.file_name()).drop_last() =~= p);
    assert(q.push(b.file_name()).drop_last() =~= q);
    assert(p.push(a.file_name()).last() == a.file_name());
    assert(q.push(b.file_name()).last() == b.file_name());
    assert(place(a.path(root)) == place(b.path(root)) <==> p == q && a.file_name()
        == b.file_name());
    match (a, b) {
        (DataFile::Conversation { user, project, conversation }, DataFile::Conversation {
            user: user2,
            project: project2,
            conversation: conversation2,
        }) => {
            lemma_file_name(conversation, conversation2);
            lemma_chats(root, user, project, user2, project2);
        },
        (DataFile::Conversation { user, project, .. }, DataFile::Settings { user: owner }) => {
            lemma_chat_and_home(root, user, project, owner);
        },
        (DataFile::Conversation { user, project, .. }, DataFile::Opened { user: owner }) => {
            lemma_chat_and_home(root, user, project, owner);
        },
        (DataFile::Settings { user: owner }, DataFile::Conversation { user, project, .. }) => {
            lemma_chat_and_home(root, user, project, owner);
        },
        (DataFile::Opened { user: owner }, DataFile::Conversation { user, project, .. }) => {
            lemma_chat_and_home(root, user, project, owner);
        },
        (DataFile::Settings { user }, DataFile::Settings { user: user2 }) => {
            lemma_homes(root, user, user2);
        },
        (DataFile::Opened { user }, DataFile::Opened { user: user2 }) => {
            lemma_homes(root, user, user2);
        },
        _ => {},
    }
}

/// Different users have different directories.
proof fn lemma_homes(root: Seq<char>, user: Seq<char>, user2: Seq<char>)
    requires
        user != user2,
    ensures
        home(root, user) != home(root, user2),
{
    let p = home(root, user);
    let q = home(root, user2);
    lemma_fixed_names();
    if p.len() == 3 && q.len() == 3 {
        assert(p[2] == user && q[2] == user2);
    }
}

/// The names that lead to the conversations of a user about a project, without dots.
proof fn lemma_chat_names(root: Seq<char>, user: Seq<char>, project: Seq<char>)
    ensures
        ({
            let d = step(home(root, user).push("chat"@), project);
            let h = home(root, user);
            &&& project == "."@ ==> d == h.push("chat"@)
            &&& project == ".."@ ==> d == h
            &&& project != "."@ && project != ".."@ ==> d == h.push("chat"@).push(project)
        }),
{
    lemma_fixed_names();
    assert(home(root, user).push("chat"@).drop_last() =~= home(root, user));
}

/// When conversations are kept in the directory of a user.
proof fn lemma_chat_and_home(
    root: Seq<char>,
    user: Seq<char>,
    project: Seq<char>,
    owner: Seq<char>,
)
    ensures
        step(home(root, user).push("chat"@), project) == home(root, owner) <==> (project == ".."@
            && owner == user) || (user == "."@ && project == "."@ && owner == "chat"@),
{
    let d = step(home(root, user).push("chat"@), project);
    let h = home(root, owner);
    lemma_fixed_names();
    lemma_chat_names(root, user, project);
    if project == ".."@ {
        if user != owner {
            lemma_homes(root, user, owner);
        }
    } else {
        assert(d[home(root, user).len() as int] == "chat"@);
        if user == "."@ && project == "."@ && owner == "chat"@ {
            assert(d =~= h);
        } else if d == h {
            assert(d.len() == h.len());
            if user == "."@ {
                assert(h[2] == owner);
            } else if user == ".."@ {
                assert(d[1] == "chat"@);
                assert(h[1] == "users"@);
            }
            assert(false);
        }
    }
}

/// When conversations about two projects are kept in one directory.
proof fn lemma_chats(
    root: Seq<char>,
    user: Seq<char>,
    project: Seq<char>,
    user2: Seq<char>,
    project2: Seq<char>,
)
    requires
        is_safe(user) && is_safe(user2) && is_safe(project) && is_safe(project2),
    ensures
        step(home(root, user).push("chat"@), project) == step(
            home(root, user2).push("chat"@),
            project2,
        ) <==> {
            ||| user == user2 && project == project2
            ||| chats_meet(user, project, user2, project2)
            ||| chats_meet(user2, project2, user, project)
        },
{
    let d = step(home(root, user).push("chat"@), project);
    let e = step(home(root, user2).push("chat"@), project2);
    lemma_fixed_names();
    lemma_chat_names(root, user, project);
    lemma_chat_names(root, user2, project2);
    if chats_meet(user, project, user2, project2) || chats_meet(user2, project2, user, project) {
        assert(d =~= e);
    } else if d == e && !(user == user2 && project == project2) {
        if project == ".."@ {
            lemma_chat_and_home(root, user2, project2, user);
        } else if project2 == ".."@ {
            lemma_chat_and_home(root, user, project, user2);
        } else {
            let h = home(root, user);
            let k = home(root, user2);
            assert(d[h.len() as int] == "chat"@);
            assert(e[k.len() as int] == "chat"@);
            if h.len() == k.len() {
                assert(d.take(h.len() as int) =~= h);
                assert(e.take(h.len() as int) =~= k);
                if user != user2 {
                    lemma_homes(root, user, user2);
                }
                if project != "."@ {
                    assert(d[h.len() as int + 1] == project);
                }
                if project2 != "."@ {
                    assert(e[k.len() as int + 1] == project2);
                }
            } else if h.len() == 1 {
                assert(e[1] == "users"@);
            } else if k.len() == 1 {
                assert(d[1] == "users"@);
            } else if h.len() == 2 {
                assert(user == "."@ && k.len() == 3);
                assert(d.len() == e.len());
                assert(d[2] == "chat"@ && e[2] == user2);
                assert(d[3] == project && e[3] == "chat"@);
            } else {
                assert(user2 == "."@ && h.len() == 3);
                assert(d.len() == e.len());
                assert(e[2] == "chat"@ && d[2] == user);
                assert(e[3] == project2 && d[3] == "chat"@);
            }
        }
    }
}

/// Whether the conversations of a user of one dot are in the directory of those of a user
/// called `chat`.
spec fn chats_meet(
    user: Seq<char>,
    project: Seq<char>,
    user2: Seq<char>,
    project2: Seq<char>,
) -> bool {
    &&& user == "."@
    &&& user2 == "chat"@
    &&& (project == "chat"@ && project2 == "."@) || (project == "."@ && project2 == ".."@)
}

/// What stands on disk, by place.
pub open spec fn written(
    disk: Map<Seq<Seq<char>>, Seq<u8>>,
    files: Seq<FileWrite>,
) -> Map<Seq<Seq<char>>, Seq<u8>>
    decreases files.len(),
{
    if files.len() == 0 {
        disk
    } else {
        written(disk, files.drop_last()).insert(place(files.last().path), files.last().bytes)
    }
}

/// What is read of a file, where it exists.
pub open spec fn read_file(
    disk: Map<Seq<Seq<char>>, Seq<u8>>,
    path: Seq<Seq<char>>,
) -> Option<Seq<u8>> {
    if disk.contains_key(place(path)) {
        Some(disk[place(path)])
    } else {
        None
    }
}

/// Whether what is written is something else, of the same user or another.
pub open spec fn is_of_another(file: FileWrite, root: Seq<char>, own: DataFile) -> bool {
    exists|other: DataFile|
        other.is_valid() && are_apart(own, other) && file.path == #[trigger] other.path(root)
}

/// A file stays as it is when others are written.
pub proof fn law_other_writes_leave_it(
    disk: Map<Seq<Seq<char>>, Seq<u8>>,
    root: Seq<char>,
    own: DataFile,
    later: Seq<FileWrite>,
)
    requires
        own.is_valid(),
        forall|i: int|
            0 <= i < later.len() ==> is_of_another(#[trigger] later[i], root, own),
    ensures
        read_file(written(disk, later), own.path(root)) == read_file(disk, own.path(root)),
    decreases later.len(),
{
    if later.len() > 0 {
        let rest = later.drop_last();
        assert forall|i: int| 0 <= i < rest.len() implies is_of_another(
            #[trigger] rest[i],
            root,
            own,
        ) by {
            assert(rest[i] == later[i]);
        }
        law_other_writes_leave_it(disk, root, own, rest);
        let last = later[later.len() - 1];
        assert(is_of_another(last, root, own));
        let other = choose|other: DataFile|
            other.is_valid() && are_apart(own, other) && last.path == #[trigger] other.path(root);
        law_data_is_kept_apart(root, own, other);
    }
}

/// The settings that are loaded for a user are those that were saved for them last, whatever
/// is saved for other users in between, or of anything else: for plain values the same value,
/// for others what was written for them. `save` is the file that saving them gives.
pub proof fn law_saved_settings_are_loaded(
    disk: Map<Seq<Seq<char>>, Seq<u8>>,
    root: Seq<char>,
    user: Seq<char>,
    value: Value,
    save: FileWrite,
    later: Seq<FileWrite>,
)
    requires
        is_safe(user),
        keeps_value(save, settings_file(root, user), value),
        forall|i: int|
            0 <= i < later.len() ==> is_of_another(
                #[trigger] later[i],
                root,
                (DataFile::Settings { user }),
            ),
    ensures
        ({
            let after = written(disk.insert(place(save.path), save.bytes), later);
            let raw = read_file(after, save.path);
            &&& raw == Some(json_bytes(value))
            &&& is_plain(contents(value), MAX_NESTING as nat) ==> forall|loaded: Value| #[trigger]
                is_settings(loaded, raw) <==> loaded == value
        }),
{
    law_other_writes_leave_it(
        disk.insert(place(save.path), save.bytes),
        root,
        DataFile::Settings { user },
        later,
    );
}

/// The settings of a user for whom none were saved are empty, whatever is saved for other
/// users, or of anything else.
pub proof fn law_unsaved_settings_are_empty(
    disk: Map<Seq<Seq<char>>, Seq<u8>>,
    root: Seq<char>,
    user: Seq<char>,
    later: Seq<FileWrite>,
)
    requires
        is_safe(user),
        read_file(disk, settings_file(root, user)) is None,
        forall|i: int|
            0 <= i < later.len() ==> is_of_another(
                #[trigger] later[i],
                root,
                (DataFile::Settings { user }),
            ),
    ensures
        ({
            let raw = read_file(written(disk, later), settings_file(root, user));
            &&& raw is None
            &&& forall|loaded: Value| #[trigger]
                is_settings(loaded, raw) <==> contents(loaded) == JsonView::Object(Map::empty())
        }),
{
    law_other_writes_leave_it(disk, root, DataFile::Settings { user }, later);
}

/// The conversation that is loaded is the one that was saved last, whatever else is saved in
/// between: for plain values the same value, for others what was written for them. `save` is
/// the file that saving it gives.
pub proof fn law_saved_conversation_is_loaded(
    disk: Map<Seq<Seq<char>>, Seq<u8>>,
    root: Seq<char>,
    user: Seq<char>,
    project: Seq<char>,
    conversation: Seq<char>,
    value: Value,
    save: FileWrite,
    later: Seq<FileWrite>,
)
    requires
        is_safe(user) && is_safe(project) && is_safe(conversation),
        keeps_value(save, conversation_file(root, user, project, conversation), value),
        forall|i: int|
            0 <= i < later.len() ==> is_of_another(
                #[trigger] later[i],
                root,
                (DataFile::Conversation { user, project, conversation }),
            ),
    ensures
        ({
            let after = written(disk.insert(place(save.path), save.bytes), later);
            let raw = read_file(after, save.path);
            &&& raw == Some(json_bytes(value))
            &&& is_plain(contents(value), MAX_NESTING as nat) ==> json_value(raw->0) == Ok::<
                Value,
                Seq<char>,
            >(value)
        }),
{
    law_other_writes_leave_it(
        disk.insert(place(save.path), save.bytes),
        root,
        DataFile::Conversation { user, project, conversation },
        later,
    );
}

/// The projects that a user opened of late begin with the one that they opened last, and go on
/// with those before, whatever else is saved in between. `save` is the file that opening the
/// project gives, given what was read before.
pub proof fn law_opened_project_is_loaded(
    disk: Map<Seq<Seq<char>>, Seq<u8>>,
    root: Seq<char>,
    user: Seq<char>,
    project: Seq<char>,
    save: FileWrite,
    later: Seq<FileWrite>,
)
    requires
        is_safe(user),
        keeps_opened(save, root, user, project, read_file(disk, opened_file(root, user))),
        forall|i: int|
            0 <= i < later.len() ==> is_of_another(
                #[trigger] later[i],
                root,
                (DataFile::Opened { user }),
            ),
    ensures
        ({
            let path = opened_file(root, user);
            let after = written(disk.insert(place(save.path), save.bytes), later);
            stored_list(read_file(after, path)) == opened(
                stored_list(read_file(disk, path)),
                project,
            )
        }),
{
    law_other_writes_leave_it(
        disk.insert(place(save.path), save.bytes),
        root,
        DataFile::Opened { user },
        later,
    );
}

/// A name is accepted if it is made of letters and digits of ASCII, dots, underscores and hyphens,
/// and of at least one of them.
pub proof fn law_which_names_are_accepted(name: Seq<char>)
    ensures
        is_safe(name) <==> name.len() > 0 && forall|i: int|
            #![trigger name[i]]
            0 <= i < name.len() ==> {
                ||| 48 <= name[i] as int <= 57
                ||| 65 <= name[i] as int <= 90
                ||| 97 <= name[i] as int <= 122
                ||| name[i] as int == 45
                ||| name[i] as int == 46
                ||| name[i] as int == 95
            },
{
    assert forall|c: char| #[trigger] is_name_char(c) == {
        ||| 48 <= c as int <= 57
        ||| 65 <= c as int <= 90
        ||| 97 <= c as int <= 122
        ||| c as int == 45
        ||| c as int == 46
        ||| c as int == 95
    } by {}
    if is_safe(name) {
        assert forall|i: int|
            #![trigger name[i]]
            0 <= i < name.len() implies {
            ||| 48 <= name[i] as int <= 57
            ||| 65 <= name[i] as int <= 90
            ||| 97 <= name[i] as int <= 122
            ||| name[i] as int == 45
            ||| name[i] as int == 46
            ||| name[i] as int == 95
        } by {
            assert(is_name_char(name[i]));
        }
    }
}

/// Where the data of a user is kept.
pub proof fn law_where_data_is_kept(
    root: Seq<char>,
    user: Seq<char>,
    project: Seq<char>,
    conversation: Seq<char>,
)
    ensures
        settings_file(root, user) == seq![root, "users"@, user, "config.json"@],
        opened_file(root, user) == seq![root, "users"@, user, "recently_opened.json"@],
        chat_path(root, user, project) == seq![root, "users"@, user, "chat"@, project],
        conversation_file(root, user, project, conversation) == seq![
            root,
            "users"@,
            user,
            "chat"@,
            project,
            conversation + ".json"@,
        ],
{
    assert(settings_file(root, user) =~= seq![root, "users"@, user, "config.json"@]);
    assert(opened_file(root, user) =~= seq![root, "users"@, user, "recently_opened.json"@]);
    assert(conversation_file(root, user, project, conversation) =~= seq![
        root,
        "users"@,
        user,
        "chat"@,
        project,
        conversation + ".json"@,
    ]);
}

/// A file whose name ends in `.json`, with something before that, is a conversation of the name
/// before it, as old as the system says, or as can be where it does not. No other file is.
pub proof fn law_which_files_are_conversations(
    file: ConversationFile,
    id: Seq<char>,
    ext: Seq<char>,
)
    requires
        !ext.contains('.'),
        file.name is Some,
        file.name->0@ == id.push('.') + ext || (file.name->0@ == ext && id.len() == 0),
    ensures
        conversation_in(file) is Some <==> id.len() > 0 && ext == "json"@,
        conversation_in(file) is Some ==> {
            let c = conversation_in(file)->0;
            &&& c.id == id
            &&& file.modified_secs is Some ==> c.modified_unix == file.modified_secs->0
            &&& file.modified_secs is None ==> c.modified_unix == 0
        },
{
    law_text_parts_at_its_last_separator(id, ext, '.');
}

/// Of the conversations that are listed, those of one time are those that the files of that time
/// hold, all of them in the order of the files.
pub proof fn law_all_conversations_are_listed(files: Seq<ConversationFile>, time: u64)
    ensures
        conversations_in(files).filter(|c: ConversationView| c.modified_unix == time)
            == files.filter(
            |f: ConversationFile|
                conversation_in(f) is Some && conversation_in(f)->0.modified_unix == time,
        ).map_values(|f: ConversationFile| conversation_in(f)->0),
    decreases files.len(),
{
    reveal(Seq::filter);
    let at = |c: ConversationView| c.modified_unix == time;
    let holds = |f: ConversationFile|
        conversation_in(f) is Some && conversation_in(f)->0.modified_unix == time;
    let held = |f: ConversationFile| conversation_in(f)->0;
    if files.len() > 0 {
        let rest = files.drop_last();
        let last = files.last();
        law_all_conversations_are_listed(rest, time);
        match conversation_in(last) {
            Some(c) => {
                lemma_by_age_among_equals(conversations_in(rest), c, time);
            },
            None => {},
        }
        if holds(last) {
            assert(files.filter(holds) =~= rest.filter(holds).push(last));
        }
        assert(conversations_in(files).filter(at) =~= files.filter(holds).map_values(held));
    } else {
        assert(conversations_in(files).filter(at) =~= files.filter(holds).map_values(held));
    }
}

/// Placing a conversation by its age puts it after the others of its time, and leaves those of
/// other times alone.
proof fn lemma_by_age_among_equals(s: Seq<ConversationView>, c: ConversationView, time: u64)
    ensures
        by_age(s, c).filter(|x: ConversationView| x.modified_unix == time) == if c.modified_unix
            == time {
            s.filter(|x: ConversationView| x.modified_unix == time).push(c)
        } else {
            s.filter(|x: ConversationView| x.modified_unix == time)
        },
    decreases s.len(),
{
    reveal(Seq::filter);
    let at = |x: ConversationView| x.modified_unix == time;
    if s.len() > 0 && s.last().modified_unix < c.modified_unix {
        lemma_by_age_among_equals(s.drop_last(), c, time);
        let t = by_age(s, c);
        assert(t.drop_last() =~= by_age(s.drop_last(), c));
        assert(t.last() == s.last());
    } else {
        let t = by_age(s, c);
        assert(t.drop_last() =~= s);
        assert(t.last() == c);
    }
}

/// When a project is opened the list begins with it, and goes on with the other projects in their
/// order, as far as they fit in a list of twenty.
pub proof fn law_opened_project_comes_first(recent: Seq<Seq<char>>, project: Seq<char>)
    ensures
        ({
            let rest = recent.filter(|p: Seq<char>| p != project);
            let list = opened(recent, project);
            &&& list[0] == project
            &&& list.len() == if rest.len() < 20 {
                rest.len() + 1
            } else {
                20
            }
            &&& forall|i: int| 1 <= i < list.len() ==> #[trigger] list[i] == rest[i - 1]
        }),
{
    lemma_others_are_the_rest(recent, project);
}

/// The projects but for one are those that are not that one.
proof fn lemma_others_are_the_rest(recent: Seq<Seq<char>>, project: Seq<char>)
    ensures
        others(recent, project) == recent.filter(|p: Seq<char>| p != project),
    decreases recent.len(),
{
    reveal(Seq::filter);
    if recent.len() > 0 {
        lemma_others_are_the_rest(recent.drop_last(), project);
    }
    assert(others(recent, project) =~= recent.filter(|p: Seq<char>| p != project));
}

/// The list of a user is what was stored, where a list can be read from that, and else empty.
pub proof fn law_stored_list_is_read(bytes: Seq<u8>)
    ensures
        json_list(bytes) is Some ==> stored_list(Some(bytes)) == json_list(bytes)->0,
        json_list(bytes) is None ==> stored_list(Some(bytes)) == Seq::<Seq<char>>::empty(),
        stored_list(None) == Seq::<Seq<char>>::empty(),
{
}

} // verus!
