use llm_wiki::user_data::{loaded, with_opened, ConversationFile, SavedFile, UserData, UserDataError};
use std::collections::BTreeMap;

/// The data of users, kept in memory by path.
struct Kept {
    data: UserData,
    files: BTreeMap<Vec<String>, Vec<u8>>,
}

fn ud() -> Kept {
    Kept {
        data: UserData::new("/data".to_string()),
        files: BTreeMap::new(),
    }
}

impl Kept {
    fn write(&mut self, file: SavedFile) {
        self.files.insert(file.path, file.bytes);
    }

    fn load_config(&self, user: &str) -> Result<serde_json::Value, UserDataError> {
        let path = self.data.config_path(user)?;
        self.data.load_config(user, self.files.get(&path).cloned().map(Ok))
    }

    fn save_config(&mut self, user: &str, value: &serde_json::Value) -> Result<(), UserDataError> {
        let file = self.data.save_config(user, value)?;
        self.write(file);
        Ok(())
    }

    fn stored_recent(&self, user: &str) -> Option<Vec<u8>> {
        let path = self.data.recently_opened_path(user).ok()?;
        self.files.get(&path).cloned()
    }

    fn recently_opened(&self, user: &str) -> Vec<String> {
        self.data.recently_opened(user, self.stored_recent(user))
    }

    fn add_recently_opened(&mut self, user: &str, project: &str) -> Result<(), UserDataError> {
        let file = self
            .data
            .add_recently_opened(user, project, self.stored_recent(user))?;
        self.write(file);
        Ok(())
    }

    fn save_conversation(
        &mut self,
        user: &str,
        project: &str,
        conv: &str,
        value: &serde_json::Value,
    ) -> Result<(), UserDataError> {
        let file = self.data.save_conversation(user, project, conv, value)?;
        self.write(file);
        Ok(())
    }

    fn load_conversation(
        &self,
        user: &str,
        project: &str,
        conv: &str,
    ) -> Result<serde_json::Value, UserDataError> {
        let path = self.data.conversation_path(user, project, conv)?;
        let raw = match self.files.get(&path) {
            Some(bytes) => Ok(bytes.clone()),
            None => Err("no such file".to_string()),
        };
        self.data.load_conversation(user, project, conv, raw)
    }
}

fn object(key: &str, value: serde_json::Value) -> serde_json::Value {
    let mut map = serde_json::Map::new();
    map.insert(key.to_string(), value);
    serde_json::Value::Object(map)
}

fn text(s: &str) -> serde_json::Value {
    serde_json::Value::String(s.to_string())
}

#[test]
fn load_config_returns_empty_object_when_missing() {
    let ud = ud();
    let cfg = ud.load_config("alice").unwrap();
    assert!(cfg.is_object());
    assert_eq!(cfg.as_object().unwrap().len(), 0);
}

#[test]
fn save_then_load_config_roundtrip() {
    let mut ud = ud();
    let mut llm = serde_json::Map::new();
    llm.insert("endpoint".to_string(), text("https://api.example.com"));
    llm.insert("model".to_string(), text("x"));
    let value = object("llm", serde_json::Value::Object(llm));
    ud.save_config("alice", &value).unwrap();
    assert_eq!(ud.load_config("alice").unwrap(), value);
}

#[test]
fn invalid_user_id_is_rejected() {
    let mut ud = ud();
    let result = ud.save_config("../etc", &serde_json::Value::Object(Default::default()));
    assert!(matches!(result, Err(UserDataError::InvalidUserId(_))));
    let result = ud.load_config("alice/bob");
    assert!(matches!(result, Err(UserDataError::InvalidUserId(_))));
}

#[test]
fn config_isolated_per_user() {
    let mut ud = ud();
    ud.save_config("alice", &object("who", text("alice"))).unwrap();
    ud.save_config("bob", &object("who", text("bob"))).unwrap();
    assert_eq!(ud.load_config("alice").unwrap(), object("who", text("alice")));
    assert_eq!(ud.load_config("bob").unwrap(), object("who", text("bob")));
}

#[test]
fn recently_opened_starts_empty() {
    let ud = ud();
    assert_eq!(ud.recently_opened("alice"), Vec::<String>::new());
}

#[test]
fn add_recently_opened_dedupes_and_moves_to_front() {
    let mut ud = ud();
    ud.add_recently_opened("alice", "proj-a").unwrap();
    ud.add_recently_opened("alice", "proj-b").unwrap();
    ud.add_recently_opened("alice", "proj-a").unwrap();
    assert_eq!(
        ud.recently_opened("alice"),
        vec!["proj-a".to_string(), "proj-b".to_string()]
    );
}

#[test]
fn save_then_list_conversation() {
    let mut ud = ud();
    let value = object("messages", serde_json::Value::Array(vec![]));
    ud.save_conversation("alice", "proj1", "abc", &value).unwrap();
    let path = ud.data.conversation_path("alice", "proj1", "abc").unwrap();
    assert_eq!(path, vec!["/data", "users", "alice", "chat", "proj1", "abc.json"]);
    assert!(ud.files.contains_key(&path));
    let conv = ud.load_conversation("alice", "proj1", "abc").unwrap();
    assert_eq!(conv, value);
    let dir = ud.data.chat_dir("alice", "proj1").unwrap();
    let files = ud
        .files
        .keys()
        .filter(|p| p[..p.len() - 1] == dir[..])
        .map(|p| ConversationFile {
            name: p.last().cloned(),
            modified_secs: Some(1),
        })
        .collect::<Vec<_>>();
    let list = ud
        .data
        .list_conversations("alice", "proj1", &Some(files))
        .unwrap();
    assert_eq!(list.len(), 1);
    assert_eq!(list[0].id, "abc");
}

#[test]
fn list_conversations_for_unused_project_is_empty() {
    let ud = ud();
    assert!(ud
        .data
        .list_conversations("alice", "untouched", &None)
        .unwrap()
        .is_empty());
}

fn file(name: &str, secs: Option<u64>) -> ConversationFile {
    ConversationFile {
        name: Some(name.to_string()),
        modified_secs: secs,
    }
}

#[test]
fn conversations_are_listed_latest_first() {
    let ud = ud();
    let files = vec![
        file("old.json", Some(5)),
        file("notes.txt", Some(99)),
        file("unknown.json", None),
        file("new.json", Some(9)),
        file("v1.2.json", Some(5)),
        file(".json", Some(100)),
        ConversationFile { name: None, modified_secs: Some(100) },
    ];
    let list = ud.data.list_conversations("a", "p", &Some(files)).unwrap();
    let ids: Vec<(String, u64)> = list.into_iter().map(|c| (c.id, c.modified_unix)).collect();
    assert_eq!(
        ids,
        vec![
            ("new".to_string(), 9),
            ("old".to_string(), 5),
            ("v1.2".to_string(), 5),
            ("unknown".to_string(), 0),
        ]
    );
}

#[test]
fn at_most_twenty_projects_are_remembered() {
    let mut ud = ud();
    for i in 0..25 {
        ud.add_recently_opened("alice", &format!("p{i}")).unwrap();
    }
    let list = ud.recently_opened("alice");
    assert_eq!(list.len(), 20);
    assert_eq!(list[0], "p24");
    assert_eq!(list[19], "p5");
    ud.add_recently_opened("alice", "p24").unwrap();
    assert_eq!(ud.recently_opened("alice"), list);
}

#[test]
fn names_are_checked_in_order() {
    let ud = ud();
    assert!(matches!(
        ud.data.conversation_path("a/b", "c/d", "e/f"),
        Err(UserDataError::InvalidConversationId(_))
    ));
    assert!(matches!(
        ud.data.conversation_path("a/b", "c/d", "ok"),
        Err(UserDataError::InvalidUserId(_))
    ));
    assert!(matches!(
        ud.data.conversation_path("ok", "", "ok"),
        Err(UserDataError::InvalidProjectId(_))
    ));
    assert!(matches!(
        ud.data.list_conversations("é", "p", &None),
        Err(UserDataError::InvalidUserId(_))
    ));
    assert!(ud.data.config_path("A-z_0.9").is_ok());
    assert_eq!(ud.recently_opened("no slash/"), Vec::<String>::new());
    assert!(ud.data.add_recently_opened("", "p", None).is_err());
}

#[test]
fn user_data_errors_are_shown_with_their_kind() {
    let x = || "x".to_string();
    assert_eq!(UserDataError::Io(x()).message(), "io error: x");
    assert_eq!(UserDataError::Json(x()).message(), "json error: x");
    assert_eq!(UserDataError::InvalidUserId(x()).message(), "invalid user_id: x");
    assert_eq!(UserDataError::InvalidProjectId(x()).message(), "invalid project_id: x");
    assert_eq!(
        UserDataError::InvalidConversationId(x()).message(),
        "invalid conversation_id: x"
    );
}

#[test]
fn settings_are_written_as_indented_json() {
    let ud = ud();
    let file = ud.data.save_config("alice", &object("x", serde_json::Value::from(1))).unwrap();
    assert_eq!(file.path, vec!["/data", "users", "alice", "config.json"]);
    assert_eq!(file.bytes, b"{\n  \"x\": 1\n}".to_vec());
}

#[test]
fn settings_that_cannot_be_read_are_an_error() {
    let data = UserData::new("/data".to_string());
    let malformed = data.load_config("alice", Some(Ok(b"{\"x\":".to_vec())));
    assert!(matches!(malformed, Err(UserDataError::Json(_))));
    let no_text = data.load_config("alice", Some(Ok(vec![b'"', 0xff, b'"'])));
    assert!(matches!(no_text, Err(UserDataError::Json(_))));
    let e = data.load_config("alice", Some(Err("permission denied".to_string()))).unwrap_err();
    assert_eq!(e.message(), "io error: permission denied");
    let e = data.load_config("a b", Some(Err("permission denied".to_string()))).unwrap_err();
    assert_eq!(e.message(), "invalid user_id: a b");
    let number = data.load_config("alice", Some(Ok(b" 17 ".to_vec()))).unwrap();
    assert_eq!(number, serde_json::Value::from(17));
}

#[test]
fn conversations_that_cannot_be_read_are_an_error() {
    let data = UserData::new("/data".to_string());
    let e = data
        .load_conversation("a", "p", "c", Err("no such file".to_string()))
        .unwrap_err();
    assert_eq!(e.message(), "io error: no such file");
    let e = data.load_conversation("a", "p", "c", Ok(b"[1,".to_vec()));
    assert!(matches!(e, Err(UserDataError::Json(_))));
    let e = data.load_conversation("a", "p q", "c", Ok(b"[1]".to_vec()));
    assert!(matches!(e, Err(UserDataError::InvalidProjectId(_))));
    let e = data.save_conversation("a", "p", "c/d", &text("x"));
    assert!(matches!(e, Err(UserDataError::InvalidConversationId(_))));
    let list = data.load_conversation("a", "p", "c", Ok(b"[1]".to_vec())).unwrap();
    assert_eq!(list, serde_json::Value::from(vec![1]));
}

#[test]
fn what_was_saved_is_loaded_whatever_else_is_saved() {
    let mut ud = ud();
    let mut map = serde_json::Map::new();
    map.insert("text".to_string(), text("tab\t \"quoted\" \u{1F600} \u{0}"));
    map.insert("low".to_string(), serde_json::Value::from(i64::MIN));
    map.insert("high".to_string(), serde_json::Value::from(u64::MAX));
    map.insert("none".to_string(), serde_json::Value::Null);
    map.insert("list".to_string(), serde_json::Value::from(vec![true, false]));
    let value = serde_json::Value::Object(map);
    ud.save_config("alice", &value).unwrap();
    ud.save_conversation("alice", "p", "c", &value).unwrap();
    ud.save_config("bob", &text("b")).unwrap();
    ud.save_config(".", &text("dot")).unwrap();
    ud.save_config("..", &text("dots")).unwrap();
    ud.add_recently_opened("alice", "p").unwrap();
    ud.save_conversation("alice", "p", "config", &text("c1")).unwrap();
    ud.save_conversation("alice", "q", "c", &text("c2")).unwrap();
    ud.save_conversation("bob", "p", "c", &text("c3")).unwrap();
    assert_eq!(ud.load_config("alice").unwrap(), value);
    assert_eq!(ud.load_conversation("alice", "p", "c").unwrap(), value);
    assert_eq!(ud.load_config("carol").unwrap(), serde_json::Value::Object(Default::default()));
    assert_eq!(ud.recently_opened("alice"), vec!["p".to_string()]);
    assert_eq!(ud.recently_opened("bob"), Vec::<String>::new());
}

fn nested(levels: usize) -> serde_json::Value {
    let mut value = serde_json::Value::Null;
    for _ in 0..levels {
        value = serde_json::Value::Array(vec![value]);
    }
    value
}

#[test]
fn values_are_read_back_up_to_a_depth() {
    let mut ud = ud();
    ud.save_config("alice", &nested(127)).unwrap();
    assert_eq!(ud.load_config("alice").unwrap(), nested(127));
    ud.save_config("alice", &nested(128)).unwrap();
    assert!(matches!(ud.load_config("alice"), Err(UserDataError::Json(_))));
}

#[test]
fn lists_that_cannot_be_read_are_empty() {
    let data = UserData::new("/data".to_string());
    for raw in ["[1]", "{}", "[\"a\"", ""] {
        assert_eq!(
            data.recently_opened("alice", Some(raw.as_bytes().to_vec())),
            Vec::<String>::new()
        );
    }
    let raw = Some(b"[\"a\", \"b\"]".to_vec());
    assert_eq!(data.recently_opened("alice", raw.clone()), vec!["a", "b"]);
    let file = data.add_recently_opened("alice", "b", raw).unwrap();
    assert_eq!(file.path, vec!["/data", "users", "alice", "recently_opened.json"]);
    assert_eq!(file.bytes, b"[\n  \"b\",\n  \"a\"\n]".to_vec());
    let file = data.add_recently_opened("alice", "b", Some(b"broken".to_vec())).unwrap();
    assert_eq!(file.bytes, b"[\n  \"b\"\n]".to_vec());
}

#[test]
fn opening_moves_a_project_to_the_front() {
    let before = vec!["a".to_string(), "b".to_string(), "c".to_string()];
    assert_eq!(with_opened(&before, "b"), vec!["b", "a", "c"]);
    assert_eq!(with_opened(&Vec::new(), "b"), vec!["b"]);
}

#[test]
fn a_failed_parse_is_a_json_error() {
    assert_eq!(loaded(Ok(text("v"))).unwrap(), text("v"));
    let e = loaded(Err("expected value".to_string())).unwrap_err();
    assert_eq!(e.message(), "json error: expected value");
}
