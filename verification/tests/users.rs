use llm_wiki::users::{hash_password, AuthError, UserRecord, Users, UsersError};

/// The records of a file of users, or why it could not be read.
fn records(contents: Option<&str>) -> Result<Vec<UserRecord>, UsersError> {
    let Some(text) = contents else {
        return Err(UsersError::unread(
            true,
            "does_not_exist.toml".to_string(),
            "no such file".to_string(),
        ));
    };
    let table: toml::Table =
        toml::from_str(text).map_err(|e| UsersError::Malformed(e.to_string()))?;
    let mut out = Vec::new();
    if let Some(users) = table.get("users").and_then(|u| u.as_table()) {
        for (name, record) in users {
            let hash = record
                .get("password_hash")
                .and_then(|h| h.as_str())
                .ok_or_else(|| UsersError::Malformed("missing password_hash".to_string()))?;
            out.push(UserRecord {
                name: name.clone(),
                password_hash: hash.to_string(),
            });
        }
    }
    Ok(out)
}

fn load(contents: &str) -> Users {
    Users::load(records(Some(contents))).unwrap()
}

#[test]
fn hash_then_verify_roundtrip() {
    let hash = hash_password("correct horse battery staple").unwrap();
    let users = load(&format!(
        "[users.alice]\npassword_hash = \"{}\"\n",
        hash.replace('\\', "\\\\")
    ));
    let user = users
        .verify_password("alice", "correct horse battery staple")
        .unwrap();
    assert_eq!(user.id, "alice");
}

#[test]
fn rejects_wrong_password() {
    let hash = hash_password("right").unwrap();
    let users = load(&format!("[users.alice]\npassword_hash = \"{}\"\n", hash));
    let result = users.verify_password("alice", "wrong");
    assert!(matches!(result, Err(AuthError::InvalidCredentials)));
}

#[test]
fn rejects_unknown_user_with_same_error_as_wrong_password() {
    let hash = hash_password("right").unwrap();
    let users = load(&format!("[users.alice]\npassword_hash = \"{}\"\n", hash));
    let result = users.verify_password("nobody", "anything");
    assert!(matches!(result, Err(AuthError::InvalidCredentials)));
}

#[test]
fn username_is_case_insensitive_for_lookup() {
    let hash = hash_password("pw").unwrap();
    let users = load(&format!("[users.Alice]\npassword_hash = \"{}\"\n", hash));
    let user = users.verify_password("alice", "pw").unwrap();
    assert_eq!(user.id, "alice");
    assert_eq!(user.username, "Alice");
}

#[test]
fn load_returns_not_found_for_missing_file() {
    let result = Users::load(records(None));
    assert!(matches!(result, Err(UsersError::NotFound(_))));
}

#[test]
fn load_returns_malformed_on_bad_toml() {
    let result = Users::load(records(Some("not = toml = at all")));
    assert!(matches!(result, Err(UsersError::Malformed(_))));
}

#[test]
fn load_empty_file_returns_empty_users() {
    let users = load("");
    let result = users.verify_password("anyone", "pw");
    assert!(matches!(result, Err(AuthError::InvalidCredentials)));
}

#[test]
fn corrupted_stored_hash_returns_hash_error() {
    let users = load("[users.alice]\npassword_hash = \"not-a-real-argon2-hash\"\n");
    let result = users.verify_password("alice", "anything");
    assert!(
        matches!(result, Err(AuthError::Hash(_))),
        "expected AuthError::Hash for corrupted stored hash, got {:?}",
        result
    );
}

#[test]
fn stored_hash_with_too_many_lanes_accepts_nothing() {
    let hash = hash_password("pw").unwrap();
    assert!(hash.contains(",p=1$"));
    for lanes in ["p=536870912", "p=4294967295", "p=1,p=1073741823"] {
        let wide = hash.replace("p=1", lanes);
        let users = load(&format!("[users.a]\npassword_hash = \"{}\"\n", wide));
        assert!(matches!(
            users.verify_password("a", "pw"),
            Err(AuthError::InvalidCredentials)
        ));
    }
}

#[test]
fn lookup_user_returns_user_when_present() {
    let hash = hash_password("pw").unwrap();
    let users = load(&format!("[users.Alice]\npassword_hash = \"{}\"\n", hash));
    let u = users.lookup_user("alice").unwrap();
    assert_eq!(u.id, "alice");
    assert_eq!(u.username, "Alice");
}

#[test]
fn lookup_user_returns_none_for_unknown() {
    let users = load("");
    assert!(users.lookup_user("nobody").is_none());
}

#[test]
fn lookup_user_is_case_insensitive() {
    let hash = hash_password("pw").unwrap();
    let users = load(&format!("[users.Bob]\npassword_hash = \"{}\"\n", hash));
    assert_eq!(users.lookup_user("BOB").unwrap().username, "Bob");
}

#[test]
fn two_hashes_of_one_password_differ_and_both_are_accepted() {
    let first = hash_password("pw").unwrap();
    let second = hash_password("pw").unwrap();
    assert_ne!(first, second);
    assert_ne!(first, "pw");
    for hash in [first, second] {
        let users = load(&format!("[users.a]\npassword_hash = \"{}\"\n", hash));
        assert_eq!(users.verify_password("A", "pw").unwrap().id, "a");
    }
}

#[test]
fn later_record_with_the_same_id_counts() {
    let old = hash_password("old").unwrap();
    let new = hash_password("new").unwrap();
    let users = Users::load(Ok(vec![
        UserRecord { name: "Ann".to_string(), password_hash: old },
        UserRecord { name: "ANN".to_string(), password_hash: new },
    ]))
    .unwrap();
    assert!(users.verify_password("ann", "old").is_err());
    assert_eq!(users.verify_password("ann", "new").unwrap().username, "ANN");
}

#[test]
fn decision_follows_what_is_known_of_the_password() {
    let users = Users::load(Ok(vec![UserRecord {
        name: "Eve".to_string(),
        password_hash: "x".to_string(),
    }]))
    .unwrap();
    assert_eq!(users.decide("eve".to_string(), Ok(()), true).unwrap().username, "Eve");
    assert!(matches!(
        users.decide("eve".to_string(), Ok(()), false),
        Err(AuthError::InvalidCredentials)
    ));
    match users.decide("eve".to_string(), Err("bad".to_string()), true) {
        Err(AuthError::Hash(s)) => assert_eq!(s, "bad"),
        other => panic!("unexpected {other:?}"),
    }
    assert!(matches!(
        users.decide("mallory".to_string(), Ok(()), true),
        Err(AuthError::InvalidCredentials)
    ));
}

#[test]
fn errors_are_shown_with_their_kind() {
    assert_eq!(
        UsersError::unread(true, "u.toml".to_string(), "why".to_string()).message(),
        "users.toml not found: u.toml"
    );
    assert_eq!(
        UsersError::unread(false, "u.toml".to_string(), "why".to_string()).message(),
        "users.toml could not be read: why"
    );
    assert_eq!(
        UsersError::Malformed("x".to_string()).message(),
        "users.toml is malformed: x"
    );
    assert_eq!(AuthError::InvalidCredentials.message(), "invalid credentials");
    assert_eq!(
        AuthError::Hash("x".to_string()).message(),
        "password hashing failed: x"
    );
}
