//! The users of the server and their passwords.

use argon2::password_hash::{
    rand_core::OsRng, PasswordHash, PasswordHasher, PasswordVerifier, SaltString,
};
use argon2::Argon2;
use vstd::prelude::*;
use vstd::utf8::encode_utf8;

use crate::order::TextMap;
use crate::text::{concat, eq, lowercase, to_lowercase};

verus! {

/// What went wrong with the file of users.
#[derive(Debug)]
pub enum UsersError {
    NotFound(String),
    Io(String),
    Malformed(String),
}

impl UsersError {
    /// The text that the error is shown by.
    pub open spec fn shown(self) -> Seq<char> {
        match self {
            UsersError::NotFound(s) => "users.toml not found: "@ + s@,
            UsersError::Io(s) => "users.toml could not be read: "@ + s@,
            UsersError::Malformed(s) => "users.toml is malformed: "@ + s@,
        }
    }

    /// The text that the error is shown by.
    pub fn message(&self) -> (r: String)
        ensures
            r@ == self.shown(),
    {
        match self {
            UsersError::NotFound(s) => concat("users.toml not found: ", s.as_str()),
            UsersError::Io(s) => concat("users.toml could not be read: ", s.as_str()),
            UsersError::Malformed(s) => concat("users.toml is malformed: ", s.as_str()),
        }
    }

    /// The error for a file of users that could not be read: one that is not there is told
    /// apart, by its path.
    pub fn unread(not_found: bool, path: String, why: String) -> (r: UsersError)
        ensures
            r == if not_found {
                UsersError::NotFound(path)
            } else {
                UsersError::Io(why)
            },
    {
        if not_found {
            UsersError::NotFound(path)
        } else {
            UsersError::Io(why)
        }
    }
}

/// Why somebody was not let in.
#[derive(Debug)]
pub enum AuthError {
    InvalidCredentials,
    Hash(String),
}

impl AuthError {
    /// The text that the error is shown by.
    pub open spec fn shown(self) -> Seq<char> {
        match self {
            AuthError::InvalidCredentials => "invalid credentials"@,
            AuthError::Hash(s) => "password hashing failed: "@ + s@,
        }
    }

    /// The text that the error is shown by.
    pub fn message(&self) -> (r: String)
        ensures
            r@ == self.shown(),
    {
        match self {
            AuthError::InvalidCredentials => "invalid credentials".to_owned(),
            AuthError::Hash(s) => concat("password hashing failed: ", s.as_str()),
        }
    }
}

/// A user: the id by which they are known, and the name that they are shown by.
#[derive(Debug)]
pub struct User {
    pub id: String,
    pub username: String,
}

#[verifier::ext_equal]
pub struct UserView {
    pub id: Seq<char>,
    pub username: Seq<char>,
}

impl View for User {
    type V = UserView;

    open spec fn view(&self) -> UserView {
        UserView { id: self.id@, username: self.username@ }
    }
}

impl Clone for User {
    fn clone(&self) -> (r: User)
        ensures
            r == *self,
    {
        User { id: self.id.clone(), username: self.username.clone() }
    }
}

/// Why a stored password does not have the form of one; nothing where it does.
pub uninterp spec fn phc_error(stored: Seq<char>) -> Option<Seq<char>>;

/// The parameters of a stored password in their order, each with its name, and with its
/// value where that is a number.
pub uninterp spec fn phc_numbers(stored: Seq<char>) -> Seq<(Seq<char>, Option<u32>)>;

/// Whether the stored password is that of the plain one.
pub uninterp spec fn argon2_accepts(stored: Seq<char>, plaintext: Seq<char>) -> bool;

/// Parameters, their names as sequences of characters.
pub open spec fn number_views(numbers: Seq<(String, Option<u32>)>) -> Seq<
    (Seq<char>, Option<u32>),
> {
    numbers.map_values(|n: (String, Option<u32>)| (n.0@, n.1))
}

/// How many lanes the parameters ask for: the last that is named `p` counts.
pub open spec fn lanes(numbers: Seq<(Seq<char>, Option<u32>)>) -> Option<u32>
    decreases numbers.len(),
{
    if numbers.len() == 0 {
        None
    } else if numbers.last().0 == "p"@ {
        numbers.last().1
    } else {
        lanes(numbers.drop_last())
    }
}

/// Whether so many lanes can be reckoned with: eight times their number fits in 32 bits.
pub open spec fn lanes_fit(numbers: Seq<(Seq<char>, Option<u32>)>) -> bool {
    match lanes(numbers) {
        Some(p) => p < 0x2000_0000,
        None => true,
    }
}

/// `argon2::PasswordHash::new` and `ParamsString::iter`: whether the text has the form of a
/// stored password, with the parameters in it where it has, and the text of the error where
/// it has not. Which texts have that form, how the error is worded, and which parameters
/// there are, is left to the names `phc_error` and `phc_numbers`.
#[verifier::external_body]
fn parse_stored(stored: &str) -> (r: Result<Vec<(String, Option<u32>)>, String>)
    ensures
        match r {
            Ok(numbers) => phc_error(stored@) is None && number_views(numbers@) == phc_numbers(
                stored@,
            ),
            Err(e) => phc_error(stored@) == Some(e@),
        },
{
    match PasswordHash::new(stored) {
        Ok(h) => Ok(
            h.params.iter().map(|(n, v)| (n.as_str().to_owned(), v.decimal().ok())).collect(),
        ),
        Err(e) => Err(e.to_string()),
    }
}

/// `argon2::Argon2::verify_password`, with the default parameters of `argon2::Argon2`:
/// whether the plain password is the one that was stored. A text that does not have the
/// form of a stored password accepts none. Which others are accepted is left to the name
/// `argon2_accepts`. The number of lanes is limited because it is multiplied by eight in 32
/// bits; how much memory the stored password asks for is not.
#[verifier::external_body]
fn accepts_password(stored: &str, plaintext: &str) -> (r: bool)
    requires
        lanes_fit(phc_numbers(stored@)),
    ensures
        r == argon2_accepts(stored@, plaintext@),
        r ==> phc_error(stored@) is None,
{
    let verified = PasswordHash::new(stored).and_then(
        |h| Argon2::default().verify_password(plaintext.as_bytes(), &h),
    );
    verified.is_ok()
}

/// Whether the lanes that the parameters ask for can be reckoned with.
fn have_fitting_lanes(numbers: &Vec<(String, Option<u32>)>) -> (r: bool)
    ensures
        r == lanes_fit(number_views(numbers@)),
{
    let ghost all = number_views(numbers@);
    let mut found: Option<u32> = None;
    let mut i: usize = 0;
    while i < numbers.len()
        invariant
            i <= numbers@.len(),
            all == number_views(numbers@),
            found == lanes(all.take(i as int)),
        decreases numbers@.len() - i,
    {
        assert(all.take(i as int + 1).drop_last() =~= all.take(i as int));
        assert(all.take(i as int + 1).last() == (numbers@[i as int].0@, numbers@[i as int].1));
        if eq(numbers[i].0.as_str(), "p") {
            found = numbers[i].1;
        }
        i += 1;
    }
    assert(all.take(i as int) =~= all);
    match found {
        Some(p) => p < 0x2000_0000,
        None => true,
    }
}

/// Whether the stored password accepts the plain one. One that asks for more lanes than can
/// be reckoned with accepts none.
pub open spec fn takes(stored: Seq<char>, plaintext: Seq<char>) -> bool {
    lanes_fit(phc_numbers(stored)) && argon2_accepts(stored, plaintext)
}

/// `argon2::Argon2::hash_password` with `SaltString::generate`: the form in which a password
/// is stored, with a salt drawn at random. It succeeds on passwords of up to 4294967295
/// bytes and fails on longer ones; what it gives has the form of a stored password, asks for
/// one lane, and accepts the password that it was made from. Nothing else is said of the
/// text, which differs from call to call, nor of the wording of the error.
#[verifier::external_body]
fn hash_with_salt(plaintext: &str) -> (r: Result<String, String>)
    ensures
        r is Ok <==> encode_utf8(plaintext@).len() <= 0xFFFF_FFFF,
        match r {
            Ok(h) => {
                &&& phc_error(h@) is None
                &&& lanes(phc_numbers(h@)) == Some(1u32)
                &&& argon2_accepts(h@, plaintext@)
            },
            Err(_) => true,
        },
{
    let salt = SaltString::generate(&mut OsRng);
    let hashed = Argon2::default().hash_password(plaintext.as_bytes(), &salt);
    match hashed {
        Ok(h) => Ok(h.to_string()),
        Err(e) => Err(e.to_string()),
    }
}

/// The form in which a password is stored.
pub fn hash_password(plaintext: &str) -> (r: Result<String, AuthError>)
    ensures
        r is Ok <==> encode_utf8(plaintext@).len() <= 0xFFFF_FFFF,
        match r {
            Ok(h) => {
                &&& phc_error(h@) is None
                &&& lanes_fit(phc_numbers(h@))
                &&& takes(h@, plaintext@)
            },
            Err(e) => e is Hash,
        },
{
    match hash_with_salt(plaintext) {
        Ok(h) => Ok(h),
        Err(e) => Err(AuthError::Hash(e)),
    }
}

/// A text takes up at most four bytes for each character.
proof fn lemma_utf8_len(s: Seq<char>)
    ensures
        encode_utf8(s).len() <= 4 * s.len(),
    decreases s.len(),
{
    if s.len() > 0 {
        lemma_utf8_len(s.drop_first());
    }
}

/// A user as the file of users has them: a name and a stored password.
#[derive(Debug)]
pub struct UserRecord {
    pub name: String,
    pub password_hash: String,
}

/// The users by their ids: their stored passwords and the names that they are shown by.
#[verifier::ext_equal]
pub struct UsersView {
    pub hashes: Map<Seq<char>, Seq<char>>,
    pub names: Map<Seq<char>, Seq<char>>,
}

/// The users of the records. Their ids are their names in lower case; of two records with
/// one id the later counts.
pub open spec fn users_of(records: Seq<UserRecord>) -> UsersView
    decreases records.len(),
{
    if records.len() == 0 {
        UsersView { hashes: Map::empty(), names: Map::empty() }
    } else {
        let before = users_of(records.drop_last());
        let record = records.last();
        let id = lowercase(record.name@);
        UsersView {
            hashes: before.hashes.insert(id, record.password_hash@),
            names: before.names.insert(id, record.name@),
        }
    }
}

/// The users of the server.
#[derive(Debug)]
pub struct Users {
    hashes: TextMap<String>,
    names: TextMap<String>,
    sentinel_hash: String,
}

impl Clone for Users {
    fn clone(&self) -> (r: Users)
        ensures
            r@ == self@,
    {
        proof {
            use_type_invariant(self);
        }
        Users {
            hashes: self.hashes.clone(),
            names: self.names.clone(),
            sentinel_hash: self.sentinel_hash.clone(),
        }
    }
}

impl View for Users {
    type V = UsersView;

    closed spec fn view(&self) -> UsersView {
        UsersView {
            hashes: self.hashes@.map_values(|s: String| s@),
            names: self.names@.map_values(|s: String| s@),
        }
    }
}

/// What comes of signing in with an id: what is known of the stored password, and whether
/// it accepts the plain one.
pub open spec fn verdict(
    users: UsersView,
    id: Seq<char>,
    malformed: Option<Seq<char>>,
    accepted: bool,
) -> Result<UserView, Option<Seq<char>>> {
    if !users.hashes.contains_key(id) {
        Err(None)
    } else if malformed is Some {
        Err(malformed)
    } else if !accepted {
        Err(None)
    } else {
        Ok(UserView { id, username: users.names[id] })
    }
}

/// What comes of signing in: the user, or an error, which holds a text where the stored
/// password is malformed.
pub open spec fn sign_in(users: UsersView, username: Seq<char>, plaintext: Seq<char>) -> Result<
    UserView,
    Option<Seq<char>>,
> {
    let id = lowercase(username);
    let stored = users.hashes[id];
    verdict(users, id, phc_error(stored), takes(stored, plaintext))
}

/// What signing in came to, as a value of `sign_in`.
pub open spec fn sign_in_view(r: Result<User, AuthError>) -> Result<UserView, Option<Seq<char>>> {
    match r {
        Ok(user) => Ok(user@),
        Err(AuthError::InvalidCredentials) => Err(None),
        Err(AuthError::Hash(s)) => Err(Some(s@)),
    }
}

impl Users {
    /// Every user has both a stored password and a name, and a sign-in of somebody unknown
    /// is put to the same work as any other.
    #[verifier::type_invariant]
    spec fn complete(self) -> bool {
        &&& self.hashes@.dom() == self.names@.dom()
        &&& phc_error(self.sentinel_hash@) is None
        &&& lanes_fit(phc_numbers(self.sentinel_hash@))
    }

    /// The users of the file of users, given its records or why it could not be read.
    pub fn load(records: Result<Vec<UserRecord>, UsersError>) -> (r: Result<Users, UsersError>)
        ensures
            match (records, r) {
                (Ok(list), Ok(users)) => users@ == users_of(list@),
                (Err(e), Err(f)) => f == e,
                _ => false,
            },
    {
        let records = match records {
            Ok(list) => list,
            Err(e) => {
                return Err(e);
            },
        };
        let mut hashes: TextMap<String> = TextMap::new();
        let mut names: TextMap<String> = TextMap::new();
        let mut i: usize = 0;
        proof {
            assert(hashes@.map_values(|s: String| s@) =~= users_of(records@.take(0)).hashes);
            assert(names@.map_values(|s: String| s@) =~= users_of(records@.take(0)).names);
        }
        while i < records.len()
            invariant
                i <= records@.len(),
                hashes@.dom() == names@.dom(),
                hashes@.map_values(|s: String| s@) == users_of(records@.take(i as int)).hashes,
                names@.map_values(|s: String| s@) == users_of(records@.take(i as int)).names,
            decreases records@.len() - i,
        {
            assert(records@.take(i as int + 1).drop_last() =~= records@.take(i as int));
            let ghost upto = users_of(records@.take(i as int + 1));
            let id = to_lowercase(records[i].name.as_str());
            names.insert(id.clone(), records[i].name.clone());
            hashes.insert(id, records[i].password_hash.clone());
            proof {
                assert(hashes@.map_values(|s: String| s@) =~= upto.hashes);
                assert(names@.map_values(|s: String| s@) =~= upto.names);
            }
            i += 1;
        }
        assert(records@.take(i as int) =~= records@);
        proof {
            reveal_strlit("__timing_oracle_sentinel__");
            lemma_utf8_len("__timing_oracle_sentinel__"@);
        }
        match hash_password("__timing_oracle_sentinel__") {
            Ok(sentinel_hash) => Ok(Users { hashes, names, sentinel_hash }),
            Err(_) => {
                // So short a password can always be stored.
                assert(false);
                Err(UsersError::Malformed(String::new()))
            },
        }
    }

    /// What comes of signing in with an id, given what is known of the stored password and
    /// whether it accepts the plain one.
    pub fn decide(&self, id: String, parsed: Result<(), String>, accepted: bool) -> (r: Result<
        User,
        AuthError,
    >)
        ensures
            sign_in_view(r) == verdict(
                self@,
                id@,
                match parsed {
                    Ok(_) => None,
                    Err(e) => Some(e@),
                },
                accepted,
            ),
    {
        proof {
            use_type_invariant(self);
        }
        if self.hashes.get(id.as_str()).is_none() {
            return Err(AuthError::InvalidCredentials);
        }
        match parsed {
            Ok(_) => {},
            Err(e) => {
                return Err(AuthError::Hash(e));
            },
        }
        if !accepted {
            return Err(AuthError::InvalidCredentials);
        }
        let username = match self.names.get(id.as_str()) {
            Some(name) => name.clone(),
            None => id.clone(),
        };
        Ok(User { id, username })
    }

    /// Signs a user in by name and password. Letters of the name are compared without
    /// regard to case. Somebody unknown is refused in the same way as somebody with a wrong
    /// password, after a password was put to the test all the same.
    pub fn verify_password(&self, username: &str, plaintext: &str) -> (r: Result<User, AuthError>)
        ensures
            sign_in_view(r) == sign_in(self@, username@, plaintext@),
    {
        let id = to_lowercase(username);
        proof {
            use_type_invariant(self);
        }
        match self.hashes.get(id.as_str()) {
            None => {
                let _ = accepts_password(self.sentinel_hash.as_str(), plaintext);
                self.decide(id, Ok(()), false)
            },
            Some(stored) => {
                assert(self@.hashes[id@] == stored@);
                match parse_stored(stored.as_str()) {
                    Ok(numbers) => {
                        let accepted = have_fitting_lanes(&numbers) && accepts_password(
                            stored.as_str(),
                            plaintext,
                        );
                        self.decide(id, Ok(()), accepted)
                    },
                    Err(e) => self.decide(id, Err(e), false),
                }
            },
        }
    }

    /// The user with that id. Letters are compared without regard to case.
    pub fn lookup_user(&self, id: &str) -> (r: Option<User>)
        ensures
            match r {
                Some(user) => {
                    let key = lowercase(id@);
                    &&& self@.hashes.contains_key(key)
                    &&& user@ == (UserView { id: key, username: self@.names[key] })
                },
                None => !self@.hashes.contains_key(lowercase(id@)),
            },
    {
        proof {
            use_type_invariant(self);
        }
        let key = to_lowercase(id);
        if self.hashes.get(key.as_str()).is_none() {
            return None;
        }
        let username = match self.names.get(key.as_str()) {
            Some(name) => name.clone(),
            None => key.clone(),
        };
        Some(User { id: key, username })
    }
}

/// A user whose password was stored by `hash_password` signs in with that password.
pub proof fn law_hash_then_verify(
    users: UsersView,
    username: Seq<char>,
    stored: Seq<char>,
    plaintext: Seq<char>,
)
    requires
        users.hashes.contains_key(lowercase(username)),
        users.hashes[lowercase(username)] == stored,
        phc_error(stored) is None,
        takes(stored, plaintext),
    ensures
        sign_in(users, username, plaintext) == Ok::<UserView, Option<Seq<char>>>(
            UserView {
                id: lowercase(username),
                username: users.names[lowercase(username)],
            },
        ),
{
}

/// Somebody unknown gets the same answer as a known user with a wrong password.
pub proof fn law_unknown_user_is_refused_alike(
    users: UsersView,
    known: Seq<char>,
    unknown: Seq<char>,
    wrong: Seq<char>,
    any: Seq<char>,
)
    requires
        users.hashes.contains_key(lowercase(known)),
        phc_error(users.hashes[lowercase(known)]) is None,
        !takes(users.hashes[lowercase(known)], wrong),
        !users.hashes.contains_key(lowercase(unknown)),
    ensures
        sign_in(users, known, wrong) == sign_in(users, unknown, any),
        sign_in(users, unknown, any) is Err,
{
}

/// Names that agree in lower case sign in alike.
pub proof fn law_sign_in_ignores_case(
    users: UsersView,
    a: Seq<char>,
    b: Seq<char>,
    plaintext: Seq<char>,
)
    requires
        lowercase(a) == lowercase(b),
    ensures
        sign_in(users, a, plaintext) == sign_in(users, b, plaintext),
{
}

/// Every record of the file of users is found under its name in lower case, unless a later
/// record has the same id.
pub proof fn law_loaded_user_is_known(records: Seq<UserRecord>, i: int)
    requires
        0 <= i < records.len(),
        forall|j: int|
            i < j < records.len() ==> lowercase((#[trigger] records[j]).name@) != lowercase(
                records[i].name@,
            ),
    ensures
        ({
            let users = users_of(records);
            let id = lowercase(records[i].name@);
            &&& users.hashes.contains_key(id)
            &&& users.hashes[id] == records[i].password_hash@
            &&& users.names[id] == records[i].name@
        }),
    decreases records.len(),
{
    let rest = records.drop_last();
    if i < rest.len() {
        assert forall|j: int| i < j < rest.len() implies lowercase((#[trigger] rest[j]).name@)
            != lowercase(rest[i].name@) by {
            assert(rest[j] == records[j]);
        }
        law_loaded_user_is_known(rest, i);
        assert(lowercase(records[records.len() - 1].name@) != lowercase(records[i].name@));
    }
}

/// The users are those of the records, by their names in lower case, and nobody else; each has a
/// stored password and a name.
pub proof fn law_users_are_those_of_the_records(records: Seq<UserRecord>, id: Seq<char>)
    ensures
        users_of(records).hashes.contains_key(id) <==> exists|i: int|
            0 <= i < records.len() && lowercase((#[trigger] records[i]).name@) == id,
        users_of(records).names.contains_key(id) <==> users_of(records).hashes.contains_key(id),
    decreases records.len(),
{
    if records.len() > 0 {
        let rest = records.drop_last();
        law_users_are_those_of_the_records(rest, id);
        assert(records[records.len() - 1] == records.last());
        if users_of(rest).hashes.contains_key(id) {
            let i = choose|i: int|
                0 <= i < rest.len() && lowercase((#[trigger] rest[i]).name@) == id;
            assert(records[i] == rest[i]);
        }
        if exists|i: int|
            0 <= i < records.len() && lowercase((#[trigger] records[i]).name@) == id {
            let i = choose|i: int|
                0 <= i < records.len() && lowercase((#[trigger] records[i]).name@) == id;
            if i < rest.len() {
                assert(rest[i] == records[i]);
            }
        }
    }
}

/// Whoever signs in is let in if they are known, their stored password can be read and asks for
/// no more lanes than can be reckoned with, and it accepts the plain one; they are then known by
/// their name in lower case and shown by the name that was stored. A stored password that cannot
/// be read is told of, and nothing else is.
pub proof fn law_who_is_let_in(users: UsersView, username: Seq<char>, plaintext: Seq<char>)
    ensures
        ({
            let id = lowercase(username);
            let stored = users.hashes[id];
            let r = sign_in(users, username, plaintext);
            &&& r is Ok <==> {
                &&& users.hashes.dom().contains(id)
                &&& phc_error(stored) is None
                &&& lanes(phc_numbers(stored)) is None || lanes(phc_numbers(stored))->0 * 8
                    <= u32::MAX
                &&& argon2_accepts(stored, plaintext)
            }
            &&& r is Ok ==> r->Ok_0.id == id && r->Ok_0.username == users.names[id]
            &&& r is Err && users.hashes.dom().contains(id) ==> r->Err_0 == phc_error(stored)
            &&& r is Err && !users.hashes.dom().contains(id) ==> r->Err_0 is None
        }),
{
}

/// Of the parameters of a stored password the last that is named `p` tells how many lanes there
/// are to be, and where none is so named none does.
pub proof fn law_which_parameter_tells_the_lanes(numbers: Seq<(Seq<char>, Option<u32>)>, i: int)
    requires
        -1 <= i < numbers.len(),
        i >= 0 ==> numbers[i].0 == "p"@,
        forall|j: int| i < j < numbers.len() ==> (#[trigger] numbers[j]).0 != "p"@,
    ensures
        i >= 0 ==> lanes(numbers) == numbers[i].1,
        i < 0 ==> lanes(numbers) is None,
    decreases numbers.len(),
{
    if numbers.len() > 0 && i < numbers.len() - 1 {
        let rest = numbers.drop_last();
        assert forall|j: int| i < j < rest.len() implies (#[trigger] rest[j]).0 != "p"@ by {
            assert(rest[j] == numbers[j]);
        }
        assert(numbers[numbers.len() - 1].0 != "p"@);
        law_which_parameter_tells_the_lanes(rest, i);
    }
}

} // verus!
