//! Users as the user store keeps them, and the decisions taken on what the
//! store answers.

use vstd::prelude::*;
use crate::clock::{read_clock, ClockReading};

verus! {

/// An instant with whole-second and nanosecond parts (a naive date-time).
pub struct Timestamp {
    pub secs: i64,
    pub nanos: u32,
}

/// A stored user.
pub struct User {
    pub id: i32,
    pub username: String,
    pub email: String,
    pub password: String,
    pub role: String,
    pub is_deleted: bool,
    pub created_at: Timestamp,
    pub deleted_at: Option<Timestamp>,
    pub login_session: String,
}

/// A user to be registered.
pub struct NewUser {
    pub username: String,
    pub email: String,
    pub password: String,
    pub role: String,
    pub created_at: Timestamp,
}

/// The fields that deleting a user sets.
pub struct DeleteUser {
    pub is_deleted: bool,
    pub deleted_at: Option<Timestamp>,
}

/// Why a user-store request failed.
pub enum UserError {
    /// No user is stored under the identifier.
    CanNotFindUser,
    /// Nothing was deleted.
    DeleteUserError,
}

/// The message that reports a user-store failure.
pub open spec fn error_message(e: UserError) -> Seq<char> {
    match e {
        UserError::CanNotFindUser => "Can not find user"@,
        UserError::DeleteUserError => "Can not delete user"@,
    }
}

/// The message that reports a successful user-store request.
pub open spec fn ok_message() -> Seq<char> {
    "ok"@
}

impl UserError {
    /// The message that reports the failure.
    pub fn message(&self) -> (r: String)
        ensures
            r@ == error_message(*self),
    {
        match self {
            UserError::CanNotFindUser => String::from_str("Can not find user"),
            UserError::DeleteUserError => String::from_str("Can not delete user"),
        }
    }
}

/// The message that reports a successful user-store request.
pub fn success_message() -> (r: String)
    ensures
        r@ == ok_message(),
{
    String::from_str("ok")
}

/// The role of a user registered without one.
pub open spec fn default_user_role() -> Seq<char> {
    "default"@
}

/// The role of a user registered without one.
pub fn default_role() -> (r: String)
    ensures
        r@ == default_user_role(),
{
    String::from_str("default")
}

/// The instant of a clock reading, to the second.
pub fn timestamp_of(reading: ClockReading) -> (r: Timestamp)
    ensures
        r.secs == reading.seconds,
        r.nanos == 0,
{
    Timestamp { secs: reading.seconds, nanos: 0 }
}

/// The current instant, to the second (the nanosecond part is zero); `None`
/// where the clock's seconds do not fit in an `i64`.
pub fn chrono_now() -> (r: Option<Timestamp>)
    ensures
        r matches Some(t) ==> t.nanos == 0,
{
    match read_clock() {
        Some(reading) => Some(timestamp_of(reading)),
        None => None,
    }
}

/// The key prefix under which users are stored.
pub open spec fn users_prefix() -> Seq<char> {
    "/users"@
}

/// The key prefix under which users are stored.
pub fn users_key_prefix() -> (r: String)
    ensures
        r@ == users_prefix(),
{
    String::from_str("/users")
}

/// The key under which the user with identifier `id` is stored.
pub fn user_key(id: &str) -> (r: String)
    ensures
        r@ == users_prefix() + "/"@ + id@,
{
    let mut r = String::from_str("/users/");
    r.append(id);
    proof {
        reveal_strlit("/users/");
        reveal_strlit("/users");
        reveal_strlit("/");
        assert("/users/"@ =~= "/users"@ + "/"@);
    }
    r
}

/// Every user key lies under the users prefix, so a range read of the prefix
/// sees every user that a key lookup can find.
pub proof fn law_user_keys_under_prefix(id: Seq<char>)
    ensures
        crate::text::starts_with(users_prefix() + "/"@ + id, users_prefix()),
{
    let k = users_prefix() + "/"@ + id;
    assert(k.subrange(0, users_prefix().len() as int) =~= users_prefix());
}

impl User {
    /// The outcome of looking a user up, from the number of entries found
    /// under its key and the first of them: that user where any was found.
    pub fn find_by_id(count: usize, first: Option<User>) -> (r: Result<User, UserError>)
        requires
            count > 0 ==> first is Some,
        ensures
            count > 0 ==> r == Ok::<User, UserError>(first->0),
            count == 0 ==> r matches Err(UserError::CanNotFindUser),
    {
        if count > 0 {
            match first {
                Some(u) => Ok(u),
                None => Err(UserError::CanNotFindUser),
            }
        } else {
            Err(UserError::CanNotFindUser)
        }
    }

    /// The outcome of deleting a user, from the number of entries deleted.
    pub fn delete(count_deleted: usize) -> (r: Result<(), UserError>)
        ensures
            count_deleted > 0 ==> r is Ok,
            count_deleted == 0 ==> r matches Err(UserError::DeleteUserError),
    {
        if count_deleted > 0 {
            Ok(())
        } else {
            Err(UserError::DeleteUserError)
        }
    }

    /// A login session is valid when the user that it names was found.
    pub fn is_valid_login_session(lookup: &Result<User, UserError>) -> (r: bool)
        ensures
            r == lookup is Ok,
    {
        lookup.is_ok()
    }
}

} // verus!
