//! The request-authentication guard: resolves request credentials to a
//! principal capability, refines it to an admin capability, and verifies
//! login submissions without leaking which check failed.
use vstd::prelude::*;

use crate::database::{get_user_by_username, spec_first_user_index, Database};
use crate::users::{argon2_verifies, NewUser, User, UserView};

verus! {

/// The outcome of resolving request credentials.
pub enum Principal {
    /// No or unusable credentials: the request carries no capability.
    Anonymous,
    /// A known user without administrative rights.
    User(User),
    /// A known user with administrative rights.
    Admin(User),
}

/// Authentication failures surfaced to callers.
#[derive(Debug, Clone, Copy, PartialEq, Eq, Structural)]
pub enum AuthError {
    /// The generic login failure: the same value whether the username is
    /// unknown or the password does not match.
    InvalidCredentials,
    /// A privileged operation was attempted without the capability for it.
    Unauthorized,
}

/// What login resolves to: the first user carrying the submitted
/// username, accepted only when the password verifies against that
/// user's stored hash; any failure collapses into the one generic error.
pub open spec fn spec_login(users: Seq<UserView>, username: Seq<char>, password: Seq<char>)
    -> Result<UserView, AuthError> {
    let i = spec_first_user_index(users, username);
    if i < 0 {
        Err(AuthError::InvalidCredentials)
    } else if argon2_verifies(users[i].password, password) {
        Ok(users[i])
    } else {
        Err(AuthError::InvalidCredentials)
    }
}

/// Resolve a session cookie to a principal: no cookie or an unknown name
/// yields no capability; a known user yields a `User` capability, refined
/// to `Admin` when the stored row says so.
pub fn resolve_principal(conn: &Database, cookie: Option<&str>) -> (r: Principal)
    ensures
        cookie is None ==> r is Anonymous,
        cookie matches Some(name) ==> {
            let i = spec_first_user_index(conn.users_view(), name@);
            &&& i < 0 ==> r is Anonymous
            &&& i >= 0 ==> {
                let u = conn.users_view()[i];
                if u.is_admin {
                    r matches Principal::Admin(user) && user@ == u
                } else {
                    r matches Principal::User(user) && user@ == u
                }
            }
        },
{
    let name = match cookie {
        Some(name) => name,
        None => {
            return Principal::Anonymous;
        },
    };
    let found = match get_user_by_username(conn, name) {
        Ok(found) => found,
        Err(_) => None,
    };
    match found {
        Some(user) => {
            if user.is_admin {
                Principal::Admin(user)
            } else {
                Principal::User(user)
            }
        },
        None => Principal::Anonymous,
    }
}

/// Refine a principal to an admin capability, or reject with
/// `Unauthorized` so that the caller can answer with a distinct response
/// rather than a bare failure.
pub fn require_admin(principal: Principal) -> (r: Result<User, AuthError>)
    ensures
        r is Ok <==> principal is Admin,
        r matches Ok(u) ==> principal == Principal::Admin(u),
        r matches Err(e) ==> e == AuthError::Unauthorized,
{
    match principal {
        Principal::Admin(user) => Ok(user),
        _ => Err(AuthError::Unauthorized),
    }
}

/// Verify a login submission: look the username up and compare the
/// submitted password against the stored hash. A missing user and a
/// wrong password yield the identical generic error.
pub fn login(conn: &Database, form: &NewUser) -> (r: Result<User, AuthError>)
    ensures
        r is Ok <==> spec_login(conn.users_view(), form.username@, form.password@) is Ok,
        r matches Ok(u) ==> Ok::<UserView, AuthError>(u@) == spec_login(
            conn.users_view(),
            form.username@,
            form.password@,
        ),
        r matches Err(e) ==> Err::<UserView, AuthError>(e) == spec_login(
            conn.users_view(),
            form.username@,
            form.password@,
        ),
{
    let found = match get_user_by_username(conn, form.username.as_str()) {
        Ok(found) => found,
        Err(_) => None,
    };
    let user = match found {
        Some(user) => user,
        None => {
            return Err(AuthError::InvalidCredentials);
        },
    };
    if form.compare_against(user.get_password()) {
        Ok(user)
    } else {
        Err(AuthError::InvalidCredentials)
    }
}

/// Login never reports which of the two checks failed: every failing
/// login resolves to the one generic `InvalidCredentials` value, whether
/// the username is unknown or the password does not verify.
pub proof fn lemma_login_generic_error(
    users: Seq<UserView>,
    username: Seq<char>,
    password: Seq<char>,
)
    ensures
        spec_login(users, username, password) is Err ==> spec_login(users, username, password)
            == Err::<UserView, AuthError>(AuthError::InvalidCredentials),
{
}

/// Login with a correct password succeeds: when some user carries the
/// submitted username and the password verifies against the hash stored
/// for the first such user, login yields exactly that user.
pub proof fn lemma_login_correct_password(
    users: Seq<UserView>,
    username: Seq<char>,
    password: Seq<char>,
)
    ensures
        ({
            let i = spec_first_user_index(users, username);
            i >= 0 && argon2_verifies(users[i].password, password) ==> spec_login(
                users,
                username,
                password,
            ) == Ok::<UserView, AuthError>(users[i])
        }),
{
}

} // verus!
