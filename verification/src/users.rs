//! Authentication principals: new-user forms with salted password hashing,
//! and stored user rows.
use vstd::prelude::*;

verus! {

/// Whether argon2's `verify_encoded(encoded, password)` accepts the
/// password for the encoded hash. The outcome is a pure function of the
/// two strings, computed by the outside crate, so it is only named here.
pub uninterp spec fn argon2_verifies(encoded: Seq<char>, password: Seq<char>) -> bool;

/// Relies on rand::random: a fresh salt of 16 random bytes. The draw
/// depends on the generator's state, so only the length is promised.
#[verifier::external_body]
fn random_salt() -> (r: Vec<u8>)
    ensures
        r@.len() == 16,
{
    rand::random::<[u8; 16]>().to_vec()
}

/// Relies on argon2::hash_encoded (rust-argon2): hashes the password with
/// the given salt and the crate's default configuration, returning the
/// encoded hash string. With a salt of 8 to 2^32 - 1 bytes and a password
/// below 2^30 characters every parameter check in the crate passes, so the
/// call cannot fail. The crate documents that `verify_encoded` accepts the
/// hashed password against the returned encoding, which is all that is
/// stated of the result.
#[verifier::external_body]
fn argon2_hash_encoded(password: &str, salt: &[u8]) -> (r: String)
    requires
        8 <= salt@.len() <= 0xFFFF_FFFF,
        password@.len() <= 0x3FFF_FFFF,
    ensures
        argon2_verifies(r@, password@),
{
    argon2::hash_encoded(password.as_bytes(), salt, &argon2::Config::default())
        .expect("argon2 hashing with a valid salt cannot fail")
}

/// Relies on argon2::verify_encoded (rust-argon2): whether the password
/// matches the encoded hash; a malformed encoding counts as a mismatch.
#[verifier::external_body]
fn argon2_verify_encoded(encoded: &str, password: &str) -> (r: bool)
    ensures
        r == argon2_verifies(encoded@, password@),
{
    argon2::verify_encoded(encoded, password.as_bytes()).unwrap_or(false)
}

/// Hash a password with a fresh random 16-byte salt.
fn hash_str(input: &str) -> (r: String)
    requires
        input@.len() <= 0x3FFF_FFFF,
    ensures
        argon2_verifies(r@, input@),
{
    let salt = random_salt();
    argon2_hash_encoded(input, salt.as_slice())
}

/// A user as submitted at registration or login: a plain username and, at
/// first, a plaintext password.
pub struct NewUser {
    pub username: String,
    pub password: String,
}

impl NewUser {
    /// Replace the plaintext password with its salted argon2 hash. After
    /// this the plaintext is gone; only a verifying hash remains.
    pub fn hash_internal(&mut self)
        requires
            old(self).password@.len() <= 0x3FFF_FFFF,
        ensures
            final(self).username@ == old(self).username@,
            argon2_verifies(final(self).password@, old(self).password@),
    {
        let hashed = hash_str(self.password.as_str());
        self.password = hashed;
    }

    /// Check this form's plaintext password against a stored encoded hash.
    pub fn compare_against(&self, pass: &str) -> (r: bool)
        ensures
            r == argon2_verifies(pass@, self.password@),
    {
        argon2_verify_encoded(pass, self.password.as_str())
    }
}

/// A stored user row: the password field holds a salted argon2 hash,
/// never a plaintext password.
#[derive(Debug)]
pub struct User {
    pub id: i32,
    pub username: String,
    pub password: String,
    pub is_admin: bool,
}

/// The mathematical content of one user row.
pub struct UserView {
    pub id: i32,
    pub username: Seq<char>,
    pub password: Seq<char>,
    pub is_admin: bool,
}

impl View for User {
    type V = UserView;

    open spec fn view(&self) -> UserView {
        UserView {
            id: self.id,
            username: self.username@,
            password: self.password@,
            is_admin: self.is_admin,
        }
    }
}

impl DeepView for User {
    type V = UserView;

    open spec fn deep_view(&self) -> UserView {
        self@
    }
}

impl User {
    pub fn get_id(&self) -> (r: i32)
        ensures
            r == self.id,
    {
        self.id
    }

    pub fn get_username(&self) -> (r: &str)
        ensures
            r@ == self.username@,
    {
        self.username.as_str()
    }

    /// The stored encoded password hash.
    pub fn get_password(&self) -> (r: &str)
        ensures
            r@ == self.password@,
    {
        self.password.as_str()
    }

    pub fn new(id: i32, username: &str, password: &str, is_admin: bool) -> (r: User)
        ensures
            r.id == id,
            r.username@ == username@,
            r.password@ == password@,
            r.is_admin == is_admin,
    {
        User { id, username: username.to_owned(), password: password.to_owned(), is_admin }
    }

    /// An owned copy of this user.
    pub fn to_owned(&self) -> (r: User)
        ensures
            r@ == self@,
    {
        User {
            id: self.id,
            username: self.username.clone(),
            password: self.password.clone(),
            is_admin: self.is_admin,
        }
    }
}

impl Clone for User {
    fn clone(&self) -> (r: Self)
        ensures
            r@ == self@,
    {
        self.to_owned()
    }
}

} // verus!
