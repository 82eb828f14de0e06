use vstd::prelude::*;

use rand::RngExt;

use crate::db::DbError;
use crate::entity::user;

verus! {

/// An ASCII letter, `A`-`Z` or `a`-`z`.
pub open spec fn is_ascii_letter(c: char) -> bool {
    ||| ('A' as u32) <= (c as u32) <= ('Z' as u32)
    ||| ('a' as u32) <= (c as u32) <= ('z' as u32)
}

/// The length of every login token.
pub const TOKEN_LENGTH: usize = 128;

/// Appends a character (`String::push`).
pub assume_specification[ String::push ](s: &mut String, ch: char)
    ensures
        final(s)@ == old(s)@.push(ch),
;

/// A seeded `rand` generator (ChaCha12), carried through unopened.
#[verifier::external_type_specification]
#[verifier::external_body]
pub struct ExStdRng(rand::rngs::StdRng);

/// Seeds a generator from the operating system through
/// `rand::rngs::StdRng::try_from_rng(&mut rand::rngs::SysRng)`; `None` when
/// the operating system reports an error. Nothing else is claimed: whether
/// seeding fails is up to the operating system.
#[verifier::external_body]
fn seeded_generator() -> (rng: Option<rand::rngs::StdRng>)
{
    match <rand::rngs::StdRng as rand::SeedableRng>::try_from_rng(&mut rand::rngs::SysRng) {
        Ok(rng) => Some(rng),
        Err(_) => None,
    }
}

/// Draws one letter through `rng.sample(rand::distr::Alphabetic)`. Claimed:
/// the letter is an ASCII letter (the distribution offsets a uniform draw
/// from 0..52 onto `A`-`Z`, `a`-`z`); which one is chance. Sampling a seeded
/// generator cannot fail.
#[verifier::external_body]
fn random_letter(rng: &mut rand::rngs::StdRng) -> (c: char)
    ensures
        is_ascii_letter(c),
{
    rng.sample(rand::distr::Alphabetic) as char
}

/// `length` letters drawn from `rng`.
pub fn gen_token_from(rng: &mut rand::rngs::StdRng, length: usize) -> (token: String)
    ensures
        token@.len() == length,
        forall|i: int| 0 <= i < length ==> is_ascii_letter(#[trigger] token@[i]),
{
    let mut token = String::new();
    let mut k: usize = 0;
    while k < length
        invariant
            k <= length,
            token@.len() == k,
            forall|i: int| 0 <= i < k ==> is_ascii_letter(#[trigger] token@[i]),
        decreases length - k,
    {
        let c = random_letter(rng);
        token.push(c);
        k = k + 1;
    }
    token
}

/// A random token of `length` ASCII letters from a freshly seeded
/// generator; `None` when the operating system could not seed it.
pub fn gen_token(length: usize) -> (token: Option<String>)
    ensures
        token matches Some(t) ==> t@.len() == length && forall|i: int|
            0 <= i < length ==> is_ascii_letter(#[trigger] t@[i]),
{
    match seeded_generator() {
        None => None,
        Some(mut rng) => Some(gen_token_from(&mut rng, length)),
    }
}

/// `record` is a record made for `form`: its name and password, id 0, and a
/// token of `TOKEN_LENGTH` ASCII letters.
pub open spec fn is_new_user_record(form: user::Model, record: user::Model) -> bool {
    &&& record.id == 0
    &&& record.user_name == form.user_name
    &&& record.password == form.password
    &&& record.token@.len() == TOKEN_LENGTH
    &&& forall|i: int| 0 <= i < TOKEN_LENGTH ==> is_ascii_letter(#[trigger] record.token@[i])
}

/// Why a user could not be created.
#[derive(Clone, Debug, PartialEq, Eq)]
pub enum CreateUserError {
    /// No token could be drawn: the system random generator failed.
    NoRandomSource,
    /// The store refused the record because the name is taken.
    NameTaken,
    /// The store failed otherwise.
    Store(DbError),
}

/// The record stored for `form` once `token` was drawn: the form's name and
/// password with that token; the id is left at 0 for the store to assign.
pub fn user_record(form: user::Model, token: String) -> (r: user::Model)
    ensures
        r == (user::Model { id: 0, token, ..form }),
{
    user::Model { id: 0, token, ..form }
}

/// The record `create_user` stores for `form`: `user_record` with a fresh
/// token of `TOKEN_LENGTH` letters. When no token can be drawn, the user
/// cannot be created, and the error says so.
pub fn new_user_record(form: user::Model) -> (r: Result<user::Model, CreateUserError>)
    ensures
        match r {
            Ok(record) => is_new_user_record(form, record) && record == (user::Model {
                id: 0,
                token: record.token,
                ..form
            }),
            Err(e) => e == CreateUserError::NoRandomSource,
        },
{
    match gen_token(TOKEN_LENGTH) {
        None => Err(CreateUserError::NoRandomSource),
        Some(token) => Ok(user_record(form, token)),
    }
}

} // verus!
