use vstd::prelude::*;

verus! {

/// A registered user as the server stores it; `token` is the secret the
/// session cookie carries.
#[derive(Clone, Debug, PartialEq, Eq)]
pub struct Model {
    pub id: u32,
    pub user_name: String,
    pub password: String,
    pub token: String,
}

} // verus!
