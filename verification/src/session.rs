//! Session credentials: the opaque bearer tokens handed to logged-in users.

use vstd::prelude::*;
use rand::Rng;

verus! {

/// The number of characters in a fresh session token.
pub const TOKEN_LEN: usize = 24;

/// Whether a character is one of the sixty-two ASCII letters and digits
/// that tokens are drawn from.
pub open spec fn is_alnum_char(c: char) -> bool {
    ('a' <= c && c <= 'z') || ('A' <= c && c <= 'Z') || ('0' <= c && c <= '9')
}

/// A credential a session presents: an opaque bearer token.
#[derive(Clone, Debug)]
pub enum Cred {
    Token(String),
}

impl Cred {
    /// A fresh random bearer token: `TOKEN_LEN` characters, each an ASCII
    /// letter or digit.
    pub fn new_token() -> (c: Cred)
        ensures
            c matches Cred::Token(t) && t@.len() == TOKEN_LEN && forall|i: int|
                0 <= i < t@.len() ==> is_alnum_char(#[trigger] t@[i]),
    {
        Cred::Token(rand_alnum_string(TOKEN_LEN))
    }

    /// The token's text.
    pub fn text(&self) -> (t: &String)
        ensures
            self matches Cred::Token(s) && t@ == s@,
    {
        match self {
            Cred::Token(t) => t,
        }
    }
}

/// Relies on rand's `Alphanumeric` distribution: every sample is one of the
/// sixty-two ASCII letters and digits, and `n` samples are taken. Which
/// characters come back depends on the thread's generator, so only their
/// number and alphabet are stated.
#[verifier::external_body]
fn rand_alnum_string(n: usize) -> (t: String)
    ensures
        t@.len() == n,
        forall|i: int| 0 <= i < t@.len() ==> is_alnum_char(#[trigger] t@[i]),
{
    let mut rng = rand::thread_rng();
    std::iter::repeat(()).map(|()| char::from(rng.sample(rand::distributions::Alphanumeric))).take(
        n,
    ).collect()
}

} // verus!
