//! The privileged user's password check.

use vstd::prelude::*;

verus! {

/// A login attempt.
pub struct LoginForm {
    pub password: String,
}

/// What bcrypt answers when asked whether `password` matches the stored
/// `hash`: `Some(true)` or `Some(false)`, or `None` where it reports an error
/// (a hash that is not a bcrypt hash).
pub uninterp spec fn bcrypt_verdict(password: Seq<char>, hash: Seq<char>) -> Option<bool>;

/// Relies on `bcrypt::verify`, whose answer depends on the password and the
/// hash alone (the salt and cost are read from the hash).
#[verifier::external_body]
fn bcrypt_verify(password: &str, hash: &str) -> (r: Option<bool>)
    ensures
        r == bcrypt_verdict(password@, hash@),
{
    bcrypt::verify(password, hash).ok()
}

/// Whether bcrypt's answer grants privilege: only a plain yes does.
pub fn login_granted(verdict: Option<bool>) -> (r: bool)
    ensures
        r == (verdict == Some(true)),
{
    match verdict {
        Some(ok) => ok,
        None => false,
    }
}

/// Whether a login attempt gives privilege: only when bcrypt says that the
/// password matches the stored hash; a malformed hash admits nobody.
pub fn admin_login(form: &LoginForm, admin_hashed_password: &String) -> (r: bool)
    ensures
        r == (bcrypt_verdict(form.password@, admin_hashed_password@) == Some(true)),
{
    let verdict = bcrypt_verify(form.password.as_str(), admin_hashed_password.as_str());
    login_granted(verdict)
}

} // verus!
