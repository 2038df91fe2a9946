//! Passwords, recovery codes and security answers: what signing in, a
//! password change and the two recovery paths check, with bcrypt hashes.

use vstd::prelude::*;
use vstd::string::StringSliceAdditionalSpecFns;
use crate::models::SessionPayload;
use crate::text::{trim, trim_str};
use crate::access::short_password_message;

verus! {

/// What `bcrypt::verify` returns for a password and a stored hash: whether
/// they match, or the text of the error (a malformed hash).
pub uninterp spec fn bcrypt_verify_result(password: Seq<char>, hash: Seq<char>) -> Result<bool, Seq<char>>;

/// `str::to_lowercase` of a text.
pub uninterp spec fn lowercase_of(text: Seq<char>) -> Seq<char>;

/// Calls `bcrypt::verify`. Claimed: the outcome is `bcrypt_verify_result`
/// of the password and the hash, the error taken as its text.
#[verifier::external_body]
fn bcrypt_verify(password: &str, hash: &str) -> (r: Result<bool, String>)
    ensures
        match r {
            Ok(b) => bcrypt_verify_result(password@, hash@) == Ok::<bool, Seq<char>>(b),
            Err(e) => bcrypt_verify_result(password@, hash@) == Err::<bool, Seq<char>>(e@),
        },
{
    match bcrypt::verify(password, hash) {
        Ok(b) => Ok(b),
        Err(e) => Err(e.to_string()),
    }
}

/// Calls `bcrypt::hash` with `DEFAULT_COST` (a fresh random salt each
/// time). Claimed: a hash it returns verifies against the same password
/// (`verify` recomputes the hash with the stored cost and salt). The error
/// text, which only a failure of the system's randomness produces, is not
/// stated.
#[verifier::external_body]
fn bcrypt_hash(password: &str) -> (r: Result<String, String>)
    ensures
        match r {
            Ok(h) => bcrypt_verify_result(password@, h@) == Ok::<bool, Seq<char>>(true),
            Err(_) => true,
        },
{
    match bcrypt::hash(password, bcrypt::DEFAULT_COST) {
        Ok(h) => Ok(h),
        Err(e) => Err(e.to_string()),
    }
}

/// Calls `str::to_lowercase`. Claimed: the result is `lowercase_of` the
/// text.
#[verifier::external_body]
fn to_lower(text: &str) -> (r: String)
    ensures
        r@ == lowercase_of(text@),
{
    text.to_lowercase()
}

/// A password hashed for storage.
pub fn hash_password(password: &str) -> (r: Result<String, String>)
    ensures
        r matches Ok(h) ==> bcrypt_verify_result(password@, h@) == Ok::<bool, Seq<char>>(true),
{
    bcrypt_hash(password)
}

/// A security answer as it is hashed and compared: trimmed, lower-case.
pub fn normalize_answer(answer: &str) -> (r: String)
    ensures
        r@ == lowercase_of(trim(answer@)),
{
    let t = trim_str(answer);
    to_lower(t.as_str())
}

/// The stored row of a user who signs in.
pub struct UserRow {
    pub id: i64,
    pub username: String,
    pub display_name: String,
    pub password_hash: String,
    pub role: String,
    pub org_id: Option<i64>,
}

/// Signing in: an unknown user and a wrong password both give "Invalid
/// username or password"; a malformed stored hash gives bcrypt's error;
/// a matching password opens a session for the user.
pub fn login_session(row: Option<UserRow>, password: &str) -> (r: Result<SessionPayload, String>)
    ensures
        match row {
            None => r matches Err(m) && m@ == "Invalid username or password"@,
            Some(u) => match bcrypt_verify_result(password@, u.password_hash@) {
                Ok(true) => r matches Ok(s) && s.user_id == u.id && s.username@ == u.username@ && s.display_name@
                    == u.display_name@ && s.role@ == u.role@ && s.org_id == u.org_id,
                Ok(false) => r matches Err(m) && m@ == "Invalid username or password"@,
                Err(e) => r matches Err(m) && m@ == e,
            },
        },
{
    let u = match row {
        Some(u) => u,
        None => return Err(String::from_str("Invalid username or password")),
    };
    match bcrypt_verify(password, u.password_hash.as_str()) {
        Err(e) => Err(e),
        Ok(false) => Err(String::from_str("Invalid username or password")),
        Ok(true) => Ok(
            SessionPayload {
                user_id: u.id,
                username: u.username,
                display_name: u.display_name,
                role: u.role,
                org_id: u.org_id,
            },
        ),
    }
}

/// A password change: the old password must match the stored hash; the
/// result is the hash to store for the new password.
pub fn change_password_hash(old_password: &str, stored_hash: &str, new_password: &str) -> (r: Result<String, String>)
    ensures
        bcrypt_verify_result(old_password@, stored_hash@) matches Err(e) ==> (r matches Err(m) && m@ == e),
        bcrypt_verify_result(old_password@, stored_hash@) == Ok::<bool, Seq<char>>(false) ==> (r matches Err(m)
            && m@ == "Old password incorrect"@),
        r is Ok ==> bcrypt_verify_result(old_password@, stored_hash@) == Ok::<bool, Seq<char>>(true),
        r matches Ok(h) ==> bcrypt_verify_result(new_password@, h@) == Ok::<bool, Seq<char>>(true),
{
    match bcrypt_verify(old_password, stored_hash) {
        Err(e) => Err(e),
        Ok(false) => Err(String::from_str("Old password incorrect")),
        Ok(true) => bcrypt_hash(new_password),
    }
}

/// Message for a recovery whose secret was never set up.
pub open spec fn not_set_up(use_code: bool) -> Seq<char> {
    if use_code { "Recovery code is not set up"@ } else { "Security answer is not set up"@ }
}

/// Message for a wrong recovery secret.
pub open spec fn wrong_secret(use_code: bool) -> Seq<char> {
    if use_code { "Invalid recovery code"@ } else { "Incorrect answer"@ }
}

/// The checks of a password reset by recovery code (`use_code`) or by
/// security answer: the new password must have at least 6 bytes, a secret
/// must be set up, and the given secret (the answer trimmed and in lower
/// case) must match its hash; a bcrypt error counts as no match.
pub fn check_recovery(use_code: bool, new_password: &str, stored_hash: &Option<String>, secret: &str) -> (r: Result<(), String>)
    ensures
        new_password.spec_bytes().len() < 6 ==> (r matches Err(m) && m@ == short_password_message(6)),
        new_password.spec_bytes().len() >= 6 && stored_hash is None ==> (r matches Err(m) && m@ == not_set_up(use_code)),
        new_password.spec_bytes().len() >= 6 && stored_hash is Some ==> {
            let given = if use_code { secret@ } else { lowercase_of(trim(secret@)) };
            if bcrypt_verify_result(given, stored_hash->0@) == Ok::<bool, Seq<char>>(true) {
                r is Ok
            } else {
                r matches Err(m) && m@ == wrong_secret(use_code)
            }
        },
{
    match crate::access::check_password_length(new_password, 6) {
        Err(e) => return Err(e),
        Ok(()) => {},
    }
    let hash = match stored_hash {
        Some(h) => h,
        None => {
            if use_code {
                return Err(String::from_str("Recovery code is not set up"));
            } else {
                return Err(String::from_str("Security answer is not set up"));
            }
        },
    };
    let given = if use_code { String::from_str(secret) } else { normalize_answer(secret) };
    let ok = match bcrypt_verify(given.as_str(), hash.as_str()) {
        Ok(b) => b,
        Err(_) => false,
    };
    if ok {
        Ok(())
    } else if use_code {
        Err(String::from_str("Invalid recovery code"))
    } else {
        Err(String::from_str("Incorrect answer"))
    }
}

// ── Recovery codes ───────────────────────────────────────────────────────────

/// The characters of a recovery code.
pub open spec fn recovery_charset() -> Seq<char> {
    "ABCDEFGHIJKLMNOPQRSTUVWXYZ0123456789"@
}

/// A uniformly random index below `n` (`rand::thread_rng().gen_range(0..n)`).
/// Only the bound is stated: the index is chance.
#[verifier::external_body]
fn random_below(n: usize) -> (r: usize)
    requires
        n > 0,
    ensures
        r < n,
{
    rand::Rng::gen_range(&mut rand::thread_rng(), 0..n)
}

/// The recovery code of 32 charset positions: character `i` is the
/// charset's character at `idx[i]`.
pub open spec fn recovery_code_text(idx: Seq<usize>) -> Seq<char> {
    Seq::new(32, |i: int| recovery_charset()[idx[i] as int])
}

/// The recovery code whose characters are the charset's characters at the
/// given positions.
pub fn recovery_code_from(idx: &Vec<usize>) -> (r: String)
    requires
        idx@.len() == 32,
        forall|i: int| 0 <= i < 32 ==> #[trigger] idx@[i] < 36,
    ensures
        r@ == recovery_code_text(idx@),
{
    let charset = "ABCDEFGHIJKLMNOPQRSTUVWXYZ0123456789";
    proof {
        reveal_strlit("ABCDEFGHIJKLMNOPQRSTUVWXYZ0123456789");
        assert(charset@.len() == 36);
    }
    let mut r = String::new();
    let mut k: usize = 0;
    while k < 32
        invariant
            charset@ == recovery_charset(),
            charset@.len() == 36,
            idx@.len() == 32,
            forall|i: int| 0 <= i < 32 ==> #[trigger] idx@[i] < 36,
            k <= 32,
            r@ =~= recovery_code_text(idx@).subrange(0, k as int),
        decreases 32 - k,
    {
        let p = idx[k];
        assert(idx@[k as int] < 36);
        let c = charset.substring_char(p, p + 1);
        r.append(c);
        proof {
            assert(c@.len() == 1);
            assert(c@[0] == charset@[p as int]);
            assert(r@ =~= recovery_code_text(idx@).subrange(0, k + 1));
        }
        k = k + 1;
    }
    assert(r@ =~= recovery_code_text(idx@));
    r
}

/// A random recovery code: 32 characters, each drawn uniformly from the
/// upper-case letters and digits.
pub fn generate_recovery_code() -> (r: String)
    ensures
        exists|idx: Seq<usize>|
            idx.len() == 32 && (forall|i: int| 0 <= i < 32 ==> #[trigger] idx[i] < 36) && r@ == recovery_code_text(idx),
        r@.len() == 32,
        forall|i: int| 0 <= i < 32 ==> recovery_charset().contains(#[trigger] r@[i]),
{
    let mut idx: Vec<usize> = Vec::new();
    let mut k: usize = 0;
    while k < 32
        invariant
            k <= 32,
            idx@.len() == k,
            forall|i: int| 0 <= i < k ==> #[trigger] idx@[i] < 36,
        decreases 32 - k,
    {
        idx.push(random_below(36));
        k = k + 1;
    }
    let r = recovery_code_from(&idx);
    proof {
        reveal_strlit("ABCDEFGHIJKLMNOPQRSTUVWXYZ0123456789");
        assert forall|i: int| 0 <= i < 32 implies recovery_charset().contains(#[trigger] r@[i]) by {
            assert(r@[i] == recovery_charset()[idx@[i] as int]);
        }
    }
    r
}

} // verus!
