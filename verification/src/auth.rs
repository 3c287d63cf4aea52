//! Accounts: the signed-in user, credentials, and password hashing.
use vstd::prelude::*;

use argon2::password_hash::rand_core::OsRng;
use argon2::password_hash::SaltString;
use argon2::{Argon2, PasswordHash, PasswordHasher, PasswordVerifier};
use vstd::utf8::encode_utf8;

use crate::errors::{AppError, BAD_REQUEST, INTERNAL_SERVER_ERROR, UNAUTHORIZED};
use crate::text::{chars_of, push_str_chars, starts_with, string_of, trim, trim_chars};

verus! {

/// The session key holding the signed-in user's id.
pub const USER_ID_KEY: &'static str = "user_id";

/// The user a request is made by, as the session says.
pub struct AuthUser {
    pub user_id: i64,
}

/// The body of a register or login request.
pub struct AuthRequest {
    pub email: String,
    pub password: String,
}

// -- Outside functions ------------------------------------------------------

/// What `str::to_lowercase` gives for `s` (full Unicode case mapping).
pub uninterp spec fn lowercase(s: Seq<char>) -> Seq<char>;

/// `str::to_lowercase`: its result is `lowercase` of the argument.
#[verifier::external_body]
fn to_lowercase(s: &str) -> (r: String)
    ensures
        r@ == lowercase(s@),
{
    s.to_lowercase()
}

/// Whether `PasswordHash::new` (password-hash) parses `hash` as a PHC string.
pub uninterp spec fn phc_parses(hash: Seq<char>) -> bool;

/// Whether Argon2 (default configuration) accepts `password` against the
/// parsed PHC string `hash` (`PasswordVerifier::verify_password` is `Ok`).
pub uninterp spec fn argon2_accepts(password: Seq<char>, hash: Seq<char>) -> bool;

/// `PasswordHash::new(hash)`, then `Argon2::default().verify_password` on
/// the UTF-8 bytes of `password`: `None` when the hash does not parse, else
/// whether the password verifies. The contract claims only that these two
/// outcomes are the named results of the two calls.
#[verifier::external_body]
fn argon2_check(password: &str, hash: &str) -> (r: Option<bool>)
    ensures
        r is None <==> !phc_parses(hash@),
        r matches Some(b) ==> b == argon2_accepts(password@, hash@),
{
    match PasswordHash::new(hash) {
        Ok(parsed) => Some(Argon2::default().verify_password(password.as_bytes(), &parsed).is_ok()),
        Err(_) => None,
    }
}

/// `Argon2::default().hash_password` of the UTF-8 bytes of `password` with a
/// fresh salt from `SaltString::generate(&mut OsRng)`, as a PHC string; the
/// error's text on failure. The salt is random, so nothing is claimed of the
/// hash itself but what password-hash's verifier is built for: the PHC
/// string parses, and verifying the same password against it succeeds (the
/// verifier recomputes the hash with the parameters and salt of the string).
/// With the default parameters and a 16-byte salt, the one input check that
/// can fail is the password's length: argon2 refuses one of more than
/// `MAX_PWD_LEN` (0xFFFF_FFFF) bytes with `PwdTooLong`, and hashes any other.
#[verifier::external_body]
fn argon2_hash(password: &str) -> (r: Result<String, String>)
    ensures
        r is Ok <==> encode_utf8(password@).len() <= MAX_PASSWORD_BYTES,
        r matches Ok(h) ==> phc_parses(h@) && argon2_accepts(password@, h@),
{
    let salt = SaltString::generate(&mut OsRng);
    match Argon2::default().hash_password(password.as_bytes(), &salt) {
        Ok(h) => Ok(h.to_string()),
        Err(e) => Err(e.to_string()),
    }
}

/// The longest password argon2 hashes, in UTF-8 bytes.
pub const MAX_PASSWORD_BYTES: u64 = 0xFFFF_FFFF;

/// Lower-cases `s` as `str::to_lowercase` does.
pub fn lowercase_text(s: &str) -> (r: String)
    ensures
        r@ == lowercase(s@),
{
    to_lowercase(s)
}

/// The error for a failed insert of a new account: a uniqueness violation
/// means the address is taken; anything else is a database error.
pub fn register_insert_error(constraint_violation: bool) -> (e: AppError)
    ensures
        constraint_violation ==> e.status == BAD_REQUEST && e.message@
            == "Email already registered"@,
        !constraint_violation ==> e.status == INTERNAL_SERVER_ERROR && e.message@
            == "Database error"@,
{
    if constraint_violation {
        AppError::bad_request("Email already registered")
    } else {
        AppError::database()
    }
}

// -- Credentials ------------------------------------------------------------

/// An e-mail address as accounts are keyed: trimmed and lower-cased.
pub open spec fn normalized_email(email: Seq<char>) -> Seq<char> {
    lowercase(trim(email))
}

/// Trims and lower-cases an e-mail address.
pub fn normalize_email(email: &str) -> (r: String)
    ensures
        r@ == normalized_email(email@),
{
    let trimmed = string_of(&trim_chars(&chars_of(email)));
    to_lowercase(trimmed.as_str())
}

/// Whether a registration is refused: an empty address or a password of
/// fewer than 8 bytes.
pub open spec fn registration_refused(req: AuthRequest) -> bool {
    normalized_email(req.email@).len() == 0 || (encode_utf8(req.password@).len() as usize) < 8
}

/// A registration is refused exactly when the e-mail address is blank once
/// trimmed and lower-cased, or the password has fewer than 8 UTF-8 bytes
/// (of a password whose byte length is a machine length).
pub proof fn law_registration_rule(req: AuthRequest)
    requires
        encode_utf8(req.password@).len() <= usize::MAX,
    ensures
        registration_refused(req) <==> (lowercase(trim(req.email@)).len() == 0 || encode_utf8(
            req.password@,
        ).len() < 8),
{
}

/// Checks a registration request; gives the normalized e-mail address.
pub fn check_registration(req: &AuthRequest) -> (r: Result<String, AppError>)
    ensures
        lowercase(trim(req.email@)).len() > 0 && encode_utf8(req.password@).len() >= 8
            && encode_utf8(req.password@).len() <= usize::MAX ==> (r matches Ok(email) && email@
            == lowercase(trim(req.email@))),
        lowercase(trim(req.email@)).len() == 0 || encode_utf8(req.password@).len() < 8 ==> (
        r matches Err(e) && e.status == BAD_REQUEST && e.message@
            == "Email required, password must be >= 8 chars"@),
        registration_refused(*req) ==> (r matches Err(e) && e.status == BAD_REQUEST && e.message@
            == "Email required, password must be >= 8 chars"@),
        !registration_refused(*req) ==> (r matches Ok(email) && email@ == normalized_email(
            req.email@,
        )),
{
    let email = normalize_email(req.email.as_str());
    if email.as_str().is_empty() || req.password.as_str().len() < 8 {
        return Err(AppError::bad_request("Email required, password must be >= 8 chars"));
    }
    Ok(email)
}

// -- Password helpers -------------------------------------------------------

/// Whether `password` verifies against the stored hash.
pub open spec fn password_verifies(password: Seq<char>, hash: Seq<char>) -> bool {
    phc_parses(hash) && argon2_accepts(password, hash)
}

/// Hashes a password with Argon2 and a random salt. The hash it gives
/// verifies the same password. Hashing fails only on a password of more
/// than `MAX_PASSWORD_BYTES` bytes.
pub fn hash_password(password: &str) -> (r: Result<String, AppError>)
    ensures
        r is Ok <==> encode_utf8(password@).len() <= MAX_PASSWORD_BYTES,
        r matches Ok(h) ==> password_verifies(password@, h@),
        r matches Err(e) ==> e.status == INTERNAL_SERVER_ERROR && starts_with(
            e.message@,
            "hash error: "@,
        ),
{
    match argon2_hash(password) {
        Ok(h) => Ok(h),
        Err(msg) => {
            let mut text: Vec<char> = Vec::new();
            push_str_chars(&mut text, "hash error: ");
            push_str_chars(&mut text, msg.as_str());
            assert(text@.take("hash error: "@.len() as int) =~= "hash error: "@);
            Err(AppError::internal(string_of(&text).as_str()))
        },
    }
}

/// Checks a password against a stored hash: a hash that does not parse is
/// an internal error; a password that does not verify is unauthorized.
pub fn verify_password(password: &str, hash: &str) -> (r: Result<(), AppError>)
    ensures
        !phc_parses(hash@) ==> (r matches Err(e) && e.status == INTERNAL_SERVER_ERROR
            && e.message@ == "bad hash"@),
        phc_parses(hash@) && !argon2_accepts(password@, hash@) ==> (r matches Err(e) && e.status
            == UNAUTHORIZED && e.message@ == "Unauthorized"@),
        r is Ok <==> password_verifies(password@, hash@),
{
    match argon2_check(password, hash) {
        None => Err(AppError::internal("bad hash")),
        Some(false) => Err(AppError::unauthorized()),
        Some(true) => Ok(()),
    }
}

} // verus!
