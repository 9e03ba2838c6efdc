//! Password hashes in the PHC string format, checked and made with Argon2.

use vstd::prelude::*;
use vstd::utf8::encode_utf8;
use crate::error::{is_invalid_credentials, is_unexpected, KBError, KBResult};

verus! {

/// What a user offers to log in.
pub struct Credentials {
    pub username: String,
    pub password: String,
}

/// Whether `argon2::PasswordHash::new` accepts `phc` as a PHC string.
pub uninterp spec fn phc_parses(phc: Seq<char>) -> bool;

/// Whether `Argon2::default().verify_password` accepts the UTF-8 bytes of
/// `password` for the parsed PHC string `phc`.
pub uninterp spec fn argon2_accepts(phc: Seq<char>, password: Seq<char>) -> bool;

/// How a password fared against a stored PHC string.
pub enum HashCheck {
    /// The stored string is not a PHC string.
    Malformed,
    /// The password does not match.
    Mismatch,
    /// The password matches.
    Match,
}

/// What [`check_against_phc`] answers for `phc` and `password`.
pub open spec fn hash_check(phc: Seq<char>, password: Seq<char>) -> HashCheck {
    if !phc_parses(phc) {
        HashCheck::Malformed
    } else if argon2_accepts(phc, password) {
        HashCheck::Match
    } else {
        HashCheck::Mismatch
    }
}

/// Parses `phc` with `argon2::PasswordHash::new` and, where it parses, checks
/// `password` against it with `PasswordVerifier::verify_password` of
/// `Argon2::default()` (which takes algorithm, version and parameters from
/// the PHC string). Both outcomes are functions of the two strings alone;
/// this contract names them and states nothing of their inner workings.
#[verifier::external_body]
fn check_against_phc(phc: &str, password: &str) -> (r: HashCheck)
    ensures
        r == hash_check(phc@, password@),
{
    match argon2::PasswordHash::new(phc) {
        Err(_) => HashCheck::Malformed,
        Ok(hash) => match argon2::PasswordVerifier::verify_password(
            &argon2::Argon2::default(),
            password.as_bytes(),
            &hash,
        ) {
            Ok(()) => HashCheck::Match,
            Err(_) => HashCheck::Mismatch,
        },
    }
}

/// Whether `c` belongs to the standard Base64 alphabet.
pub open spec fn is_b64_char(c: char) -> bool {
    ('A' <= c && c <= 'Z') || ('a' <= c && c <= 'z') || ('0' <= c && c <= '9') || c == '+' || c
        == '/'
}

/// Whether `s` is the unpadded standard Base64 encoding of 16 bytes: 22
/// characters of the alphabet, the last of which carries no bits beyond the
/// 128 encoded.
pub open spec fn canonical_b64_salt(s: Seq<char>) -> bool {
    &&& s.len() == 22
    &&& forall|i: int| 0 <= i < s.len() ==> is_b64_char(#[trigger] s[i])
    &&& (s[21] == 'A' || s[21] == 'Q' || s[21] == 'g' || s[21] == 'w')
}

/// Whether `argon2::Params::new` accepts the costs: at least 8 KiB of memory
/// and 8 KiB per lane, at least one pass, and between 1 and 2^24 - 1 lanes.
pub open spec fn argon2_costs_accepted(m_cost: u32, t_cost: u32, p_cost: u32) -> bool {
    &&& m_cost >= 8
    &&& m_cost >= 8 * p_cost
    &&& t_cost >= 1
    &&& 1 <= p_cost <= 0xff_ffff
}

/// The decimal digits of `n`, without leading zeros.
pub open spec fn decimal(n: nat) -> Seq<char>
    decreases n,
{
    if n < 10 {
        seq![(48 + n) as char]
    } else {
        decimal(n / 10).push((48 + n % 10) as char)
    }
}

/// The B64 text of the 32-byte Argon2id (version 0x13) output for
/// `password` with the B64 salt `salt` and the costs `m_cost`, `t_cost`, `p_cost`.
pub uninterp spec fn argon2id_digest(password: Seq<char>, salt: Seq<char>, m_cost: u32, t_cost: u32, p_cost: u32) -> Seq<char>;

/// The PHC string of the Argon2id (version 0x13) hash of `password` with the
/// B64 salt `salt` and the costs `m_cost` (KiB), `t_cost` (passes) and
/// `p_cost` (lanes): algorithm, version, costs, salt and output, each after a `$`.
pub open spec fn argon2id_phc(password: Seq<char>, salt: Seq<char>, m_cost: u32, t_cost: u32, p_cost: u32) -> Seq<char> {
    argon2id_head(m_cost, t_cost, p_cost) + salt + "$"@ + argon2id_digest(
        password,
        salt,
        m_cost,
        t_cost,
        p_cost,
    )
}

/// The head of an Argon2id PHC string: algorithm, version and costs, each
/// after a `$`, and the `$` before the salt.
pub open spec fn argon2id_head(m_cost: u32, t_cost: u32, p_cost: u32) -> Seq<char> {
    "$argon2id$v=19$m="@ + decimal(m_cost as nat) + ",t="@ + decimal(t_cost as nat) + ",p="@
        + decimal(p_cost as nat) + "$"@
}

/// A fresh random salt: `SaltString::generate` fed by `rand::thread_rng()`,
/// as its B64 text. `generate` draws 16 random bytes and encodes them in
/// unpadded standard Base64, which gives 22 characters; which ones is left
/// to chance.
#[verifier::external_body]
fn random_salt() -> (salt: String)
    ensures
        canonical_b64_salt(salt@),
{
    argon2::password_hash::SaltString::generate(&mut rand::thread_rng()).as_str().to_owned()
}

/// The Argon2id (version 0x13) hash of `password` with the B64 salt `salt`
/// and the costs `m_cost` (KiB), `t_cost` (passes) and `p_cost` (lanes), as a
/// PHC string (see [`argon2id_phc`]); `None` where `SaltString::from_b64`,
/// `Params::new` or `hash_password` refuse. For a salt that encodes 16 bytes
/// and costs that `Params::new` accepts, only a password of more than
/// 2^32 - 1 bytes is refused. The PHC string that comes out parses, and
/// `verify_password` accepts the same password for it: verifying recomputes
/// the hash with the algorithm, version, parameters and salt that the string
/// records and compares the outputs. `p_cost` is bounded so that `Params::new`
/// does not overflow computing `8 * p_cost`; the `m_cost` KiB of working
/// memory are allocated, and a failed allocation aborts.
#[verifier::external_body]
fn argon2id_hash(password: &str, salt: &str, m_cost: u32, t_cost: u32, p_cost: u32) -> (r: Option<
    String,
>)
    requires
        p_cost <= 0x1fff_ffff,
    ensures
        r matches Some(h) ==> {
            &&& h@ == argon2id_head(m_cost, t_cost, p_cost) + salt@ + "$"@ + argon2id_digest(
                password@,
                salt@,
                m_cost,
                t_cost,
                p_cost,
            )
            &&& phc_parses(h@)
            &&& argon2_accepts(h@, password@)
        },
        canonical_b64_salt(salt@) && argon2_costs_accepted(m_cost, t_cost, p_cost) ==> (r is Some
            <==> encode_utf8(password@).len() <= 0xffff_ffff),
{
    let salt = argon2::password_hash::SaltString::from_b64(salt).ok()?;
    let params = argon2::Params::new(m_cost, t_cost, p_cost, None).ok()?;
    let hasher = argon2::Argon2::new(argon2::Algorithm::Argon2id, argon2::Version::V0x13, params);
    let hash = argon2::PasswordHasher::hash_password(&hasher, password.as_bytes(), &salt).ok()?;
    Some(hash.to_string())
}

/// What [`verify_password_hash`] answers when the stored hash is `expected`
/// and the password offered is `candidate`: an unexpected error where
/// `expected` is no PHC string, invalid credentials where the password does
/// not match, and success where it does.
pub open spec fn password_verdict(r: KBResult<()>, expected: Seq<char>, candidate: Seq<char>) -> bool {
    match hash_check(expected, candidate) {
        HashCheck::Malformed => r matches Err(e) && is_unexpected(
            e,
            "Failed to parse hash in PHC string format."@,
        ),
        HashCheck::Mismatch => r matches Err(e) && is_invalid_credentials(e, "Invalid password."@),
        HashCheck::Match => r is Ok,
    }
}

/// Checks the password `password_candidate` against the stored PHC string
/// `expected_password_hash` (see [`password_verdict`]).
pub fn verify_password_hash(expected_password_hash: String, password_candidate: String) -> (r:
    KBResult<()>)
    ensures
        password_verdict(r, expected_password_hash@, password_candidate@),
{
    match check_against_phc(expected_password_hash.as_str(), password_candidate.as_str()) {
        HashCheck::Malformed => Err(
            KBError::UnexpectedError("Failed to parse hash in PHC string format.".to_owned()),
        ),
        HashCheck::Mismatch => Err(KBError::InvalidCredentials("Invalid password.".to_owned())),
        HashCheck::Match => Ok(()),
    }
}

/// The PHC string that is checked when a username is unknown, so that an
/// unknown user takes as long to turn away as a wrong password.
pub const DUMMY_PASSWORD_HASH: &'static str = "$argon2id$v=19$m=15000,t=2,p=1$gZiV/M1gPc22ElAH/Jh1Hw$CWOrkoo7oJBQ/iyh7uJ0LO2aLEfrHwTWllSAxT0zRno";

/// The hash that credentials are checked against: the one stored for the
/// user, or [`DUMMY_PASSWORD_HASH`] where the username is unknown.
pub open spec fn expected_hash(stored: Option<(u128, String)>) -> Seq<char> {
    match stored {
        Some((_, hash)) => hash@,
        None => DUMMY_PASSWORD_HASH@,
    }
}

/// What [`validate_credentials`] answers when `stored` is what the database
/// holds for the username (the user's id and password hash, if the user
/// exists) and `password` is offered: the outcome of checking `password`
/// against [`expected_hash`] where that fails; otherwise the user's id, or
/// invalid credentials for an unknown username.
pub open spec fn credentials_verdict(r: KBResult<u128>, stored: Option<(u128, String)>, password: Seq<char>) -> bool {
    match hash_check(expected_hash(stored), password) {
        HashCheck::Malformed => r matches Err(e) && is_unexpected(
            e,
            "Failed to parse hash in PHC string format."@,
        ),
        HashCheck::Mismatch => r matches Err(e) && is_invalid_credentials(e, "Invalid password."@),
        HashCheck::Match => match stored {
            Some((id, _)) => r == Ok::<u128, KBError>(id),
            None => r matches Err(e) && is_invalid_credentials(e, "Unknown username."@),
        },
    }
}

/// Checks `credentials` given what the database holds for its username
/// (`stored`, see [`credentials_verdict`]). A password is checked even for an
/// unknown username, against [`DUMMY_PASSWORD_HASH`]; an unknown username is
/// never accepted.
pub fn validate_credentials(credentials: Credentials, stored: Option<(u128, String)>) -> (r: KBResult<
    u128,
>)
    ensures
        credentials_verdict(r, stored, credentials.password@),
        stored is None ==> r is Err,
{
    let (user_id, expected) = match stored {
        Some((id, hash)) => (Some(id), hash),
        None => (None, DUMMY_PASSWORD_HASH.to_owned()),
    };
    verify_password_hash(expected, credentials.password)?;
    match user_id {
        Some(id) => Ok(id),
        None => Err(KBError::InvalidCredentials("Unknown username.".to_owned())),
    }
}

/// Hashes `password` for storage: Argon2id, version 0x13, 15000 KiB of
/// memory, two passes, one lane, and a fresh random salt of 16 bytes. The
/// hash is a PHC string that records these and accepts `password`. Only a
/// password of more than 2^32 - 1 bytes cannot be hashed.
pub fn compute_password_hash(password: &str) -> (r: KBResult<String>)
    ensures
        encode_utf8(password@).len() <= 0xffff_ffff ==> (r matches Ok(h) && exists|salt: Seq<char>|
            canonical_b64_salt(salt) && h@ == #[trigger] argon2id_phc(password@, salt, 15000, 2, 1)),
        encode_utf8(password@).len() > 0xffff_ffff ==> (r matches Err(e) && is_unexpected(
            e,
            "Failed to hash password"@,
        )),
        r matches Ok(h) ==> phc_parses(h@) && argon2_accepts(h@, password@),
{
    let salt = random_salt();
    match argon2id_hash(password, salt.as_str(), 15000, 2, 1) {
        Some(hash) => {
            assert(argon2id_phc(password@, salt@, 15000, 2, 1) == hash@);
            Ok(hash)
        },
        None => Err(KBError::UnexpectedError("Failed to hash password".to_owned())),
    }
}

/// Law: a stored hash records Argon2id, version 19 and the costs
/// m = 15000, t = 2, p = 1 in front of its salt.
pub proof fn lemma_stored_hash_records_costs(password: Seq<char>, salt: Seq<char>)
    ensures
        argon2id_phc(password, salt, 15000, 2, 1).subrange(0, 31) == "$argon2id$v=19$m=15000,t=2,p=1$"@,
{
    reveal_with_fuel(decimal, 6);
    reveal_strlit("$argon2id$v=19$m=");
    reveal_strlit(",t=");
    reveal_strlit(",p=");
    reveal_strlit("$");
    reveal_strlit("$argon2id$v=19$m=15000,t=2,p=1$");
    assert(decimal(15000) =~= seq!['1', '5', '0', '0', '0']);
    assert(decimal(2) =~= seq!['2']);
    assert(decimal(1) =~= seq!['1']);
    assert(argon2id_phc(password, salt, 15000, 2, 1).subrange(0, 31) =~= "$argon2id$v=19$m=15000,t=2,p=1$"@);
}

/// Law: once a user's password hash has been set to a hash of `password`
/// (as [`compute_password_hash`] makes one), logging in with `password`
/// yields the user's id.
pub proof fn lemma_new_password_logs_in(r: KBResult<u128>, id: u128, hash: String, password: Seq<char>)
    requires
        phc_parses(hash@),
        argon2_accepts(hash@, password),
        credentials_verdict(r, Some((id, hash)), password),
    ensures
        r == Ok::<u128, KBError>(id),
{
}

} // verus!
