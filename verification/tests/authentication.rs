use rhizome::authentication::passwords::DUMMY_PASSWORD_HASH;
use rhizome::authentication::{
    compute_password_hash, reject_anonymous_users, validate_credentials, verify_password_hash,
    Credentials,
};
use rhizome::error::KBError;

#[test]
fn malformed_hash_is_unexpected() {
    let r = verify_password_hash("not a hash".to_string(), "pw".to_string());
    match r {
        Err(KBError::UnexpectedError(t)) => assert_eq!(t, "Failed to parse hash in PHC string format."),
        _ => panic!("expected an unexpected error"),
    }
}

#[test]
fn hashed_password_verifies_and_others_do_not() {
    let hash = compute_password_hash("Wurzelgeflecht").unwrap();
    assert!(hash.starts_with("$argon2id$v=19$m=15000,t=2,p=1$"));
    assert!(verify_password_hash(hash.clone(), "Wurzelgeflecht".to_string()).is_ok());
    match verify_password_hash(hash, "wrong".to_string()) {
        Err(KBError::InvalidCredentials(t)) => assert_eq!(t, "Invalid password."),
        _ => panic!("expected invalid credentials"),
    }
}

#[test]
fn hashes_are_salted() {
    let a = compute_password_hash("same").unwrap();
    let b = compute_password_hash("same").unwrap();
    assert_ne!(a, b);
}

#[test]
fn known_user_with_right_password_logs_in() {
    let hash = compute_password_hash("secret").unwrap();
    let credentials = Credentials { username: "alice".to_string(), password: "secret".to_string() };
    assert_eq!(validate_credentials(credentials, Some((42, hash))).unwrap(), 42);
}

#[test]
fn known_user_with_wrong_password_is_refused() {
    let hash = compute_password_hash("secret").unwrap();
    let credentials = Credentials { username: "alice".to_string(), password: "guess".to_string() };
    assert!(matches!(validate_credentials(credentials, Some((42, hash))), Err(KBError::InvalidCredentials(_))));
}

#[test]
fn unknown_user_is_refused() {
    let credentials = Credentials { username: "nobody".to_string(), password: "x".to_string() };
    match validate_credentials(credentials, None) {
        Err(KBError::InvalidCredentials(t)) => assert_eq!(t, "Invalid password."),
        _ => panic!("expected invalid credentials"),
    }
}

#[test]
fn dummy_hash_is_a_phc_string() {
    let r = verify_password_hash(DUMMY_PASSWORD_HASH.to_string(), "x".to_string());
    assert!(matches!(r, Err(KBError::InvalidCredentials(_))));
}

#[test]
fn anonymous_requests_are_sent_to_login() {
    assert_eq!(reject_anonymous_users(None).unwrap_err(), "/login");
}

#[test]
fn logged_in_user_passes() {
    assert_eq!(reject_anonymous_users(Some(7)).unwrap().0, 7);
}
