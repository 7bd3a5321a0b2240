use rustic_server::auth::{
    digests_match, password_digest, Authenticator, Credentials, Login, Unauthorized,
};

const DIGEST_OF_EMPTY: [u8; 32] = [227, 176, 196, 66, 152, 252, 28, 20, 154, 251, 244, 200, 153, 111, 185, 36, 39, 174, 65, 228, 100, 155, 147, 76, 164, 149, 153, 27, 120, 82, 184, 85];
const DIGEST_OF_ABC: [u8; 32] = [186, 120, 22, 191, 143, 1, 207, 234, 65, 65, 64, 222, 93, 174, 34, 35, 176, 3, 97, 163, 150, 23, 122, 156, 180, 16, 255, 97, 242, 0, 21, 173];
const DIGEST_OF_PASSWORD: [u8; 32] = [94, 136, 72, 152, 218, 40, 4, 113, 81, 208, 229, 111, 141, 198, 41, 39, 115, 96, 61, 13, 106, 171, 189, 214, 42, 17, 239, 114, 29, 21, 66, 216];
const DIGEST_OF_UMLAUT: [u8; 32] = [115, 194, 226, 253, 42, 236, 102, 229, 1, 53, 160, 27, 42, 0, 127, 204, 35, 228, 211, 80, 16, 99, 127, 152, 84, 30, 69, 58, 134, 101, 210, 93];

fn table() -> Vec<Credentials> {
    vec![
        Credentials::new("alice", DIGEST_OF_PASSWORD.to_vec()),
        Credentials::with_password("bob", "abc"),
    ]
}

#[test]
fn digest_is_sha256_of_the_utf8_bytes() {
    assert_eq!(password_digest(""), DIGEST_OF_EMPTY.to_vec());
    assert_eq!(password_digest("abc"), DIGEST_OF_ABC.to_vec());
    assert_eq!(password_digest("password"), DIGEST_OF_PASSWORD.to_vec());
    assert_eq!(password_digest("p\u{e4}ss"), DIGEST_OF_UMLAUT.to_vec());
    assert_ne!(password_digest("abc"), b"abc".to_vec());
    assert_eq!(Credentials::with_password("bob", "abc").digest, DIGEST_OF_ABC.to_vec());
}

#[test]
fn disabled_authentication_accepts_everyone_as_anonymous() {
    let auth = Authenticator::new(false, table());
    assert!(!auth.required());
    assert_eq!(auth.verify(None), Ok(None));
    assert_eq!(auth.verify(Some(&Login::new("alice", "wrong"))), Ok(None));
    assert_eq!(auth.verify(Some(&Login::new("alice", "password"))), Ok(None));
    assert_eq!(auth.verify(Some(&Login::new("nobody", ""))), Ok(None));
    assert_eq!(auth.accept("alice", &[0]), Ok(None));
}

#[test]
fn missing_credentials_are_unauthorized() {
    let auth = Authenticator::new(true, table());
    assert!(auth.required());
    assert_eq!(auth.verify(None), Err(Unauthorized));
}

#[test]
fn right_password_is_accepted_as_the_user() {
    let auth = Authenticator::new(true, table());
    assert_eq!(auth.verify(Some(&Login::new("alice", "password"))), Ok(Some("alice".to_string())));
    assert_eq!(auth.verify(Some(&Login::new("bob", "abc"))), Ok(Some("bob".to_string())));
    assert_eq!(auth.accept("alice", &DIGEST_OF_PASSWORD), Ok(Some("alice".to_string())));
}

#[test]
fn wrong_password_and_unknown_user_are_unauthorized() {
    let auth = Authenticator::new(true, table());
    for password in ["", "Password", "password ", "abc", "passwor"] {
        assert_eq!(auth.verify(Some(&Login::new("alice", password))), Err(Unauthorized), "{password}");
    }
    assert_eq!(auth.verify(Some(&Login::new("carol", "password"))), Err(Unauthorized));
    assert_eq!(auth.verify(Some(&Login::new("", "password"))), Err(Unauthorized));
    let empty = Authenticator::new(true, Vec::new());
    assert_eq!(empty.verify(Some(&Login::new("alice", "password"))), Err(Unauthorized));
}

#[test]
fn the_stored_digest_is_no_password() {
    let auth = Authenticator::new(true, vec![Credentials::new("alice", b"password".to_vec())]);
    assert_eq!(auth.verify(Some(&Login::new("alice", "password"))), Err(Unauthorized));
    assert_eq!(auth.accept("alice", b"password"), Ok(Some("alice".to_string())));
}

#[test]
fn digests_are_compared_whole() {
    let auth = Authenticator::new(true, vec![Credentials::new("alice", vec![1, 2, 3, 4])]);
    for digest in [vec![1, 2, 3, 5], vec![1, 2, 3], vec![1, 2, 3, 4, 0], vec![], vec![0, 2, 3, 4]] {
        assert_eq!(auth.accept("alice", &digest), Err(Unauthorized));
    }
    assert_eq!(auth.accept("alice", &[1, 2, 3, 4]), Ok(Some("alice".to_string())));
    assert_eq!(auth.accept("bob", &[1, 2, 3, 4]), Err(Unauthorized));
}

#[test]
fn later_entry_replaces_earlier_one() {
    let mut entries = table();
    entries.push(Credentials::with_password("alice", "new"));
    let auth = Authenticator::new(true, entries);
    assert_eq!(auth.stored_digest("alice"), Some(&password_digest("new")));
    assert_eq!(auth.stored_digest("bob"), Some(&DIGEST_OF_ABC.to_vec()));
    assert_eq!(auth.stored_digest("carol"), None);
    assert_eq!(auth.verify(Some(&Login::new("alice", "password"))), Err(Unauthorized));
    assert_eq!(auth.verify(Some(&Login::new("alice", "new"))), Ok(Some("alice".to_string())));
}

#[test]
fn digests_compare_by_content() {
    assert!(digests_match(&[], &[]));
    assert!(digests_match(&[0, 255, 7], &[0, 255, 7]));
    assert!(!digests_match(&[0, 255, 7], &[0, 255, 8]));
    assert!(!digests_match(&[1, 255, 7], &[0, 255, 7]));
    assert!(!digests_match(&[0, 255], &[0, 255, 7]));
    assert!(!digests_match(&[0x0f], &[0xf0]));
}

#[test]
fn login_from_a_pair() {
    let login = Login::from_pair("alice:secret").unwrap();
    assert_eq!((login.user.as_str(), login.password.as_str()), ("alice", "secret"));
    let login = Login::from_pair("alice:se:cr:et").unwrap();
    assert_eq!((login.user.as_str(), login.password.as_str()), ("alice", "se:cr:et"));
    let login = Login::from_pair(":").unwrap();
    assert_eq!((login.user.as_str(), login.password.as_str()), ("", ""));
    let login = Login::from_pair("bob:").unwrap();
    assert_eq!((login.user.as_str(), login.password.as_str()), ("bob", ""));
    let login = Login::from_pair("j\u{fc}rgen:p\u{e4}ss").unwrap();
    assert_eq!((login.user.as_str(), login.password.as_str()), ("j\u{fc}rgen", "p\u{e4}ss"));
    assert!(Login::from_pair("alice").is_none());
    assert!(Login::from_pair("").is_none());
}
