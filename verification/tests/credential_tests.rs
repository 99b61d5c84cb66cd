use todolists::credential::{accepted_by, hash_password, hashed_by, password_matches};

#[test]
fn a_hash_accepts_its_password_and_no_other() {
    let hash = hash_password("pw1").unwrap();
    assert_ne!(hash, "pw1");
    assert_eq!(hash.len(), 60);
    assert!(hash.starts_with("$2b$12$"));
    assert!(password_matches("pw1", &hash));
    assert!(!password_matches("pw2", &hash));
}

#[test]
fn two_hashes_of_one_password_differ() {
    let first = hash_password("secret").unwrap();
    let second = hash_password("secret").unwrap();
    assert_ne!(first, second);
}

#[test]
fn a_known_hash_is_verified() {
    let hash = "$2a$06$m0CrhHm10qJ3lXRY.5zDGO3rS2KdeeWLuGmsfGlMfOxih58VYVfxe";
    assert!(password_matches("a", hash));
    assert!(!password_matches("b", hash));
}

#[test]
fn an_unreadable_hash_accepts_nothing() {
    assert!(!password_matches("pw1", "pw1"));
    assert!(!password_matches("", ""));
    assert!(!password_matches("pw1", "not a hash"));
}

#[test]
fn only_a_successful_equal_comparison_accepts() {
    assert!(accepted_by(Ok(true)));
    assert!(!accepted_by(Ok(false)));
    assert!(!accepted_by(Err(bcrypt::BcryptError::InvalidHash("malformed"))));
}

#[test]
fn a_failed_hashing_gives_no_hash() {
    assert_eq!(hashed_by(Ok("digest".to_string())), Some("digest".to_string()));
    assert_eq!(hashed_by(Err(bcrypt::BcryptError::CostNotAllowed(99))), None);
}
