use stellar_pass::auth::{auth_user, CredStore, Credential, StoreError};

#[test]
fn registration_mismatch_rolls_back() {
    // Registering "alice" with password "p1" but confirming "p2" leaves no
    // row for "alice", and both sensitive buffers are wiped.
    let mut store = CredStore::new();
    let mut password = "p1".to_string();
    let mut confirm = "p2".to_string();
    assert!(!auth_user(&mut store, "alice", &mut password, &mut confirm));
    assert!(!store.contains("alice"));
    assert_eq!(password, "".to_string());
    assert_eq!(confirm, "".to_string());

    // A later attempt for "alice" behaves as a fresh first-time registration.
    let mut password = "p1".to_string();
    let mut confirm = "p1".to_string();
    assert!(auth_user(&mut store, "alice", &mut password, &mut confirm));
    assert!(store.contains("alice"));
    // On success the caller keeps the password buffer.
    assert_eq!(password, "p1".to_string());
}

#[test]
fn reauthentication_is_stable() {
    let mut store = CredStore::new();
    let mut password = "hunter2".to_string();
    let mut confirm = "hunter2".to_string();
    assert!(auth_user(&mut store, "bob", &mut password, &mut confirm));

    // Repeated authentication with the correct password keeps succeeding.
    for _ in 0..3 {
        let mut pw = "hunter2".to_string();
        let mut cf = String::new();
        assert!(auth_user(&mut store, "bob", &mut pw, &mut cf));
        assert_eq!(pw, "hunter2".to_string());
    }

    // Any single-character mutation of the password is refused, and the
    // rejected buffer is wiped.
    let mut pw = "hunter3".to_string();
    let mut cf = String::new();
    assert!(!auth_user(&mut store, "bob", &mut pw, &mut cf));
    assert_eq!(pw, "".to_string());

    let mut pw = "Hunter2".to_string();
    let mut cf = String::new();
    assert!(!auth_user(&mut store, "bob", &mut pw, &mut cf));
}

#[test]
fn registration_stores_fresh_salt_and_real_hash() {
    let mut store = CredStore::new();
    let mut password = "pw".to_string();
    let mut confirm = "pw".to_string();
    assert!(auth_user(&mut store, "carol", &mut password, &mut confirm));
    let (hash, salt) = store.select_by_key("carol").unwrap();
    assert_eq!(salt.len(), 16);
    assert!(salt.chars().all(|c| c.is_ascii_alphanumeric()));
    // The stored hash is a derived tag, not the password or salt echoed back.
    assert_ne!(hash, "pw".to_string());
    assert_ne!(hash, salt);
    assert!(hash.len() > 16);
}

#[test]
fn insert_unique_refuses_duplicates() {
    let mut store = CredStore::new();
    let row = Credential {
        username: "dave".to_string(),
        password_hash: "h1".to_string(),
        password_salt: "0123456789abcdef".to_string(),
    };
    assert_eq!(store.insert_unique(row), Ok(()));
    let again = Credential {
        username: "dave".to_string(),
        password_hash: "h2".to_string(),
        password_salt: "fedcba9876543210".to_string(),
    };
    assert_eq!(store.insert_unique(again), Err(StoreError::DuplicateUser));
    let (hash, _) = store.select_by_key("dave").unwrap();
    assert_eq!(hash, "h1".to_string());
}

#[test]
fn insert_unique_refuses_short_salt() {
    let mut store = CredStore::new();
    let row = Credential {
        username: "erin".to_string(),
        password_hash: "h".to_string(),
        password_salt: "salt".to_string(),
    };
    assert_eq!(store.insert_unique(row), Err(StoreError::InvalidSalt));
    assert!(!store.contains("erin"));
}

#[test]
fn delete_by_key_removes_only_that_row() {
    let mut store = CredStore::new();
    for name in ["u1", "u2", "u3"] {
        let row = Credential {
            username: name.to_string(),
            password_hash: "h".to_string(),
            password_salt: "0123456789abcdef".to_string(),
        };
        assert_eq!(store.insert_unique(row), Ok(()));
    }
    assert!(store.delete_by_key("u2"));
    assert!(!store.contains("u2"));
    assert!(store.contains("u1"));
    assert!(store.contains("u3"));
    assert!(!store.delete_by_key("u2"));

    let empty = store.select_by_key("u2");
    assert!(empty.is_none());
}
