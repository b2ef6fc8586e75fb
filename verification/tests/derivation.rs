use stellar_pass::characters::{get_pass_building_chars, Key};
use stellar_pass::generator::{chunk_to_arr, generate_pass, guarantee_pass_property, DeriveError};

fn key_all() -> Key {
    Key { upper: true, lower: true, num: true, sym: true }
}

fn key_alnum() -> Key {
    Key { upper: true, lower: true, num: true, sym: false }
}

#[test]
fn derive_known_scenario() {
    // secret "Hello", salt "randomsalt", length 16, letters and digits
    // enabled: the result is a reproducible 16-character alphanumeric
    // password — this exact text under the pinned hash parameters, on
    // every run — and the secret buffer is wiped.
    let mut password = "Hello".to_string();
    let salt = b"randomsalt";
    let pass = generate_pass(&mut password, salt, 16, key_alnum()).unwrap();
    assert_eq!(pass, "ARB5vSFuXF10zDZL".to_string());
    assert!(pass.chars().all(|c| c.is_ascii_alphanumeric()));
    assert_eq!(password, "".to_string());

    let mut password = "Hello".to_string();
    let again = generate_pass(&mut password, salt, 16, key_alnum()).unwrap();
    assert_eq!(pass, again);
}

#[test]
fn derive_deterministic() {
    let mut p1 = "correct horse battery staple".to_string();
    let mut p2 = "correct horse battery staple".to_string();
    let salt = b"user1netflix1";
    let out1 = generate_pass(&mut p1, salt, 20, key_all()).unwrap();
    let out2 = generate_pass(&mut p2, salt, 20, key_all()).unwrap();
    assert_eq!(out1, out2);
}

#[test]
fn derive_length_exact() {
    for len in [4u8, 16, 64, 255] {
        let mut pw = "secret".to_string();
        let out = generate_pass(&mut pw, b"somesalt", len, key_alnum()).unwrap();
        assert_eq!(out.len(), len as usize);
    }
    // A single-character password is possible only for a single-class
    // selection: with more enabled classes no candidate of length one can
    // ever show them all.
    let lower_only = Key { upper: false, lower: true, num: false, sym: false };
    let mut pw = "secret".to_string();
    let out = generate_pass(&mut pw, b"somesalt", 1, lower_only).unwrap();
    assert_eq!(out.len(), 1);
}

#[test]
fn derive_alphabet_membership() {
    let key = Key { upper: false, lower: true, num: true, sym: false };
    let alphabet: Vec<char> = get_pass_building_chars(&key);
    let mut pw = "secret".to_string();
    let out = generate_pass(&mut pw, b"somesalt", 32, key).unwrap();
    for c in out.chars() {
        assert!(alphabet.contains(&c));
    }
}

#[test]
fn derive_class_exact() {
    // Every enabled class appears; no disabled class ever does.
    let key = key_all();
    let mut pw = "secret".to_string();
    let out = generate_pass(&mut pw, b"somesalt", 16, key).unwrap();
    assert!(out.chars().any(|c| c.is_ascii_lowercase()));
    assert!(out.chars().any(|c| c.is_ascii_uppercase()));
    assert!(out.chars().any(|c| c.is_ascii_digit()));
    assert!(out.chars().any(|c| c.is_ascii_graphic() && !c.is_ascii_alphanumeric() || c == ' '));

    let lower_only = Key { upper: false, lower: true, num: false, sym: false };
    let mut pw = "secret".to_string();
    let out = generate_pass(&mut pw, b"somesalt", 12, lower_only).unwrap();
    assert!(out.chars().all(|c| c.is_ascii_lowercase()));

    let sym_only = Key { upper: false, lower: false, num: false, sym: true };
    let mut pw = "secret".to_string();
    let out = generate_pass(&mut pw, b"somesalt", 12, sym_only).unwrap();
    assert!(out.chars().all(|c| !c.is_ascii_alphanumeric()));
}

#[test]
fn derive_salt_too_short() {
    let mut pw = "secret".to_string();
    let r = generate_pass(&mut pw, b"salt", 16, key_all());
    assert_eq!(r, Err(DeriveError::SaltTooShort));
    // The secret is wiped on the failure path too.
    assert_eq!(pw, "".to_string());
}

#[test]
fn derive_salt_of_exactly_eight_bytes_works() {
    let mut pw = "secret".to_string();
    let r = generate_pass(&mut pw, b"12345678", 8, key_all());
    assert!(r.is_ok());
}

#[test]
fn property_check_exact_match() {
    let key = key_all();
    assert!(guarantee_pass_property(b"aA0!", &key));
    assert!(!guarantee_pass_property(b"aaaa", &key));
    assert!(!guarantee_pass_property(b"aA0x", &key));
    let alnum = key_alnum();
    assert!(guarantee_pass_property(b"aA00", &alnum));
    // A symbol occurring under a selection with symbols disabled is extra,
    // not a superset match.
    assert!(!guarantee_pass_property(b"aA0!", &alnum));
}

#[test]
fn chunk_to_arr_copies_four_bytes() {
    let bytes = [7u8, 0, 255, 42];
    assert_eq!(chunk_to_arr(&bytes), [7u8, 0, 255, 42]);
}

#[test]
fn alphabet_order_and_contents() {
    let all: Vec<char> = get_pass_building_chars(&key_all());
    assert_eq!(all.len(), 26 + 26 + 10 + 33);
    let expected: Vec<char> = "abcdefghijklmnopqrstuvwxyzABCDEFGHIJKLMNOPQRSTUVWXYZ0123456789\
\" !#$%&'()*+,-./:;<=>?@[\\]^_`{|}~"
        .chars()
        .collect();
    assert_eq!(all, expected);

    let none = Key { upper: false, lower: false, num: false, sym: false };
    assert_eq!(get_pass_building_chars(&none).len(), 0);

    let digits: Vec<char> = get_pass_building_chars(
        &Key { upper: false, lower: false, num: true, sym: false },
    );
    assert_eq!(digits, "0123456789".chars().collect::<Vec<char>>());
}
