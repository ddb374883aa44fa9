use indus::crypt::{check, digest_matches, encrypt};

#[test]
fn encrypt_is_sha256_hex() {
    assert_eq!(
        encrypt("abc"),
        "ba7816bf8f01cfea414140de5dae2223b00361a396177a9cb410ff61f20015ad"
    );
    assert_eq!(
        encrypt(""),
        "e3b0c44298fc1c149afbf4c8996fb92427ae41e4649b934ca495991b7852b855"
    );
}

#[test]
fn encrypt_gives_64_lowercase_hex_digits() {
    let h = encrypt("2cool4uuu");
    assert_eq!(h.chars().count(), 64);
    assert!(h.chars().all(|c| c.is_ascii_digit() || ('a'..='f').contains(&c)));
    assert_ne!(h, "2cool4uuu");
}

#[test]
fn check_accepts_own_hash() {
    let stored = encrypt("killthelion");
    assert!(check("killthelion", &stored));
}

#[test]
fn check_rejects_other_password() {
    let stored = encrypt("killthelion");
    assert!(!check("aosdjbd", &stored));
    assert!(!check("killthelion", "killthelion"));
    assert!(!check("", ""));
}

#[test]
fn digest_matches_compares_text() {
    assert!(digest_matches("abc", "abc"));
    assert!(!digest_matches("abc", "abd"));
    assert!(!digest_matches("abc", "ab"));
    assert!(digest_matches("", ""));
}
