use grid_challenge::auth::{
    check_registration, hash_password, normalize_email, register_insert_error, verify_password,
    AuthRequest,
};

#[test]
fn emails_are_trimmed_and_lowercased() {
    assert_eq!(normalize_email("  Foo@Bar.COM \n"), "foo@bar.com");
    assert_eq!(normalize_email("ÉLAN@x.ch"), "élan@x.ch");
}

#[test]
fn registration_checks() {
    let ok = check_registration(&AuthRequest { email: " A@B.C ".into(), password: "12345678".into() });
    assert_eq!(ok.ok(), Some("a@b.c".to_string()));
    let blank = check_registration(&AuthRequest { email: "   ".into(), password: "12345678".into() });
    match blank {
        Err(e) => {
            assert_eq!(e.status, 400);
            assert_eq!(e.message, "Email required, password must be >= 8 chars");
        }
        Ok(_) => panic!("blank e-mail accepted"),
    }
    assert!(check_registration(&AuthRequest { email: "a@b.c".into(), password: "1234567".into() }).is_err());
    // the length is counted in bytes: seven characters, eight bytes
    assert!(check_registration(&AuthRequest { email: "a@b.c".into(), password: "abcdef\u{e9}".into() }).is_ok());
}

#[test]
fn a_hashed_password_verifies() {
    let hash = hash_password("correct horse").ok().expect("hashing works");
    assert_ne!(hash, "correct horse");
    assert!(hash.starts_with("$argon2"));
    // Any password of ordinary length hashes, the empty one too.
    assert!(hash_password("").is_ok());
    assert!(verify_password("correct horse", &hash).is_ok());
    match verify_password("wrong horse", &hash) {
        Err(e) => {
            assert_eq!(e.status, 401);
            assert_eq!(e.message, "Unauthorized");
        }
        Ok(()) => panic!("wrong password accepted"),
    }
}

#[test]
fn a_malformed_hash_is_an_internal_error() {
    match verify_password("x", "not a hash") {
        Err(e) => {
            assert_eq!(e.status, 500);
            assert_eq!(e.message, "bad hash");
        }
        Ok(()) => panic!("accepted"),
    }
}

#[test]
fn register_conflicts() {
    let e = register_insert_error(true);
    assert_eq!((e.status, e.message.as_str()), (400, "Email already registered"));
    let e = register_insert_error(false);
    assert_eq!((e.status, e.message.as_str()), (500, "Database error"));
}
