//! Tests of signing in, password changes and recovery.

use schedula::credentials::{
    change_password_hash, check_recovery, generate_recovery_code, recovery_code_from, hash_password, login_session, normalize_answer,
    UserRow,
};

fn row(hash: &str) -> UserRow {
    UserRow {
        id: 7,
        username: "ada".into(),
        display_name: "Ada".into(),
        password_hash: hash.into(),
        role: "admin".into(),
        org_id: Some(2),
    }
}

#[test]
fn login_checks_the_password() {
    let h = hash_password("secret-pw").unwrap();
    let s = login_session(Some(row(&h)), "secret-pw").unwrap();
    assert_eq!((s.user_id, s.username.as_str(), s.role.as_str(), s.org_id), (7, "ada", "admin", Some(2)));
    assert_eq!(login_session(Some(row(&h)), "wrong").unwrap_err(), "Invalid username or password");
    assert_eq!(login_session(None, "secret-pw").unwrap_err(), "Invalid username or password");
    let e = login_session(Some(row("not-a-hash")), "secret-pw").unwrap_err();
    assert_ne!(e, "Invalid username or password");
}

#[test]
fn password_change_needs_the_old_password() {
    let h = hash_password("old-password").unwrap();
    assert_eq!(change_password_hash("nope", &h, "new-password").unwrap_err(), "Old password incorrect");
    let new_hash = change_password_hash("old-password", &h, "new-password").unwrap();
    assert!(login_session(Some(row(&new_hash)), "new-password").is_ok());
}

#[test]
fn recovery_by_code() {
    let code = generate_recovery_code();
    let h = hash_password(&code).unwrap();
    assert_eq!(check_recovery(true, "12345", &Some(h.clone()), &code).unwrap_err(), "Password must be at least 6 characters");
    assert_eq!(check_recovery(true, "123456", &None, &code).unwrap_err(), "Recovery code is not set up");
    assert_eq!(check_recovery(true, "123456", &Some(h.clone()), "WRONG").unwrap_err(), "Invalid recovery code");
    assert!(check_recovery(true, "123456", &Some(h), &code).is_ok());
}

#[test]
fn recovery_by_answer_ignores_case_and_spaces() {
    assert_eq!(normalize_answer("  FlUffy "), "fluffy");
    let h = hash_password(&normalize_answer("Fluffy")).unwrap();
    assert!(check_recovery(false, "newpass", &Some(h.clone()), " fluffy ").is_ok());
    assert_eq!(check_recovery(false, "newpass", &Some(h), "Rex").unwrap_err(), "Incorrect answer");
    assert_eq!(check_recovery(false, "newpass", &None, "Rex").unwrap_err(), "Security answer is not set up");
}

#[test]
fn recovery_codes_use_the_charset() {
    let c = generate_recovery_code();
    assert_eq!(c.chars().count(), 32);
    assert!(c.chars().all(|ch| ch.is_ascii_uppercase() || ch.is_ascii_digit()));
}

#[test]
fn wrong_recovery_code_does_not_verify() {
    let code_hash = hash_password("CORRECTCODE").unwrap();
    assert_eq!(
        check_recovery(true, "newpassword123", &Some(code_hash), "WRONGCODE").unwrap_err(),
        "Invalid recovery code"
    );
}

#[test]
fn wrong_security_answer_does_not_verify() {
    let answer_hash = hash_password(&normalize_answer("Fluffy")).unwrap();
    assert_eq!(
        check_recovery(false, "newpassword123", &Some(answer_hash), "Rex").unwrap_err(),
        "Incorrect answer"
    );
}

#[test]
fn recovery_code_reads_the_charset_at_each_drawn_position() {
    assert_eq!(recovery_code_from(&vec![0; 32]), "A".repeat(32));
    let idx: Vec<usize> = (0..32).collect();
    assert_eq!(recovery_code_from(&idx), "ABCDEFGHIJKLMNOPQRSTUVWXYZ012345");
    let idx: Vec<usize> = (0..32).map(|i| 35 - i).collect();
    assert_eq!(recovery_code_from(&idx), "9876543210ZYXWVUTSRQPONMLKJIHGFE");
}

#[test]
fn generated_recovery_codes_are_32_charset_characters() {
    let code = generate_recovery_code();
    assert_eq!(code.chars().count(), 32);
    assert!(code.chars().all(|c| c.is_ascii_uppercase() || c.is_ascii_digit()));
}
