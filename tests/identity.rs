use web_pulse_monitor::{IdentityError, IdentityRecord, IdentityRegistry};

fn s(text: &str) -> String {
    text.to_string()
}

#[test]
fn issued_identity_is_valid_up_to_its_level() {
    let mut reg = IdentityRegistry::new();
    reg.issue_identity(s("alice"), s("bank"), s("FR"), 2, 50);
    assert!(reg.has_valid_identity(&s("alice"), 0));
    assert!(reg.has_valid_identity(&s("alice"), 1));
    assert!(reg.has_valid_identity(&s("alice"), 2));
    assert!(!reg.has_valid_identity(&s("alice"), 3));
    assert!(!reg.has_valid_identity(&s("alice"), u32::MAX));
}

#[test]
fn unknown_subject_has_no_identity() {
    let mut reg = IdentityRegistry::new();
    assert!(!reg.has_valid_identity(&s("bob"), 0));
    assert_eq!(reg.get_identity(&s("bob")), None);
    reg.issue_identity(s("alice"), s("bank"), s("FR"), 2, 50);
    assert!(!reg.has_valid_identity(&s("bob"), 0));
    assert_eq!(reg.get_identity(&s("bob")), None);
}

#[test]
fn get_identity_returns_issued_record() {
    let mut reg = IdentityRegistry::new();
    reg.issue_identity(s("alice"), s("bank"), s("FR"), 2, 50);
    assert_eq!(
        reg.get_identity(&s("alice")),
        Some(IdentityRecord {
            subject: s("alice"),
            issuer: s("bank"),
            country: s("FR"),
            kyc_level: 2,
            issued_at: 50,
            valid: true,
        })
    );
}

#[test]
fn reissue_replaces_record() {
    let mut reg = IdentityRegistry::new();
    reg.issue_identity(s("alice"), s("bank"), s("FR"), 3, 50);
    reg.issue_identity(s("bob"), s("bank"), s("DE"), 1, 51);
    reg.issue_identity(s("alice"), s("notary"), s("IT"), 1, 60);
    assert_eq!(
        reg.get_identity(&s("alice")),
        Some(IdentityRecord {
            subject: s("alice"),
            issuer: s("notary"),
            country: s("IT"),
            kyc_level: 1,
            issued_at: 60,
            valid: true,
        })
    );
    assert!(!reg.has_valid_identity(&s("alice"), 3));
    assert_eq!(reg.get_identity(&s("bob")).unwrap().country, s("DE"));
}

#[test]
fn revoke_unknown_subject_fails() {
    let mut reg = IdentityRegistry::new();
    assert_eq!(reg.revoke_identity(&s("carol")), Err(IdentityError::NotFound));
    reg.issue_identity(s("alice"), s("bank"), s("FR"), 2, 50);
    assert_eq!(reg.revoke_identity(&s("carol")), Err(IdentityError::NotFound));
    assert!(reg.has_valid_identity(&s("alice"), 2));
}

#[test]
fn revoked_identity_is_kept_but_invalid() {
    let mut reg = IdentityRegistry::new();
    reg.issue_identity(s("alice"), s("bank"), s("FR"), 2, 50);
    assert_eq!(reg.revoke_identity(&s("alice")), Ok(()));
    assert!(!reg.has_valid_identity(&s("alice"), 0));
    assert!(!reg.has_valid_identity(&s("alice"), 2));
    assert_eq!(
        reg.get_identity(&s("alice")),
        Some(IdentityRecord {
            subject: s("alice"),
            issuer: s("bank"),
            country: s("FR"),
            kyc_level: 2,
            issued_at: 50,
            valid: false,
        })
    );
}

#[test]
fn reissue_after_revoke_is_valid_again() {
    let mut reg = IdentityRegistry::new();
    reg.issue_identity(s("alice"), s("bank"), s("FR"), 2, 50);
    assert_eq!(reg.revoke_identity(&s("alice")), Ok(()));
    assert_eq!(reg.revoke_identity(&s("alice")), Ok(()));
    assert!(!reg.has_valid_identity(&s("alice"), 0));
    reg.issue_identity(s("alice"), s("bank"), s("FR"), 4, 70);
    assert!(reg.has_valid_identity(&s("alice"), 4));
    assert_eq!(reg.get_identity(&s("alice")).unwrap().issued_at, 70);
}
