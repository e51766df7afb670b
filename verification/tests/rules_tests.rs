use public_api::model::MemberRecord;
use public_api::rules::{
    normalize_external_id, MembershipType, STATUS_ACCEPTED, STATUS_CONFIRMED, STATUS_INVITED,
    STATUS_REVOKED,
};

fn member(status: i32, atype: i32) -> MemberRecord {
    MemberRecord {
        uuid: "m1".to_string(),
        user_uuid: "u1".to_string(),
        atype,
        status,
        access_all: false,
        external_id: None,
        invited_by_email: None,
    }
}

#[test]
fn role_names_and_digits_parse() {
    assert_eq!(MembershipType::from_str("0"), Some(MembershipType::Owner));
    assert_eq!(MembershipType::from_str("Owner"), Some(MembershipType::Owner));
    assert_eq!(MembershipType::from_str("1"), Some(MembershipType::Admin));
    assert_eq!(MembershipType::from_str("Admin"), Some(MembershipType::Admin));
    assert_eq!(MembershipType::from_str("2"), Some(MembershipType::User));
    assert_eq!(MembershipType::from_str("User"), Some(MembershipType::User));
    assert_eq!(MembershipType::from_str("3"), Some(MembershipType::Manager));
    assert_eq!(MembershipType::from_str("Manager"), Some(MembershipType::Manager));
}

#[test]
fn custom_role_becomes_manager() {
    assert_eq!(MembershipType::from_str("4"), Some(MembershipType::Manager));
    assert_eq!(MembershipType::from_str("Custom"), Some(MembershipType::Manager));
}

#[test]
fn unknown_roles_are_refused() {
    assert_eq!(MembershipType::from_str("5"), None);
    assert_eq!(MembershipType::from_str("owner"), None);
    assert_eq!(MembershipType::from_str(""), None);
    assert_eq!(MembershipType::from_str(" 1"), None);
}

#[test]
fn role_codes_and_admin_level() {
    assert_eq!(MembershipType::Owner.code(), 0);
    assert_eq!(MembershipType::Admin.code(), 1);
    assert_eq!(MembershipType::User.code(), 2);
    assert_eq!(MembershipType::Manager.code(), 3);
    assert!(MembershipType::Owner.is_admin_or_higher());
    assert!(MembershipType::Admin.is_admin_or_higher());
    assert!(!MembershipType::Manager.is_admin_or_higher());
    assert!(!MembershipType::User.is_admin_or_higher());
}

#[test]
fn revoke_then_restore_gives_back_each_active_status() {
    for s in [STATUS_INVITED, STATUS_ACCEPTED, STATUS_CONFIRMED] {
        let mut m = member(s, 2);
        assert!(m.revoke());
        assert_eq!(m.status, s - 128);
        assert!(m.restore());
        assert_eq!(m.status, s);
    }
}

#[test]
fn revoke_and_restore_are_idempotent() {
    let mut m = member(STATUS_CONFIRMED, 0);
    assert!(m.revoke());
    assert_eq!(m.status, -126);
    assert!(!m.revoke());
    assert_eq!(m.status, -126);
    let mut r = member(STATUS_ACCEPTED, 2);
    assert!(!r.restore());
    assert_eq!(r.status, STATUS_ACCEPTED);
}

#[test]
fn legacy_revoked_status_restores_past_confirmed() {
    let mut m = member(STATUS_REVOKED, 2);
    assert!(!m.revoke());
    assert!(m.restore());
    assert_eq!(m.status, 127);
}

#[test]
fn external_id_is_normalized_and_change_reported() {
    let mut m = member(STATUS_CONFIRMED, 2);
    assert!(m.set_external_id(Some("ext-1".to_string())));
    assert_eq!(m.external_id.as_deref(), Some("ext-1"));
    assert!(!m.set_external_id(Some("ext-1".to_string())));
    assert!(m.set_external_id(Some(String::new())));
    assert_eq!(m.external_id, None);
    assert!(!m.set_external_id(None));
    assert_eq!(normalize_external_id(Some(String::new())), None);
    assert_eq!(normalize_external_id(Some("x".to_string())), Some("x".to_string()));
    assert_eq!(normalize_external_id(None), None);
}

#[test]
fn confirmed_owner_is_recognized() {
    assert!(member(STATUS_CONFIRMED, 0).is_confirmed_owner());
    assert!(!member(STATUS_ACCEPTED, 0).is_confirmed_owner());
    assert!(!member(STATUS_CONFIRMED, 1).is_confirmed_owner());
    assert!(!member(-126, 0).is_confirmed_owner());
}
