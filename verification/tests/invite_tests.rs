#![allow(dead_code)]

use public_api::errors::{ApiError, EventKind};
use public_api::invites::InviteConfig;
use public_api::members::{CustomPermissions, NumberOrString};
use public_api::rules::{MembershipType, STATUS_ACCEPTED, STATUS_INVITED};
use public_api::model::{
    AccessFlags, AccessGrant, CollectionGroupRecord, CollectionRecord, CollectionUserRecord, GroupRecord,
    GroupUserRecord, MemberRecord, OrgDirectory, OrgInfo, UserRecord,
};

fn s(x: &str) -> String {
    x.to_string()
}

fn flags(read_only: bool) -> AccessFlags {
    AccessFlags { read_only, hide_passwords: false, manage: false }
}

fn user(uuid: &str, email: &str, has_password: bool) -> UserRecord {
    UserRecord { uuid: s(uuid), email: s(email), has_password }
}

fn member(uuid: &str, user_uuid: &str, atype: i32, status: i32, access_all: bool, ext: Option<&str>) -> MemberRecord {
    MemberRecord {
        uuid: s(uuid),
        user_uuid: s(user_uuid),
        atype,
        status,
        access_all,
        external_id: ext.map(s),
        invited_by_email: None,
    }
}

fn directory() -> OrgDirectory {
    OrgDirectory {
        org_id: s("org-1"),
        org: Some(OrgInfo { name: s("Acme"), billing_email: s("billing@acme.test") }),
        users: vec![
            user("u-owner", "owner@acme.test", true),
            user("u-admin", "admin@acme.test", true),
            user("u-bob", "bob@acme.test", false),
            user("u-carol", "carol@acme.test", true),
        ],
        invitations: vec![],
        members: vec![
            member("m-owner", "u-owner", 0, 2, true, Some("ext-owner")),
            member("m-admin", "u-admin", 1, 2, true, Some("ext-admin")),
            member("m-bob", "u-bob", 2, 1, false, Some("ext-bob")),
        ],
        groups: vec![GroupRecord { uuid: s("g-1"), name: s("Team"), access_all: false, external_id: Some(s("ext-team")) }],
        group_users: vec![GroupUserRecord { group_uuid: s("g-1"), member_uuid: s("m-bob") }],
        collections: vec![
            CollectionRecord { uuid: s("c-1"), name: s("Docs"), external_id: None },
            CollectionRecord { uuid: s("c-2"), name: s("Code"), external_id: Some(s("ext-code")) },
        ],
        collection_groups: vec![CollectionGroupRecord { collection_uuid: s("c-1"), group_uuid: s("g-1"), flags: flags(true) }],
        collection_users: vec![CollectionUserRecord { user_uuid: s("u-bob"), collection_uuid: s("c-1"), flags: flags(false) }],
    }
}

fn group_members(d: &OrgDirectory, g: &str) -> Vec<String> {
    let mut v: Vec<String> = d.group_users.iter().filter(|l| l.group_uuid == g).map(|l| l.member_uuid.clone()).collect();
    v.sort();
    v
}

fn member_groups(d: &OrgDirectory, m: &str) -> Vec<String> {
    let mut v: Vec<String> = d.group_users.iter().filter(|l| l.member_uuid == m).map(|l| l.group_uuid.clone()).collect();
    v.sort();
    v
}

fn user_collections(d: &OrgDirectory, u: &str) -> Vec<(String, bool)> {
    let mut v: Vec<(String, bool)> =
        d.collection_users.iter().filter(|l| l.user_uuid == u).map(|l| (l.collection_uuid.clone(), l.flags.read_only)).collect();
    v.sort();
    v
}

fn perms() -> CustomPermissions {
    CustomPermissions { edit_any_collection: false, delete_any_collection: false, create_new_collections: false }
}

fn cfg(invitations_allowed: bool, mail_enabled: bool) -> InviteConfig {
    InviteConfig { invitations_allowed, mail_enabled }
}

#[test]
fn prepare_checks_role_then_organization() {
    let mut d = directory();
    let st = d.prepare_invites(NumberOrString::Number(2), &perms()).unwrap();
    assert_eq!(st.role, MembershipType::User);
    assert!(!st.access_all);
    assert_eq!(st.org_email, "billing@acme.test");
    assert!(matches!(d.prepare_invites(NumberOrString::String(s("x")), &perms()), Err(ApiError::InvalidType)));
    d.org = None;
    assert!(matches!(d.prepare_invites(NumberOrString::Number(2), &perms()), Err(ApiError::OrganizationLookupFailed)));
    assert!(matches!(d.prepare_invites(NumberOrString::Number(7), &perms()), Err(ApiError::InvalidType)));
}

#[test]
fn invite_new_user_without_mail() {
    let mut d = directory();
    let st = d.prepare_invites(NumberOrString::Number(2), &perms()).unwrap();
    let t = d.begin_invite(&s("new@acme.test"), &st, false, cfg(true, false), true, s("u-new"), s("m-new")).unwrap();
    assert!(t.user_created);
    assert_eq!(t.user_uuid, "u-new");
    assert_eq!(d.invitations, vec![s("new@acme.test")]);
    let m = d.members.last().unwrap();
    assert_eq!(m.uuid, "m-new");
    assert_eq!(m.status, STATUS_INVITED);
    assert_eq!(m.atype, 2);
    assert_eq!(m.invited_by_email.as_deref(), Some("billing@acme.test"));
    let (ev, r) = d.finish_invite(&t, &st, &Some(vec![AccessGrant { id: s("c-2"), flags: flags(true) }]), &vec![s("g-1")]);
    assert!(r.is_ok());
    assert_eq!(ev.kind, EventKind::MemberInvited);
    assert_eq!(ev.subject_uuid, "m-new");
    assert_eq!(user_collections(&d, "u-new"), vec![(s("c-2"), true)]);
    assert_eq!(member_groups(&d, "m-new"), vec![s("g-1")]);
}

#[test]
fn invite_existing_user_with_password_is_accepted_without_mail() {
    let mut d = directory();
    let st = d.prepare_invites(NumberOrString::Number(2), &perms()).unwrap();
    let t = d.begin_invite(&s("carol@acme.test"), &st, false, cfg(true, false), false, s("u-x"), s("m-carol")).unwrap();
    assert!(!t.user_created);
    assert_eq!(t.user_uuid, "u-carol");
    assert_eq!(d.members.last().unwrap().status, STATUS_ACCEPTED);
    assert!(d.invitations.is_empty());
    assert_eq!(d.users.len(), 4);
}

#[test]
fn invite_existing_user_with_mail_stays_invited() {
    let mut d = directory();
    let st = d.prepare_invites(NumberOrString::Number(2), &perms()).unwrap();
    d.begin_invite(&s("carol@acme.test"), &st, false, cfg(true, true), true, s("u-x"), s("m-carol")).unwrap();
    assert_eq!(d.members.last().unwrap().status, STATUS_INVITED);
}

#[test]
fn invite_refusals() {
    let mut d = directory();
    let st = d.prepare_invites(NumberOrString::Number(2), &perms()).unwrap();
    match d.begin_invite(&s("bob@acme.test"), &st, false, cfg(true, false), true, s("u-x"), s("m-x")) {
        Err(e) => assert_eq!(e.message(), "User already in organization: bob@acme.test"),
        Ok(_) => panic!("member invited twice"),
    }
    match d.begin_invite(&s("nobody@acme.test"), &st, false, cfg(false, false), true, s("u-x"), s("m-x")) {
        Err(e) => assert_eq!(e.message(), "User does not exist: nobody@acme.test"),
        Ok(_) => panic!("unknown user invited"),
    }
    assert!(matches!(
        d.begin_invite(&s("nobody@other.test"), &st, false, cfg(true, false), false, s("u-x"), s("m-x")),
        Err(ApiError::DomainNotEligible)
    ));
    assert_eq!(d.members.len(), 3);
    assert_eq!(d.users.len(), 4);
    assert!(d.invitations.is_empty());
}

#[test]
fn undo_invite_removes_created_user() {
    let mut d = directory();
    let st = d.prepare_invites(NumberOrString::Number(2), &perms()).unwrap();
    let t = d.begin_invite(&s("new@acme.test"), &st, false, cfg(true, true), true, s("u-new"), s("m-new")).unwrap();
    d.undo_invite(&t);
    assert_eq!(d.users.len(), 4);
    assert_eq!(d.members.len(), 3);
}

#[test]
fn undo_invite_keeps_existing_user() {
    let mut d = directory();
    let st = d.prepare_invites(NumberOrString::Number(2), &perms()).unwrap();
    let t = d.begin_invite(&s("carol@acme.test"), &st, false, cfg(true, true), true, s("u-x"), s("m-carol")).unwrap();
    d.undo_invite(&t);
    assert_eq!(d.users.len(), 4);
    assert_eq!(d.members.len(), 3);
}

#[test]
fn created_flag_carries_over_to_later_invites() {
    let mut d = directory();
    let st = d.prepare_invites(NumberOrString::Number(2), &perms()).unwrap();
    let t1 = d.begin_invite(&s("new@acme.test"), &st, false, cfg(true, true), true, s("u-new"), s("m-new")).unwrap();
    let t2 = d.begin_invite(&s("carol@acme.test"), &st, t1.user_created, cfg(true, true), true, s("u-x"), s("m-carol")).unwrap();
    assert!(t2.user_created);
    // Taking the second invitation back deletes the user it names.
    d.undo_invite(&t2);
    assert!(!d.users.iter().any(|u| u.uuid == "u-carol"));
}

#[test]
fn finish_invite_with_access_all_skips_collections() {
    let mut d = directory();
    let st = d.prepare_invites(NumberOrString::Number(1), &perms()).unwrap();
    assert!(st.access_all);
    let t = d.begin_invite(&s("carol@acme.test"), &st, false, cfg(true, false), true, s("u-x"), s("m-carol")).unwrap();
    let (_, r) = d.finish_invite(&t, &st, &Some(vec![AccessGrant { id: s("c-9"), flags: flags(true) }]), &vec![]);
    assert!(r.is_ok());
    assert!(user_collections(&d, "u-carol").is_empty());
}

#[test]
fn finish_invite_stops_at_unknown_collection() {
    let mut d = directory();
    let st = d.prepare_invites(NumberOrString::Number(2), &perms()).unwrap();
    let t = d.begin_invite(&s("carol@acme.test"), &st, false, cfg(true, false), true, s("u-x"), s("m-carol")).unwrap();
    let (ev, r) = d.finish_invite(&t, &st, &Some(vec![AccessGrant { id: s("c-9"), flags: flags(true) }]), &vec![s("g-1")]);
    assert_eq!(ev.kind, EventKind::MemberInvited);
    assert!(matches!(r, Err(ApiError::CollectionNotInOrganization)));
    assert!(member_groups(&d, "m-carol").is_empty());
}

#[test]
fn invite_error_messages() {
    assert_eq!(ApiError::OrganizationLookupFailed.message(), "Error looking up organization");
    assert_eq!(ApiError::DomainNotEligible.message(), "Email domain not eligible for invitations");
}
