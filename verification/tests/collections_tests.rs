#![allow(dead_code)]

use public_api::collections::CollectionRequest;
use public_api::errors::{ApiError, EventKind};
use public_api::model::{
    AccessFlags, AccessGrant, CollectionGroupRecord, CollectionRecord, CollectionUserRecord, GroupRecord,
    GroupUserRecord, MemberRecord, OrgDirectory, OrgInfo, UserRecord,
};

fn s(x: &str) -> String {
    x.to_string()
}

fn flags(read_only: bool) -> AccessFlags {
    AccessFlags { read_only, hide_passwords: false, manage: false }
}

fn user(uuid: &str, email: &str, has_password: bool) -> UserRecord {
    UserRecord { uuid: s(uuid), email: s(email), has_password }
}

fn member(uuid: &str, user_uuid: &str, atype: i32, status: i32, access_all: bool, ext: Option<&str>) -> MemberRecord {
    MemberRecord {
        uuid: s(uuid),
        user_uuid: s(user_uuid),
        atype,
        status,
        access_all,
        external_id: ext.map(s),
        invited_by_email: None,
    }
}

fn directory() -> OrgDirectory {
    OrgDirectory {
        org_id: s("org-1"),
        org: Some(OrgInfo { name: s("Acme"), billing_email: s("billing@acme.test") }),
        users: vec![
            user("u-owner", "owner@acme.test", true),
            user("u-admin", "admin@acme.test", true),
            user("u-bob", "bob@acme.test", false),
            user("u-carol", "carol@acme.test", true),
        ],
        invitations: vec![],
        members: vec![
            member("m-owner", "u-owner", 0, 2, true, Some("ext-owner")),
            member("m-admin", "u-admin", 1, 2, true, Some("ext-admin")),
            member("m-bob", "u-bob", 2, 1, false, Some("ext-bob")),
        ],
        groups: vec![GroupRecord { uuid: s("g-1"), name: s("Team"), access_all: false, external_id: Some(s("ext-team")) }],
        group_users: vec![GroupUserRecord { group_uuid: s("g-1"), member_uuid: s("m-bob") }],
        collections: vec![
            CollectionRecord { uuid: s("c-1"), name: s("Docs"), external_id: None },
            CollectionRecord { uuid: s("c-2"), name: s("Code"), external_id: Some(s("ext-code")) },
        ],
        collection_groups: vec![CollectionGroupRecord { collection_uuid: s("c-1"), group_uuid: s("g-1"), flags: flags(true) }],
        collection_users: vec![CollectionUserRecord { user_uuid: s("u-bob"), collection_uuid: s("c-1"), flags: flags(false) }],
    }
}

fn group_members(d: &OrgDirectory, g: &str) -> Vec<String> {
    let mut v: Vec<String> = d.group_users.iter().filter(|l| l.group_uuid == g).map(|l| l.member_uuid.clone()).collect();
    v.sort();
    v
}

fn member_groups(d: &OrgDirectory, m: &str) -> Vec<String> {
    let mut v: Vec<String> = d.group_users.iter().filter(|l| l.member_uuid == m).map(|l| l.group_uuid.clone()).collect();
    v.sort();
    v
}

fn user_collections(d: &OrgDirectory, u: &str) -> Vec<(String, bool)> {
    let mut v: Vec<(String, bool)> =
        d.collection_users.iter().filter(|l| l.user_uuid == u).map(|l| (l.collection_uuid.clone(), l.flags.read_only)).collect();
    v.sort();
    v
}

fn request(groups: &[&str], users: &[&str]) -> CollectionRequest {
    CollectionRequest {
        name: s("Secrets"),
        external_id: Some(s("ext-secrets")),
        groups: groups.iter().map(|g| AccessGrant { id: s(g), flags: flags(true) }).collect(),
        users: users.iter().map(|u| AccessGrant { id: s(u), flags: flags(false) }).collect(),
    }
}

#[test]
fn collections_listed_and_found() {
    let d = directory();
    assert_eq!(d.list_collections().len(), 2);
    assert_eq!(d.get_collection(&s("c-2")).unwrap().name, "Code");
    assert!(matches!(d.get_collection(&s("c-9")), Err(ApiError::CollectionNotFound)));
}

#[test]
fn create_collection_grants_access() {
    let mut d = directory();
    let (ev, r) = d.create_collection(s("c-3"), request(&["g-1"], &["m-bob", "m-admin"]));
    let c = r.unwrap();
    assert_eq!(c.uuid, "c-3");
    assert_eq!(c.external_id.as_deref(), Some("ext-secrets"));
    let ev = ev.unwrap();
    assert_eq!(ev.kind, EventKind::CollectionCreated);
    assert_eq!(d.collections.len(), 3);
    assert!(d.collection_groups.iter().any(|r| r.collection_uuid == "c-3" && r.group_uuid == "g-1"));
    // The admin has access to all collections and gets no direct row.
    assert_eq!(user_collections(&d, "u-bob"), vec![(s("c-1"), false), (s("c-3"), false)]);
    assert!(user_collections(&d, "u-admin").is_empty());
}

#[test]
fn create_collection_stops_at_unknown_member() {
    let mut d = directory();
    let (ev, r) = d.create_collection(s("c-3"), request(&[], &["m-x", "m-bob"]));
    assert!(matches!(r, Err(ApiError::UserNotInOrganization)));
    assert!(ev.is_some());
    assert_eq!(d.collections.len(), 3);
    assert_eq!(user_collections(&d, "u-bob"), vec![(s("c-1"), false)]);
}

#[test]
fn create_collection_needs_organization() {
    let mut d = directory();
    d.org = None;
    let (ev, r) = d.create_collection(s("c-3"), request(&[], &[]));
    assert!(ev.is_none());
    assert!(matches!(r, Err(ApiError::OrganizationDetailsMissing)));
    assert_eq!(d.collections.len(), 2);
}

#[test]
fn update_collection_replaces_access() {
    let mut d = directory();
    let mut req = request(&[], &["m-owner"]);
    req.external_id = Some(s(""));
    let (ev, r) = d.update_collection(&s("c-1"), req);
    let c = r.unwrap();
    assert_eq!(c.name, "Secrets");
    assert_eq!(c.external_id, None);
    assert_eq!(ev.unwrap().kind, EventKind::CollectionUpdated);
    assert_eq!(d.collections[0].name, "Secrets");
    assert!(d.collection_groups.is_empty());
    // The owner has access to all collections; bob's direct access is gone.
    assert!(d.collection_users.is_empty());
}

#[test]
fn update_collection_errors() {
    let mut d = directory();
    let (ev, r) = d.update_collection(&s("c-9"), request(&[], &[]));
    assert!(ev.is_none());
    assert!(matches!(r, Err(ApiError::CollectionNotFound)));
    let (ev, r) = d.update_collection(&s("c-1"), request(&[], &["m-x"]));
    assert!(ev.is_some());
    assert!(matches!(r, Err(ApiError::UserNotInOrganization)));
    d.org = None;
    let (ev, r) = d.update_collection(&s("c-1"), request(&[], &[]));
    assert!(ev.is_none());
    assert!(matches!(r, Err(ApiError::OrganizationDetailsMissing)));
}

#[test]
fn remove_collection_drops_all_access() {
    let mut d = directory();
    let ev = d.remove_collection(&s("c-1")).unwrap();
    assert_eq!(ev.kind, EventKind::CollectionDeleted);
    assert_eq!(ev.subject_uuid, "c-1");
    assert_eq!(d.collections.len(), 1);
    assert!(d.collection_groups.is_empty());
    assert!(d.collection_users.is_empty());
    assert!(matches!(d.remove_collection(&s("c-1")), Err(ApiError::CollectionNotFound)));
}

#[test]
fn collection_error_messages() {
    assert_eq!(ApiError::CollectionNotFound.message(), "Collection not found");
    assert_eq!(ApiError::OrganizationDetailsMissing.message(), "Can't find organization details");
    assert_eq!(ApiError::UserNotInOrganization.message(), "User is not part of organization");
}
