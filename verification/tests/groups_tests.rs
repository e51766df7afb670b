#![allow(dead_code)]

use public_api::errors::{ApiError, EventKind};
use public_api::groups::GroupRequest;
use public_api::model::{
    AccessFlags, AccessGrant, CollectionGroupRecord, CollectionRecord, CollectionUserRecord, GroupRecord,
    GroupUserRecord, MemberRecord, OrgDirectory, OrgInfo, UserRecord,
};

fn s(x: &str) -> String {
    x.to_string()
}

fn flags(read_only: bool) -> AccessFlags {
    AccessFlags { read_only, hide_passwords: false, manage: false }
}

fn user(uuid: &str, email: &str, has_password: bool) -> UserRecord {
    UserRecord { uuid: s(uuid), email: s(email), has_password }
}

fn member(uuid: &str, user_uuid: &str, atype: i32, status: i32, access_all: bool, ext: Option<&str>) -> MemberRecord {
    MemberRecord {
        uuid: s(uuid),
        user_uuid: s(user_uuid),
        atype,
        status,
        access_all,
        external_id: ext.map(s),
        invited_by_email: None,
    }
}

fn directory() -> OrgDirectory {
    OrgDirectory {
        org_id: s("org-1"),
        org: Some(OrgInfo { name: s("Acme"), billing_email: s("billing@acme.test") }),
        users: vec![
            user("u-owner", "owner@acme.test", true),
            user("u-admin", "admin@acme.test", true),
            user("u-bob", "bob@acme.test", false),
            user("u-carol", "carol@acme.test", true),
        ],
        invitations: vec![],
        members: vec![
            member("m-owner", "u-owner", 0, 2, true, Some("ext-owner")),
            member("m-admin", "u-admin", 1, 2, true, Some("ext-admin")),
            member("m-bob", "u-bob", 2, 1, false, Some("ext-bob")),
        ],
        groups: vec![GroupRecord { uuid: s("g-1"), name: s("Team"), access_all: false, external_id: Some(s("ext-team")) }],
        group_users: vec![GroupUserRecord { group_uuid: s("g-1"), member_uuid: s("m-bob") }],
        collections: vec![
            CollectionRecord { uuid: s("c-1"), name: s("Docs"), external_id: None },
            CollectionRecord { uuid: s("c-2"), name: s("Code"), external_id: Some(s("ext-code")) },
        ],
        collection_groups: vec![CollectionGroupRecord { collection_uuid: s("c-1"), group_uuid: s("g-1"), flags: flags(true) }],
        collection_users: vec![CollectionUserRecord { user_uuid: s("u-bob"), collection_uuid: s("c-1"), flags: flags(false) }],
    }
}

fn group_members(d: &OrgDirectory, g: &str) -> Vec<String> {
    let mut v: Vec<String> = d.group_users.iter().filter(|l| l.group_uuid == g).map(|l| l.member_uuid.clone()).collect();
    v.sort();
    v
}

fn member_groups(d: &OrgDirectory, m: &str) -> Vec<String> {
    let mut v: Vec<String> = d.group_users.iter().filter(|l| l.member_uuid == m).map(|l| l.group_uuid.clone()).collect();
    v.sort();
    v
}

fn user_collections(d: &OrgDirectory, u: &str) -> Vec<(String, bool)> {
    let mut v: Vec<(String, bool)> =
        d.collection_users.iter().filter(|l| l.user_uuid == u).map(|l| (l.collection_uuid.clone(), l.flags.read_only)).collect();
    v.sort();
    v
}

fn request(name: &str, users: &[&str], cols: &[&str]) -> GroupRequest {
    GroupRequest {
        name: s(name),
        access_all: true,
        external_id: Some(s("")),
        collections: cols.iter().map(|c| AccessGrant { id: s(c), flags: flags(true) }).collect(),
        users: users.iter().map(|u| s(u)).collect(),
    }
}

#[test]
fn groups_listed_only_when_enabled() {
    let d = directory();
    assert_eq!(d.listed_groups(true).len(), 1);
    assert_eq!(d.listed_groups(true)[0].name, "Team");
    assert!(d.listed_groups(false).is_empty());
}

#[test]
fn get_group_checks_support_and_existence() {
    let d = directory();
    assert_eq!(d.get_group(&s("g-1"), true).unwrap().name, "Team");
    assert!(matches!(d.get_group(&s("g-1"), false), Err(ApiError::GroupsDisabled)));
    assert!(matches!(d.get_group(&s("g-9"), true), Err(ApiError::GroupNotFound)));
}

#[test]
fn create_group_saves_links() {
    let mut d = directory();
    let (g, ev) = d.create_group(s("g-2"), request("Ops", &["m-admin", "m-bob"], &["c-2"]), true).unwrap();
    assert_eq!(g.uuid, "g-2");
    assert_eq!(g.name, "Ops");
    assert!(g.access_all);
    assert_eq!(g.external_id, None);
    assert_eq!(ev.kind, EventKind::GroupCreated);
    assert_eq!(ev.subject_uuid, "g-2");
    assert_eq!(d.groups.len(), 2);
    assert_eq!(group_members(&d, "g-2"), vec![s("m-admin"), s("m-bob")]);
    assert!(d.collection_groups.iter().any(|r| r.collection_uuid == "c-2" && r.group_uuid == "g-2" && r.flags.read_only));
}

#[test]
fn create_group_refused_when_disabled() {
    let mut d = directory();
    assert!(matches!(d.create_group(s("g-2"), request("Ops", &[], &[]), false), Err(ApiError::GroupsDisabled)));
    assert_eq!(d.groups.len(), 1);
}

#[test]
fn update_group_replaces_links_and_keeps_external_id() {
    let mut d = directory();
    let mut req = request("Renamed", &["m-owner"], &["c-2"]);
    req.external_id = Some(s("other"));
    let (g, ev) = d.update_group(&s("g-1"), req, true).unwrap();
    assert_eq!(g.name, "Renamed");
    assert_eq!(g.external_id.as_deref(), Some("ext-team"));
    assert_eq!(ev.kind, EventKind::GroupUpdated);
    assert_eq!(d.groups.len(), 1);
    assert_eq!(d.groups[0].name, "Renamed");
    assert_eq!(group_members(&d, "g-1"), vec![s("m-owner")]);
    assert!(!d.collection_groups.iter().any(|r| r.collection_uuid == "c-1"));
    assert!(d.collection_groups.iter().any(|r| r.collection_uuid == "c-2" && r.group_uuid == "g-1"));
}

#[test]
fn update_group_errors() {
    let mut d = directory();
    assert!(matches!(d.update_group(&s("g-9"), request("x", &[], &[]), true), Err(ApiError::GroupNotFound)));
    assert!(matches!(d.update_group(&s("g-1"), request("x", &[], &[]), false), Err(ApiError::GroupsDisabled)));
    assert_eq!(d.groups[0].name, "Team");
}

#[test]
fn remove_group_drops_its_links() {
    let mut d = directory();
    let ev = d.remove_group(&s("g-1"), true).unwrap();
    assert_eq!(ev.kind, EventKind::GroupDeleted);
    assert!(d.groups.is_empty());
    assert!(d.group_users.is_empty());
    assert!(d.collection_groups.is_empty());
    assert!(matches!(d.remove_group(&s("g-1"), true), Err(ApiError::GroupNotFound)));
    assert!(matches!(d.remove_group(&s("g-1"), false), Err(ApiError::GroupsDisabled)));
}

#[test]
fn group_members_listed() {
    let d = directory();
    assert_eq!(d.group_member_ids(&s("g-1"), true).unwrap(), vec![s("m-bob")]);
    assert!(matches!(d.group_member_ids(&s("g-9"), true), Err(ApiError::GroupMissing)));
    assert!(matches!(d.group_member_ids(&s("g-1"), false), Err(ApiError::GroupsDisabled)));
}

#[test]
fn replace_group_members_exactly() {
    let mut d = directory();
    d.replace_group_members(&s("g-1"), &vec![s("m-owner"), s("m-admin"), s("m-owner")], true).unwrap();
    assert_eq!(group_members(&d, "g-1"), vec![s("m-admin"), s("m-owner")]);
    assert_eq!(d.group_users.len(), 2);
    assert!(matches!(d.replace_group_members(&s("g-9"), &vec![], true), Err(ApiError::GroupMissing)));
    assert!(matches!(d.replace_group_members(&s("g-1"), &vec![], false), Err(ApiError::GroupsDisabled)));
    assert_eq!(d.group_users.len(), 2);
}

#[test]
fn group_error_messages() {
    assert_eq!(ApiError::GroupsDisabled.message(), "Group support is disabled");
    assert_eq!(ApiError::GroupNotFound.message(), "Group not found");
    assert_eq!(ApiError::GroupMissing.message(), "Group could not be found!");
}

#[test]
fn listing_after_replacing_members_has_each_once() {
    let mut d = directory();
    d.replace_group_members(&s("g-1"), &vec![s("m-bob"), s("m-owner"), s("m-bob")], true).unwrap();
    let mut ids = d.group_member_ids(&s("g-1"), true).unwrap();
    ids.sort();
    assert_eq!(ids, vec![s("m-bob"), s("m-owner")]);
}
