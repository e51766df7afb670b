#![allow(dead_code, unused_imports)]

use public_api::errors::ApiError;
use public_api::import::{ImportData, ImportGroup, ImportMember};
use public_api::model::{
    AccessFlags, AccessGrant, CollectionGroupRecord, CollectionRecord, CollectionUserRecord, GroupRecord,
    GroupUserRecord, MemberRecord, OrgDirectory, OrgInfo, UserRecord,
};

fn s(x: &str) -> String {
    x.to_string()
}

fn flags(read_only: bool) -> AccessFlags {
    AccessFlags { read_only, hide_passwords: false, manage: false }
}

fn user(uuid: &str, email: &str, has_password: bool) -> UserRecord {
    UserRecord { uuid: s(uuid), email: s(email), has_password }
}

fn member(uuid: &str, user_uuid: &str, atype: i32, status: i32, access_all: bool, ext: Option<&str>) -> MemberRecord {
    MemberRecord {
        uuid: s(uuid),
        user_uuid: s(user_uuid),
        atype,
        status,
        access_all,
        external_id: ext.map(s),
        invited_by_email: None,
    }
}

fn directory() -> OrgDirectory {
    OrgDirectory {
        org_id: s("org-1"),
        org: Some(OrgInfo { name: s("Acme"), billing_email: s("billing@acme.test") }),
        users: vec![
            user("u-owner", "owner@acme.test", true),
            user("u-admin", "admin@acme.test", true),
            user("u-bob", "bob@acme.test", false),
            user("u-carol", "carol@acme.test", true),
        ],
        invitations: vec![],
        members: vec![
            member("m-owner", "u-owner", 0, 2, true, Some("ext-owner")),
            member("m-admin", "u-admin", 1, 2, true, Some("ext-admin")),
            member("m-bob", "u-bob", 2, 1, false, Some("ext-bob")),
        ],
        groups: vec![GroupRecord { uuid: s("g-1"), name: s("Team"), access_all: false, external_id: Some(s("ext-team")) }],
        group_users: vec![GroupUserRecord { group_uuid: s("g-1"), member_uuid: s("m-bob") }],
        collections: vec![
            CollectionRecord { uuid: s("c-1"), name: s("Docs"), external_id: None },
            CollectionRecord { uuid: s("c-2"), name: s("Code"), external_id: Some(s("ext-code")) },
        ],
        collection_groups: vec![CollectionGroupRecord { collection_uuid: s("c-1"), group_uuid: s("g-1"), flags: flags(true) }],
        collection_users: vec![CollectionUserRecord { user_uuid: s("u-bob"), collection_uuid: s("c-1"), flags: flags(false) }],
    }
}

fn group_members(d: &OrgDirectory, g: &str) -> Vec<String> {
    let mut v: Vec<String> = d.group_users.iter().filter(|l| l.group_uuid == g).map(|l| l.member_uuid.clone()).collect();
    v.sort();
    v
}

fn member_groups(d: &OrgDirectory, m: &str) -> Vec<String> {
    let mut v: Vec<String> = d.group_users.iter().filter(|l| l.member_uuid == m).map(|l| l.group_uuid.clone()).collect();
    v.sort();
    v
}

fn user_collections(d: &OrgDirectory, u: &str) -> Vec<(String, bool)> {
    let mut v: Vec<(String, bool)> =
        d.collection_users.iter().filter(|l| l.user_uuid == u).map(|l| (l.collection_uuid.clone(), l.flags.read_only)).collect();
    v.sort();
    v
}

fn imported(email: &str, ext: &str, deleted: bool) -> ImportMember {
    ImportMember { email: s(email), external_id: s(ext), deleted }
}

#[test]
fn deleted_member_is_revoked_and_tagged() {
    let mut d = directory();
    let r = d.import_member(&imported("bob@acme.test", "ext-b2", true), false, s("u-x"), s("m-x")).unwrap();
    assert!(r.is_none());
    assert_eq!(d.members[2].status, 1 - 128);
    assert_eq!(d.members[2].external_id.as_deref(), Some("ext-b2"));
}

#[test]
fn last_confirmed_owner_is_not_revoked() {
    let mut d = directory();
    d.import_member(&imported("owner@acme.test", "", true), false, s("u-x"), s("m-x")).unwrap();
    assert_eq!(d.members[0].status, 2);
    assert_eq!(d.members[0].external_id, None);
    d.members.push(member("m-owner2", "u-carol", 0, 2, true, None));
    d.import_member(&imported("owner@acme.test", "ext-owner", true), false, s("u-x"), s("m-x")).unwrap();
    assert_eq!(d.members[0].status, 2 - 128);
}

#[test]
fn listed_member_is_restored() {
    let mut d = directory();
    d.members[2].status = 1 - 128;
    d.import_member(&imported("bob@acme.test", "ext-bob", false), false, s("u-x"), s("m-x")).unwrap();
    assert_eq!(d.members[2].status, 1);
}

#[test]
fn unknown_deleted_member_changes_nothing() {
    let mut d = directory();
    let r = d.import_member(&imported("ghost@acme.test", "ext-g", true), false, s("u-x"), s("m-x")).unwrap();
    assert!(r.is_none());
    assert_eq!(d.users.len(), 4);
    assert_eq!(d.members.len(), 3);
}

#[test]
fn new_member_created_with_user_and_invitation() {
    let mut d = directory();
    let r = d.import_member(&imported("dave@acme.test", "ext-dave", false), false, s("u-dave"), s("m-dave")).unwrap();
    assert!(r.is_none());
    assert_eq!(d.users.last().unwrap().uuid, "u-dave");
    assert_eq!(d.invitations, vec![s("dave@acme.test")]);
    let m = d.members.last().unwrap();
    assert_eq!(m.uuid, "m-dave");
    assert_eq!(m.atype, 2);
    assert_eq!(m.status, 0);
    assert!(!m.access_all);
    assert_eq!(m.external_id.as_deref(), Some("ext-dave"));
}

#[test]
fn existing_user_with_password_joins_accepted() {
    let mut d = directory();
    d.import_member(&imported("carol@acme.test", "ext-carol", false), false, s("u-x"), s("m-carol")).unwrap();
    assert_eq!(d.members.last().unwrap().status, 1);
    assert_eq!(d.members.last().unwrap().user_uuid, "u-carol");
    assert!(d.invitations.is_empty());
}

#[test]
fn mail_enabled_import_returns_invitation() {
    let mut d = directory();
    let t = d.import_member(&imported("dave@acme.test", "ext-dave", false), true, s("u-dave"), s("m-dave")).unwrap().unwrap();
    assert!(t.user_created);
    assert_eq!(t.member_uuid, "m-dave");
    assert!(d.invitations.is_empty());
    assert_eq!(d.members.last().unwrap().status, 0);
    d.undo_invite(&t);
    assert_eq!(d.users.len(), 4);
    assert_eq!(d.members.len(), 3);
}

#[test]
fn import_without_organization_fails_after_user_creation() {
    let mut d = directory();
    d.org = None;
    let r = d.import_member(&imported("dave@acme.test", "ext-dave", false), false, s("u-dave"), s("m-dave"));
    assert!(matches!(r, Err(ApiError::OrganizationLookupFailed)));
    assert_eq!(d.users.len(), 5);
    assert_eq!(d.members.len(), 3);
}

fn data(groups: Vec<ImportGroup>, members: Vec<ImportMember>, overwrite: bool) -> ImportData {
    ImportData { groups, members, overwrite_existing: overwrite }
}

#[test]
fn groups_imported_with_their_members() {
    let mut d = directory();
    let gs = vec![
        ImportGroup { name: s("Team"), external_id: s("ext-team"), member_external_ids: vec![s("ext-owner"), s("ext-none")] },
        ImportGroup { name: s("New"), external_id: s("ext-new"), member_external_ids: vec![s("ext-bob"), s("ext-admin")] },
    ];
    d.finish_import(&data(gs, vec![], false), true, &vec![s("g-unused"), s("g-new")]);
    assert_eq!(d.groups.len(), 2);
    assert_eq!(d.groups[1].uuid, "g-new");
    assert_eq!(d.groups[1].external_id.as_deref(), Some("ext-new"));
    assert_eq!(group_members(&d, "g-1"), vec![s("m-owner")]);
    assert_eq!(group_members(&d, "g-new"), vec![s("m-admin"), s("m-bob")]);
}

#[test]
fn groups_skipped_when_disabled() {
    let mut d = directory();
    let gs = vec![ImportGroup { name: s("New"), external_id: s("ext-new"), member_external_ids: vec![] }];
    d.finish_import(&data(gs, vec![], false), false, &vec![s("g-new")]);
    assert_eq!(d.groups.len(), 1);
}

#[test]
fn overwrite_removes_unlisted_members_but_keeps_last_owner() {
    let mut d = directory();
    d.members.push(member("m-nox", "u-carol", 2, 1, false, None));
    let listed = vec![imported("admin@acme.test", "ext-admin", true)];
    d.finish_import(&data(vec![], listed, true), true, &vec![]);
    let left: Vec<&str> = d.members.iter().map(|m| m.uuid.as_str()).collect();
    assert_eq!(left, vec!["m-owner", "m-admin", "m-nox"]);
    assert!(d.group_users.is_empty());
    assert!(user_collections(&d, "u-bob").is_empty());
}

#[test]
fn overwrite_removes_owner_when_another_remains() {
    let mut d = directory();
    d.members.push(member("m-owner2", "u-carol", 0, 2, true, Some("ext-carol")));
    let listed = vec![imported("carol@acme.test", "ext-carol", false)];
    d.finish_import(&data(vec![], listed, true), true, &vec![]);
    let left: Vec<&str> = d.members.iter().map(|m| m.uuid.as_str()).collect();
    assert_eq!(left, vec!["m-owner2"]);
}

#[test]
fn without_overwrite_members_stay() {
    let mut d = directory();
    d.finish_import(&data(vec![], vec![], false), true, &vec![]);
    assert_eq!(d.members.len(), 3);
}

#[test]
fn import_without_overwrite_only_adds() {
    let mut d = directory();
    d.groups.push(GroupRecord { uuid: s("g-2"), name: s("Other"), access_all: false, external_id: None });
    d.group_users.push(GroupUserRecord { group_uuid: s("g-2"), member_uuid: s("m-admin") });
    let before = directory();
    let r = d.import_member(&imported("dave@acme.test", "ext-dave", false), false, s("u-dave"), s("m-dave"));
    assert!(matches!(r, Ok(None)));
    let r = d.import_member(&imported("bob@acme.test", "ext-bob2", false), false, s("u-x"), s("m-x"));
    assert!(matches!(r, Ok(None)));
    let gs = vec![ImportGroup { name: s("Team"), external_id: s("ext-team"), member_external_ids: vec![s("ext-dave")] }];
    d.finish_import(&data(gs, vec![], false), true, &vec![s("g-unused")]);
    assert_eq!(d.users.len(), before.users.len() + 1);
    assert_eq!(d.users[4].uuid, "u-dave");
    assert_eq!(d.invitations, vec![s("dave@acme.test")]);
    let ids: Vec<&str> = d.members.iter().map(|m| m.uuid.as_str()).collect();
    assert_eq!(ids, vec!["m-owner", "m-admin", "m-bob", "m-dave"]);
    assert_eq!(d.members[2].external_id.as_deref(), Some("ext-bob2"));
    assert_eq!(d.members[2].atype, 2);
    assert_eq!(d.groups.len(), 2);
    assert_eq!(group_members(&d, "g-1"), vec![s("m-dave")]);
    assert_eq!(group_members(&d, "g-2"), vec![s("m-admin")]);
    assert_eq!(d.collections.len(), before.collections.len());
    assert_eq!(d.collection_groups.len(), before.collection_groups.len());
    assert_eq!(user_collections(&d, "u-bob"), vec![(s("c-1"), false)]);
}
