#![allow(dead_code)]

use public_api::errors::{ApiError, EventKind};
use public_api::members::{listing_details, member_details, requested_role, CustomPermissions, DetailFlags, NumberOrString};
use public_api::rules::MembershipType;
use public_api::model::{
    AccessFlags, AccessGrant, CollectionGroupRecord, CollectionRecord, CollectionUserRecord, GroupRecord,
    GroupUserRecord, MemberRecord, OrgDirectory, OrgInfo, UserRecord,
};

fn s(x: &str) -> String {
    x.to_string()
}

fn flags(read_only: bool) -> AccessFlags {
    AccessFlags { read_only, hide_passwords: false, manage: false }
}

fn user(uuid: &str, email: &str, has_password: bool) -> UserRecord {
    UserRecord { uuid: s(uuid), email: s(email), has_password }
}

fn member(uuid: &str, user_uuid: &str, atype: i32, status: i32, access_all: bool, ext: Option<&str>) -> MemberRecord {
    MemberRecord {
        uuid: s(uuid),
        user_uuid: s(user_uuid),
        atype,
        status,
        access_all,
        external_id: ext.map(s),
        invited_by_email: None,
    }
}

fn directory() -> OrgDirectory {
    OrgDirectory {
        org_id: s("org-1"),
        org: Some(OrgInfo { name: s("Acme"), billing_email: s("billing@acme.test") }),
        users: vec![
            user("u-owner", "owner@acme.test", true),
            user("u-admin", "admin@acme.test", true),
            user("u-bob", "bob@acme.test", false),
            user("u-carol", "carol@acme.test", true),
        ],
        invitations: vec![],
        members: vec![
            member("m-owner", "u-owner", 0, 2, true, Some("ext-owner")),
            member("m-admin", "u-admin", 1, 2, true, Some("ext-admin")),
            member("m-bob", "u-bob", 2, 1, false, Some("ext-bob")),
        ],
        groups: vec![GroupRecord { uuid: s("g-1"), name: s("Team"), access_all: false, external_id: Some(s("ext-team")) }],
        group_users: vec![GroupUserRecord { group_uuid: s("g-1"), member_uuid: s("m-bob") }],
        collections: vec![
            CollectionRecord { uuid: s("c-1"), name: s("Docs"), external_id: None },
            CollectionRecord { uuid: s("c-2"), name: s("Code"), external_id: Some(s("ext-code")) },
        ],
        collection_groups: vec![CollectionGroupRecord { collection_uuid: s("c-1"), group_uuid: s("g-1"), flags: flags(true) }],
        collection_users: vec![CollectionUserRecord { user_uuid: s("u-bob"), collection_uuid: s("c-1"), flags: flags(false) }],
    }
}

fn group_members(d: &OrgDirectory, g: &str) -> Vec<String> {
    let mut v: Vec<String> = d.group_users.iter().filter(|l| l.group_uuid == g).map(|l| l.member_uuid.clone()).collect();
    v.sort();
    v
}

fn member_groups(d: &OrgDirectory, m: &str) -> Vec<String> {
    let mut v: Vec<String> = d.group_users.iter().filter(|l| l.member_uuid == m).map(|l| l.group_uuid.clone()).collect();
    v.sort();
    v
}

fn user_collections(d: &OrgDirectory, u: &str) -> Vec<(String, bool)> {
    let mut v: Vec<(String, bool)> =
        d.collection_users.iter().filter(|l| l.user_uuid == u).map(|l| (l.collection_uuid.clone(), l.flags.read_only)).collect();
    v.sort();
    v
}

fn perms(all: bool) -> CustomPermissions {
    CustomPermissions { edit_any_collection: all, delete_any_collection: all, create_new_collections: all }
}

#[test]
fn role_values_as_text() {
    assert_eq!(NumberOrString::Number(4).into_string(), "4");
    assert_eq!(NumberOrString::Number(-12).into_string(), "-12");
    assert_eq!(NumberOrString::Number(1234567).into_string(), "1234567");
    assert_eq!(NumberOrString::String(s("Custom")).into_string(), "Custom");
}

#[test]
fn access_all_for_admins_and_full_custom_role() {
    assert_eq!(requested_role(&s("0"), &perms(false)).unwrap(), (MembershipType::Owner, true));
    assert_eq!(requested_role(&s("1"), &perms(false)).unwrap(), (MembershipType::Admin, true));
    assert_eq!(requested_role(&s("2"), &perms(true)).unwrap(), (MembershipType::User, false));
    assert_eq!(requested_role(&s("3"), &perms(true)).unwrap(), (MembershipType::Manager, false));
    assert_eq!(requested_role(&s("4"), &perms(true)).unwrap(), (MembershipType::Manager, true));
    assert_eq!(requested_role(&s("4"), &perms(false)).unwrap(), (MembershipType::Manager, false));
    // Only the digit form of the custom role looks at the permissions.
    assert_eq!(requested_role(&s("Custom"), &perms(true)).unwrap(), (MembershipType::Manager, false));
    let partial = CustomPermissions { edit_any_collection: true, delete_any_collection: true, create_new_collections: false };
    assert_eq!(requested_role(&s("4"), &partial).unwrap(), (MembershipType::Manager, false));
    assert!(matches!(requested_role(&s("9"), &perms(true)), Err(ApiError::InvalidType)));
}

#[test]
fn detail_flags_defaults() {
    assert_eq!(listing_details(None, None), DetailFlags { collections: false, groups: false });
    assert_eq!(listing_details(Some(true), None), DetailFlags { collections: true, groups: false });
    assert_eq!(member_details(None, Some(true)), DetailFlags { collections: true, groups: true });
    assert_eq!(member_details(Some(false), Some(true)), DetailFlags { collections: false, groups: true });
    assert_eq!(member_details(None, None), DetailFlags { collections: false, groups: false });
}

#[test]
fn members_listed_and_found() {
    let d = directory();
    let (all, f) = d.list_members(None, Some(true));
    assert_eq!(all.len(), 3);
    assert_eq!(all[2].uuid, "m-bob");
    assert_eq!(f, DetailFlags { collections: false, groups: true });
    let (m, f) = d.get_member(&s("m-bob"), None, Some(true)).unwrap();
    assert_eq!(m.user_uuid, "u-bob");
    assert_eq!(f, DetailFlags { collections: true, groups: true });
    assert!(matches!(d.get_member(&s("m-x"), None, None), Err(ApiError::MemberNotFound)));
}

#[test]
fn edit_member_replaces_role_collections_and_groups() {
    let mut d = directory();
    d.groups.push(GroupRecord { uuid: s("g-2"), name: s("Ops"), access_all: false, external_id: None });
    let sels = Some(vec![AccessGrant { id: s("c-2"), flags: flags(true) }]);
    let ev = d
        .edit_member(&s("m-bob"), NumberOrString::String(s("3")), &perms(false), &sels, &Some(vec![s("g-2")]))
        .unwrap();
    assert_eq!(ev.kind, EventKind::MemberUpdated);
    assert_eq!(ev.subject_uuid, "m-bob");
    let m = &d.members[2];
    assert_eq!(m.atype, 3);
    assert!(!m.access_all);
    assert_eq!(user_collections(&d, "u-bob"), vec![(s("c-2"), true)]);
    assert_eq!(member_groups(&d, "m-bob"), vec![s("g-2")]);
}

#[test]
fn edit_member_with_access_all_drops_direct_collections() {
    let mut d = directory();
    let sels = Some(vec![AccessGrant { id: s("c-2"), flags: flags(true) }]);
    d.edit_member(&s("m-bob"), NumberOrString::Number(1), &perms(false), &sels, &None).unwrap();
    assert!(d.members[2].access_all);
    assert_eq!(d.members[2].atype, 1);
    assert!(user_collections(&d, "u-bob").is_empty());
    assert!(member_groups(&d, "m-bob").is_empty());
}

#[test]
fn edit_member_stops_at_unknown_collection() {
    let mut d = directory();
    let sels = Some(vec![AccessGrant { id: s("c-2"), flags: flags(false) }, AccessGrant { id: s("c-9"), flags: flags(false) }]);
    assert!(matches!(
        d.edit_member(&s("m-bob"), NumberOrString::Number(2), &perms(false), &sels, &None),
        Err(ApiError::CollectionNotInOrganization)
    ));
    // The old access is gone and the first selection is in; the member and
    // its groups are as they were.
    assert_eq!(user_collections(&d, "u-bob"), vec![(s("c-2"), false)]);
    assert_eq!(member_groups(&d, "m-bob"), vec![s("g-1")]);
    assert_eq!(d.members[2].atype, 2);
}

#[test]
fn edit_member_errors_leave_directory() {
    let mut d = directory();
    assert!(matches!(
        d.edit_member(&s("m-bob"), NumberOrString::String(s("x")), &perms(false), &None, &None),
        Err(ApiError::InvalidType)
    ));
    assert!(matches!(
        d.edit_member(&s("m-x"), NumberOrString::Number(2), &perms(false), &None, &None),
        Err(ApiError::EditedMemberNotFound)
    ));
    assert_eq!(user_collections(&d, "u-bob").len(), 1);
}

#[test]
fn last_confirmed_owner_cannot_be_removed() {
    let mut d = directory();
    assert!(matches!(d.remove_member(&s("m-owner")), Err(ApiError::LastOwner)));
    assert_eq!(d.members.len(), 3);
    d.members.push(member("m-owner2", "u-carol", 0, 2, true, None));
    let ev = d.remove_member(&s("m-owner")).unwrap();
    assert_eq!(ev.kind, EventKind::MemberRemoved);
    assert_eq!(d.members.len(), 3);
    assert!(matches!(d.remove_member(&s("m-owner2")), Err(ApiError::LastOwner)));
}

#[test]
fn removing_member_drops_its_links() {
    let mut d = directory();
    d.remove_member(&s("m-bob")).unwrap();
    assert!(d.group_users.is_empty());
    assert!(user_collections(&d, "u-bob").is_empty());
    assert!(matches!(d.remove_member(&s("m-bob")), Err(ApiError::DeletedMemberNotFound)));
}

#[test]
fn member_error_messages() {
    assert_eq!(ApiError::InvalidType.message(), "Invalid type");
    assert_eq!(ApiError::MemberNotFound.message(), "The specified user isn't a member of the organization");
    assert_eq!(ApiError::EditedMemberNotFound.message(), "The specified user isn't member of the organization");
    assert_eq!(ApiError::DeletedMemberNotFound.message(), "User to delete isn't member of the organization");
    assert_eq!(ApiError::LastOwner.message(), "Can't delete the last owner");
    assert_eq!(ApiError::CollectionNotInOrganization.message(), "Collection not found in Organization");
}

#[test]
fn extreme_numbers_as_text() {
    assert_eq!(NumberOrString::Number(i64::MIN).into_string(), "-9223372036854775808");
    assert_eq!(NumberOrString::Number(i64::MAX).into_string(), "9223372036854775807");
    assert_eq!(NumberOrString::Number(0).into_string(), "0");
    assert_eq!(NumberOrString::Number(10).into_string(), "10");
}
