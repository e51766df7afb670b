use public_api::model::{
    AccessFlags, CollectionGroupRecord, CollectionUserRecord, GroupUserRecord, OrgDirectory, OrgInfo, UserRecord,
};

fn s(x: &str) -> String {
    x.to_string()
}

fn flags(read_only: bool) -> AccessFlags {
    AccessFlags { read_only, hide_passwords: false, manage: false }
}

fn directory() -> OrgDirectory {
    OrgDirectory {
        org_id: s("org-1"),
        org: Some(OrgInfo { name: s("Acme"), billing_email: s("billing@acme.test") }),
        users: vec![
            UserRecord { uuid: s("u-1"), email: s("one@acme.test"), has_password: true },
            UserRecord { uuid: s("u-2"), email: s("two@acme.test"), has_password: false },
        ],
        invitations: vec![],
        members: vec![],
        groups: vec![],
        group_users: vec![
            GroupUserRecord { group_uuid: s("g-2"), member_uuid: s("m-1") },
            GroupUserRecord { group_uuid: s("g-1"), member_uuid: s("m-2") },
            GroupUserRecord { group_uuid: s("g-1"), member_uuid: s("m-1") },
        ],
        collections: vec![],
        collection_groups: vec![
            CollectionGroupRecord { collection_uuid: s("c-1"), group_uuid: s("g-1"), flags: flags(true) },
            CollectionGroupRecord { collection_uuid: s("c-2"), group_uuid: s("g-2"), flags: flags(false) },
            CollectionGroupRecord { collection_uuid: s("c-3"), group_uuid: s("g-1"), flags: flags(false) },
        ],
        collection_users: vec![
            CollectionUserRecord { user_uuid: s("u-2"), collection_uuid: s("c-1"), flags: flags(true) },
            CollectionUserRecord { user_uuid: s("u-1"), collection_uuid: s("c-2"), flags: flags(false) },
        ],
    }
}

#[test]
fn group_collection_rows_lists_the_group_access_in_order() {
    let d = directory();
    let rows = d.group_collection_rows(&s("g-1"));
    let ids: Vec<&str> = rows.iter().map(|r| r.collection_uuid.as_str()).collect();
    assert_eq!(ids, vec!["c-1", "c-3"]);
    assert!(rows[0].flags.read_only);
    assert!(d.group_collection_rows(&s("g-9")).is_empty());
}

#[test]
fn user_collection_rows_lists_direct_access() {
    let d = directory();
    let rows = d.user_collection_rows(&s("u-1"));
    assert_eq!(rows.len(), 1);
    assert_eq!(rows[0].collection_uuid, "c-2");
    assert!(d.user_collection_rows(&s("u-9")).is_empty());
}

#[test]
fn member_group_uuids_in_link_order() {
    let d = directory();
    assert_eq!(d.member_group_uuids(&s("m-1")), vec![s("g-2"), s("g-1")]);
    assert_eq!(d.member_group_uuids(&s("m-2")), vec![s("g-1")]);
    assert!(d.member_group_uuids(&s("m-3")).is_empty());
}

#[test]
fn user_email_found_by_uuid() {
    let d = directory();
    assert_eq!(d.user_email(&s("u-2")), Some(s("two@acme.test")));
    assert_eq!(d.user_email(&s("u-3")), None);
}
