use vstd::prelude::*;

verus! {

/// Optional text seen as an optional sequence of characters.
pub open spec fn opt_text(o: Option<String>) -> Option<Seq<char>> {
    match o {
        Some(s) => Some(s@),
        None => None,
    }
}

/// Copies optional text, keeping its characters.
pub fn copy_opt_text(o: &Option<String>) -> (r: Option<String>)
    ensures
        opt_text(r) == opt_text(*o),
{
    match o {
        Some(s) => Some(s.clone()),
        None => None,
    }
}

/// A user account, global to the server.
#[derive(Debug)]
pub struct UserRecord {
    pub uuid: String,
    pub email: String,
    /// Whether the account has a master password set.
    pub has_password: bool,
}

pub struct UserView {
    pub uuid: Seq<char>,
    pub email: Seq<char>,
    pub has_password: bool,
}

impl View for UserRecord {
    type V = UserView;

    open spec fn view(&self) -> UserView {
        UserView { uuid: self.uuid@, email: self.email@, has_password: self.has_password }
    }
}

impl DeepView for UserRecord {
    type V = UserView;

    open spec fn deep_view(&self) -> UserView {
        self@
    }
}

/// The membership of a user in the organization.
#[derive(Debug)]
pub struct MemberRecord {
    pub uuid: String,
    pub user_uuid: String,
    /// Stored role code (see `MembershipType::code`).
    pub atype: i32,
    /// Stored status code (see the `STATUS_*` constants).
    pub status: i32,
    pub access_all: bool,
    pub external_id: Option<String>,
    pub invited_by_email: Option<String>,
}

pub struct MemberView {
    pub uuid: Seq<char>,
    pub user_uuid: Seq<char>,
    pub atype: i32,
    pub status: i32,
    pub access_all: bool,
    pub external_id: Option<Seq<char>>,
    pub invited_by_email: Option<Seq<char>>,
}

impl View for MemberRecord {
    type V = MemberView;

    open spec fn view(&self) -> MemberView {
        MemberView {
            uuid: self.uuid@,
            user_uuid: self.user_uuid@,
            atype: self.atype,
            status: self.status,
            access_all: self.access_all,
            external_id: opt_text(self.external_id),
            invited_by_email: opt_text(self.invited_by_email),
        }
    }
}

impl DeepView for MemberRecord {
    type V = MemberView;

    open spec fn deep_view(&self) -> MemberView {
        self@
    }
}

/// A group of members.
#[derive(Debug)]
pub struct GroupRecord {
    pub uuid: String,
    pub name: String,
    pub access_all: bool,
    pub external_id: Option<String>,
}

pub struct GroupView {
    pub uuid: Seq<char>,
    pub name: Seq<char>,
    pub access_all: bool,
    pub external_id: Option<Seq<char>>,
}

impl View for GroupRecord {
    type V = GroupView;

    open spec fn view(&self) -> GroupView {
        GroupView {
            uuid: self.uuid@,
            name: self.name@,
            access_all: self.access_all,
            external_id: opt_text(self.external_id),
        }
    }
}

impl DeepView for GroupRecord {
    type V = GroupView;

    open spec fn deep_view(&self) -> GroupView {
        self@
    }
}

/// A collection of items shared in the organization.
#[derive(Debug)]
pub struct CollectionRecord {
    pub uuid: String,
    pub name: String,
    pub external_id: Option<String>,
}

pub struct CollectionView {
    pub uuid: Seq<char>,
    pub name: Seq<char>,
    pub external_id: Option<Seq<char>>,
}

impl View for CollectionRecord {
    type V = CollectionView;

    open spec fn view(&self) -> CollectionView {
        CollectionView {
            uuid: self.uuid@,
            name: self.name@,
            external_id: opt_text(self.external_id),
        }
    }
}

impl DeepView for CollectionRecord {
    type V = CollectionView;

    open spec fn deep_view(&self) -> CollectionView {
        self@
    }
}

/// A member's place in a group.
#[derive(Debug)]
pub struct GroupUserRecord {
    pub group_uuid: String,
    pub member_uuid: String,
}

pub struct GroupUserView {
    pub group_uuid: Seq<char>,
    pub member_uuid: Seq<char>,
}

impl View for GroupUserRecord {
    type V = GroupUserView;

    open spec fn view(&self) -> GroupUserView {
        GroupUserView { group_uuid: self.group_uuid@, member_uuid: self.member_uuid@ }
    }
}

impl DeepView for GroupUserRecord {
    type V = GroupUserView;

    open spec fn deep_view(&self) -> GroupUserView {
        self@
    }
}

/// The access flags of a link to a collection.
#[derive(Clone, Copy, Debug, PartialEq, Eq, Structural)]
pub struct AccessFlags {
    pub read_only: bool,
    pub hide_passwords: bool,
    pub manage: bool,
}

/// A group's access to a collection.
#[derive(Debug)]
pub struct CollectionGroupRecord {
    pub collection_uuid: String,
    pub group_uuid: String,
    pub flags: AccessFlags,
}

pub struct CollectionGroupView {
    pub collection_uuid: Seq<char>,
    pub group_uuid: Seq<char>,
    pub flags: AccessFlags,
}

impl View for CollectionGroupRecord {
    type V = CollectionGroupView;

    open spec fn view(&self) -> CollectionGroupView {
        CollectionGroupView {
            collection_uuid: self.collection_uuid@,
            group_uuid: self.group_uuid@,
            flags: self.flags,
        }
    }
}

impl DeepView for CollectionGroupRecord {
    type V = CollectionGroupView;

    open spec fn deep_view(&self) -> CollectionGroupView {
        self@
    }
}

/// A user's direct access to a collection.
#[derive(Debug)]
pub struct CollectionUserRecord {
    pub user_uuid: String,
    pub collection_uuid: String,
    pub flags: AccessFlags,
}

pub struct CollectionUserView {
    pub user_uuid: Seq<char>,
    pub collection_uuid: Seq<char>,
    pub flags: AccessFlags,
}

impl View for CollectionUserRecord {
    type V = CollectionUserView;

    open spec fn view(&self) -> CollectionUserView {
        CollectionUserView {
            user_uuid: self.user_uuid@,
            collection_uuid: self.collection_uuid@,
            flags: self.flags,
        }
    }
}

impl DeepView for CollectionUserRecord {
    type V = CollectionUserView;

    open spec fn deep_view(&self) -> CollectionUserView {
        self@
    }
}

/// The organization's own details.
#[derive(Debug)]
pub struct OrgInfo {
    pub name: String,
    pub billing_email: String,
}

pub struct OrgInfoView {
    pub name: Seq<char>,
    pub billing_email: Seq<char>,
}

impl View for OrgInfo {
    type V = OrgInfoView;

    open spec fn view(&self) -> OrgInfoView {
        OrgInfoView { name: self.name@, billing_email: self.billing_email@ }
    }
}

impl DeepView for OrgInfo {
    type V = OrgInfoView;

    open spec fn deep_view(&self) -> OrgInfoView {
        self@
    }
}

/// A snapshot of one organization's directory: its details, the users it
/// refers to, pending invitations, memberships, groups, collections and the
/// links between them. The endpoints of the public API are operations on it.
pub struct OrgDirectory {
    pub org_id: String,
    /// The organization's details, where it exists.
    pub org: Option<OrgInfo>,
    /// Users that memberships and requests refer to; emails are unique.
    pub users: Vec<UserRecord>,
    /// Emails with a pending invitation to the server.
    pub invitations: Vec<String>,
    pub members: Vec<MemberRecord>,
    pub groups: Vec<GroupRecord>,
    pub group_users: Vec<GroupUserRecord>,
    pub collections: Vec<CollectionRecord>,
    pub collection_groups: Vec<CollectionGroupRecord>,
    pub collection_users: Vec<CollectionUserRecord>,
}

pub struct DirectoryView {
    pub org_id: Seq<char>,
    pub org: Option<OrgInfoView>,
    pub users: Seq<UserView>,
    pub invitations: Seq<Seq<char>>,
    pub members: Seq<MemberView>,
    pub groups: Seq<GroupView>,
    pub group_users: Seq<GroupUserView>,
    pub collections: Seq<CollectionView>,
    pub collection_groups: Seq<CollectionGroupView>,
    pub collection_users: Seq<CollectionUserView>,
}

impl View for OrgDirectory {
    type V = DirectoryView;

    open spec fn view(&self) -> DirectoryView {
        DirectoryView {
            org_id: self.org_id@,
            org: self.org.deep_view(),
            users: self.users.deep_view(),
            invitations: self.invitations.deep_view(),
            members: self.members.deep_view(),
            groups: self.groups.deep_view(),
            group_users: self.group_users.deep_view(),
            collections: self.collections.deep_view(),
            collection_groups: self.collection_groups.deep_view(),
            collection_users: self.collection_users.deep_view(),
        }
    }
}

impl UserRecord {
    /// A copy with the same contents.
    pub fn duplicate(&self) -> (r: Self)
        ensures
            r@ == self@,
    {
        UserRecord {
            uuid: self.uuid.clone(),
            email: self.email.clone(),
            has_password: self.has_password,
        }
    }
}

impl MemberRecord {
    /// A copy with the same contents.
    pub fn duplicate(&self) -> (r: Self)
        ensures
            r@ == self@,
    {
        MemberRecord {
            uuid: self.uuid.clone(),
            user_uuid: self.user_uuid.clone(),
            atype: self.atype,
            status: self.status,
            access_all: self.access_all,
            external_id: copy_opt_text(&self.external_id),
            invited_by_email: copy_opt_text(&self.invited_by_email),
        }
    }
}

impl GroupRecord {
    /// A copy with the same contents.
    pub fn duplicate(&self) -> (r: Self)
        ensures
            r@ == self@,
    {
        GroupRecord {
            uuid: self.uuid.clone(),
            name: self.name.clone(),
            access_all: self.access_all,
            external_id: copy_opt_text(&self.external_id),
        }
    }
}

impl CollectionRecord {
    /// A copy with the same contents.
    pub fn duplicate(&self) -> (r: Self)
        ensures
            r@ == self@,
    {
        CollectionRecord {
            uuid: self.uuid.clone(),
            name: self.name.clone(),
            external_id: copy_opt_text(&self.external_id),
        }
    }
}

impl GroupUserRecord {
    /// A copy with the same contents.
    pub fn duplicate(&self) -> (r: Self)
        ensures
            r@ == self@,
    {
        GroupUserRecord {
            group_uuid: self.group_uuid.clone(),
            member_uuid: self.member_uuid.clone(),
        }
    }
}

impl CollectionGroupRecord {
    /// A copy with the same contents.
    pub fn duplicate(&self) -> (r: Self)
        ensures
            r@ == self@,
    {
        CollectionGroupRecord {
            collection_uuid: self.collection_uuid.clone(),
            group_uuid: self.group_uuid.clone(),
            flags: self.flags,
        }
    }
}

impl CollectionUserRecord {
    /// A copy with the same contents.
    pub fn duplicate(&self) -> (r: Self)
        ensures
            r@ == self@,
    {
        CollectionUserRecord {
            user_uuid: self.user_uuid.clone(),
            collection_uuid: self.collection_uuid.clone(),
            flags: self.flags,
        }
    }
}

impl OrgInfo {
    /// A copy with the same contents.
    pub fn duplicate(&self) -> (r: Self)
        ensures
            r@ == self@,
    {
        OrgInfo {
            name: self.name.clone(),
            billing_email: self.billing_email.clone(),
        }
    }
}

/// A record chosen in a request by its uuid, with the access flags it gets.
#[derive(Debug)]
pub struct AccessGrant {
    pub id: String,
    pub flags: AccessFlags,
}

pub struct AccessGrantView {
    pub id: Seq<char>,
    pub flags: AccessFlags,
}

impl View for AccessGrant {
    type V = AccessGrantView;

    open spec fn view(&self) -> AccessGrantView {
        AccessGrantView { id: self.id@, flags: self.flags }
    }
}

impl DeepView for AccessGrant {
    type V = AccessGrantView;

    open spec fn deep_view(&self) -> AccessGrantView {
        self@
    }
}

} // verus!
