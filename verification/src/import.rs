use vstd::prelude::*;

use crate::directory::{group_link, link_not_in_group, with_group_link, with_invitation};
use crate::errors::ApiError;
use crate::invites::{invite_undone, invited_user_uuid, new_user, InviteTicket};
use crate::lookup::{first_index, group_with_external_id, member_with_external_id, user_with_email};
use crate::model::{
    DirectoryView, GroupRecord, GroupUserView, GroupView, MemberRecord, MemberView, OrgDirectory,
    UserRecord,
};
use crate::rules::{
    is_confirmed_owner, normalize_external_id, normalized_external_id, restored_status,
    revoked_status, MembershipType, STATUS_ACCEPTED, STATUS_INVITED,
};

verus! {

/// A member of a directory import.
#[derive(Debug)]
pub struct ImportMember {
    pub email: String,
    pub external_id: String,
    /// Whether the directory marks the member as deleted.
    pub deleted: bool,
}

pub struct ImportMemberView {
    pub email: Seq<char>,
    pub external_id: Seq<char>,
    pub deleted: bool,
}

impl View for ImportMember {
    type V = ImportMemberView;

    open spec fn view(&self) -> ImportMemberView {
        ImportMemberView { email: self.email@, external_id: self.external_id@, deleted: self.deleted }
    }
}

impl DeepView for ImportMember {
    type V = ImportMemberView;

    open spec fn deep_view(&self) -> ImportMemberView {
        self@
    }
}

/// A group of a directory import, with the external ids of its members.
#[derive(Debug)]
pub struct ImportGroup {
    pub name: String,
    pub external_id: String,
    pub member_external_ids: Vec<String>,
}

pub struct ImportGroupView {
    pub name: Seq<char>,
    pub external_id: Seq<char>,
    pub member_external_ids: Seq<Seq<char>>,
}

impl View for ImportGroup {
    type V = ImportGroupView;

    open spec fn view(&self) -> ImportGroupView {
        ImportGroupView {
            name: self.name@,
            external_id: self.external_id@,
            member_external_ids: self.member_external_ids.deep_view(),
        }
    }
}

impl DeepView for ImportGroup {
    type V = ImportGroupView;

    open spec fn deep_view(&self) -> ImportGroupView {
        self@
    }
}

/// A directory import: groups, members, and whether members that it does not
/// list are removed.
#[derive(Debug)]
pub struct ImportData {
    pub groups: Vec<ImportGroup>,
    pub members: Vec<ImportMember>,
    pub overwrite_existing: bool,
}

/// The membership an import creates for a user it does not find in the
/// organization.
pub open spec fn imported_member(
    id: Seq<char>,
    user: Seq<char>,
    status: i32,
    external_id: Seq<char>,
    org_email: Seq<char>,
) -> MemberView {
    MemberView {
        uuid: id,
        user_uuid: user,
        atype: MembershipType::User.spec_code(),
        status,
        access_all: false,
        external_id: normalized_external_id(Some(external_id)),
        invited_by_email: Some(org_email),
    }
}

/// The status an import gives to a member marked deleted: revoked, unless
/// it is the last confirmed owner.
pub open spec fn import_revoked_status(d: DirectoryView, m: MemberView) -> i32 {
    if is_confirmed_owner(m) && d.confirmed_owner_count() <= 1 {
        m.status
    } else {
        revoked_status(m.status)
    }
}

/// The directory after importing one member, with the error that stops the
/// import, if any:
/// - a member found by email and marked deleted is revoked (unless it is the
///   last confirmed owner) and gets the external id;
/// - a member found by email and not marked deleted is restored and gets the
///   external id;
/// - a member not found and marked deleted changes nothing;
/// - else the user is found by email or created (with an invitation where
///   mail is off), and a membership is created for it.
pub open spec fn member_import_outcome(
    d: DirectoryView,
    m: ImportMemberView,
    mail_enabled: bool,
    new_user_id: Seq<char>,
    new_member_id: Seq<char>,
) -> (DirectoryView, Option<ApiError>) {
    let ext = normalized_external_id(Some(m.external_id));
    match d.member_index_by_email(m.email) {
        Some(i) => {
            let mv = d.members[i];
            let status = if m.deleted {
                import_revoked_status(d, mv)
            } else {
                restored_status(mv.status)
            };
            (d.with_members(d.members.update(i, mv.with_status(status).with_external_id(ext))), None)
        },
        None => if m.deleted {
            (d, None)
        } else {
            let found = first_index(d.users, user_with_email(m.email));
            let d1 = match found {
                Some(k) => d,
                None => {
                    let d0 = d.with_users(d.users.push(new_user(new_user_id, m.email)));
                    if mail_enabled {
                        d0
                    } else {
                        d0.with_invitations(with_invitation(d0.invitations, m.email))
                    }
                },
            };
            let user = match found {
                Some(k) => d.users[k].uuid,
                None => new_user_id,
            };
            let has_password = match found {
                Some(k) => d.users[k].has_password,
                None => false,
            };
            let status = if mail_enabled || !has_password {
                STATUS_INVITED
            } else {
                STATUS_ACCEPTED
            };
            match d.org {
                None => (d1, Some(ApiError::OrganizationLookupFailed)),
                Some(o) => (
                    d1.with_members(
                        d1.members.push(
                            imported_member(new_member_id, user, status, m.external_id, o.billing_email),
                        ),
                    ),
                    None,
                ),
            }
        },
    }
}

impl OrgDirectory {
    /// Imports one member of a directory import. Where mail is on and a
    /// membership was created, the ticket names the invitation to mail.
    pub fn import_member(
        &mut self,
        m: &ImportMember,
        mail_enabled: bool,
        new_user_id: String,
        new_member_id: String,
    ) -> (r: Result<Option<InviteTicket>, ApiError>)
        ensures
            ({
                let out = member_import_outcome(old(self)@, m@, mail_enabled, new_user_id@, new_member_id@);
                &&& final(self)@ == out.0
                &&& match out.1 {
                    Some(e) => r == Err::<Option<InviteTicket>, ApiError>(e),
                    None => r is Ok,
                }
            }),
            r matches Ok(Some(t)) ==> mail_enabled && t.email@ == m.email@ && t.member_uuid@
                == new_member_id@ && t.user_created == (first_index(
                old(self)@.users,
                user_with_email(m.email@),
            ) is None) && t.user_uuid@ == (match first_index(
                old(self)@.users,
                user_with_email(m.email@),
            ) {
                Some(k) => old(self)@.users[k].uuid,
                None => new_user_id@,
            }),
            r matches Ok(None) ==> !mail_enabled || old(self)@.member_index_by_email(m.email@) is Some
                || m.deleted,
    {
        let ghost d = self@;
        if let Some(i) = self.find_member_by_email(&m.email) {
            let mut mem = self.members[i].duplicate();
            if m.deleted {
                if mem.is_confirmed_owner() && self.count_confirmed_owners() <= 1 {
                } else {
                    mem.revoke();
                }
            } else {
                mem.restore();
            }
            mem.set_external_id(Some(m.external_id.clone()));
            let ghost mv = mem@;
            self.members.set(i, mem);
            assert(self.members.deep_view() =~= d.members.update(i as int, mv));
            return Ok(None);
        }
        if m.deleted {
            return Ok(None);
        }
        let mut created = false;
        let (user_uuid, has_password) = match self.find_user_by_email(&m.email) {
            Some(k) => (self.users[k].uuid.clone(), self.users[k].has_password),
            None => {
                let ghost before = self@.users;
                self.users.push(
                    UserRecord { uuid: new_user_id.clone(), email: m.email.clone(), has_password: false },
                );
                assert(self.users.deep_view() =~= before.push(new_user(new_user_id@, m.email@)));
                if !mail_enabled {
                    self.save_invitation(&m.email);
                }
                created = true;
                (new_user_id, false)
            },
        };
        let status = if mail_enabled || !has_password {
            STATUS_INVITED
        } else {
            STATUS_ACCEPTED
        };
        let org_email = match &self.org {
            Some(o) => o.billing_email.clone(),
            None => {
                return Err(ApiError::OrganizationLookupFailed);
            },
        };
        let mut mem = MemberRecord {
            uuid: new_member_id.clone(),
            user_uuid: user_uuid.clone(),
            atype: MembershipType::User.code(),
            status,
            access_all: false,
            external_id: None,
            invited_by_email: Some(org_email),
        };
        mem.set_external_id(Some(m.external_id.clone()));
        let ghost before = self@.members;
        let ghost mv = mem@;
        self.members.push(mem);
        assert(self.members.deep_view() =~= before.push(mv));
        if mail_enabled {
            Ok(
                Some(
                    InviteTicket {
                        email: m.email.clone(),
                        user_uuid,
                        member_uuid: new_member_id,
                        user_created: created,
                    },
                ),
            )
        } else {
            Ok(None)
        }
    }
}

/// Links after placing in group `g`, in order, the first member with each of
/// the external ids `exts`; ids that no member has are passed over.
pub open spec fn with_resolved_links(
    links: Seq<GroupUserView>,
    members: Seq<MemberView>,
    g: Seq<char>,
    exts: Seq<Seq<char>>,
) -> Seq<GroupUserView>
    decreases exts.len(),
{
    if exts.len() == 0 {
        links
    } else {
        let prev = with_resolved_links(links, members, g, exts.drop_last());
        match first_index(members, member_with_external_id(exts.last())) {
            Some(i) => with_group_link(prev, g, members[i].uuid),
            None => prev,
        }
    }
}

/// The group an import finds by external id, or creates under `new_id`.
pub open spec fn imported_group_id(d: DirectoryView, g: ImportGroupView, new_id: Seq<char>) -> Seq<char> {
    match first_index(d.groups, group_with_external_id(g.external_id)) {
        Some(i) => d.groups[i].uuid,
        None => new_id,
    }
}

/// The directory after importing one group: the group is found by external id
/// or created, and its members become those the import lists that the
/// organization has.
pub open spec fn after_group_imported(d: DirectoryView, g: ImportGroupView, new_id: Seq<char>) -> DirectoryView {
    let d1 = match first_index(d.groups, group_with_external_id(g.external_id)) {
        Some(i) => d,
        None => d.with_groups(
            d.groups.push(
                GroupView {
                    uuid: new_id,
                    name: g.name,
                    access_all: false,
                    external_id: normalized_external_id(Some(g.external_id)),
                },
            ),
        ),
    };
    let gid = imported_group_id(d, g, new_id);
    d1.with_group_users(
        with_resolved_links(
            d1.group_users.filter(link_not_in_group(gid)),
            d1.members,
            gid,
            g.member_external_ids,
        ),
    )
}

/// The directory after importing the groups in order, the group at position
/// `k` created, where needed, under `ids[k]`.
pub open spec fn after_groups_imported(
    d: DirectoryView,
    gs: Seq<ImportGroupView>,
    ids: Seq<Seq<char>>,
) -> DirectoryView
    decreases gs.len(),
{
    if gs.len() == 0 {
        d
    } else {
        after_group_imported(
            after_groups_imported(d, gs.drop_last(), ids),
            gs.last(),
            ids[gs.len() - 1],
        )
    }
}

/// The directory after removing, in order, each of the members `ms` that has
/// an external id the import does not list, except a confirmed owner when no
/// other confirmed owner is left.
pub open spec fn after_pruned(d: DirectoryView, ms: Seq<MemberView>, listed: Seq<Seq<char>>) -> DirectoryView
    decreases ms.len(),
{
    if ms.len() == 0 {
        d
    } else {
        let prev = after_pruned(d, ms.drop_last(), listed);
        let m = ms.last();
        if m.external_id is Some && !listed.contains(m.external_id->0) && !(is_confirmed_owner(m)
            && prev.confirmed_owner_count() <= 1) {
            prev.after_member_deleted(m)
        } else {
            prev
        }
    }
}

/// The external ids of the members an import lists, deleted ones included.
pub open spec fn listed_external_ids(ms: Seq<ImportMemberView>) -> Seq<Seq<char>> {
    ms.map_values(|m: ImportMemberView| m.external_id)
}

/// The directory after the part of an import that follows its members:
/// groups where they are enabled, then the removal of unlisted members where
/// the import asks for it.
pub open spec fn after_import_finished(
    d: DirectoryView,
    data: ImportData,
    groups_enabled: bool,
    ids: Seq<Seq<char>>,
) -> DirectoryView {
    let d1 = if groups_enabled {
        after_groups_imported(d, data.groups.deep_view(), ids)
    } else {
        d
    };
    if data.overwrite_existing {
        after_pruned(d1, d1.members, listed_external_ids(data.members.deep_view()))
    } else {
        d1
    }
}

fn contains_text(v: &Vec<String>, x: &String) -> (b: bool)
    ensures
        b == v.deep_view().contains(x@),
{
    let mut i: usize = 0;
    while i < v.len()
        invariant
            0 <= i <= v.len(),
            forall|j: int| 0 <= j < i ==> #[trigger] v.deep_view()[j] != x@,
        decreases v.len() - i,
    {
        if v[i] == *x {
            assert(v.deep_view()[i as int] == x@);
            return true;
        }
        i = i + 1;
    }
    false
}

/// Importing member `m` creates a membership that is mailed an invitation
/// where mail is on: the import finds no membership by its email, it is not
/// marked deleted, and the organization exists.
pub open spec fn makes_invite(d: DirectoryView, m: ImportMemberView) -> bool {
    d.member_index_by_email(m.email) is None && !m.deleted && d.org is Some
}

/// One member step of a whole import, with whether the import goes on: the
/// member is imported; where that fails the import stops, and where its
/// invitation mail could not be sent (`mail_sent` false) the invitation is
/// taken back and the import stops.
pub open spec fn import_member_step(
    d: DirectoryView,
    m: ImportMemberView,
    mail_enabled: bool,
    mail_sent: bool,
    new_user_id: Seq<char>,
    new_member_id: Seq<char>,
) -> (DirectoryView, bool) {
    let out = member_import_outcome(d, m, mail_enabled, new_user_id, new_member_id);
    if out.1 is Some {
        (out.0, false)
    } else if mail_enabled && makes_invite(d, m) && !mail_sent {
        (
            invite_undone(
                out.0,
                new_member_id,
                invited_user_uuid(d, m.email, new_user_id),
                m.email,
                first_index(d.users, user_with_email(m.email)) is None,
            ),
            false,
        )
    } else {
        (out.0, true)
    }
}

/// The directory after the member steps of an import, in order, the step at
/// position `k` using `sent[k]`, `user_ids[k]` and `member_ids[k]`, and
/// whether all went through.
pub open spec fn members_imported(
    d: DirectoryView,
    ms: Seq<ImportMemberView>,
    mail_enabled: bool,
    sent: Seq<bool>,
    user_ids: Seq<Seq<char>>,
    member_ids: Seq<Seq<char>>,
) -> (DirectoryView, bool)
    decreases ms.len(),
{
    if ms.len() == 0 {
        (d, true)
    } else {
        let prev = members_imported(d, ms.drop_last(), mail_enabled, sent, user_ids, member_ids);
        if !prev.1 {
            prev
        } else {
            let k = ms.len() - 1;
            import_member_step(prev.0, ms.last(), mail_enabled, sent[k], user_ids[k], member_ids[k])
        }
    }
}

/// The directory after a whole import: its members, then, where they all went
/// through, its groups and the removal of unlisted members.
pub open spec fn directory_imported(
    d: DirectoryView,
    data: ImportData,
    mail_enabled: bool,
    groups_enabled: bool,
    sent: Seq<bool>,
    user_ids: Seq<Seq<char>>,
    member_ids: Seq<Seq<char>>,
    group_ids: Seq<Seq<char>>,
) -> DirectoryView {
    let r = members_imported(d, data.members.deep_view(), mail_enabled, sent, user_ids, member_ids);
    if r.1 {
        after_import_finished(r.0, data, groups_enabled, group_ids)
    } else {
        r.0
    }
}

impl OrgDirectory {
    /// Places in group `g`, in order, the first member with each external id.
    fn add_resolved_links(&mut self, g: &String, exts: &Vec<String>)
        ensures
            final(self)@ == old(self)@.with_group_users(
                with_resolved_links(old(self)@.group_users, old(self)@.members, g@, exts.deep_view()),
            ),
    {
        let mut i: usize = 0;
        while i < exts.len()
            invariant
                0 <= i <= exts.len(),
                self@ == old(self)@.with_group_users(
                    with_resolved_links(
                        old(self)@.group_users,
                        old(self)@.members,
                        g@,
                        exts.deep_view().take(i as int),
                    ),
                ),
            decreases exts.len() - i,
        {
            proof {
                let t = exts.deep_view().take(i + 1);
                assert(t.drop_last() =~= exts.deep_view().take(i as int));
            }
            match self.find_member_by_external_id(&exts[i]) {
                Some(k) => {
                    let mu = self.members[k].uuid.clone();
                    self.add_group_link(g, &mu);
                },
                None => {},
            }
            i = i + 1;
        }
        assert(exts.deep_view().take(exts.len() as int) =~= exts.deep_view());
    }

    /// Imports one group, creating it under `new_id` where no group has its
    /// external id.
    pub fn import_group(&mut self, g: &ImportGroup, new_id: &String)
        ensures
            final(self)@ == after_group_imported(old(self)@, g@, new_id@),
    {
        let gid = match self.find_group_by_external_id(&g.external_id) {
            Some(i) => self.groups[i].uuid.clone(),
            None => {
                let grp = GroupRecord {
                    uuid: new_id.clone(),
                    name: g.name.clone(),
                    access_all: false,
                    external_id: normalize_external_id(Some(g.external_id.clone())),
                };
                let ghost before = self@.groups;
                let ghost gv = grp@;
                self.groups.push(grp);
                assert(self.groups.deep_view() =~= before.push(gv));
                new_id.clone()
            },
        };
        self.clear_group_links(&gid);
        self.add_resolved_links(&gid, &g.member_external_ids);
    }

    /// Removes each member of `ms`, in order, whose external id is not in
    /// `listed`, keeping the last confirmed owner.
    fn prune_members(&mut self, ms: &Vec<MemberRecord>, listed: &Vec<String>)
        ensures
            final(self)@ == after_pruned(old(self)@, ms.deep_view(), listed.deep_view()),
    {
        let mut i: usize = 0;
        while i < ms.len()
            invariant
                0 <= i <= ms.len(),
                self@ == after_pruned(old(self)@, ms.deep_view().take(i as int), listed.deep_view()),
            decreases ms.len() - i,
        {
            proof {
                let t = ms.deep_view().take(i + 1);
                assert(t.drop_last() =~= ms.deep_view().take(i as int));
            }
            let m = &ms[i];
            match &m.external_id {
                Some(x) => {
                    if !contains_text(listed, x) {
                        if m.is_confirmed_owner() && self.count_confirmed_owners() <= 1 {
                        } else {
                            self.delete_membership(&m.uuid, &m.user_uuid);
                        }
                    }
                },
                None => {},
            }
            i = i + 1;
        }
        assert(ms.deep_view().take(ms.len() as int) =~= ms.deep_view());
    }

    /// Completes a directory import once its members are in: imports the
    /// groups where groups are enabled, the group at position `k` created,
    /// where needed, under `new_group_ids[k]`; then, where the import asks for
    /// it, removes the members with an external id that it does not list.
    pub fn finish_import(&mut self, data: &ImportData, groups_enabled: bool, new_group_ids: &Vec<String>)
        requires
            new_group_ids@.len() >= data.groups@.len(),
        ensures
            final(self)@ == after_import_finished(
                old(self)@,
                *data,
                groups_enabled,
                new_group_ids.deep_view(),
            ),
    {
        if groups_enabled {
            let mut k: usize = 0;
            while k < data.groups.len()
                invariant
                    0 <= k <= data.groups.len(),
                    new_group_ids@.len() >= data.groups@.len(),
                    self@ == after_groups_imported(
                        old(self)@,
                        data.groups.deep_view().take(k as int),
                        new_group_ids.deep_view(),
                    ),
                decreases data.groups.len() - k,
            {
                proof {
                    let t = data.groups.deep_view().take(k + 1);
                    assert(t.drop_last() =~= data.groups.deep_view().take(k as int));
                }
                self.import_group(&data.groups[k], &new_group_ids[k]);
                k = k + 1;
            }
            assert(data.groups.deep_view().take(data.groups.len() as int) =~= data.groups.deep_view());
        }
        if data.overwrite_existing {
            let mut listed: Vec<String> = Vec::new();
            let mut j: usize = 0;
            while j < data.members.len()
                invariant
                    0 <= j <= data.members.len(),
                    listed.deep_view() == listed_external_ids(data.members.deep_view().take(j as int)),
                decreases data.members.len() - j,
            {
                let ghost before = listed.deep_view();
                listed.push(data.members[j].external_id.clone());
                assert(listed.deep_view() =~= before.push(data.members[j as int].external_id@));
                assert(data.members.deep_view().take(j + 1) =~= data.members.deep_view().take(
                    j as int,
                ).push(data.members.deep_view()[j as int]));
                assert(listed.deep_view() =~= listed_external_ids(data.members.deep_view().take(j + 1)));
                j = j + 1;
            }
            assert(data.members.deep_view().take(data.members.len() as int) =~= data.members.deep_view());
            let mut snapshot: Vec<MemberRecord> = Vec::new();
            let mut i: usize = 0;
            while i < self.members.len()
                invariant
                    0 <= i <= self.members.len(),
                    snapshot.deep_view() == self@.members.take(i as int),
                decreases self.members.len() - i,
            {
                let ghost before = snapshot.deep_view();
                snapshot.push(self.members[i].duplicate());
                assert(snapshot.deep_view() =~= before.push(self@.members[i as int]));
                assert(self@.members.take(i + 1) =~= self@.members.take(i as int).push(
                    self@.members[i as int],
                ));
                i = i + 1;
            }
            assert(self@.members.take(self.members.len() as int) =~= self@.members);
            self.prune_members(&snapshot, &listed);
        }
    }
}

} // verus!
