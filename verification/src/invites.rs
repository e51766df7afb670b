use vstd::prelude::*;

use crate::directory::{
    lemma_member_links_add_groups, member_group_set, with_invitation, with_member_links,
};
use crate::errors::{ApiError, AuditEvent, EventKind};
use crate::lookup::{first_index, member_of_user, user_with_email};
use crate::members::{
    flat, grants_access_all, requested_role, with_user_collections, CustomPermissions,
    NumberOrString,
};
use crate::model::{
    AccessGrant, DirectoryView, MemberRecord, MemberView, OrgDirectory, UserRecord,
    UserView,
};
use crate::rules::{MembershipType, STATUS_ACCEPTED, STATUS_INVITED};

verus! {

/// The server settings that invitations follow.
#[derive(Clone, Copy, Debug)]
pub struct InviteConfig {
    /// Whether users that do not exist yet may be invited.
    pub invitations_allowed: bool,
    /// Whether invitations are sent by mail.
    pub mail_enabled: bool,
}

/// What all invitations of one request share.
#[derive(Debug)]
pub struct InviteSettings {
    pub role: MembershipType,
    pub access_all: bool,
    /// The organization's billing email, recorded as the inviter.
    pub org_email: String,
}

/// An invitation under way: the invited user and its new membership.
#[derive(Debug)]
pub struct InviteTicket {
    pub email: String,
    pub user_uuid: String,
    pub member_uuid: String,
    /// Whether a user account was created during this request.
    pub user_created: bool,
}

/// The membership an invitation creates.
pub open spec fn invited_member(
    id: Seq<char>,
    user: Seq<char>,
    role: MembershipType,
    access_all: bool,
    status: i32,
    org_email: Seq<char>,
) -> MemberView {
    MemberView {
        uuid: id,
        user_uuid: user,
        atype: role.spec_code(),
        status,
        access_all,
        external_id: None,
        invited_by_email: Some(org_email),
    }
}

/// A new user account for `email`, without a password.
pub open spec fn new_user(id: Seq<char>, email: Seq<char>) -> UserView {
    UserView { uuid: id, email, has_password: false }
}

/// The directory after an invitation of `email` got under way: the user is
/// found by email or created (with a pending invitation where mail is off),
/// and a membership is added for it. An existing user with a password joins
/// as accepted where mail is off; everyone else is invited.
pub open spec fn invite_begun(
    d: DirectoryView,
    email: Seq<char>,
    s: InviteSettings,
    cfg: InviteConfig,
    new_user_id: Seq<char>,
    new_member_id: Seq<char>,
) -> DirectoryView {
    match first_index(d.users, user_with_email(email)) {
        None => {
            let d1 = if cfg.mail_enabled {
                d
            } else {
                d.with_invitations(with_invitation(d.invitations, email))
            };
            let d2 = d1.with_users(d1.users.push(new_user(new_user_id, email)));
            d2.with_members(
                d2.members.push(
                    invited_member(
                        new_member_id,
                        new_user_id,
                        s.role,
                        s.access_all,
                        STATUS_INVITED,
                        s.org_email@,
                    ),
                ),
            )
        },
        Some(k) => {
            let u = d.users[k];
            let status = if !cfg.mail_enabled && u.has_password {
                STATUS_ACCEPTED
            } else {
                STATUS_INVITED
            };
            d.with_members(
                d.members.push(
                    invited_member(new_member_id, u.uuid, s.role, s.access_all, status, s.org_email@),
                ),
            )
        },
    }
}

/// The user an invitation of `email` is for: found by email, else new.
pub open spec fn invited_user_uuid(d: DirectoryView, email: Seq<char>, new_user_id: Seq<char>) -> Seq<char> {
    match first_index(d.users, user_with_email(email)) {
        Some(k) => d.users[k].uuid,
        None => new_user_id,
    }
}

/// The directory after taking back an invitation: the membership `member` of
/// `user` is deleted, and the user with its pending invitation too where the
/// request created a user.
pub open spec fn invite_undone(
    d: DirectoryView,
    member: Seq<char>,
    user: Seq<char>,
    email: Seq<char>,
    user_created: bool,
) -> DirectoryView {
    if user_created {
        d.after_membership_deleted(member, user).after_user_removed(user, email)
    } else {
        d.after_membership_deleted(member, user)
    }
}

impl OrgDirectory {
    /// Checks the requested role and looks up the organization, as an
    /// invitation request does before inviting anyone.
    pub fn prepare_invites(&self, role: NumberOrString, p: &CustomPermissions) -> (r: Result<
        InviteSettings,
        ApiError,
    >)
        ensures
            match MembershipType::from_text(role.text()) {
                None => r matches Err(ApiError::InvalidType),
                Some(t) => match self@.org {
                    None => r matches Err(ApiError::OrganizationLookupFailed),
                    Some(o) => (r matches Ok(s) && s.role == t && s.access_all == grants_access_all(
                        t,
                        role.text(),
                        *p,
                    ) && s.org_email@ == o.billing_email),
                },
            },
    {
        let raw = role.into_string();
        let (t, access_all) = requested_role(&raw, p)?;
        match &self.org {
            None => Err(ApiError::OrganizationLookupFailed),
            Some(o) => Ok(InviteSettings { role: t, access_all, org_email: o.billing_email.clone() }),
        }
    }

    /// Creates the user (where needed) and the membership for an invitation of
    /// `email`; `user_created` says whether an earlier invitation of the same
    /// request created a user, and the ticket carries it on.
    pub fn begin_invite(
        &mut self,
        email: &String,
        s: &InviteSettings,
        user_created: bool,
        cfg: InviteConfig,
        domain_allowed: bool,
        new_user_id: String,
        new_member_id: String,
    ) -> (r: Result<InviteTicket, ApiError>)
        ensures
            match first_index(old(self)@.users, user_with_email(email@)) {
                None => if !cfg.invitations_allowed {
                    (r matches Err(ApiError::UserDoesNotExist(e)) && e@ == email@) && final(self)@
                        == old(self)@
                } else if !domain_allowed {
                    r matches Err(ApiError::DomainNotEligible) && final(self)@ == old(self)@
                } else {
                    (r matches Ok(t) && t.email@ == email@ && t.user_uuid@ == new_user_id@
                        && t.member_uuid@ == new_member_id@ && t.user_created && final(self)@
                        == invite_begun(old(self)@, email@, *s, cfg, new_user_id@, new_member_id@))
                },
                Some(k) => {
                    let u = old(self)@.users[k];
                    if first_index(old(self)@.members, member_of_user(u.uuid)) is Some {
                        (r matches Err(ApiError::AlreadyInOrganization(e)) && e@ == email@)
                            && final(self)@ == old(self)@
                    } else {
                        (r matches Ok(t) && t.email@ == email@ && t.user_uuid@ == u.uuid
                            && t.member_uuid@ == new_member_id@ && t.user_created == user_created
                            && final(self)@ == invite_begun(
                            old(self)@,
                            email@,
                            *s,
                            cfg,
                            new_user_id@,
                            new_member_id@,
                        ))
                    }
                },
            },
    {
        let mut status = STATUS_INVITED;
        let mut created = user_created;
        let user_uuid = match self.find_user_by_email(email) {
            None => {
                if !cfg.invitations_allowed {
                    return Err(ApiError::UserDoesNotExist(email.clone()));
                }
                if !domain_allowed {
                    return Err(ApiError::DomainNotEligible);
                }
                if !cfg.mail_enabled {
                    self.save_invitation(email);
                }
                let ghost before = self@.users;
                let u = UserRecord { uuid: new_user_id.clone(), email: email.clone(), has_password: false };
                self.users.push(u);
                assert(self.users.deep_view() =~= before.push(new_user(new_user_id@, email@)));
                created = true;
                new_user_id
            },
            Some(k) => {
                if self.find_member_by_user(&self.users[k].uuid).is_some() {
                    return Err(ApiError::AlreadyInOrganization(email.clone()));
                }
                if !cfg.mail_enabled && self.users[k].has_password {
                    status = STATUS_ACCEPTED;
                }
                self.users[k].uuid.clone()
            },
        };
        let m = MemberRecord {
            uuid: new_member_id.clone(),
            user_uuid: user_uuid.clone(),
            atype: s.role.code(),
            status,
            access_all: s.access_all,
            external_id: None,
            invited_by_email: Some(s.org_email.clone()),
        };
        let ghost before = self@.members;
        let ghost mv = m@;
        self.members.push(m);
        assert(self.members.deep_view() =~= before.push(mv));
        Ok(InviteTicket { email: email.clone(), user_uuid, member_uuid: new_member_id, user_created: created })
    }

    /// Takes an invitation back after its mail could not be sent: deletes the
    /// user where the request created one, else the new membership.
    pub fn undo_invite(&mut self, t: &InviteTicket)
        ensures
            final(self)@ == invite_undone(
                old(self)@,
                t.member_uuid@,
                t.user_uuid@,
                t.email@,
                t.user_created,
            ),
    {
        self.delete_membership(&t.member_uuid, &t.user_uuid);
        if t.user_created {
            self.delete_user(&t.user_uuid, &t.email);
        }
    }

    /// Completes an invitation: grants the selected collections unless the role
    /// has access to all, and places the member in the requested groups. The
    /// event is recorded whether or not a collection is missing.
    pub fn finish_invite(
        &mut self,
        t: &InviteTicket,
        s: &InviteSettings,
        sels: &Option<Vec<AccessGrant>>,
        gs: &Vec<String>,
    ) -> (r: (AuditEvent, Result<(), ApiError>))
        ensures
            r.0.kind == EventKind::MemberInvited,
            r.0.subject_uuid@ == t.member_uuid@,
            ({
                let g = if s.access_all {
                    (old(self)@, true)
                } else {
                    with_user_collections(old(self)@, t.user_uuid@, flat(sels.deep_view()))
                };
                if !g.1 {
                    r.1 matches Err(ApiError::CollectionNotInOrganization) && final(self)@ == g.0
                } else {
                    r.1 is Ok && final(self)@ == g.0.with_group_users(
                        with_member_links(g.0.group_users, gs.deep_view(), t.member_uuid@),
                    )
                }
            }),
            r.1 is Ok ==> member_group_set(final(self)@.group_users, t.member_uuid@) == member_group_set(
                old(self)@.group_users,
                t.member_uuid@,
            ).union(gs.deep_view().to_set()),
    {
        let ev = AuditEvent { kind: EventKind::MemberInvited, subject_uuid: t.member_uuid.clone() };
        if !s.access_all {
            match sels {
                Some(v) => {
                    if self.grant_collections(&t.user_uuid, v).is_err() {
                        return (ev, Err(ApiError::CollectionNotInOrganization));
                    }
                },
                None => {
                    assert(with_user_collections(old(self)@, t.user_uuid@, Seq::empty()) == (old(
                        self,
                    )@, true));
                },
            }
        }
        let ghost links = self@.group_users;
        self.add_member_links(gs, &t.member_uuid);
        proof {
            lemma_member_links_add_groups(links, gs.deep_view(), t.member_uuid@);
            if !s.access_all {
                match sels {
                    Some(v) => crate::members::lemma_granting_keeps_members(old(self)@, t.user_uuid@, v.deep_view()),
                    None => {},
                }
            }
        }
        (ev, Ok(()))
    }
}

} // verus!
