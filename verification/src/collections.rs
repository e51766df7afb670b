use vstd::prelude::*;

use crate::directory::{
    access_not_to_collection_by_group, access_not_to_collection_by_user, with_collection_group,
    with_collection_user,
};
use crate::errors::{ApiError, AuditEvent, EventKind};
use crate::lookup::{collection_with_uuid, first_index, member_with_uuid};
use crate::model::{
    copy_opt_text, opt_text, AccessGrant, AccessGrantView, CollectionGroupView, CollectionRecord,
    CollectionView, DirectoryView, OrgDirectory,
};
use crate::rules::{normalize_external_id, normalized_external_id};

verus! {

/// A request to create or replace a collection.
#[derive(Debug)]
pub struct CollectionRequest {
    pub name: String,
    pub external_id: Option<String>,
    /// Groups with their access to the collection.
    pub groups: Vec<AccessGrant>,
    /// Members with their access to the collection.
    pub users: Vec<AccessGrant>,
}

/// Collection access rows after saving, in order, the access of each granted
/// group to collection `c`.
pub open spec fn with_collection_grants(
    rows: Seq<CollectionGroupView>,
    c: Seq<char>,
    grants: Seq<AccessGrantView>,
) -> Seq<CollectionGroupView>
    decreases grants.len(),
{
    if grants.len() == 0 {
        rows
    } else {
        with_collection_group(
            with_collection_grants(rows, c, grants.drop_last()),
            c,
            grants.last().id,
            grants.last().flags,
        )
    }
}

/// The directory after giving each granted member's user direct access to
/// collection `c`, in order, and whether all went through: a member with
/// access to all collections is skipped, and one that is not in the
/// organization stops the granting.
pub open spec fn with_member_grants(d: DirectoryView, c: Seq<char>, grants: Seq<AccessGrantView>) -> (
    DirectoryView,
    bool,
)
    decreases grants.len(),
{
    if grants.len() == 0 {
        (d, true)
    } else {
        let prev = with_member_grants(d, c, grants.drop_last());
        if !prev.1 {
            prev
        } else {
            match first_index(prev.0.members, member_with_uuid(grants.last().id)) {
                None => (prev.0, false),
                Some(i) => if prev.0.members[i].access_all {
                    (prev.0, true)
                } else {
                    (
                        prev.0.with_collection_users(
                            with_collection_user(
                                prev.0.collection_users,
                                prev.0.members[i].user_uuid,
                                c,
                                grants.last().flags,
                            ),
                        ),
                        true,
                    )
                },
            }
        }
    }
}

pub proof fn lemma_member_grants_stop(d: DirectoryView, c: Seq<char>, grants: Seq<AccessGrantView>, k: int)
    requires
        0 <= k <= grants.len(),
        !with_member_grants(d, c, grants.take(k)).1,
    ensures
        with_member_grants(d, c, grants) == with_member_grants(d, c, grants.take(k)),
    decreases grants.len(),
{
    if k == grants.len() {
        assert(grants.take(k) =~= grants);
    } else {
        assert(grants.drop_last().take(k) =~= grants.take(k));
        lemma_member_grants_stop(d, c, grants.drop_last(), k);
    }
}

pub proof fn lemma_member_grants_keep_members(d: DirectoryView, c: Seq<char>, grants: Seq<AccessGrantView>)
    ensures
        with_member_grants(d, c, grants).0 == d.with_collection_users(
            with_member_grants(d, c, grants).0.collection_users,
        ),
    decreases grants.len(),
{
    if grants.len() > 0 {
        lemma_member_grants_keep_members(d, c, grants.drop_last());
    }
}

/// The collection a creation request describes, under a fresh uuid.
pub open spec fn requested_collection(id: Seq<char>, req: CollectionRequest) -> CollectionView {
    CollectionView {
        uuid: id,
        name: req.name@,
        external_id: normalized_external_id(opt_text(req.external_id)),
    }
}

/// A collection with the name and external id of a request.
pub open spec fn renamed_collection(c: CollectionView, req: CollectionRequest) -> CollectionView {
    CollectionView {
        name: req.name@,
        external_id: normalized_external_id(opt_text(req.external_id)),
        ..c
    }
}

/// The directory after saving a collection's group access and then its member
/// access, and whether all went through.
pub open spec fn with_collection_access(d: DirectoryView, c: Seq<char>, req: CollectionRequest) -> (
    DirectoryView,
    bool,
) {
    with_member_grants(
        d.with_collection_groups(with_collection_grants(d.collection_groups, c, req.groups.deep_view())),
        c,
        req.users.deep_view(),
    )
}

impl OrgDirectory {
    /// Saves, in order, the access of each granted group to collection `c`.
    pub fn save_collection_grants(&mut self, c: &String, grants: &Vec<AccessGrant>)
        ensures
            final(self)@ == old(self)@.with_collection_groups(
                with_collection_grants(old(self)@.collection_groups, c@, grants.deep_view()),
            ),
    {
        let mut i: usize = 0;
        while i < grants.len()
            invariant
                0 <= i <= grants.len(),
                self@ == old(self)@.with_collection_groups(
                    with_collection_grants(
                        old(self)@.collection_groups,
                        c@,
                        grants.deep_view().take(i as int),
                    ),
                ),
            decreases grants.len() - i,
        {
            self.save_collection_group(c, &grants[i].id, grants[i].flags);
            proof {
                let t = grants.deep_view().take(i + 1);
                assert(t.drop_last() =~= grants.deep_view().take(i as int));
            }
            i = i + 1;
        }
        assert(grants.deep_view().take(grants.len() as int) =~= grants.deep_view());
    }

    /// Gives each granted member's user direct access to collection `c`;
    /// skips members with access to all, stops at one not in the organization.
    pub fn save_member_grants(&mut self, c: &String, grants: &Vec<AccessGrant>) -> (r: Result<
        (),
        ApiError,
    >)
        ensures
            (final(self)@, r is Ok) == with_member_grants(old(self)@, c@, grants.deep_view()),
            r is Err ==> r == Err::<(), ApiError>(ApiError::UserNotInOrganization),
    {
        let mut i: usize = 0;
        while i < grants.len()
            invariant
                0 <= i <= grants.len(),
                (self@, true) == with_member_grants(old(self)@, c@, grants.deep_view().take(i as int)),
            decreases grants.len() - i,
        {
            proof {
                let t = grants.deep_view().take(i + 1);
                assert(t.drop_last() =~= grants.deep_view().take(i as int));
            }
            match self.find_member_by_uuid(&grants[i].id) {
                None => {
                    proof {
                        lemma_member_grants_stop(old(self)@, c@, grants.deep_view(), i + 1);
                    }
                    return Err(ApiError::UserNotInOrganization);
                },
                Some(k) => {
                    if !self.members[k].access_all {
                        let user = self.members[k].user_uuid.clone();
                        self.save_collection_user(&user, c, grants[i].flags);
                    }
                },
            }
            i = i + 1;
        }
        assert(grants.deep_view().take(grants.len() as int) =~= grants.deep_view());
        Ok(())
    }

    /// All collections of the organization.
    pub fn list_collections(&self) -> (r: Vec<CollectionRecord>)
        ensures
            r.deep_view() == self@.collections,
    {
        let mut out: Vec<CollectionRecord> = Vec::new();
        let mut i: usize = 0;
        while i < self.collections.len()
            invariant
                0 <= i <= self.collections.len(),
                out.deep_view() == self@.collections.take(i as int),
            decreases self.collections.len() - i,
        {
            let ghost before = out.deep_view();
            out.push(self.collections[i].duplicate());
            assert(out.deep_view() =~= before.push(self@.collections[i as int]));
            assert(self@.collections.take(i + 1) =~= self@.collections.take(i as int).push(
                self@.collections[i as int],
            ));
            i = i + 1;
        }
        assert(self@.collections.take(self.collections.len() as int) =~= self@.collections);
        out
    }

    /// Collection `c`.
    pub fn get_collection(&self, c: &String) -> (r: Result<CollectionRecord, ApiError>)
        ensures
            match first_index(self@.collections, collection_with_uuid(c@)) {
                None => r matches Err(ApiError::CollectionNotFound),
                Some(i) => (r matches Ok(col) && col@ == self@.collections[i]),
            },
    {
        match self.find_collection_by_uuid(c) {
            None => Err(ApiError::CollectionNotFound),
            Some(i) => Ok(self.collections[i].duplicate()),
        }
    }

    /// Creates a collection under the fresh uuid `id` with the requested group
    /// and member access. The event is recorded once the collection exists,
    /// whether or not a member is missing.
    pub fn create_collection(&mut self, id: String, req: CollectionRequest) -> (r: (
        Option<AuditEvent>,
        Result<CollectionRecord, ApiError>,
    ))
        ensures
            old(self)@.org is None ==> (r.0 is None && (r.1 matches Err(
                ApiError::OrganizationDetailsMissing,
            )) && final(self)@ == old(self)@),
            old(self)@.org is Some ==> ({
                let d1 = old(self)@.with_collections(
                    old(self)@.collections.push(requested_collection(id@, req)),
                );
                let g = with_collection_access(d1, id@, req);
                &&& r.0 matches Some(ev) && ev.kind == EventKind::CollectionCreated
                    && ev.subject_uuid@ == id@
                &&& final(self)@ == g.0
                &&& if g.1 {
                    r.1 matches Ok(col) && col@ == requested_collection(id@, req)
                } else {
                    r.1 matches Err(ApiError::UserNotInOrganization)
                }
            }),
    {
        if self.org.is_none() {
            return (None, Err(ApiError::OrganizationDetailsMissing));
        }
        let col = CollectionRecord {
            uuid: id.clone(),
            name: req.name.clone(),
            external_id: normalize_external_id(copy_opt_text(&req.external_id)),
        };
        let ghost before = self@.collections;
        self.collections.push(col.duplicate());
        assert(self.collections.deep_view() =~= before.push(requested_collection(id@, req)));
        let ev = AuditEvent { kind: EventKind::CollectionCreated, subject_uuid: id.clone() };
        self.save_collection_grants(&id, &req.groups);
        match self.save_member_grants(&id, &req.users) {
            Ok(()) => (Some(ev), Ok(col)),
            Err(e) => (Some(ev), Err(e)),
        }
    }

    /// Replaces collection `c`: its name, external id, group access and member
    /// access. The event is recorded once the collection is saved, whether or
    /// not a member is missing.
    pub fn update_collection(&mut self, c: &String, req: CollectionRequest) -> (r: (
        Option<AuditEvent>,
        Result<CollectionRecord, ApiError>,
    ))
        ensures
            old(self)@.org is None ==> (r.0 is None && (r.1 matches Err(
                ApiError::OrganizationDetailsMissing,
            )) && final(self)@ == old(self)@),
            old(self)@.org is Some ==> match first_index(
                old(self)@.collections,
                collection_with_uuid(c@),
            ) {
                None => (r.0 is None && (r.1 matches Err(ApiError::CollectionNotFound)) && final(self)@
                    == old(self)@),
                Some(i) => {
                    let col = renamed_collection(old(self)@.collections[i], req);
                    let d1 = old(self)@.with_collections(old(self)@.collections.update(i, col));
                    let d2 = d1.with_collection_groups(
                        d1.collection_groups.filter(access_not_to_collection_by_group(c@)),
                    );
                    let d3 = d2.with_collection_groups(
                        with_collection_grants(d2.collection_groups, c@, req.groups.deep_view()),
                    );
                    let d4 = d3.with_collection_users(
                        d3.collection_users.filter(access_not_to_collection_by_user(c@)),
                    );
                    let g = with_member_grants(d4, c@, req.users.deep_view());
                    &&& r.0 matches Some(ev) && ev.kind == EventKind::CollectionUpdated
                        && ev.subject_uuid@ == c@
                    &&& final(self)@ == g.0
                    &&& if g.1 {
                        r.1 matches Ok(saved) && saved@ == col
                    } else {
                        r.1 matches Err(ApiError::UserNotInOrganization)
                    }
                },
            },
    {
        if self.org.is_none() {
            return (None, Err(ApiError::OrganizationDetailsMissing));
        }
        let i = match self.find_collection_by_uuid(c) {
            Some(i) => i,
            None => {
                return (None, Err(ApiError::CollectionNotFound));
            },
        };
        let mut col = self.collections[i].duplicate();
        col.name = req.name.clone();
        col.external_id = normalize_external_id(copy_opt_text(&req.external_id));
        let ghost before = self@.collections;
        let ghost cv = col@;
        self.collections.set(i, col.duplicate());
        assert(self.collections.deep_view() =~= before.update(i as int, cv));
        let ev = AuditEvent { kind: EventKind::CollectionUpdated, subject_uuid: c.clone() };
        self.clear_collection_groups(c);
        self.save_collection_grants(c, &req.groups);
        self.clear_collection_users(c);
        match self.save_member_grants(c, &req.users) {
            Ok(()) => (Some(ev), Ok(col)),
            Err(e) => (Some(ev), Err(e)),
        }
    }

    /// Deletes collection `c` and all access to it.
    pub fn remove_collection(&mut self, c: &String) -> (r: Result<AuditEvent, ApiError>)
        ensures
            match first_index(old(self)@.collections, collection_with_uuid(c@)) {
                None => ((r matches Err(ApiError::CollectionNotFound)) && final(self)@ == old(self)@),
                Some(i) => (r matches Ok(ev) && ev.kind == EventKind::CollectionDeleted
                    && ev.subject_uuid@ == c@ && final(self)@ == old(self)@.after_collection_deleted(c@)),
            },
    {
        match self.find_collection_by_uuid(c) {
            None => Err(ApiError::CollectionNotFound),
            Some(i) => {
                let ev = AuditEvent { kind: EventKind::CollectionDeleted, subject_uuid: c.clone() };
                self.delete_collection(c);
                Ok(ev)
            },
        }
    }
}

} // verus!
