use vstd::prelude::*;

use crate::directory::{
    group_link, group_member_set, link_not_in_group, with_collection_group, with_group_links,
};
use crate::errors::{ApiError, AuditEvent, EventKind};
use crate::lookup::{
    first_index, group_with_uuid, is_first, lemma_first_index_absent, lemma_first_index_found,
    opt_int,
};
use crate::model::{
    copy_opt_text, opt_text, CollectionGroupView, AccessGrant, DirectoryView,
    GroupRecord, GroupUserView, GroupView, OrgDirectory, AccessGrantView,
};
use crate::rules::{normalize_external_id, normalized_external_id};

verus! {

/// A request to create or replace a group.
#[derive(Debug)]
pub struct GroupRequest {
    pub name: String,
    pub access_all: bool,
    pub external_id: Option<String>,
    pub collections: Vec<AccessGrant>,
    pub users: Vec<String>,
}

/// Collection access rows after saving, in order, the access of group `g` to
/// each selected collection.
pub open spec fn with_group_collections(
    rows: Seq<CollectionGroupView>,
    g: Seq<char>,
    sels: Seq<AccessGrantView>,
) -> Seq<CollectionGroupView>
    decreases sels.len(),
{
    if sels.len() == 0 {
        rows
    } else {
        with_collection_group(
            with_group_collections(rows, g, sels.drop_last()),
            sels.last().id,
            g,
            sels.last().flags,
        )
    }
}

/// Groups after saving `gv`: the group with its uuid is replaced, else added.
pub open spec fn with_group_saved(groups: Seq<GroupView>, gv: GroupView) -> Seq<GroupView> {
    match first_index(groups, group_with_uuid(gv.uuid)) {
        Some(i) => groups.update(i, gv),
        None => groups.push(gv),
    }
}

pub open spec fn link_in_group(g: Seq<char>) -> spec_fn(GroupUserView) -> bool {
    |l: GroupUserView| l.group_uuid == g
}

/// The member uuids that the links place in group `g`, in link order.
pub open spec fn members_of_group(links: Seq<GroupUserView>, g: Seq<char>) -> Seq<Seq<char>> {
    links.filter(link_in_group(g)).map_values(|l: GroupUserView| l.member_uuid)
}

/// Saving the links of `ms` to `g` adds exactly `ms` to the members of `g`.
pub proof fn lemma_group_links_add_members(links: Seq<GroupUserView>, g: Seq<char>, ms: Seq<Seq<char>>)
    ensures
        group_member_set(with_group_links(links, g, ms), g) == group_member_set(links, g).union(
            ms.to_set(),
        ),
    decreases ms.len(),
{
    if ms.len() == 0 {
        assert(ms.to_set() =~= Set::<Seq<char>>::empty());
        assert(group_member_set(links, g).union(ms.to_set()) =~= group_member_set(links, g));
    } else {
        let prev = with_group_links(links, g, ms.drop_last());
        lemma_group_links_add_members(links, g, ms.drop_last());
        let next = with_group_links(links, g, ms);
        assert(next == crate::directory::with_group_link(prev, g, ms.last()));
        assert forall|m: Seq<char>| #[trigger] next.contains(group_link(g, m)) <==> (
        prev.contains(group_link(g, m)) || m == ms.last()) by {
            if !prev.contains(group_link(g, ms.last())) {
                if next.contains(group_link(g, m)) {
                    let k = choose|k: int| 0 <= k < next.len() && next[k] == group_link(g, m);
                    if k < prev.len() {
                        assert(prev[k] == next[k]);
                    }
                }
                if prev.contains(group_link(g, m)) {
                    let k = choose|k: int| 0 <= k < prev.len() && prev[k] == group_link(g, m);
                    assert(next[k] == prev[k]);
                }
                if m == ms.last() {
                    assert(next[next.len() - 1] == group_link(g, m));
                }
            }
        }
        crate::directory::lemma_to_set_last(ms);
        assert forall|m: Seq<char>| #[trigger] group_member_set(next, g).contains(m) <==> group_member_set(
            links,
            g,
        ).union(ms.to_set()).contains(m) by {
            assert(group_member_set(next, g).contains(m) == next.contains(group_link(g, m)));
            assert(group_member_set(prev, g).contains(m) == prev.contains(group_link(g, m)));
            assert(group_member_set(prev, g) == group_member_set(links, g).union(
                ms.drop_last().to_set(),
            ));
        }
        assert(group_member_set(next, g) =~= group_member_set(links, g).union(ms.to_set()));
    }
}

/// Replacing the members of a group leaves exactly the requested members in it.
pub proof fn lemma_replaced_members_exact(links: Seq<GroupUserView>, g: Seq<char>, ms: Seq<Seq<char>>)
    ensures
        group_member_set(with_group_links(links.filter(link_not_in_group(g)), g, ms), g)
            == ms.to_set(),
{
    broadcast use vstd::seq_lib::group_filter_ensures;

    let cleared = links.filter(link_not_in_group(g));
    lemma_group_links_add_members(cleared, g, ms);
    assert forall|m: Seq<char>| !#[trigger] cleared.contains(group_link(g, m)) by {
        if cleared.contains(group_link(g, m)) {
            let k = choose|k: int| 0 <= k < cleared.len() && cleared[k] == group_link(g, m);
            assert(link_not_in_group(g)(cleared[k]));
        }
    }
    assert(group_member_set(cleared, g) =~= Set::<Seq<char>>::empty());
    assert(group_member_set(cleared, g).union(ms.to_set()) =~= ms.to_set());
}

/// The links hold at most one place of each member in group `g`.
pub open spec fn group_links_distinct(links: Seq<GroupUserView>, g: Seq<char>) -> bool {
    forall|i: int, j: int|
        0 <= i < j < links.len() && (#[trigger] links[i]).group_uuid == g ==> links[i]
            != #[trigger] links[j]
}

/// A member is listed in group `g` exactly where a link places it there.
pub proof fn lemma_members_of_group_contains(links: Seq<GroupUserView>, g: Seq<char>, u: Seq<char>)
    ensures
        members_of_group(links, g).contains(u) <==> links.contains(group_link(g, u)),
    decreases links.len(),
{
    reveal(Seq::filter);
    if links.len() > 0 {
        let prev = links.drop_last();
        let x = links.last();
        lemma_members_of_group_contains(prev, g, u);
        let f = prev.filter(link_in_group(g));
        let fm = f.map_values(|l: GroupUserView| l.member_uuid);
        if links.contains(group_link(g, u)) {
            let k = choose|k: int| 0 <= k < links.len() && links[k] == group_link(g, u);
            if k < prev.len() {
                assert(prev[k] == links[k]);
            }
        }
        if prev.contains(group_link(g, u)) {
            let k = choose|k: int| 0 <= k < prev.len() && prev[k] == group_link(g, u);
            assert(links[k] == prev[k]);
        }
        if link_in_group(g)(x) {
            assert(links.filter(link_in_group(g)) == f.push(x));
            let full = f.push(x).map_values(|l: GroupUserView| l.member_uuid);
            assert(full =~= fm.push(x.member_uuid));
            if fm.contains(u) {
                let k = choose|k: int| 0 <= k < fm.len() && fm[k] == u;
                assert(full[k] == u);
            }
            if full.contains(u) {
                let k = choose|k: int| 0 <= k < full.len() && full[k] == u;
                if k < fm.len() {
                    assert(fm[k] == u);
                } else {
                    assert(x == group_link(g, u));
                    assert(links[links.len() - 1] == x);
                }
            }
            if x == group_link(g, u) {
                assert(links[links.len() - 1] == x);
                assert(full[full.len() - 1] == u);
            }
        } else {
            assert(links.filter(link_in_group(g)) == f);
            if x == group_link(g, u) {
                assert(link_in_group(g)(x));
            }
        }
    }
}

/// Where the links hold each member at most once in group `g`, so does its
/// listing.
pub proof fn lemma_members_of_group_distinct(links: Seq<GroupUserView>, g: Seq<char>)
    requires
        group_links_distinct(links, g),
    ensures
        members_of_group(links, g).no_duplicates(),
    decreases links.len(),
{
    reveal(Seq::filter);
    if links.len() > 0 {
        let prev = links.drop_last();
        let x = links.last();
        assert(group_links_distinct(prev, g)) by {
            assert forall|i: int, j: int|
                0 <= i < j < prev.len() && (#[trigger] prev[i]).group_uuid == g implies prev[i]
                != #[trigger] prev[j] by {
                assert(prev[i] == links[i] && prev[j] == links[j]);
            }
        }
        lemma_members_of_group_distinct(prev, g);
        let f = prev.filter(link_in_group(g));
        let fm = f.map_values(|l: GroupUserView| l.member_uuid);
        if link_in_group(g)(x) {
            assert(links.filter(link_in_group(g)) == f.push(x));
            let full = f.push(x).map_values(|l: GroupUserView| l.member_uuid);
            assert(full =~= fm.push(x.member_uuid));
            lemma_members_of_group_contains(prev, g, x.member_uuid);
            if fm.contains(x.member_uuid) {
                let k = choose|k: int| 0 <= k < prev.len() && prev[k] == group_link(g, x.member_uuid);
                assert(links[k] == prev[k]);
                assert(x == group_link(g, x.member_uuid));
                assert(links[k] != links[links.len() - 1]);
            }
            assert forall|i: int, j: int| 0 <= i < full.len() && 0 <= j < full.len() && i != j implies full[i]
                != full[j] by {
                if i < fm.len() && j < fm.len() {
                    assert(fm[i] != fm[j]);
                } else if i < fm.len() {
                    assert(fm.contains(fm[i]));
                } else {
                    assert(fm.contains(fm[j]));
                }
            }
        } else {
            assert(links.filter(link_in_group(g)) == f);
        }
    }
}

/// Saving links keeps each member at most once in group `g`.
pub proof fn lemma_group_links_stay_distinct(links: Seq<GroupUserView>, g: Seq<char>, ms: Seq<Seq<char>>)
    requires
        group_links_distinct(links, g),
    ensures
        group_links_distinct(with_group_links(links, g, ms), g),
    decreases ms.len(),
{
    if ms.len() > 0 {
        lemma_group_links_stay_distinct(links, g, ms.drop_last());
        let prev = with_group_links(links, g, ms.drop_last());
        let next = with_group_links(links, g, ms);
        if !prev.contains(group_link(g, ms.last())) {
            assert forall|i: int, j: int|
                0 <= i < j < next.len() && (#[trigger] next[i]).group_uuid == g implies next[i]
                != #[trigger] next[j] by {
                assert(next[i] == prev[i]);
                if j < prev.len() {
                    assert(next[j] == prev[j]);
                } else {
                    if next[i] == next[j] {
                        assert(prev.contains(group_link(g, ms.last())));
                    }
                }
            }
        }
    }
}

/// Listing a group's members after replacing them gives each requested
/// member once and no other.
pub proof fn law_replaced_members_listed(links: Seq<GroupUserView>, g: Seq<char>, ms: Seq<Seq<char>>)
    ensures
        ({
            let listed = members_of_group(
                with_group_links(links.filter(link_not_in_group(g)), g, ms),
                g,
            );
            listed.no_duplicates() && listed.to_set() == ms.to_set()
        }),
{
    broadcast use vstd::seq_lib::group_filter_ensures;

    let cleared = links.filter(link_not_in_group(g));
    assert forall|i: int, j: int|
        0 <= i < j < cleared.len() && (#[trigger] cleared[i]).group_uuid == g implies cleared[i]
        != #[trigger] cleared[j] by {
        assert(link_not_in_group(g)(cleared[i]));
    }
    lemma_group_links_stay_distinct(cleared, g, ms);
    let after = with_group_links(cleared, g, ms);
    lemma_members_of_group_distinct(after, g);
    lemma_replaced_members_exact(links, g, ms);
    let listed = members_of_group(after, g);
    assert forall|u: Seq<char>| listed.to_set().contains(u) <==> ms.to_set().contains(u) by {
        lemma_members_of_group_contains(after, g, u);
        assert(group_member_set(after, g).contains(u) == after.contains(group_link(g, u)));
    }
    assert(listed.to_set() =~= ms.to_set());
}

impl DirectoryView {
    /// The directory after saving group `gv`, then its access to the selected
    /// collections, then the places of the given members in it.
    pub open spec fn after_group_saved(
        self,
        gv: GroupView,
        sels: Seq<AccessGrantView>,
        ms: Seq<Seq<char>>,
    ) -> DirectoryView {
        self.with_groups(with_group_saved(self.groups, gv)).with_collection_groups(
            with_group_collections(self.collection_groups, gv.uuid, sels),
        ).with_group_users(with_group_links(self.group_users, gv.uuid, ms))
    }
}

/// The group a creation request describes, under a fresh uuid.
pub open spec fn requested_group(id: Seq<char>, req: GroupRequest) -> GroupView {
    GroupView {
        uuid: id,
        name: req.name@,
        access_all: req.access_all,
        external_id: normalized_external_id(opt_text(req.external_id)),
    }
}

/// A group with the name and access-to-all of a request; its external id stays.
pub open spec fn renamed_group(g: GroupView, req: GroupRequest) -> GroupView {
    GroupView { name: req.name@, access_all: req.access_all, ..g }
}

impl OrgDirectory {
    /// Saves group `grp`: the group with its uuid is replaced, else added.
    pub fn save_group(&mut self, grp: GroupRecord)
        ensures
            final(self)@ == old(self)@.with_groups(with_group_saved(old(self)@.groups, grp@)),
    {
        let ghost gv = grp@;
        match self.find_group_by_uuid(&grp.uuid) {
            Some(i) => {
                self.groups.set(i, grp);
                assert(self.groups.deep_view() =~= old(self)@.groups.update(i as int, gv));
            },
            None => {
                self.groups.push(grp);
                assert(self.groups.deep_view() =~= old(self)@.groups.push(gv));
            },
        }
    }

    /// Saves, in order, the access of group `g` to each selected collection.
    pub fn save_group_collections(&mut self, g: &String, sels: &Vec<AccessGrant>)
        ensures
            final(self)@ == old(self)@.with_collection_groups(
                with_group_collections(old(self)@.collection_groups, g@, sels.deep_view()),
            ),
    {
        let mut i: usize = 0;
        while i < sels.len()
            invariant
                0 <= i <= sels.len(),
                self@ == old(self)@.with_collection_groups(
                    with_group_collections(
                        old(self)@.collection_groups,
                        g@,
                        sels.deep_view().take(i as int),
                    ),
                ),
            decreases sels.len() - i,
        {
            self.save_collection_group(&sels[i].id, g, sels[i].flags);
            proof {
                let t = sels.deep_view().take(i + 1);
                assert(t.drop_last() =~= sels.deep_view().take(i as int));
            }
            i = i + 1;
        }
        assert(sels.deep_view().take(sels.len() as int) =~= sels.deep_view());
    }

    /// Saves a group with its collection access and members, as creating and
    /// replacing a group both end.
    fn save_group_with_links(
        &mut self,
        grp: GroupRecord,
        sels: &Vec<AccessGrant>,
        ms: &Vec<String>,
    ) -> (saved: GroupRecord)
        ensures
            saved@ == grp@,
            final(self)@ == old(self)@.after_group_saved(grp@, sels.deep_view(), ms.deep_view()),
    {
        let saved = grp.duplicate();
        let id = grp.uuid.clone();
        self.save_group(grp);
        self.save_group_collections(&id, sels);
        self.add_group_links(&id, ms);
        saved
    }

    /// The groups that a listing shows: all of them where groups are enabled.
    pub fn listed_groups(&self, groups_enabled: bool) -> (r: Vec<GroupRecord>)
        ensures
            r.deep_view() == (if groups_enabled {
                self@.groups
            } else {
                Seq::<GroupView>::empty()
            }),
    {
        let mut r: Vec<GroupRecord> = Vec::new();
        if groups_enabled {
            let mut i: usize = 0;
            while i < self.groups.len()
                invariant
                    0 <= i <= self.groups.len(),
                    r.deep_view() == self@.groups.take(i as int),
                decreases self.groups.len() - i,
            {
                let ghost before = r.deep_view();
                r.push(self.groups[i].duplicate());
                assert(r.deep_view() =~= before.push(self@.groups[i as int]));
                assert(self@.groups.take(i + 1) =~= self@.groups.take(i as int).push(
                    self@.groups[i as int],
                ));
                i = i + 1;
            }
            assert(self@.groups.take(self.groups.len() as int) =~= self@.groups);
        }
        assert(groups_enabled || r.deep_view() =~= Seq::<GroupView>::empty());
        r
    }

    /// Looks up group `g` where groups are enabled.
    pub fn get_group(&self, g: &String, groups_enabled: bool) -> (r: Result<GroupRecord, ApiError>)
        ensures
            !groups_enabled ==> r == Err::<GroupRecord, ApiError>(ApiError::GroupsDisabled),
            groups_enabled ==> match first_index(self@.groups, group_with_uuid(g@)) {
                None => r == Err::<GroupRecord, ApiError>(ApiError::GroupNotFound),
                Some(i) => (r matches Ok(grp) && grp@ == self@.groups[i]),
            },
    {
        if !groups_enabled {
            return Err(ApiError::GroupsDisabled);
        }
        match self.find_group_by_uuid(g) {
            Some(i) => Ok(self.groups[i].duplicate()),
            None => Err(ApiError::GroupNotFound),
        }
    }

    /// Creates a group under the fresh uuid `id` with the requested collection
    /// access and members.
    pub fn create_group(&mut self, id: String, req: GroupRequest, groups_enabled: bool) -> (r:
        Result<(GroupRecord, AuditEvent), ApiError>)
        ensures
            !groups_enabled ==> r == Err::<(GroupRecord, AuditEvent), ApiError>(
                ApiError::GroupsDisabled,
            ) && final(self)@ == old(self)@,
            groups_enabled ==> (r matches Ok((grp, ev)) && grp@ == requested_group(id@, req)
                && ev.kind == EventKind::GroupCreated && ev.subject_uuid@ == id@
                && final(self)@ == old(self)@.after_group_saved(
                grp@,
                req.collections.deep_view(),
                req.users.deep_view(),
            )),
            r is Ok ==> group_member_set(final(self)@.group_users, id@) == group_member_set(
                old(self)@.group_users,
                id@,
            ).union(req.users.deep_view().to_set()),
    {
        if !groups_enabled {
            return Err(ApiError::GroupsDisabled);
        }
        let grp = GroupRecord {
            uuid: id.clone(),
            name: req.name.clone(),
            access_all: req.access_all,
            external_id: normalize_external_id(copy_opt_text(&req.external_id)),
        };
        let ev = AuditEvent { kind: EventKind::GroupCreated, subject_uuid: id };
        let saved = self.save_group_with_links(grp, &req.collections, &req.users);
        proof {
            lemma_group_links_add_members(old(self)@.group_users, ev.subject_uuid@, req.users.deep_view());
        }
        Ok((saved, ev))
    }

    /// Replaces group `g`: its name and access-to-all, its collection access and
    /// its members; its external id stays.
    pub fn update_group(&mut self, g: &String, req: GroupRequest, groups_enabled: bool) -> (r:
        Result<(GroupRecord, AuditEvent), ApiError>)
        ensures
            !groups_enabled ==> r == Err::<(GroupRecord, AuditEvent), ApiError>(
                ApiError::GroupsDisabled,
            ) && final(self)@ == old(self)@,
            groups_enabled ==> match first_index(old(self)@.groups, group_with_uuid(g@)) {
                None => r == Err::<(GroupRecord, AuditEvent), ApiError>(ApiError::GroupNotFound)
                    && final(self)@ == old(self)@,
                Some(i) => (r matches Ok((grp, ev)) && grp@ == renamed_group(
                    old(self)@.groups[i],
                    req,
                ) && ev.kind == EventKind::GroupUpdated && ev.subject_uuid@ == g@
                    && final(self)@ == old(self)@.with_collection_groups(
                    old(self)@.collection_groups.filter(
                        crate::directory::access_not_of_group(g@),
                    ),
                ).with_group_users(old(self)@.group_users.filter(link_not_in_group(g@))).after_group_saved(
                    grp@,
                    req.collections.deep_view(),
                    req.users.deep_view(),
                )),
            },
            r is Ok ==> group_member_set(final(self)@.group_users, g@) == req.users.deep_view().to_set(),
    {
        if !groups_enabled {
            return Err(ApiError::GroupsDisabled);
        }
        let i = match self.find_group_by_uuid(g) {
            Some(i) => i,
            None => {
                return Err(ApiError::GroupNotFound);
            },
        };
        let mut grp = self.groups[i].duplicate();
        grp.name = req.name.clone();
        grp.access_all = req.access_all;
        self.clear_group_collections(g);
        self.clear_group_links(g);
        let ev = AuditEvent { kind: EventKind::GroupUpdated, subject_uuid: grp.uuid.clone() };
        let saved = self.save_group_with_links(grp, &req.collections, &req.users);
        proof {
            lemma_replaced_members_exact(old(self)@.group_users, g@, req.users.deep_view());
        }
        Ok((saved, ev))
    }

    /// The members of group `g`, where groups are enabled and the group exists.
    pub fn group_member_ids(&self, g: &String, groups_enabled: bool) -> (r: Result<
        Vec<String>,
        ApiError,
    >)
        ensures
            !groups_enabled ==> r == Err::<Vec<String>, ApiError>(ApiError::GroupsDisabled),
            groups_enabled ==> match first_index(self@.groups, group_with_uuid(g@)) {
                None => r == Err::<Vec<String>, ApiError>(ApiError::GroupMissing),
                Some(i) => (r matches Ok(ids) && ids.deep_view() == members_of_group(
                    self@.group_users,
                    g@,
                )),
            },
    {
        if !groups_enabled {
            return Err(ApiError::GroupsDisabled);
        }
        if self.find_group_by_uuid(g).is_none() {
            return Err(ApiError::GroupMissing);
        }
        let mut ids: Vec<String> = Vec::new();
        let mut i: usize = 0;
        while i < self.group_users.len()
            invariant
                0 <= i <= self.group_users.len(),
                ids.deep_view() == members_of_group(self@.group_users.take(i as int), g@),
            decreases self.group_users.len() - i,
        {
            let ghost before = ids.deep_view();
            if self.group_users[i].group_uuid == *g {
                ids.push(self.group_users[i].member_uuid.clone());
            }
            proof {
                reveal(Seq::filter);
                let s = self@.group_users.take(i + 1);
                assert(s.drop_last() =~= self@.group_users.take(i as int));
                let f = self@.group_users.take(i as int).filter(link_in_group(g@));
                if link_in_group(g@)(self@.group_users[i as int]) {
                    assert(s.filter(link_in_group(g@)) == f.push(self@.group_users[i as int]));
                    assert(f.push(self@.group_users[i as int]).map_values(
                        |l: GroupUserView| l.member_uuid,
                    ) =~= f.map_values(|l: GroupUserView| l.member_uuid).push(
                        self@.group_users[i as int].member_uuid,
                    ));
                } else {
                    assert(s.filter(link_in_group(g@)) == f);
                }
                assert(ids.deep_view() =~= members_of_group(s, g@));
            }
            i = i + 1;
        }
        assert(self@.group_users.take(self.group_users.len() as int) =~= self@.group_users);
        Ok(ids)
    }

    /// Replaces the members of group `g` with `ms`, where groups are enabled and
    /// the group exists.
    pub fn replace_group_members(&mut self, g: &String, ms: &Vec<String>, groups_enabled: bool) -> (r:
        Result<(), ApiError>)
        ensures
            !groups_enabled ==> r == Err::<(), ApiError>(ApiError::GroupsDisabled) && final(self)@
                == old(self)@,
            groups_enabled ==> match first_index(old(self)@.groups, group_with_uuid(g@)) {
                None => r == Err::<(), ApiError>(ApiError::GroupMissing) && final(self)@ == old(
                    self,
                )@,
                Some(i) => r == Ok::<(), ApiError>(()) && final(self)@ == old(self)@.with_group_users(
                    with_group_links(
                        old(self)@.group_users.filter(link_not_in_group(g@)),
                        g@,
                        ms.deep_view(),
                    ),
                ),
            },
            r is Ok ==> group_member_set(final(self)@.group_users, g@) == ms.deep_view().to_set(),
            r is Ok ==> members_of_group(final(self)@.group_users, g@).no_duplicates()
                && members_of_group(final(self)@.group_users, g@).to_set() == ms.deep_view().to_set(),
    {
        if !groups_enabled {
            return Err(ApiError::GroupsDisabled);
        }
        if self.find_group_by_uuid(g).is_none() {
            return Err(ApiError::GroupMissing);
        }
        self.clear_group_links(g);
        self.add_group_links(g, ms);
        proof {
            lemma_replaced_members_exact(old(self)@.group_users, g@, ms.deep_view());
            law_replaced_members_listed(old(self)@.group_users, g@, ms.deep_view());
        }
        Ok(())
    }

    /// Deletes group `g` with its collection access and member places.
    pub fn remove_group(&mut self, g: &String, groups_enabled: bool) -> (r: Result<
        AuditEvent,
        ApiError,
    >)
        ensures
            !groups_enabled ==> r == Err::<AuditEvent, ApiError>(ApiError::GroupsDisabled)
                && final(self)@ == old(self)@,
            groups_enabled ==> match first_index(old(self)@.groups, group_with_uuid(g@)) {
                None => r == Err::<AuditEvent, ApiError>(ApiError::GroupNotFound) && final(self)@
                    == old(self)@,
                Some(i) => (r matches Ok(ev) && ev.kind == EventKind::GroupDeleted
                    && ev.subject_uuid@ == g@ && final(self)@ == old(self)@.after_group_deleted(g@)),
            },
    {
        if !groups_enabled {
            return Err(ApiError::GroupsDisabled);
        }
        match self.find_group_by_uuid(g) {
            Some(i) => {
                let ev = AuditEvent { kind: EventKind::GroupDeleted, subject_uuid: g.clone() };
                self.delete_group(g);
                Ok(ev)
            },
            None => Err(ApiError::GroupNotFound),
        }
    }
}

} // verus!
