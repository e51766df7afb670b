use vstd::prelude::*;

use crate::lookup::{first_index, is_first, lemma_first_index_absent, lemma_first_index_found};
use crate::model::{
    AccessFlags,    CollectionRecord, GroupRecord, MemberRecord, UserRecord, CollectionGroupRecord, CollectionGroupView, CollectionUserRecord, CollectionUserView,
    CollectionView, DirectoryView, GroupUserRecord, GroupUserView, GroupView, MemberView,
    OrgDirectory, UserView,
};
use crate::rules::is_confirmed_owner;

verus! {

impl DirectoryView {
    pub open spec fn with_users(self, s: Seq<UserView>) -> DirectoryView {
        DirectoryView { users: s, ..self }
    }

    pub open spec fn with_invitations(self, s: Seq<Seq<char>>) -> DirectoryView {
        DirectoryView { invitations: s, ..self }
    }

    pub open spec fn with_members(self, s: Seq<MemberView>) -> DirectoryView {
        DirectoryView { members: s, ..self }
    }

    pub open spec fn with_groups(self, s: Seq<GroupView>) -> DirectoryView {
        DirectoryView { groups: s, ..self }
    }

    pub open spec fn with_group_users(self, s: Seq<GroupUserView>) -> DirectoryView {
        DirectoryView { group_users: s, ..self }
    }

    pub open spec fn with_collections(self, s: Seq<CollectionView>) -> DirectoryView {
        DirectoryView { collections: s, ..self }
    }

    pub open spec fn with_collection_groups(self, s: Seq<CollectionGroupView>) -> DirectoryView {
        DirectoryView { collection_groups: s, ..self }
    }

    pub open spec fn with_collection_users(self, s: Seq<CollectionUserView>) -> DirectoryView {
        DirectoryView { collection_users: s, ..self }
    }

    /// How many members are confirmed owners.
    pub open spec fn confirmed_owner_count(self) -> nat {
        self.members.filter(confirmed_owner_pred()).len()
    }
}

pub open spec fn confirmed_owner_pred() -> spec_fn(MemberView) -> bool {
    |m: MemberView| is_confirmed_owner(m)
}

/// The link that places member `m` in group `g`.
pub open spec fn group_link(g: Seq<char>, m: Seq<char>) -> GroupUserView {
    GroupUserView { group_uuid: g, member_uuid: m }
}

/// Links after saving the link of `m` to `g`: nothing changes where it exists.
pub open spec fn with_group_link(links: Seq<GroupUserView>, g: Seq<char>, m: Seq<char>) -> Seq<
    GroupUserView,
> {
    if links.contains(group_link(g, m)) {
        links
    } else {
        links.push(group_link(g, m))
    }
}

/// Links after saving, in order, the link of each of `ms` to `g`.
pub open spec fn with_group_links(links: Seq<GroupUserView>, g: Seq<char>, ms: Seq<Seq<char>>) -> Seq<
    GroupUserView,
>
    decreases ms.len(),
{
    if ms.len() == 0 {
        links
    } else {
        with_group_link(with_group_links(links, g, ms.drop_last()), g, ms.last())
    }
}

/// Links after saving, in order, the link of `m` to each of the groups `gs`.
pub open spec fn with_member_links(links: Seq<GroupUserView>, gs: Seq<Seq<char>>, m: Seq<char>) -> Seq<
    GroupUserView,
>
    decreases gs.len(),
{
    if gs.len() == 0 {
        links
    } else {
        with_group_link(with_member_links(links, gs.drop_last(), m), gs.last(), m)
    }
}

pub open spec fn link_not_in_group(g: Seq<char>) -> spec_fn(GroupUserView) -> bool {
    |l: GroupUserView| l.group_uuid != g
}

pub open spec fn link_not_of_member(m: Seq<char>) -> spec_fn(GroupUserView) -> bool {
    |l: GroupUserView| l.member_uuid != m
}

/// The members that group `g` holds under `links`.
pub open spec fn group_member_set(links: Seq<GroupUserView>, g: Seq<char>) -> Set<Seq<char>> {
    Set::new(|m: Seq<char>| links.contains(group_link(g, m)))
}

fn group_links_without_group(links: &Vec<GroupUserRecord>, g: &String) -> (r: Vec<GroupUserRecord>)
    ensures
        r.deep_view() == links.deep_view().filter(link_not_in_group(g@)),
{
    let mut kept: Vec<GroupUserRecord> = Vec::new();
    let mut i: usize = 0;
    while i < links.len()
        invariant
            0 <= i <= links.len(),
            kept.deep_view() == links.deep_view().take(i as int).filter(link_not_in_group(g@)),
        decreases links.len() - i,
    {
        let ghost before = kept.deep_view();
        if links[i].group_uuid != *g {
            kept.push(links[i].duplicate());
        }
        proof {
            reveal(Seq::filter);
            let s = links.deep_view().take(i + 1);
            assert(s.drop_last() =~= links.deep_view().take(i as int));
            assert(kept.deep_view() =~= s.filter(link_not_in_group(g@)));
        }
        i = i + 1;
    }
    assert(links.deep_view().take(links.len() as int) =~= links.deep_view());
    kept
}

pub open spec fn access_not_of_group(x: Seq<char>) -> spec_fn(CollectionGroupView) -> bool {
    |r: CollectionGroupView| r.group_uuid != x
}

pub open spec fn access_not_to_collection_by_group(x: Seq<char>) -> spec_fn(CollectionGroupView) -> bool {
    |r: CollectionGroupView| r.collection_uuid != x
}

pub open spec fn access_not_to_collection_by_user(x: Seq<char>) -> spec_fn(CollectionUserView) -> bool {
    |r: CollectionUserView| r.collection_uuid != x
}

pub open spec fn access_not_of_user(x: Seq<char>) -> spec_fn(CollectionUserView) -> bool {
    |r: CollectionUserView| r.user_uuid != x
}

pub open spec fn group_other_than(x: Seq<char>) -> spec_fn(GroupView) -> bool {
    |r: GroupView| r.uuid != x
}

pub open spec fn collection_other_than(x: Seq<char>) -> spec_fn(CollectionView) -> bool {
    |r: CollectionView| r.uuid != x
}

pub open spec fn member_other_than(x: Seq<char>) -> spec_fn(MemberView) -> bool {
    |r: MemberView| r.uuid != x
}

pub open spec fn member_not_of_user(x: Seq<char>) -> spec_fn(MemberView) -> bool {
    |r: MemberView| r.user_uuid != x
}

pub open spec fn user_other_than(x: Seq<char>) -> spec_fn(UserView) -> bool {
    |r: UserView| r.uuid != x
}

fn group_links_without_member(rows: &Vec<GroupUserRecord>, x: &String) -> (r: Vec<GroupUserRecord>)
    ensures
        r.deep_view() == rows.deep_view().filter(link_not_of_member(x@)),
{
    let mut kept: Vec<GroupUserRecord> = Vec::new();
    let mut i: usize = 0;
    while i < rows.len()
        invariant
            0 <= i <= rows.len(),
            kept.deep_view() == rows.deep_view().take(i as int).filter(link_not_of_member(x@)),
        decreases rows.len() - i,
    {
        if rows[i].member_uuid != *x {
            kept.push(rows[i].duplicate());
        }
        proof {
            reveal(Seq::filter);
            let s = rows.deep_view().take(i + 1);
            assert(s.drop_last() =~= rows.deep_view().take(i as int));
            assert(kept.deep_view() =~= s.filter(link_not_of_member(x@)));
        }
        i = i + 1;
    }
    assert(rows.deep_view().take(rows.len() as int) =~= rows.deep_view());
    kept
}

fn collection_groups_without_group(rows: &Vec<CollectionGroupRecord>, x: &String) -> (r: Vec<CollectionGroupRecord>)
    ensures
        r.deep_view() == rows.deep_view().filter(access_not_of_group(x@)),
{
    let mut kept: Vec<CollectionGroupRecord> = Vec::new();
    let mut i: usize = 0;
    while i < rows.len()
        invariant
            0 <= i <= rows.len(),
            kept.deep_view() == rows.deep_view().take(i as int).filter(access_not_of_group(x@)),
        decreases rows.len() - i,
    {
        if rows[i].group_uuid != *x {
            kept.push(rows[i].duplicate());
        }
        proof {
            reveal(Seq::filter);
            let s = rows.deep_view().take(i + 1);
            assert(s.drop_last() =~= rows.deep_view().take(i as int));
            assert(kept.deep_view() =~= s.filter(access_not_of_group(x@)));
        }
        i = i + 1;
    }
    assert(rows.deep_view().take(rows.len() as int) =~= rows.deep_view());
    kept
}

fn collection_groups_without_collection(rows: &Vec<CollectionGroupRecord>, x: &String) -> (r: Vec<CollectionGroupRecord>)
    ensures
        r.deep_view() == rows.deep_view().filter(access_not_to_collection_by_group(x@)),
{
    let mut kept: Vec<CollectionGroupRecord> = Vec::new();
    let mut i: usize = 0;
    while i < rows.len()
        invariant
            0 <= i <= rows.len(),
            kept.deep_view() == rows.deep_view().take(i as int).filter(access_not_to_collection_by_group(x@)),
        decreases rows.len() - i,
    {
        if rows[i].collection_uuid != *x {
            kept.push(rows[i].duplicate());
        }
        proof {
            reveal(Seq::filter);
            let s = rows.deep_view().take(i + 1);
            assert(s.drop_last() =~= rows.deep_view().take(i as int));
            assert(kept.deep_view() =~= s.filter(access_not_to_collection_by_group(x@)));
        }
        i = i + 1;
    }
    assert(rows.deep_view().take(rows.len() as int) =~= rows.deep_view());
    kept
}

fn collection_users_without_collection(rows: &Vec<CollectionUserRecord>, x: &String) -> (r: Vec<CollectionUserRecord>)
    ensures
        r.deep_view() == rows.deep_view().filter(access_not_to_collection_by_user(x@)),
{
    let mut kept: Vec<CollectionUserRecord> = Vec::new();
    let mut i: usize = 0;
    while i < rows.len()
        invariant
            0 <= i <= rows.len(),
            kept.deep_view() == rows.deep_view().take(i as int).filter(access_not_to_collection_by_user(x@)),
        decreases rows.len() - i,
    {
        if rows[i].collection_uuid != *x {
            kept.push(rows[i].duplicate());
        }
        proof {
            reveal(Seq::filter);
            let s = rows.deep_view().take(i + 1);
            assert(s.drop_last() =~= rows.deep_view().take(i as int));
            assert(kept.deep_view() =~= s.filter(access_not_to_collection_by_user(x@)));
        }
        i = i + 1;
    }
    assert(rows.deep_view().take(rows.len() as int) =~= rows.deep_view());
    kept
}

fn collection_users_without_user(rows: &Vec<CollectionUserRecord>, x: &String) -> (r: Vec<CollectionUserRecord>)
    ensures
        r.deep_view() == rows.deep_view().filter(access_not_of_user(x@)),
{
    let mut kept: Vec<CollectionUserRecord> = Vec::new();
    let mut i: usize = 0;
    while i < rows.len()
        invariant
            0 <= i <= rows.len(),
            kept.deep_view() == rows.deep_view().take(i as int).filter(access_not_of_user(x@)),
        decreases rows.len() - i,
    {
        if rows[i].user_uuid != *x {
            kept.push(rows[i].duplicate());
        }
        proof {
            reveal(Seq::filter);
            let s = rows.deep_view().take(i + 1);
            assert(s.drop_last() =~= rows.deep_view().take(i as int));
            assert(kept.deep_view() =~= s.filter(access_not_of_user(x@)));
        }
        i = i + 1;
    }
    assert(rows.deep_view().take(rows.len() as int) =~= rows.deep_view());
    kept
}

fn groups_without(rows: &Vec<GroupRecord>, x: &String) -> (r: Vec<GroupRecord>)
    ensures
        r.deep_view() == rows.deep_view().filter(group_other_than(x@)),
{
    let mut kept: Vec<GroupRecord> = Vec::new();
    let mut i: usize = 0;
    while i < rows.len()
        invariant
            0 <= i <= rows.len(),
            kept.deep_view() == rows.deep_view().take(i as int).filter(group_other_than(x@)),
        decreases rows.len() - i,
    {
        if rows[i].uuid != *x {
            kept.push(rows[i].duplicate());
        }
        proof {
            reveal(Seq::filter);
            let s = rows.deep_view().take(i + 1);
            assert(s.drop_last() =~= rows.deep_view().take(i as int));
            assert(kept.deep_view() =~= s.filter(group_other_than(x@)));
        }
        i = i + 1;
    }
    assert(rows.deep_view().take(rows.len() as int) =~= rows.deep_view());
    kept
}

fn collections_without(rows: &Vec<CollectionRecord>, x: &String) -> (r: Vec<CollectionRecord>)
    ensures
        r.deep_view() == rows.deep_view().filter(collection_other_than(x@)),
{
    let mut kept: Vec<CollectionRecord> = Vec::new();
    let mut i: usize = 0;
    while i < rows.len()
        invariant
            0 <= i <= rows.len(),
            kept.deep_view() == rows.deep_view().take(i as int).filter(collection_other_than(x@)),
        decreases rows.len() - i,
    {
        if rows[i].uuid != *x {
            kept.push(rows[i].duplicate());
        }
        proof {
            reveal(Seq::filter);
            let s = rows.deep_view().take(i + 1);
            assert(s.drop_last() =~= rows.deep_view().take(i as int));
            assert(kept.deep_view() =~= s.filter(collection_other_than(x@)));
        }
        i = i + 1;
    }
    assert(rows.deep_view().take(rows.len() as int) =~= rows.deep_view());
    kept
}

fn members_without(rows: &Vec<MemberRecord>, x: &String) -> (r: Vec<MemberRecord>)
    ensures
        r.deep_view() == rows.deep_view().filter(member_other_than(x@)),
{
    let mut kept: Vec<MemberRecord> = Vec::new();
    let mut i: usize = 0;
    while i < rows.len()
        invariant
            0 <= i <= rows.len(),
            kept.deep_view() == rows.deep_view().take(i as int).filter(member_other_than(x@)),
        decreases rows.len() - i,
    {
        if rows[i].uuid != *x {
            kept.push(rows[i].duplicate());
        }
        proof {
            reveal(Seq::filter);
            let s = rows.deep_view().take(i + 1);
            assert(s.drop_last() =~= rows.deep_view().take(i as int));
            assert(kept.deep_view() =~= s.filter(member_other_than(x@)));
        }
        i = i + 1;
    }
    assert(rows.deep_view().take(rows.len() as int) =~= rows.deep_view());
    kept
}

fn users_without(rows: &Vec<UserRecord>, x: &String) -> (r: Vec<UserRecord>)
    ensures
        r.deep_view() == rows.deep_view().filter(user_other_than(x@)),
{
    let mut kept: Vec<UserRecord> = Vec::new();
    let mut i: usize = 0;
    while i < rows.len()
        invariant
            0 <= i <= rows.len(),
            kept.deep_view() == rows.deep_view().take(i as int).filter(user_other_than(x@)),
        decreases rows.len() - i,
    {
        if rows[i].uuid != *x {
            kept.push(rows[i].duplicate());
        }
        proof {
            reveal(Seq::filter);
            let s = rows.deep_view().take(i + 1);
            assert(s.drop_last() =~= rows.deep_view().take(i as int));
            assert(kept.deep_view() =~= s.filter(user_other_than(x@)));
        }
        i = i + 1;
    }
    assert(rows.deep_view().take(rows.len() as int) =~= rows.deep_view());
    kept
}

pub open spec fn text_other_than(x: Seq<char>) -> spec_fn(Seq<char>) -> bool {
    |s: Seq<char>| s != x
}

fn texts_without(rows: &Vec<String>, x: &String) -> (r: Vec<String>)
    ensures
        r.deep_view() == rows.deep_view().filter(text_other_than(x@)),
{
    let mut kept: Vec<String> = Vec::new();
    let mut i: usize = 0;
    while i < rows.len()
        invariant
            0 <= i <= rows.len(),
            kept.deep_view() == rows.deep_view().take(i as int).filter(text_other_than(x@)),
        decreases rows.len() - i,
    {
        if rows[i] != *x {
            kept.push(rows[i].clone());
        }
        proof {
            reveal(Seq::filter);
            let s = rows.deep_view().take(i + 1);
            assert(s.drop_last() =~= rows.deep_view().take(i as int));
            assert(kept.deep_view() =~= s.filter(text_other_than(x@)));
        }
        i = i + 1;
    }
    assert(rows.deep_view().take(rows.len() as int) =~= rows.deep_view());
    kept
}

pub open spec fn collection_group_key(c: Seq<char>, g: Seq<char>) -> spec_fn(CollectionGroupView) -> bool {
    |r: CollectionGroupView| r.collection_uuid == c && r.group_uuid == g
}

pub open spec fn collection_user_key(u: Seq<char>, c: Seq<char>) -> spec_fn(CollectionUserView) -> bool {
    |r: CollectionUserView| r.user_uuid == u && r.collection_uuid == c
}

/// Collection access rows after saving the access of group `g` to collection
/// `c`: an existing row for the pair gets the new flags, else a row is added.
pub open spec fn with_collection_group(
    rows: Seq<CollectionGroupView>,
    c: Seq<char>,
    g: Seq<char>,
    f: AccessFlags,
) -> Seq<CollectionGroupView> {
    let row = CollectionGroupView { collection_uuid: c, group_uuid: g, flags: f };
    match first_index(rows, collection_group_key(c, g)) {
        Some(i) => rows.update(i, row),
        None => rows.push(row),
    }
}

/// Collection access rows after saving the access of user `u` to collection
/// `c`: an existing row for the pair gets the new flags, else a row is added.
pub open spec fn with_collection_user(
    rows: Seq<CollectionUserView>,
    u: Seq<char>,
    c: Seq<char>,
    f: AccessFlags,
) -> Seq<CollectionUserView> {
    let row = CollectionUserView { user_uuid: u, collection_uuid: c, flags: f };
    match first_index(rows, collection_user_key(u, c)) {
        Some(i) => rows.update(i, row),
        None => rows.push(row),
    }
}

/// Invitations after saving one for `e`: nothing changes where it exists.
pub open spec fn with_invitation(inv: Seq<Seq<char>>, e: Seq<char>) -> Seq<Seq<char>> {
    if inv.contains(e) {
        inv
    } else {
        inv.push(e)
    }
}

impl DirectoryView {
    /// The directory after deleting the membership `m`, with its group places
    /// and its user's collection access.
    pub open spec fn after_member_deleted(self, m: MemberView) -> DirectoryView {
        self.after_membership_deleted(m.uuid, m.user_uuid)
    }

    /// The directory after deleting the membership with uuid `id` of user
    /// `user`, with its group places and the user's collection access.
    pub open spec fn after_membership_deleted(self, id: Seq<char>, user: Seq<char>) -> DirectoryView {
        DirectoryView {
            members: self.members.filter(member_other_than(id)),
            group_users: self.group_users.filter(link_not_of_member(id)),
            collection_users: self.collection_users.filter(access_not_of_user(user)),
            ..self
        }
    }

    /// The directory after deleting group `g`, with its collection access and
    /// its member places.
    pub open spec fn after_group_deleted(self, g: Seq<char>) -> DirectoryView {
        DirectoryView {
            groups: self.groups.filter(group_other_than(g)),
            collection_groups: self.collection_groups.filter(access_not_of_group(g)),
            group_users: self.group_users.filter(link_not_in_group(g)),
            ..self
        }
    }

    /// The directory after deleting collection `c` and all access to it.
    pub open spec fn after_collection_deleted(self, c: Seq<char>) -> DirectoryView {
        DirectoryView {
            collections: self.collections.filter(collection_other_than(c)),
            collection_groups: self.collection_groups.filter(access_not_to_collection_by_group(c)),
            collection_users: self.collection_users.filter(access_not_to_collection_by_user(c)),
            ..self
        }
    }

    /// The directory after deleting the user with uuid `id` and the pending
    /// invitation for `email`.
    pub open spec fn after_user_removed(self, id: Seq<char>, email: Seq<char>) -> DirectoryView {
        DirectoryView {
            users: self.users.filter(user_other_than(id)),
            invitations: self.invitations.filter(text_other_than(email)),
            ..self
        }
    }
}

impl OrgDirectory {
    /// Saves the place of member `m` in group `g`.
    pub fn add_group_link(&mut self, g: &String, m: &String)
        ensures
            final(self)@ == old(self)@.with_group_users(with_group_link(old(self)@.group_users, g@, m@)),
    {
        let mut i: usize = 0;
        while i < self.group_users.len()
            invariant
                0 <= i <= self.group_users.len(),
                self@ == old(self)@,
                forall|j: int| 0 <= j < i ==> #[trigger] self@.group_users[j] != group_link(g@, m@),
            decreases self.group_users.len() - i,
        {
            if self.group_users[i].group_uuid == *g && self.group_users[i].member_uuid == *m {
                assert(self@.group_users[i as int] == group_link(g@, m@));
                return;
            }
            i = i + 1;
        }
        let ghost before = self.group_users.deep_view();
        assert(!before.contains(group_link(g@, m@)));
        self.group_users.push(GroupUserRecord { group_uuid: g.clone(), member_uuid: m.clone() });
        assert(self.group_users.deep_view() =~= before.push(group_link(g@, m@)));
    }

    /// Saves, in order, the place of each of `ms` in group `g`.
    pub fn add_group_links(&mut self, g: &String, ms: &Vec<String>)
        ensures
            final(self)@ == old(self)@.with_group_users(
                with_group_links(old(self)@.group_users, g@, ms.deep_view()),
            ),
    {
        let mut i: usize = 0;
        while i < ms.len()
            invariant
                0 <= i <= ms.len(),
                self@ == old(self)@.with_group_users(
                    with_group_links(old(self)@.group_users, g@, ms.deep_view().take(i as int)),
                ),
            decreases ms.len() - i,
        {
            self.add_group_link(g, &ms[i]);
            proof {
                let t = ms.deep_view().take(i + 1);
                assert(t.drop_last() =~= ms.deep_view().take(i as int));
            }
            i = i + 1;
        }
        assert(ms.deep_view().take(ms.len() as int) =~= ms.deep_view());
    }

    /// Saves, in order, the place of member `m` in each of the groups `gs`.
    pub fn add_member_links(&mut self, gs: &Vec<String>, m: &String)
        ensures
            final(self)@ == old(self)@.with_group_users(
                with_member_links(old(self)@.group_users, gs.deep_view(), m@),
            ),
    {
        let mut i: usize = 0;
        while i < gs.len()
            invariant
                0 <= i <= gs.len(),
                self@ == old(self)@.with_group_users(
                    with_member_links(old(self)@.group_users, gs.deep_view().take(i as int), m@),
                ),
            decreases gs.len() - i,
        {
            self.add_group_link(&gs[i], m);
            proof {
                let t = gs.deep_view().take(i + 1);
                assert(t.drop_last() =~= gs.deep_view().take(i as int));
            }
            i = i + 1;
        }
        assert(gs.deep_view().take(gs.len() as int) =~= gs.deep_view());
    }

    /// Removes every member from group `g`.
    pub fn clear_group_links(&mut self, g: &String)
        ensures
            final(self)@ == old(self)@.with_group_users(
                old(self)@.group_users.filter(link_not_in_group(g@)),
            ),
    {
        self.group_users = group_links_without_group(&self.group_users, g);
    }

    /// Removes member `m` from every group.
    pub fn clear_member_links(&mut self, m: &String)
        ensures
            final(self)@ == old(self)@.with_group_users(
                old(self)@.group_users.filter(link_not_of_member(m@)),
            ),
    {
        self.group_users = group_links_without_member(&self.group_users, m);
    }

    /// Removes all access of groups to collection `c`.
    pub fn clear_collection_groups(&mut self, c: &String)
        ensures
            final(self)@ == old(self)@.with_collection_groups(
                old(self)@.collection_groups.filter(access_not_to_collection_by_group(c@)),
            ),
    {
        self.collection_groups = collection_groups_without_collection(&self.collection_groups, c);
    }

    /// Removes all access of group `g` to collections.
    pub fn clear_group_collections(&mut self, g: &String)
        ensures
            final(self)@ == old(self)@.with_collection_groups(
                old(self)@.collection_groups.filter(access_not_of_group(g@)),
            ),
    {
        self.collection_groups = collection_groups_without_group(&self.collection_groups, g);
    }

    /// Removes all direct access of users to collection `c`.
    pub fn clear_collection_users(&mut self, c: &String)
        ensures
            final(self)@ == old(self)@.with_collection_users(
                old(self)@.collection_users.filter(access_not_to_collection_by_user(c@)),
            ),
    {
        self.collection_users = collection_users_without_collection(&self.collection_users, c);
    }

    /// Removes all direct access of user `u` to the organization's collections.
    pub fn clear_user_collections(&mut self, u: &String)
        ensures
            final(self)@ == old(self)@.with_collection_users(
                old(self)@.collection_users.filter(access_not_of_user(u@)),
            ),
    {
        self.collection_users = collection_users_without_user(&self.collection_users, u);
    }

    /// Saves the access of group `g` to collection `c` with flags `f`.
    pub fn save_collection_group(&mut self, c: &String, g: &String, f: AccessFlags)
        ensures
            final(self)@ == old(self)@.with_collection_groups(
                with_collection_group(old(self)@.collection_groups, c@, g@, f),
            ),
    {
        let ghost rows = self@.collection_groups;
        let ghost key = collection_group_key(c@, g@);
        let row = CollectionGroupRecord { collection_uuid: c.clone(), group_uuid: g.clone(), flags: f };
        let mut i: usize = 0;
        while i < self.collection_groups.len()
            invariant
                0 <= i <= self.collection_groups.len(),
                self@ == old(self)@,
                rows == self@.collection_groups,
                key == collection_group_key(c@, g@),
                row@ == (CollectionGroupView { collection_uuid: c@, group_uuid: g@, flags: f }),
                forall|j: int| 0 <= j < i ==> !key(#[trigger] rows[j]),
            decreases self.collection_groups.len() - i,
        {
            if self.collection_groups[i].collection_uuid == *c && self.collection_groups[i].group_uuid == *g {
                proof {
                    lemma_first_index_found(rows, key, i as int);
                }
                self.collection_groups.set(i, row);
                assert(self.collection_groups.deep_view() =~= rows.update(i as int, row@));
                return;
            }
            i = i + 1;
        }
        proof {
            lemma_first_index_absent(rows, key);
        }
        self.collection_groups.push(row);
        assert(self.collection_groups.deep_view() =~= rows.push(row@));
    }

    /// Saves the direct access of user `u` to collection `c` with flags `f`.
    pub fn save_collection_user(&mut self, u: &String, c: &String, f: AccessFlags)
        ensures
            final(self)@ == old(self)@.with_collection_users(
                with_collection_user(old(self)@.collection_users, u@, c@, f),
            ),
    {
        let ghost rows = self@.collection_users;
        let ghost key = collection_user_key(u@, c@);
        let row = CollectionUserRecord { user_uuid: u.clone(), collection_uuid: c.clone(), flags: f };
        let mut i: usize = 0;
        while i < self.collection_users.len()
            invariant
                0 <= i <= self.collection_users.len(),
                self@ == old(self)@,
                rows == self@.collection_users,
                key == collection_user_key(u@, c@),
                row@ == (CollectionUserView { user_uuid: u@, collection_uuid: c@, flags: f }),
                forall|j: int| 0 <= j < i ==> !key(#[trigger] rows[j]),
            decreases self.collection_users.len() - i,
        {
            if self.collection_users[i].user_uuid == *u && self.collection_users[i].collection_uuid == *c {
                proof {
                    lemma_first_index_found(rows, key, i as int);
                }
                self.collection_users.set(i, row);
                assert(self.collection_users.deep_view() =~= rows.update(i as int, row@));
                return;
            }
            i = i + 1;
        }
        proof {
            lemma_first_index_absent(rows, key);
        }
        self.collection_users.push(row);
        assert(self.collection_users.deep_view() =~= rows.push(row@));
    }

    /// Saves a pending invitation for email `e`.
    pub fn save_invitation(&mut self, e: &String)
        ensures
            final(self)@ == old(self)@.with_invitations(with_invitation(old(self)@.invitations, e@)),
    {
        let mut i: usize = 0;
        while i < self.invitations.len()
            invariant
                0 <= i <= self.invitations.len(),
                self@ == old(self)@,
                forall|j: int| 0 <= j < i ==> #[trigger] self@.invitations[j] != e@,
            decreases self.invitations.len() - i,
        {
            if self.invitations[i] == *e {
                assert(self@.invitations[i as int] == e@);
                return;
            }
            i = i + 1;
        }
        let ghost before = self.invitations.deep_view();
        assert(!before.contains(e@));
        self.invitations.push(e.clone());
        assert(self.invitations.deep_view() =~= before.push(e@));
    }

    /// Deletes the membership at position `i`, with its group places and its
    /// user's collection access.
    pub fn delete_member_at(&mut self, i: usize)
        requires
            i < old(self).members.len(),
        ensures
            final(self)@ == old(self)@.after_member_deleted(old(self)@.members[i as int]),
    {
        let m = self.members[i].duplicate();
        self.collection_users = collection_users_without_user(&self.collection_users, &m.user_uuid);
        self.group_users = group_links_without_member(&self.group_users, &m.uuid);
        self.members = members_without(&self.members, &m.uuid);
    }

    /// Deletes the membership `id` of user `user`, with its group places and
    /// the user's collection access.
    pub fn delete_membership(&mut self, id: &String, user: &String)
        ensures
            final(self)@ == old(self)@.after_membership_deleted(id@, user@),
    {
        self.collection_users = collection_users_without_user(&self.collection_users, user);
        self.group_users = group_links_without_member(&self.group_users, id);
        self.members = members_without(&self.members, id);
    }

    /// Deletes the user `id` and the pending invitation for `email`.
    pub fn delete_user(&mut self, id: &String, email: &String)
        ensures
            final(self)@ == old(self)@.after_user_removed(id@, email@),
    {
        self.invitations = texts_without(&self.invitations, email);
        self.users = users_without(&self.users, id);
    }

    /// Deletes group `g`, with its collection access and its member places.
    pub fn delete_group(&mut self, g: &String)
        ensures
            final(self)@ == old(self)@.after_group_deleted(g@),
    {
        self.collection_groups = collection_groups_without_group(&self.collection_groups, g);
        self.group_users = group_links_without_group(&self.group_users, g);
        self.groups = groups_without(&self.groups, g);
    }

    /// Deletes collection `c` and all access to it.
    pub fn delete_collection(&mut self, c: &String)
        ensures
            final(self)@ == old(self)@.after_collection_deleted(c@),
    {
        self.collection_groups = collection_groups_without_collection(&self.collection_groups, c);
        self.collection_users = collection_users_without_collection(&self.collection_users, c);
        self.collections = collections_without(&self.collections, c);
    }

    /// How many members are confirmed owners.
    pub fn count_confirmed_owners(&self) -> (n: usize)
        ensures
            n == self@.confirmed_owner_count(),
    {
        let mut n: usize = 0;
        let mut i: usize = 0;
        while i < self.members.len()
            invariant
                0 <= i <= self.members.len(),
                n <= i,
                n == self@.members.take(i as int).filter(confirmed_owner_pred()).len(),
            decreases self.members.len() - i,
        {
            if self.members[i].is_confirmed_owner() {
                n = n + 1;
            }
            proof {
                reveal(Seq::filter);
                let s = self@.members.take(i + 1);
                assert(s.drop_last() =~= self@.members.take(i as int));
            }
            i = i + 1;
        }
        assert(self@.members.take(self.members.len() as int) =~= self@.members);
        n
    }
}

/// The elements of a nonempty sequence are those before its last, and its last.
pub proof fn lemma_to_set_last<A>(s: Seq<A>)
    requires
        s.len() > 0,
    ensures
        s.to_set() == s.drop_last().to_set().insert(s.last()),
{
    assert forall|x: A| s.to_set().contains(x) implies s.drop_last().to_set().insert(s.last()).contains(
        x,
    ) by {
        let k = choose|k: int| 0 <= k < s.len() && s[k] == x;
        if k < s.len() - 1 {
            assert(s.drop_last()[k] == x);
        }
    }
    assert forall|x: A| s.drop_last().to_set().insert(s.last()).contains(x) implies s.to_set().contains(
        x,
    ) by {
        if x == s.last() {
            assert(s[s.len() - 1] == x);
        } else {
            let k = choose|k: int| 0 <= k < s.drop_last().len() && s.drop_last()[k] == x;
            assert(s[k] == x);
        }
    }
    assert(s.to_set() =~= s.drop_last().to_set().insert(s.last()));
}

/// The groups that the links place member `m` in.
pub open spec fn member_group_set(links: Seq<GroupUserView>, m: Seq<char>) -> Set<Seq<char>> {
    Set::new(|g: Seq<char>| links.contains(group_link(g, m)))
}

/// Saving the links of `m` to the groups `gs` adds exactly `gs` to its groups.
pub proof fn lemma_member_links_add_groups(links: Seq<GroupUserView>, gs: Seq<Seq<char>>, m: Seq<char>)
    ensures
        member_group_set(with_member_links(links, gs, m), m) == member_group_set(links, m).union(
            gs.to_set(),
        ),
    decreases gs.len(),
{
    if gs.len() == 0 {
        assert(gs.to_set() =~= Set::<Seq<char>>::empty());
        assert(member_group_set(links, m).union(gs.to_set()) =~= member_group_set(links, m));
    } else {
        let prev = with_member_links(links, gs.drop_last(), m);
        lemma_member_links_add_groups(links, gs.drop_last(), m);
        let next = with_member_links(links, gs, m);
        assert forall|g: Seq<char>| #[trigger] next.contains(group_link(g, m)) <==> (
        prev.contains(group_link(g, m)) || g == gs.last()) by {
            if !prev.contains(group_link(gs.last(), m)) {
                if next.contains(group_link(g, m)) {
                    let k = choose|k: int| 0 <= k < next.len() && next[k] == group_link(g, m);
                    if k < prev.len() {
                        assert(prev[k] == next[k]);
                    }
                }
                if prev.contains(group_link(g, m)) {
                    let k = choose|k: int| 0 <= k < prev.len() && prev[k] == group_link(g, m);
                    assert(next[k] == prev[k]);
                }
                if g == gs.last() {
                    assert(next[next.len() - 1] == group_link(g, m));
                }
            }
        }
        lemma_to_set_last(gs);
        assert forall|g: Seq<char>| #[trigger] member_group_set(next, m).contains(g) <==> member_group_set(
            links,
            m,
        ).union(gs.to_set()).contains(g) by {
            assert(member_group_set(next, m).contains(g) == next.contains(group_link(g, m)));
            assert(member_group_set(prev, m).contains(g) == prev.contains(group_link(g, m)));
        }
        assert(member_group_set(next, m) =~= member_group_set(links, m).union(gs.to_set()));
    }
}

/// Replacing the groups of a member leaves it in exactly the requested groups.
pub proof fn lemma_replaced_groups_exact(links: Seq<GroupUserView>, gs: Seq<Seq<char>>, m: Seq<char>)
    ensures
        member_group_set(with_member_links(links.filter(link_not_of_member(m)), gs, m), m)
            == gs.to_set(),
{
    broadcast use vstd::seq_lib::group_filter_ensures;

    let cleared = links.filter(link_not_of_member(m));
    lemma_member_links_add_groups(cleared, gs, m);
    assert forall|g: Seq<char>| !#[trigger] cleared.contains(group_link(g, m)) by {
        if cleared.contains(group_link(g, m)) {
            let k = choose|k: int| 0 <= k < cleared.len() && cleared[k] == group_link(g, m);
            assert(link_not_of_member(m)(cleared[k]));
        }
    }
    assert(member_group_set(cleared, m) =~= Set::<Seq<char>>::empty());
    assert(member_group_set(cleared, m).union(gs.to_set()) =~= gs.to_set());
}

} // verus!
