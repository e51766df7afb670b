//! What the endpoints' responses list of a group or a member: its collection
//! access rows, its groups, its user's email.

use vstd::prelude::*;

use crate::lookup::first_index;
use crate::model::{
    CollectionGroupRecord, CollectionGroupView, CollectionUserRecord, CollectionUserView, GroupUserView,
    OrgDirectory, UserView,
};

verus! {

pub open spec fn access_of_group(g: Seq<char>) -> spec_fn(CollectionGroupView) -> bool {
    |r: CollectionGroupView| r.group_uuid == g
}

pub open spec fn access_of_user(u: Seq<char>) -> spec_fn(CollectionUserView) -> bool {
    |r: CollectionUserView| r.user_uuid == u
}

pub open spec fn link_of_member(m: Seq<char>) -> spec_fn(GroupUserView) -> bool {
    |l: GroupUserView| l.member_uuid == m
}

pub open spec fn link_group(l: GroupUserView) -> Seq<char> {
    l.group_uuid
}

pub open spec fn user_with_uuid(id: Seq<char>) -> spec_fn(UserView) -> bool {
    |u: UserView| u.uuid == id
}

/// The email of the user with uuid `id`, where the directory holds one.
pub open spec fn email_of_user(users: Seq<UserView>, id: Seq<char>) -> Option<Seq<char>> {
    match first_index(users, user_with_uuid(id)) {
        Some(k) => Some(users[k].email),
        None => None,
    }
}

impl OrgDirectory {
    /// The collection access rows of group `g`, in order.
    pub fn group_collection_rows(&self, g: &String) -> (r: Vec<CollectionGroupRecord>)
        ensures
            r.deep_view() == self@.collection_groups.filter(access_of_group(g@)),
    {
        let rows = &self.collection_groups;
        let mut kept: Vec<CollectionGroupRecord> = Vec::new();
        let mut i: usize = 0;
        while i < rows.len()
            invariant
                0 <= i <= rows.len(),
                rows.deep_view() == self@.collection_groups,
                kept.deep_view() == rows.deep_view().take(i as int).filter(access_of_group(g@)),
            decreases rows.len() - i,
        {
            if rows[i].group_uuid == *g {
                kept.push(rows[i].duplicate());
            }
            proof {
                reveal(Seq::filter);
                let s = rows.deep_view().take(i + 1);
                assert(s.drop_last() =~= rows.deep_view().take(i as int));
                assert(kept.deep_view() =~= s.filter(access_of_group(g@)));
            }
            i = i + 1;
        }
        assert(rows.deep_view().take(rows.len() as int) =~= rows.deep_view());
        kept
    }

    /// The direct collection access rows of user `u`, in order.
    pub fn user_collection_rows(&self, u: &String) -> (r: Vec<CollectionUserRecord>)
        ensures
            r.deep_view() == self@.collection_users.filter(access_of_user(u@)),
    {
        let rows = &self.collection_users;
        let mut kept: Vec<CollectionUserRecord> = Vec::new();
        let mut i: usize = 0;
        while i < rows.len()
            invariant
                0 <= i <= rows.len(),
                rows.deep_view() == self@.collection_users,
                kept.deep_view() == rows.deep_view().take(i as int).filter(access_of_user(u@)),
            decreases rows.len() - i,
        {
            if rows[i].user_uuid == *u {
                kept.push(rows[i].duplicate());
            }
            proof {
                reveal(Seq::filter);
                let s = rows.deep_view().take(i + 1);
                assert(s.drop_last() =~= rows.deep_view().take(i as int));
                assert(kept.deep_view() =~= s.filter(access_of_user(u@)));
            }
            i = i + 1;
        }
        assert(rows.deep_view().take(rows.len() as int) =~= rows.deep_view());
        kept
    }

    /// The groups that membership `m` is placed in, in the order of its places.
    pub fn member_group_uuids(&self, m: &String) -> (r: Vec<String>)
        ensures
            r.deep_view() == self@.group_users.filter(link_of_member(m@)).map_values(
                |l: GroupUserView| link_group(l),
            ),
    {
        let rows = &self.group_users;
        let mut kept: Vec<String> = Vec::new();
        let mut i: usize = 0;
        while i < rows.len()
            invariant
                0 <= i <= rows.len(),
                rows.deep_view() == self@.group_users,
                kept.deep_view() == rows.deep_view().take(i as int).filter(link_of_member(m@)).map_values(
                    |l: GroupUserView| link_group(l),
                ),
            decreases rows.len() - i,
        {
            let ghost before = kept.deep_view();
            if rows[i].member_uuid == *m {
                let gid = rows[i].group_uuid.clone();
                assert(gid@ == rows.deep_view()[i as int].group_uuid);
                kept.push(gid);
                assert(kept.deep_view() =~= before.push(rows.deep_view()[i as int].group_uuid));
            }
            proof {
                reveal(Seq::filter);
                let s = rows.deep_view().take(i + 1);
                let x = rows.deep_view()[i as int];
                assert(s.drop_last() =~= rows.deep_view().take(i as int));
                let f0 = rows.deep_view().take(i as int).filter(link_of_member(m@));
                let f1 = s.filter(link_of_member(m@));
                if link_of_member(m@)(x) {
                    assert(f1 == f0.push(x));
                    assert(f1.map_values(|l: GroupUserView| link_group(l)) =~= f0.map_values(
                        |l: GroupUserView| link_group(l),
                    ).push(x.group_uuid));
                } else {
                    assert(f1 == f0);
                }
            }
            i = i + 1;
        }
        assert(rows.deep_view().take(rows.len() as int) =~= rows.deep_view());
        kept
    }

    /// The email of the user with uuid `id`, where the directory holds one.
    pub fn user_email(&self, id: &String) -> (r: Option<String>)
        ensures
            r.deep_view() == email_of_user(self@.users, id@),
    {
        let mut i: usize = 0;
        while i < self.users.len()
            invariant
                0 <= i <= self.users.len(),
                forall|j: int| 0 <= j < i ==> !user_with_uuid(id@)(#[trigger] self@.users[j]),
            decreases self.users.len() - i,
        {
            if self.users[i].uuid == *id {
                proof {
                    crate::lookup::lemma_first_index_found(self@.users, user_with_uuid(id@), i as int);
                }
                return Some(self.users[i].email.clone());
            }
            i = i + 1;
        }
        proof {
            crate::lookup::lemma_first_index_absent(self@.users, user_with_uuid(id@));
        }
        None
    }
}

} // verus!
