use vstd::prelude::*;

use crate::model::{opt_text, CollectionView, DirectoryView, GroupView, MemberView, OrgDirectory, UserView};

verus! {

/// `i` is the first position of `s` whose element satisfies `p`.
pub open spec fn is_first<T>(s: Seq<T>, p: spec_fn(T) -> bool, i: int) -> bool {
    &&& 0 <= i < s.len()
    &&& p(s[i])
    &&& forall|j: int| 0 <= j < i ==> !p(#[trigger] s[j])
}

/// The first position of `s` whose element satisfies `p`, if any.
pub open spec fn first_index<T>(s: Seq<T>, p: spec_fn(T) -> bool) -> Option<int> {
    if exists|i: int| is_first(s, p, i) {
        Some(choose|i: int| is_first(s, p, i))
    } else {
        None
    }
}

pub proof fn lemma_first_index_found<T>(s: Seq<T>, p: spec_fn(T) -> bool, i: int)
    requires
        is_first(s, p, i),
    ensures
        first_index(s, p) == Some(i),
{
    let k = choose|k: int| is_first(s, p, k);
    assert(is_first(s, p, k));
    if k < i {
        assert(!p(s[k]));
    } else if i < k {
        assert(!p(s[i]));
    }
}

pub proof fn lemma_first_index_absent<T>(s: Seq<T>, p: spec_fn(T) -> bool)
    requires
        forall|j: int| 0 <= j < s.len() ==> !p(#[trigger] s[j]),
    ensures
        first_index(s, p) == None::<int>,
{
    if exists|i: int| is_first(s, p, i) {
        let k = choose|k: int| is_first(s, p, k);
        assert(p(s[k]));
    }
}

/// Where some element satisfies `p`, a first one does.
pub proof fn lemma_first_exists<T>(s: Seq<T>, p: spec_fn(T) -> bool, j: int)
    requires
        0 <= j < s.len(),
        p(s[j]),
    ensures
        exists|i: int| is_first(s, p, i),
    decreases j,
{
    if exists|k: int| 0 <= k < j && p(#[trigger] s[k]) {
        let k = choose|k: int| 0 <= k < j && p(#[trigger] s[k]);
        lemma_first_exists(s, p, k);
    } else {
        assert(is_first(s, p, j));
    }
}

/// No first position means that no element satisfies `p`.
pub proof fn lemma_first_index_none<T>(s: Seq<T>, p: spec_fn(T) -> bool)
    requires
        first_index(s, p) is None,
    ensures
        forall|j: int| 0 <= j < s.len() ==> !p(#[trigger] s[j]),
{
    assert forall|j: int| 0 <= j < s.len() implies !p(#[trigger] s[j]) by {
        if p(s[j]) {
            lemma_first_exists(s, p, j);
        }
    }
}

/// A sequence that agrees with `s` on where `p` holds, keeps the elements
/// there, and adds none that satisfies `p` has the same first position.
pub proof fn lemma_first_index_unmoved<T>(s: Seq<T>, t: Seq<T>, p: spec_fn(T) -> bool)
    requires
        s.len() <= t.len(),
        forall|j: int| 0 <= j < s.len() ==> p(#[trigger] t[j]) == p(s[j]),
        forall|j: int| 0 <= j < s.len() && p(s[j]) ==> #[trigger] t[j] == s[j],
        forall|j: int| s.len() <= j < t.len() ==> !p(#[trigger] t[j]),
    ensures
        first_index(t, p) == first_index(s, p),
        first_index(s, p) matches Some(i) ==> t[i] == s[i],
{
    match first_index(s, p) {
        Some(i) => {
            assert(is_first(s, p, i));
            assert forall|j: int| 0 <= j < i implies !p(#[trigger] t[j]) by {
                assert(!p(s[j]));
            }
            lemma_first_index_found(t, p, i);
        },
        None => {
            lemma_first_index_none(s, p);
            assert forall|j: int| 0 <= j < t.len() implies !p(#[trigger] t[j]) by {
                if j < s.len() {
                    assert(!p(s[j]));
                }
            }
            lemma_first_index_absent(t, p);
        },
    }
}

/// Optional index as an optional integer.
pub open spec fn opt_int(o: Option<usize>) -> Option<int> {
    match o {
        Some(i) => Some(i as int),
        None => None,
    }
}

pub open spec fn user_with_email(e: Seq<char>) -> spec_fn(UserView) -> bool {
    |u: UserView| u.email == e
}

pub open spec fn member_with_uuid(id: Seq<char>) -> spec_fn(MemberView) -> bool {
    |m: MemberView| m.uuid == id
}

pub open spec fn member_of_user(user: Seq<char>) -> spec_fn(MemberView) -> bool {
    |m: MemberView| m.user_uuid == user
}

pub open spec fn member_with_external_id(ext: Seq<char>) -> spec_fn(MemberView) -> bool {
    |m: MemberView| m.external_id == Some(ext)
}

pub open spec fn group_with_uuid(id: Seq<char>) -> spec_fn(GroupView) -> bool {
    |g: GroupView| g.uuid == id
}

pub open spec fn group_with_external_id(ext: Seq<char>) -> spec_fn(GroupView) -> bool {
    |g: GroupView| g.external_id == Some(ext)
}

pub open spec fn collection_with_uuid(id: Seq<char>) -> spec_fn(CollectionView) -> bool {
    |c: CollectionView| c.uuid == id
}

/// Compares optional text with text.
pub fn opt_text_eq(o: &Option<String>, s: &String) -> (b: bool)
    ensures
        b == (opt_text(*o) == Some(s@)),
{
    match o {
        Some(t) => *t == *s,
        None => false,
    }
}

impl DirectoryView {
    /// The membership of the user with email `e`, as the organization's
    /// lookup by email finds it.
    pub open spec fn member_index_by_email(self, e: Seq<char>) -> Option<int> {
        match first_index(self.users, user_with_email(e)) {
            Some(ui) => first_index(self.members, member_of_user(self.users[ui].uuid)),
            None => None,
        }
    }
}

impl OrgDirectory {
    pub fn find_user_by_email(&self, e: &String) -> (r: Option<usize>)
        ensures
            opt_int(r) == first_index(self@.users, user_with_email(e@)),
    {
        let mut i: usize = 0;
        while i < self.users.len()
            invariant
                0 <= i <= self.users.len(),
                forall|j: int| 0 <= j < i ==> !user_with_email(e@)(#[trigger] self@.users[j]),
            decreases self.users.len() - i,
        {
            if self.users[i].email == *e {
                proof {
                    lemma_first_index_found(self@.users, user_with_email(e@), i as int);
                }
                return Some(i);
            }
            i = i + 1;
        }
        proof {
            lemma_first_index_absent(self@.users, user_with_email(e@));
        }
        None
    }

    pub fn find_member_by_uuid(&self, key: &String) -> (r: Option<usize>)
        ensures
            opt_int(r) == first_index(self@.members, member_with_uuid(key@)),
    {
        let mut i: usize = 0;
        while i < self.members.len()
            invariant
                0 <= i <= self.members.len(),
                forall|j: int| 0 <= j < i ==> !member_with_uuid(key@)(#[trigger] self@.members[j]),
            decreases self.members.len() - i,
        {
            if self.members[i].uuid == *key {
                proof {
                    lemma_first_index_found(self@.members, member_with_uuid(key@), i as int);
                }
                return Some(i);
            }
            i = i + 1;
        }
        proof {
            lemma_first_index_absent(self@.members, member_with_uuid(key@));
        }
        None
    }

    pub fn find_member_by_user(&self, key: &String) -> (r: Option<usize>)
        ensures
            opt_int(r) == first_index(self@.members, member_of_user(key@)),
    {
        let mut i: usize = 0;
        while i < self.members.len()
            invariant
                0 <= i <= self.members.len(),
                forall|j: int| 0 <= j < i ==> !member_of_user(key@)(#[trigger] self@.members[j]),
            decreases self.members.len() - i,
        {
            if self.members[i].user_uuid == *key {
                proof {
                    lemma_first_index_found(self@.members, member_of_user(key@), i as int);
                }
                return Some(i);
            }
            i = i + 1;
        }
        proof {
            lemma_first_index_absent(self@.members, member_of_user(key@));
        }
        None
    }

    pub fn find_member_by_external_id(&self, key: &String) -> (r: Option<usize>)
        ensures
            opt_int(r) == first_index(self@.members, member_with_external_id(key@)),
    {
        let mut i: usize = 0;
        while i < self.members.len()
            invariant
                0 <= i <= self.members.len(),
                forall|j: int| 0 <= j < i ==> !member_with_external_id(key@)(#[trigger] self@.members[j]),
            decreases self.members.len() - i,
        {
            if opt_text_eq(&self.members[i].external_id, key) {
                proof {
                    lemma_first_index_found(self@.members, member_with_external_id(key@), i as int);
                }
                return Some(i);
            }
            i = i + 1;
        }
        proof {
            lemma_first_index_absent(self@.members, member_with_external_id(key@));
        }
        None
    }

    pub fn find_group_by_uuid(&self, key: &String) -> (r: Option<usize>)
        ensures
            opt_int(r) == first_index(self@.groups, group_with_uuid(key@)),
    {
        let mut i: usize = 0;
        while i < self.groups.len()
            invariant
                0 <= i <= self.groups.len(),
                forall|j: int| 0 <= j < i ==> !group_with_uuid(key@)(#[trigger] self@.groups[j]),
            decreases self.groups.len() - i,
        {
            if self.groups[i].uuid == *key {
                proof {
                    lemma_first_index_found(self@.groups, group_with_uuid(key@), i as int);
                }
                return Some(i);
            }
            i = i + 1;
        }
        proof {
            lemma_first_index_absent(self@.groups, group_with_uuid(key@));
        }
        None
    }

    pub fn find_group_by_external_id(&self, key: &String) -> (r: Option<usize>)
        ensures
            opt_int(r) == first_index(self@.groups, group_with_external_id(key@)),
    {
        let mut i: usize = 0;
        while i < self.groups.len()
            invariant
                0 <= i <= self.groups.len(),
                forall|j: int| 0 <= j < i ==> !group_with_external_id(key@)(#[trigger] self@.groups[j]),
            decreases self.groups.len() - i,
        {
            if opt_text_eq(&self.groups[i].external_id, key) {
                proof {
                    lemma_first_index_found(self@.groups, group_with_external_id(key@), i as int);
                }
                return Some(i);
            }
            i = i + 1;
        }
        proof {
            lemma_first_index_absent(self@.groups, group_with_external_id(key@));
        }
        None
    }

    pub fn find_collection_by_uuid(&self, key: &String) -> (r: Option<usize>)
        ensures
            opt_int(r) == first_index(self@.collections, collection_with_uuid(key@)),
    {
        let mut i: usize = 0;
        while i < self.collections.len()
            invariant
                0 <= i <= self.collections.len(),
                forall|j: int| 0 <= j < i ==> !collection_with_uuid(key@)(#[trigger] self@.collections[j]),
            decreases self.collections.len() - i,
        {
            if self.collections[i].uuid == *key {
                proof {
                    lemma_first_index_found(self@.collections, collection_with_uuid(key@), i as int);
                }
                return Some(i);
            }
            i = i + 1;
        }
        proof {
            lemma_first_index_absent(self@.collections, collection_with_uuid(key@));
        }
        None
    }

    /// The membership of the user with email `e`.
    pub fn find_member_by_email(&self, e: &String) -> (r: Option<usize>)
        ensures
            opt_int(r) == self@.member_index_by_email(e@),
    {
        match self.find_user_by_email(e) {
            Some(ui) => self.find_member_by_user(&self.users[ui].uuid),
            None => None,
        }
    }
}

} // verus!
