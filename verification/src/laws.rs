//! Properties of the library that relate several operations or hold of
//! every input.

use vstd::prelude::*;

use crate::collections::with_collection_grants;
use crate::directory::{
    access_not_of_group, access_not_of_user, access_not_to_collection_by_group,
    access_not_to_collection_by_user, confirmed_owner_pred, group_link, group_member_set,
    link_not_in_group, link_not_of_member, member_other_than, with_collection_group,
    with_collection_user, with_group_link, with_member_links,
};
use crate::collections::{
    lemma_member_grants_keep_members, renamed_collection, requested_collection, with_member_grants,
    CollectionRequest,
};
use crate::directory::{collection_group_key, collection_user_key};
use crate::groups::{
    renamed_group, requested_group, with_group_collections, with_group_saved, GroupRequest,
};
use crate::model::{opt_text, CollectionView};
use crate::lookup::{group_with_uuid, is_first};
use crate::import::{
    after_group_imported, after_groups_imported, after_import_finished, after_pruned,
    directory_imported, import_member_step, imported_group_id, makes_invite, member_import_outcome,
    members_imported, with_resolved_links, ImportData, ImportGroupView, ImportMemberView,
};
use crate::invites::{
    invite_begun, invite_undone, invited_user_uuid, new_user, InviteConfig, InviteSettings,
};
use crate::lookup::{
    first_index, group_with_external_id, member_of_user, member_with_external_id, member_with_uuid,
    user_with_email,
};
use crate::members::{grants_access_all, member_edit_outcome, with_user_collections, CustomPermissions};
use crate::model::{
    AccessFlags, AccessGrantView, CollectionGroupView, CollectionUserView, DirectoryView, GroupUserView,
    GroupView, MemberView, UserView,
};
use crate::rules::{
    is_confirmed_owner, normalized_external_id, restored_status, revoked_status, MembershipType,
    ACTIVATE_REVOKE_DIFF, STATUS_INVITED, STATUS_REVOKED,
};
use crate::token::{
    is_last_occurrence, lemma_last_occurrence_unique, occurs_at, text_after_last, token_check,
};

verus! {

/// Restoring a revoked membership gives back the status it had: for every
/// active status below the revoke offset, restore undoes revoke.
pub proof fn law_restore_undoes_revoke(s: i32)
    requires
        STATUS_INVITED <= s < ACTIVATE_REVOKE_DIFF,
    ensures
        restored_status(revoked_status(s)) == s,
{
}

/// Revoking a restored membership gives back its revoked status: for every
/// revoked status down to the revoke offset below zero, revoke undoes restore.
pub proof fn law_revoke_undoes_restore(s: i32)
    requires
        -ACTIVATE_REVOKE_DIFF <= s < STATUS_INVITED,
    ensures
        revoked_status(restored_status(s)) == s,
{
}

/// Revoking twice is revoking once, and restoring twice is restoring once,
/// for every status within the revoke offset of zero.
pub proof fn law_revoke_restore_idempotent(s: i32)
    requires
        -ACTIVATE_REVOKE_DIFF <= s < ACTIVATE_REVOKE_DIFF,
    ensures
        revoked_status(revoked_status(s)) == revoked_status(s),
        restored_status(restored_status(s)) == restored_status(s),
{
}

/// An external id is stored at most once normalized: normalizing again
/// changes nothing, and no stored id is empty.
pub proof fn law_external_id_normal_form(e: Option<Seq<char>>)
    ensures
        normalized_external_id(normalized_external_id(e)) == normalized_external_id(e),
        normalized_external_id(e) matches Some(s) ==> s.len() > 0,
{
}

/// A header `Bearer <token>` yields the token, where the token does not itself
/// hold `Bearer `.
pub proof fn law_bearer_token_roundtrip(t: Seq<char>)
    requires
        forall|j: int| !occurs_at(t, "Bearer "@, j),
    ensures
        text_after_last("Bearer "@ + t, "Bearer "@) == t,
{
    reveal_strlit("Bearer ");
    let p = "Bearer "@;
    let h = p + t;
    assert(h.subrange(0, p.len() as int) =~= p);
    assert forall|j: int| 0 < j implies !occurs_at(h, p, j) by {
        if occurs_at(h, p, j) {
            if j >= p.len() {
                assert(t.subrange(j - p.len(), j - p.len() + p.len()) =~= h.subrange(j, j + p.len()));
                assert(occurs_at(t, p, j - p.len()));
            } else {
                // An occurrence starting inside the prefix would need a `B` there.
                assert(h.subrange(j, j + p.len())[0] == h[j]);
                assert(h[j] == p[j]);
                assert(p[0] == 'B');
            }
        }
    }
    assert(is_last_occurrence(h, p, 0));
    lemma_last_occurrence_unique(h, p, 0);
    assert(h.subrange(p.len() as int, h.len() as int) =~= t);
}

/// A token is accepted only inside its validity window, from the server it
/// names as issuer, for the organization whose API key it carries; the
/// token then stands for that organization.
pub proof fn law_accepted_token(
    claims: crate::token::OrgApiClaims,
    now: i64,
    domain: Seq<char>,
    key: Option<(Seq<char>, Seq<char>)>,
)
    requires
        token_check(claims, now, domain, key) is Ok,
    ensures
        claims.nbf <= now <= claims.exp,
        claims.iss@ == domain + "|"@ + claims.scope@[0]@,
        key matches Some((uuid, org)) && uuid == claims.sub@ && org == claims.client_sub@,
        token_check(claims, now, domain, key) == Ok::<Seq<char>, crate::token::TokenError>(
            claims.client_sub@,
        ),
{
}

/// Deleting a group leaves no access rows or member places that name it.
pub proof fn law_group_deletion_leaves_no_links(d: DirectoryView, g: Seq<char>)
    ensures
        forall|i: int|
            0 <= i < d.after_group_deleted(g).group_users.len() ==> #[trigger] d.after_group_deleted(
                g,
            ).group_users[i].group_uuid != g,
        forall|i: int|
            0 <= i < d.after_group_deleted(g).collection_groups.len()
                ==> #[trigger] d.after_group_deleted(g).collection_groups[i].group_uuid != g,
        forall|i: int|
            0 <= i < d.after_group_deleted(g).groups.len() ==> #[trigger] d.after_group_deleted(
                g,
            ).groups[i].uuid != g,
{
    broadcast use vstd::seq_lib::group_filter_ensures;

    let a = d.after_group_deleted(g);
    assert forall|i: int| 0 <= i < a.group_users.len() implies #[trigger] a.group_users[i].group_uuid
        != g by {
        assert(link_not_in_group(g)(a.group_users[i]));
    }
    assert forall|i: int| 0 <= i < a.collection_groups.len() implies #[trigger] a.collection_groups[i].group_uuid
        != g by {
        assert(access_not_of_group(g)(a.collection_groups[i]));
    }
    assert forall|i: int| 0 <= i < a.groups.len() implies #[trigger] a.groups[i].uuid != g by {
        assert(crate::directory::group_other_than(g)(a.groups[i]));
    }
}

/// Deleting a collection leaves no access rows that name it.
pub proof fn law_collection_deletion_leaves_no_links(d: DirectoryView, c: Seq<char>)
    ensures
        forall|i: int|
            0 <= i < d.after_collection_deleted(c).collection_groups.len()
                ==> #[trigger] d.after_collection_deleted(c).collection_groups[i].collection_uuid != c,
        forall|i: int|
            0 <= i < d.after_collection_deleted(c).collection_users.len()
                ==> #[trigger] d.after_collection_deleted(c).collection_users[i].collection_uuid != c,
        forall|i: int|
            0 <= i < d.after_collection_deleted(c).collections.len()
                ==> #[trigger] d.after_collection_deleted(c).collections[i].uuid != c,
{
    broadcast use vstd::seq_lib::group_filter_ensures;

    let a = d.after_collection_deleted(c);
    assert forall|i: int| 0 <= i < a.collection_groups.len() implies #[trigger] a.collection_groups[i].collection_uuid
        != c by {
        assert(access_not_to_collection_by_group(c)(a.collection_groups[i]));
    }
    assert forall|i: int| 0 <= i < a.collection_users.len() implies #[trigger] a.collection_users[i].collection_uuid
        != c by {
        assert(access_not_to_collection_by_user(c)(a.collection_users[i]));
    }
    assert forall|i: int| 0 <= i < a.collections.len() implies #[trigger] a.collections[i].uuid != c by {
        assert(crate::directory::collection_other_than(c)(a.collections[i]));
    }
}

/// Deleting a membership leaves no group places of it and no direct
/// collection access of its user.
pub proof fn law_member_deletion_leaves_no_links(d: DirectoryView, id: Seq<char>, user: Seq<char>)
    ensures
        forall|i: int|
            0 <= i < d.after_membership_deleted(id, user).group_users.len()
                ==> #[trigger] d.after_membership_deleted(id, user).group_users[i].member_uuid != id,
        forall|i: int|
            0 <= i < d.after_membership_deleted(id, user).collection_users.len()
                ==> #[trigger] d.after_membership_deleted(id, user).collection_users[i].user_uuid
                != user,
        forall|i: int|
            0 <= i < d.after_membership_deleted(id, user).members.len()
                ==> #[trigger] d.after_membership_deleted(id, user).members[i].uuid != id,
{
    broadcast use vstd::seq_lib::group_filter_ensures;

    let a = d.after_membership_deleted(id, user);
    assert forall|i: int| 0 <= i < a.group_users.len() implies #[trigger] a.group_users[i].member_uuid
        != id by {
        assert(link_not_of_member(id)(a.group_users[i]));
    }
    assert forall|i: int| 0 <= i < a.collection_users.len() implies #[trigger] a.collection_users[i].user_uuid
        != user by {
        assert(access_not_of_user(user)(a.collection_users[i]));
    }
    assert forall|i: int| 0 <= i < a.members.len() implies #[trigger] a.members[i].uuid != id by {
        assert(crate::directory::member_other_than(id)(a.members[i]));
    }
}

pub open spec fn one_if(b: bool) -> int {
    if b {
        1
    } else {
        0
    }
}

proof fn lemma_filter_push_len<A>(s: Seq<A>, x: A, p: spec_fn(A) -> bool)
    ensures
        s.push(x).filter(p).len() == s.filter(p).len() + one_if(p(x)),
{
    reveal(Seq::filter);
    assert(s.push(x).drop_last() =~= s);
}

proof fn lemma_filter_update_len<A>(s: Seq<A>, i: int, x: A, p: spec_fn(A) -> bool)
    requires
        0 <= i < s.len(),
    ensures
        s.update(i, x).filter(p).len() + one_if(p(s[i])) == s.filter(p).len() + one_if(p(x)),
    decreases s.len(),
{
    reveal(Seq::filter);
    let t = s.update(i, x);
    if i == s.len() - 1 {
        assert(t.drop_last() =~= s.drop_last());
    } else {
        assert(t.drop_last() =~= s.drop_last().update(i, x));
        lemma_filter_update_len(s.drop_last(), i, x, p);
    }
}

/// Importing a member never leaves the organization without a confirmed
/// owner where it had one: a confirmed owner marked deleted is revoked only
/// while another confirmed owner remains.
pub proof fn law_member_import_keeps_an_owner(
    d: DirectoryView,
    m: ImportMemberView,
    mail_enabled: bool,
    new_user_id: Seq<char>,
    new_member_id: Seq<char>,
)
    requires
        d.confirmed_owner_count() >= 1,
    ensures
        member_import_outcome(d, m, mail_enabled, new_user_id, new_member_id).0.confirmed_owner_count()
            >= 1,
{
    let p = confirmed_owner_pred();
    let out = member_import_outcome(d, m, mail_enabled, new_user_id, new_member_id).0;
    match d.member_index_by_email(m.email) {
        Some(i) => {
            let mv = d.members[i];
            let ext = normalized_external_id(Some(m.external_id));
            let status = if m.deleted {
                crate::import::import_revoked_status(d, mv)
            } else {
                restored_status(mv.status)
            };
            let nv = mv.with_status(status).with_external_id(ext);
            lemma_filter_update_len(d.members, i, nv, p);
        },
        None => {
            if !m.deleted {
                match d.org {
                    None => {},
                    Some(o) => {
                        let found = first_index(d.users, crate::lookup::user_with_email(m.email));
                        let d1 = match found {
                            Some(k) => d,
                            None => {
                                let d0 = d.with_users(d.users.push(crate::invites::new_user(new_user_id, m.email)));
                                if mail_enabled {
                                    d0
                                } else {
                                    d0.with_invitations(crate::directory::with_invitation(d0.invitations, m.email))
                                }
                            },
                        };
                        let user = match found {
                            Some(k) => d.users[k].uuid,
                            None => new_user_id,
                        };
                        let has_password = match found {
                            Some(k) => d.users[k].has_password,
                            None => false,
                        };
                        let status = if mail_enabled || !has_password {
                            crate::rules::STATUS_INVITED
                        } else {
                            crate::rules::STATUS_ACCEPTED
                        };
                        let nm = crate::import::imported_member(new_member_id, user, status, m.external_id, o.billing_email);
                        lemma_filter_push_len(d1.members, nm, p);
                    },
                }
            }
        },
    }
}

/// Membership uuids are unique, as the organization's records keep them.
pub open spec fn member_uuids_unique(ms: Seq<MemberView>) -> bool {
    forall|i: int, j: int| 0 <= i < j < ms.len() ==> #[trigger] ms[i].uuid != #[trigger] ms[j].uuid
}

proof fn lemma_filter_contained<A>(s: Seq<A>, p: spec_fn(A) -> bool)
    ensures
        forall|k: int| 0 <= k < s.filter(p).len() ==> s.contains(#[trigger] s.filter(p)[k]),
    decreases s.len(),
{
    reveal(Seq::filter);
    if s.len() > 0 {
        lemma_filter_contained(s.drop_last(), p);
        let f = s.filter(p);
        let f0 = s.drop_last().filter(p);
        assert forall|k: int| 0 <= k < f.len() implies s.contains(#[trigger] f[k]) by {
            if k < f0.len() {
                assert(f[k] == f0[k]);
                let j = choose|j: int| 0 <= j < s.drop_last().len() && s.drop_last()[j] == f0[k];
                assert(s[j] == f[k]);
            } else {
                assert(f[k] == s.last());
                assert(s[s.len() - 1] == f[k]);
            }
        }
    }
}

proof fn lemma_filter_keeps_unique(s: Seq<MemberView>, p: spec_fn(MemberView) -> bool)
    requires
        member_uuids_unique(s),
    ensures
        member_uuids_unique(s.filter(p)),
    decreases s.len(),
{
    reveal(Seq::filter);
    if s.len() > 0 {
        let s0 = s.drop_last();
        assert(member_uuids_unique(s0)) by {
            assert forall|i: int, j: int| 0 <= i < j < s0.len() implies #[trigger] s0[i].uuid
                != #[trigger] s0[j].uuid by {
                assert(s0[i] == s[i] && s0[j] == s[j]);
            }
        }
        lemma_filter_keeps_unique(s0, p);
        lemma_filter_contained(s0, p);
        let f0 = s0.filter(p);
        if p(s.last()) {
            let f = f0.push(s.last());
            assert forall|i: int, j: int| 0 <= i < j < f.len() implies #[trigger] f[i].uuid
                != #[trigger] f[j].uuid by {
                if j == f.len() - 1 {
                    assert(s0.contains(f0[i]));
                    let a = choose|a: int| 0 <= a < s0.len() && s0[a] == f0[i];
                    assert(s[a] == f[i]);
                    assert(s[s.len() - 1] == f[j]);
                } else {
                    assert(f[i] == f0[i] && f[j] == f0[j]);
                }
            }
        }
    }
}

proof fn lemma_owner_count_unaffected(s: Seq<MemberView>, u: Seq<char>)
    requires
        forall|k: int| 0 <= k < s.len() && (#[trigger] s[k]).uuid == u ==> !is_confirmed_owner(s[k]),
    ensures
        s.filter(member_other_than(u)).filter(confirmed_owner_pred()).len() == s.filter(
            confirmed_owner_pred(),
        ).len(),
    decreases s.len(),
{
    reveal(Seq::filter);
    if s.len() > 0 {
        let s0 = s.drop_last();
        let x = s.last();
        assert forall|k: int| 0 <= k < s0.len() && (#[trigger] s0[k]).uuid == u implies !is_confirmed_owner(s0[k]) by {
            assert(s0[k] == s[k]);
        }
        lemma_owner_count_unaffected(s0, u);
        let f0 = s0.filter(member_other_than(u));
        if member_other_than(u)(x) {
            lemma_filter_push_len(f0, x, confirmed_owner_pred());
        } else {
            assert(s[s.len() - 1] == x);
        }
        lemma_filter_push_len(s0, x, confirmed_owner_pred());
        assert(s0.push(x) =~= s);
    }
}

proof fn lemma_owner_count_drops_at_most_one(s: Seq<MemberView>, u: Seq<char>)
    requires
        member_uuids_unique(s),
    ensures
        s.filter(member_other_than(u)).filter(confirmed_owner_pred()).len() + 1 >= s.filter(
            confirmed_owner_pred(),
        ).len(),
    decreases s.len(),
{
    reveal(Seq::filter);
    if s.len() > 0 {
        let s0 = s.drop_last();
        let x = s.last();
        assert(member_uuids_unique(s0)) by {
            assert forall|i: int, j: int| 0 <= i < j < s0.len() implies #[trigger] s0[i].uuid
                != #[trigger] s0[j].uuid by {
                assert(s0[i] == s[i] && s0[j] == s[j]);
            }
        }
        let f0 = s0.filter(member_other_than(u));
        lemma_filter_push_len(s0, x, confirmed_owner_pred());
        assert(s0.push(x) =~= s);
        if member_other_than(u)(x) {
            lemma_owner_count_drops_at_most_one(s0, u);
            lemma_filter_push_len(f0, x, confirmed_owner_pred());
        } else {
            assert forall|k: int| 0 <= k < s0.len() && (#[trigger] s0[k]).uuid == u implies !is_confirmed_owner(s0[k]) by {
                assert(s[k] == s0[k]);
                assert(s[s.len() - 1] == x);
            }
            lemma_owner_count_unaffected(s0, u);
        }
    }
}

proof fn lemma_pruning_invariant(d: DirectoryView, ms: Seq<MemberView>, listed: Seq<Seq<char>>)
    requires
        member_uuids_unique(d.members),
        forall|k: int| 0 <= k < ms.len() ==> d.members.contains(#[trigger] ms[k]),
        d.confirmed_owner_count() >= 1,
    ensures
        member_uuids_unique(after_pruned(d, ms, listed).members),
        forall|k: int|
            0 <= k < after_pruned(d, ms, listed).members.len() ==> d.members.contains(
                #[trigger] after_pruned(d, ms, listed).members[k],
            ),
        after_pruned(d, ms, listed).confirmed_owner_count() >= 1,
    decreases ms.len(),
{
    if ms.len() > 0 {
        let ms0 = ms.drop_last();
        assert forall|k: int| 0 <= k < ms0.len() implies d.members.contains(#[trigger] ms0[k]) by {
            assert(ms0[k] == ms[k]);
        }
        lemma_pruning_invariant(d, ms0, listed);
        let prev = after_pruned(d, ms0, listed);
        let m = ms.last();
        assert(d.members.contains(ms[ms.len() - 1]));
        if m.external_id is Some && !listed.contains(m.external_id->0) && !(is_confirmed_owner(m)
            && prev.confirmed_owner_count() <= 1) {
            let pm = prev.members;
            let next = prev.after_member_deleted(m);
            assert(next.members == pm.filter(member_other_than(m.uuid)));
            lemma_filter_keeps_unique(pm, member_other_than(m.uuid));
            lemma_filter_contained(pm, member_other_than(m.uuid));
            assert forall|k: int| 0 <= k < next.members.len() implies d.members.contains(
                #[trigger] next.members[k],
            ) by {
                assert(pm.contains(next.members[k]));
                let a = choose|a: int| 0 <= a < pm.len() && pm[a] == next.members[k];
                assert(d.members.contains(pm[a]));
            }
            if is_confirmed_owner(m) {
                lemma_owner_count_drops_at_most_one(pm, m.uuid);
            } else {
                assert forall|k: int| 0 <= k < pm.len() && (#[trigger] pm[k]).uuid == m.uuid implies !is_confirmed_owner(pm[k]) by {
                    assert(d.members.contains(pm[k]));
                    let a = choose|a: int| 0 <= a < d.members.len() && d.members[a] == pm[k];
                    let b = choose|b: int| 0 <= b < d.members.len() && d.members[b] == m;
                    if a < b {
                        assert(d.members[a].uuid != d.members[b].uuid);
                    } else if b < a {
                        assert(d.members[b].uuid != d.members[a].uuid);
                    }
                }
                lemma_owner_count_unaffected(pm, m.uuid);
            }
        }
    }
}

/// Removing the members an import does not list never leaves the
/// organization without a confirmed owner where it had one.
pub proof fn law_pruning_keeps_an_owner(d: DirectoryView, listed: Seq<Seq<char>>)
    requires
        member_uuids_unique(d.members),
        d.confirmed_owner_count() >= 1,
    ensures
        after_pruned(d, d.members, listed).confirmed_owner_count() >= 1,
{
    lemma_pruning_invariant(d, d.members, listed);
}

proof fn lemma_group_import_keeps_members(d: DirectoryView, gs: Seq<ImportGroupView>, ids: Seq<Seq<char>>)
    ensures
        after_groups_imported(d, gs, ids).members == d.members,
    decreases gs.len(),
{
    if gs.len() > 0 {
        lemma_group_import_keeps_members(d, gs.drop_last(), ids);
    }
}

/// The part of an import that follows its members never leaves the
/// organization without a confirmed owner where it had one.
pub proof fn law_import_finish_keeps_an_owner(
    d: DirectoryView,
    data: ImportData,
    groups_enabled: bool,
    ids: Seq<Seq<char>>,
)
    requires
        member_uuids_unique(d.members),
        d.confirmed_owner_count() >= 1,
    ensures
        after_import_finished(d, data, groups_enabled, ids).confirmed_owner_count() >= 1,
{
    lemma_group_import_keeps_members(d, data.groups.deep_view(), ids);
    let d1 = if groups_enabled {
        after_groups_imported(d, data.groups.deep_view(), ids)
    } else {
        d
    };
    assert(d1.confirmed_owner_count() == d.confirmed_owner_count());
    if data.overwrite_existing {
        law_pruning_keeps_an_owner(d1, crate::import::listed_external_ids(data.members.deep_view()));
    }
}

/// Saving the place of `m` in group `g` adds exactly `m` to its members.
proof fn lemma_with_group_link_members(links: Seq<GroupUserView>, g: Seq<char>, m: Seq<char>)
    ensures
        group_member_set(with_group_link(links, g, m), g) == group_member_set(links, g).insert(m),
{
    let next = with_group_link(links, g, m);
    assert forall|x: Seq<char>| #[trigger] group_member_set(next, g).contains(x) <==> group_member_set(
        links,
        g,
    ).insert(m).contains(x) by {
        if !links.contains(group_link(g, m)) {
            if next.contains(group_link(g, x)) {
                let k = choose|k: int| 0 <= k < next.len() && next[k] == group_link(g, x);
                if k < links.len() {
                    assert(links[k] == next[k]);
                }
            }
            if links.contains(group_link(g, x)) {
                let k = choose|k: int| 0 <= k < links.len() && links[k] == group_link(g, x);
                assert(next[k] == links[k]);
            }
            if x == m {
                assert(next[next.len() - 1] == group_link(g, x));
            }
        }
    }
    assert(group_member_set(next, g) =~= group_member_set(links, g).insert(m));
}

/// The first member with external id `ext` has uuid `u`.
pub open spec fn resolves_to(members: Seq<MemberView>, ext: Seq<char>, u: Seq<char>) -> bool {
    match first_index(members, member_with_external_id(ext)) {
        Some(i) => members[i].uuid == u,
        None => false,
    }
}

/// The members that the external ids `exts` name, each by its first member.
pub open spec fn resolved_member_set(members: Seq<MemberView>, exts: Seq<Seq<char>>) -> Set<Seq<char>> {
    Set::new(
        |u: Seq<char>| exists|k: int| 0 <= k < exts.len() && #[trigger] resolves_to(members, exts[k], u),
    )
}

proof fn lemma_resolved_links_members(
    links: Seq<GroupUserView>,
    members: Seq<MemberView>,
    g: Seq<char>,
    exts: Seq<Seq<char>>,
)
    ensures
        group_member_set(with_resolved_links(links, members, g, exts), g) == group_member_set(
            links,
            g,
        ).union(resolved_member_set(members, exts)),
    decreases exts.len(),
{
    if exts.len() == 0 {
        assert(resolved_member_set(members, exts) =~= Set::<Seq<char>>::empty());
        assert(group_member_set(links, g).union(resolved_member_set(members, exts)) =~= group_member_set(
            links,
            g,
        ));
    } else {
        let e0 = exts.drop_last();
        lemma_resolved_links_members(links, members, g, e0);
        let prev = with_resolved_links(links, members, g, e0);
        let last = exts.last();
        let r0 = resolved_member_set(members, e0);
        let r = resolved_member_set(members, exts);
        match first_index(members, member_with_external_id(last)) {
            Some(i) => {
                lemma_with_group_link_members(prev, g, members[i].uuid);
                assert forall|u: Seq<char>| #[trigger] r.contains(u) <==> r0.insert(members[i].uuid).contains(u) by {
                    if r.contains(u) {
                        let k = choose|k: int| 0 <= k < exts.len() && #[trigger] resolves_to(members, exts[k], u);
                        if k < e0.len() {
                            assert(e0[k] == exts[k]);
                            assert(resolves_to(members, e0[k], u));
                        }
                    }
                    if r0.contains(u) {
                        let k = choose|k: int| 0 <= k < e0.len() && #[trigger] resolves_to(members, e0[k], u);
                        assert(exts[k] == e0[k]);
                        assert(resolves_to(members, exts[k], u));
                    }
                    if u == members[i].uuid {
                        assert(resolves_to(members, exts[exts.len() - 1], u));
                    }
                }
                assert(r =~= r0.insert(members[i].uuid));
            },
            None => {
                assert forall|u: Seq<char>| #[trigger] r.contains(u) <==> r0.contains(u) by {
                    if r.contains(u) {
                        let k = choose|k: int| 0 <= k < exts.len() && #[trigger] resolves_to(members, exts[k], u);
                        if k < e0.len() {
                            assert(e0[k] == exts[k]);
                            assert(resolves_to(members, e0[k], u));
                        }
                    }
                    if r0.contains(u) {
                        let k = choose|k: int| 0 <= k < e0.len() && #[trigger] resolves_to(members, e0[k], u);
                        assert(exts[k] == e0[k]);
                        assert(resolves_to(members, exts[k], u));
                    }
                }
                assert(r =~= r0);
            },
        }
        assert(group_member_set(with_resolved_links(links, members, g, exts), g) =~= group_member_set(
            links,
            g,
        ).union(r));
    }
}

/// After a group is imported, its members are exactly the members of the
/// organization that the import lists for it by external id.
pub proof fn law_imported_group_members(d: DirectoryView, g: ImportGroupView, new_id: Seq<char>)
    ensures
        group_member_set(
            after_group_imported(d, g, new_id).group_users,
            imported_group_id(d, g, new_id),
        ) == resolved_member_set(d.members, g.member_external_ids),
{
    broadcast use vstd::seq_lib::group_filter_ensures;

    let gid = imported_group_id(d, g, new_id);
    let cleared = d.group_users.filter(link_not_in_group(gid));
    lemma_resolved_links_members(cleared, d.members, gid, g.member_external_ids);
    assert forall|m: Seq<char>| !#[trigger] cleared.contains(group_link(gid, m)) by {
        if cleared.contains(group_link(gid, m)) {
            let k = choose|k: int| 0 <= k < cleared.len() && cleared[k] == group_link(gid, m);
            assert(link_not_in_group(gid)(cleared[k]));
        }
    }
    assert(group_member_set(cleared, gid) =~= Set::<Seq<char>>::empty());
    assert(group_member_set(cleared, gid).union(resolved_member_set(d.members, g.member_external_ids))
        =~= resolved_member_set(d.members, g.member_external_ids));
}

/// Removing a member as the API does never leaves the organization without a
/// confirmed owner where it had one: the last confirmed owner is refused.
pub proof fn law_member_removal_keeps_an_owner(d: DirectoryView, i: int)
    requires
        member_uuids_unique(d.members),
        d.confirmed_owner_count() >= 1,
        0 <= i < d.members.len(),
        !(is_confirmed_owner(d.members[i]) && d.confirmed_owner_count() <= 1),
    ensures
        d.after_member_deleted(d.members[i]).confirmed_owner_count() >= 1,
{
    let m = d.members[i];
    if is_confirmed_owner(m) {
        lemma_owner_count_drops_at_most_one(d.members, m.uuid);
    } else {
        assert forall|k: int| 0 <= k < d.members.len() && (#[trigger] d.members[k]).uuid == m.uuid implies !is_confirmed_owner(d.members[k]) by {
            if k < i {
                assert(d.members[k].uuid != d.members[i].uuid);
            } else if i < k {
                assert(d.members[i].uuid != d.members[k].uuid);
            }
        }
        lemma_owner_count_unaffected(d.members, m.uuid);
    }
}

proof fn lemma_filter_keeps_all<A>(s: Seq<A>, p: spec_fn(A) -> bool)
    requires
        forall|k: int| 0 <= k < s.len() ==> p(#[trigger] s[k]),
    ensures
        s.filter(p) == s,
    decreases s.len(),
{
    reveal(Seq::filter);
    if s.len() > 0 {
        lemma_filter_keeps_all(s.drop_last(), p);
        assert(p(s[s.len() - 1]));
        assert(s.drop_last().push(s.last()) =~= s);
    }
}

proof fn lemma_filter_drops_pushed<A>(s: Seq<A>, x: A, p: spec_fn(A) -> bool)
    requires
        forall|k: int| 0 <= k < s.len() ==> p(#[trigger] s[k]),
        !p(x),
    ensures
        s.push(x).filter(p) == s,
{
    reveal(Seq::filter);
    assert(s.push(x).drop_last() =~= s);
    lemma_filter_keeps_all(s, p);
}

/// An invitation whose mail cannot be sent leaves no trace: taking it back,
/// with the created flag set exactly where this invitation created its user,
/// gives back the directory as it was, where the invitation could go through,
/// the new uuids name nothing yet, the invited user has no direct collection
/// access, and a user to be created has no pending invitation. Within one
/// invitation request, `begin_invite` hands on the flag of earlier emails, so
/// its tickets carry that flag up to and including the first email that
/// creates a user; a later email that finds its user gets a ticket whose flag
/// is still set, and taking that invitation back removes the user as well.
pub proof fn law_undone_invite_leaves_no_trace(
    d: DirectoryView,
    email: Seq<char>,
    s: InviteSettings,
    cfg: InviteConfig,
    new_user_id: Seq<char>,
    new_member_id: Seq<char>,
)
    requires
        first_index(d.users, user_with_email(email)) matches Some(k) ==> first_index(
            d.members,
            member_of_user(d.users[k].uuid),
        ) is None,
        forall|k: int| 0 <= k < d.members.len() ==> (#[trigger] d.members[k]).uuid != new_member_id,
        forall|k: int|
            0 <= k < d.group_users.len() ==> (#[trigger] d.group_users[k]).member_uuid != new_member_id,
        forall|k: int|
            0 <= k < d.collection_users.len() ==> (#[trigger] d.collection_users[k]).user_uuid
                != invited_user_uuid(d, email, new_user_id),
        first_index(d.users, user_with_email(email)) is None ==> (forall|k: int|
            0 <= k < d.users.len() ==> (#[trigger] d.users[k]).uuid != new_user_id) && !d.invitations.contains(email),
    ensures
        invite_undone(
            invite_begun(d, email, s, cfg, new_user_id, new_member_id),
            new_member_id,
            invited_user_uuid(d, email, new_user_id),
            email,
            first_index(d.users, user_with_email(email)) is None,
        ) == d,
{
    let user = invited_user_uuid(d, email, new_user_id);
    let begun = invite_begun(d, email, s, cfg, new_user_id, new_member_id);
    let created = first_index(d.users, user_with_email(email)) is None;
    let mem = begun.members.last();
    assert(begun.members == d.members.push(mem));
    lemma_filter_drops_pushed(d.members, mem, member_other_than(new_member_id));
    lemma_filter_keeps_all(d.group_users, crate::directory::link_not_of_member(new_member_id));
    lemma_filter_keeps_all(d.collection_users, crate::directory::access_not_of_user(user));
    let after = begun.after_membership_deleted(new_member_id, user);
    if created {
        let inv = if cfg.mail_enabled {
            d.invitations
        } else {
            crate::directory::with_invitation(d.invitations, email)
        };
        assert(begun.invitations == inv);
        assert(begun.users == d.users.push(crate::invites::new_user(new_user_id, email)));
        lemma_filter_drops_pushed(
            d.users,
            crate::invites::new_user(new_user_id, email),
            crate::directory::user_other_than(new_user_id),
        );
        assert forall|k: int| 0 <= k < d.invitations.len() implies crate::directory::text_other_than(email)(
            #[trigger] d.invitations[k],
        ) by {
            if d.invitations[k] == email {
                assert(d.invitations.contains(email));
            }
        }
        if cfg.mail_enabled {
            lemma_filter_keeps_all(d.invitations, crate::directory::text_other_than(email));
        } else {
            lemma_filter_drops_pushed(d.invitations, email, crate::directory::text_other_than(email));
        }
        assert(invite_undone(begun, new_member_id, user, email, created) =~= d);
    } else {
        assert(invite_undone(begun, new_member_id, user, email, created) =~= d);
    }
}

/// Row `k` gives user `u` direct access to collection `c`.
pub open spec fn user_row_at(rows: Seq<CollectionUserView>, k: int, u: Seq<char>, c: Seq<char>) -> bool {
    0 <= k < rows.len() && rows[k].user_uuid == u && rows[k].collection_uuid == c
}

/// User `u` has direct access to collection `c`.
pub open spec fn user_has_access(rows: Seq<CollectionUserView>, u: Seq<char>, c: Seq<char>) -> bool {
    exists|k: int| #[trigger] user_row_at(rows, k, u, c)
}

/// Row `k` gives group `g` access to collection `c`.
pub open spec fn group_row_at(rows: Seq<CollectionGroupView>, k: int, c: Seq<char>, g: Seq<char>) -> bool {
    0 <= k < rows.len() && rows[k].collection_uuid == c && rows[k].group_uuid == g
}

/// Group `g` has access to collection `c`.
pub open spec fn group_has_access(rows: Seq<CollectionGroupView>, c: Seq<char>, g: Seq<char>) -> bool {
    exists|k: int| #[trigger] group_row_at(rows, k, c, g)
}

/// Some grant names `x`.
pub open spec fn grant_names(grants: Seq<AccessGrantView>, x: Seq<char>) -> bool {
    exists|k: int| 0 <= k < grants.len() && #[trigger] grants[k].id == x
}

proof fn lemma_grant_names_last(grants: Seq<AccessGrantView>, x: Seq<char>)
    requires
        grants.len() > 0,
    ensures
        grant_names(grants, x) <==> grant_names(grants.drop_last(), x) || grants.last().id == x,
{
    if grant_names(grants, x) {
        let k = choose|k: int| 0 <= k < grants.len() && #[trigger] grants[k].id == x;
        if k < grants.len() - 1 {
            assert(grants.drop_last()[k].id == x);
        }
    }
    if grant_names(grants.drop_last(), x) {
        let k = choose|k: int| 0 <= k < grants.drop_last().len() && #[trigger] grants.drop_last()[k].id == x;
        assert(grants[k].id == x);
    }
    if grants.last().id == x {
        assert(grants[grants.len() - 1].id == x);
    }
}

proof fn lemma_user_row_saved(rows: Seq<CollectionUserView>, u: Seq<char>, c: Seq<char>, f: AccessFlags, u2: Seq<char>, c2: Seq<char>)
    ensures
        user_has_access(with_collection_user(rows, u, c, f), u2, c2) <==> user_has_access(rows, u2, c2)
            || (u2 == u && c2 == c),
{
    let next = with_collection_user(rows, u, c, f);
    match first_index(rows, crate::directory::collection_user_key(u, c)) {
        Some(i) => {
            assert(crate::directory::collection_user_key(u, c)(rows[i]));
            if user_has_access(next, u2, c2) {
                let k = choose|k: int| #[trigger] user_row_at(next, k, u2, c2);
                assert(user_row_at(rows, k, u2, c2));
            }
            if user_has_access(rows, u2, c2) {
                let k = choose|k: int| #[trigger] user_row_at(rows, k, u2, c2);
                assert(user_row_at(next, k, u2, c2));
            }
            if u2 == u && c2 == c {
                assert(user_row_at(next, i, u2, c2));
            }
        },
        None => {
            if user_has_access(next, u2, c2) {
                let k = choose|k: int| #[trigger] user_row_at(next, k, u2, c2);
                if k < rows.len() {
                    assert(user_row_at(rows, k, u2, c2));
                }
            }
            if user_has_access(rows, u2, c2) {
                let k = choose|k: int| #[trigger] user_row_at(rows, k, u2, c2);
                assert(user_row_at(next, k, u2, c2));
            }
            if u2 == u && c2 == c {
                assert(user_row_at(next, rows.len() as int, u2, c2));
            }
        },
    }
}

proof fn lemma_group_row_saved(rows: Seq<CollectionGroupView>, c: Seq<char>, g: Seq<char>, f: AccessFlags, c2: Seq<char>, g2: Seq<char>)
    ensures
        group_has_access(with_collection_group(rows, c, g, f), c2, g2) <==> group_has_access(rows, c2, g2)
            || (c2 == c && g2 == g),
{
    let next = with_collection_group(rows, c, g, f);
    match first_index(rows, crate::directory::collection_group_key(c, g)) {
        Some(i) => {
            assert(crate::directory::collection_group_key(c, g)(rows[i]));
            if group_has_access(next, c2, g2) {
                let k = choose|k: int| #[trigger] group_row_at(next, k, c2, g2);
                assert(group_row_at(rows, k, c2, g2));
            }
            if group_has_access(rows, c2, g2) {
                let k = choose|k: int| #[trigger] group_row_at(rows, k, c2, g2);
                assert(group_row_at(next, k, c2, g2));
            }
            if c2 == c && g2 == g {
                assert(group_row_at(next, i, c2, g2));
            }
        },
        None => {
            if group_has_access(next, c2, g2) {
                let k = choose|k: int| #[trigger] group_row_at(next, k, c2, g2);
                if k < rows.len() {
                    assert(group_row_at(rows, k, c2, g2));
                }
            }
            if group_has_access(rows, c2, g2) {
                let k = choose|k: int| #[trigger] group_row_at(rows, k, c2, g2);
                assert(group_row_at(next, k, c2, g2));
            }
            if c2 == c && g2 == g {
                assert(group_row_at(next, rows.len() as int, c2, g2));
            }
        },
    }
}

proof fn lemma_user_grants_access(d: DirectoryView, u: Seq<char>, sels: Seq<AccessGrantView>, c: Seq<char>)
    requires
        with_user_collections(d, u, sels).1,
    ensures
        user_has_access(with_user_collections(d, u, sels).0.collection_users, u, c) <==> user_has_access(
            d.collection_users,
            u,
            c,
        ) || grant_names(sels, c),
    decreases sels.len(),
{
    if sels.len() > 0 {
        lemma_user_grants_access(d, u, sels.drop_last(), c);
        let prev = with_user_collections(d, u, sels.drop_last());
        lemma_user_row_saved(prev.0.collection_users, u, sels.last().id, sels.last().flags, u, c);
        lemma_grant_names_last(sels, c);
    }
}

proof fn lemma_collection_grants_access(rows: Seq<CollectionGroupView>, c: Seq<char>, grants: Seq<AccessGrantView>, g: Seq<char>)
    ensures
        group_has_access(with_collection_grants(rows, c, grants), c, g) <==> group_has_access(rows, c, g)
            || grant_names(grants, g),
    decreases grants.len(),
{
    if grants.len() > 0 {
        lemma_collection_grants_access(rows, c, grants.drop_last(), g);
        let prev = with_collection_grants(rows, c, grants.drop_last());
        lemma_group_row_saved(prev, c, grants.last().id, grants.last().flags, c, g);
        lemma_grant_names_last(grants, g);
    }
}

proof fn lemma_group_collections_access(rows: Seq<CollectionGroupView>, g: Seq<char>, sels: Seq<AccessGrantView>, c: Seq<char>)
    ensures
        group_has_access(with_group_collections(rows, g, sels), c, g) <==> group_has_access(rows, c, g)
            || grant_names(sels, c),
    decreases sels.len(),
{
    if sels.len() > 0 {
        lemma_group_collections_access(rows, g, sels.drop_last(), c);
        let prev = with_group_collections(rows, g, sels.drop_last());
        lemma_group_row_saved(prev, sels.last().id, g, sels.last().flags, c, g);
        lemma_grant_names_last(sels, c);
    }
}

/// After a member is edited, its user has direct access to exactly the
/// selected collections, or to none where its role grants access to all.
pub proof fn law_edited_member_collections(
    d: DirectoryView,
    id: Seq<char>,
    raw: Seq<char>,
    p: CustomPermissions,
    sels: Seq<AccessGrantView>,
    gs: Seq<Seq<char>>,
    c: Seq<char>,
)
    requires
        member_edit_outcome(d, id, raw, p, sels, gs).1 is None,
    ensures
        ({
            let u = d.members[first_index(d.members, member_with_uuid(id))->0].user_uuid;
            let aa = grants_access_all(MembershipType::from_text(raw)->0, raw, p);
            user_has_access(member_edit_outcome(d, id, raw, p, sels, gs).0.collection_users, u, c) <==> (
            !aa && grant_names(sels, c))
        }),
{
    broadcast use vstd::seq_lib::group_filter_ensures;

    let t = MembershipType::from_text(raw)->0;
    let aa = grants_access_all(t, raw, p);
    let i = first_index(d.members, member_with_uuid(id))->0;
    let m = d.members[i];
    let cleared = d.collection_users.filter(access_not_of_user(m.user_uuid));
    let d1 = d.with_collection_users(cleared);
    if user_has_access(cleared, m.user_uuid, c) {
        let k = choose|k: int| #[trigger] user_row_at(cleared, k, m.user_uuid, c);
        assert(access_not_of_user(m.user_uuid)(cleared[k]));
    }
    if !aa {
        lemma_user_grants_access(d1, m.user_uuid, sels, c);
    }
}

/// Replacing the group access of a collection leaves exactly the granted
/// groups with access to it.
pub proof fn law_replaced_collection_groups(
    rows: Seq<CollectionGroupView>,
    c: Seq<char>,
    grants: Seq<AccessGrantView>,
    g: Seq<char>,
)
    ensures
        group_has_access(
            with_collection_grants(rows.filter(access_not_to_collection_by_group(c)), c, grants),
            c,
            g,
        ) <==> grant_names(grants, g),
{
    broadcast use vstd::seq_lib::group_filter_ensures;

    let cleared = rows.filter(access_not_to_collection_by_group(c));
    lemma_collection_grants_access(cleared, c, grants, g);
    if group_has_access(cleared, c, g) {
        let k = choose|k: int| #[trigger] group_row_at(cleared, k, c, g);
        assert(access_not_to_collection_by_group(c)(cleared[k]));
    }
}

/// Replacing the collection access of a group leaves it with access to
/// exactly the selected collections.
pub proof fn law_replaced_group_collections(
    rows: Seq<CollectionGroupView>,
    g: Seq<char>,
    sels: Seq<AccessGrantView>,
    c: Seq<char>,
)
    ensures
        group_has_access(
            with_group_collections(rows.filter(access_not_of_group(g)), g, sels),
            c,
            g,
        ) <==> grant_names(sels, c),
{
    broadcast use vstd::seq_lib::group_filter_ensures;

    let cleared = rows.filter(access_not_of_group(g));
    lemma_group_collections_access(cleared, g, sels, c);
    if group_has_access(cleared, c, g) {
        let k = choose|k: int| #[trigger] group_row_at(cleared, k, c, g);
        assert(access_not_of_group(g)(cleared[k]));
    }
}

/// No membership in `ms` has uuid `x`.
pub open spec fn uuid_absent(ms: Seq<MemberView>, x: Seq<char>) -> bool {
    forall|k: int| 0 <= k < ms.len() ==> (#[trigger] ms[k]).uuid != x
}

/// The member lists have the same uuids, position by position.
pub open spec fn same_member_uuids(a: Seq<MemberView>, b: Seq<MemberView>) -> bool {
    a.len() == b.len() && forall|k: int| 0 <= k < a.len() ==> (#[trigger] a[k]).uuid == b[k].uuid
}

/// `b` is `a` with one membership added under uuid `mid`, not a confirmed owner.
pub open spec fn one_member_added(a: Seq<MemberView>, b: Seq<MemberView>, mid: Seq<char>) -> bool {
    b.len() == a.len() + 1 && b.drop_last() == a && b.last().uuid == mid && !is_confirmed_owner(
        b.last(),
    )
}

/// What importing one member does to the records: groups stay, users stay or
/// gain the new user, and memberships keep their uuids or gain the new one.
proof fn lemma_member_step_shape(
    d: DirectoryView,
    m: ImportMemberView,
    mail_enabled: bool,
    uid: Seq<char>,
    mid: Seq<char>,
)
    ensures
        ({
            let out = member_import_outcome(d, m, mail_enabled, uid, mid);
            &&& out.0.groups == d.groups
            &&& (out.0.users == d.users || out.0.users == d.users.push(
                crate::invites::new_user(uid, m.email),
            ))
            &&& (same_member_uuids(out.0.members, d.members) || one_member_added(
                d.members,
                out.0.members,
                mid,
            ))
            &&& (makes_invite(d, m) && out.1 is None) ==> {
                &&& one_member_added(d.members, out.0.members, mid)
                &&& first_index(d.users, user_with_email(m.email)) is None ==> out.0.users
                    == d.users.push(crate::invites::new_user(uid, m.email))
                &&& first_index(d.users, user_with_email(m.email)) is Some ==> out.0.users
                    == d.users
            }
        }),
{
    let out = member_import_outcome(d, m, mail_enabled, uid, mid);
    match d.member_index_by_email(m.email) {
        Some(i) => {
            assert(same_member_uuids(out.0.members, d.members));
        },
        None => {
            if !m.deleted {
                match d.org {
                    None => {
                        assert(same_member_uuids(out.0.members, d.members));
                    },
                    Some(o) => {
                        assert(out.0.members.drop_last() =~= d.members);
                    },
                }
            } else {
                assert(same_member_uuids(out.0.members, d.members));
            }
        },
    }
}

proof fn lemma_undo_members(out: DirectoryView, mid: Seq<char>, user: Seq<char>, email: Seq<char>, created: bool)
    ensures
        invite_undone(out, mid, user, email, created).members == out.members.filter(member_other_than(mid)),
        invite_undone(out, mid, user, email, created).groups == out.groups,
        created ==> invite_undone(out, mid, user, email, created).users == out.users.filter(
            crate::directory::user_other_than(user),
        ),
        !created ==> invite_undone(out, mid, user, email, created).users == out.users,
{
}

/// One member step keeps memberships uniquely identified and a confirmed
/// owner in place, and adds no uuid but `mid`.
proof fn lemma_step_keeps_an_owner(
    d: DirectoryView,
    m: ImportMemberView,
    mail_enabled: bool,
    sent: bool,
    uid: Seq<char>,
    mid: Seq<char>,
)
    requires
        member_uuids_unique(d.members),
        d.confirmed_owner_count() >= 1,
        uuid_absent(d.members, mid),
    ensures
        ({
            let r = import_member_step(d, m, mail_enabled, sent, uid, mid).0;
            &&& member_uuids_unique(r.members)
            &&& r.confirmed_owner_count() >= 1
            &&& forall|x: Seq<char>| uuid_absent(d.members, x) && x != mid ==> uuid_absent(r.members, x)
        }),
{
    let out = member_import_outcome(d, m, mail_enabled, uid, mid);
    lemma_member_step_shape(d, m, mail_enabled, uid, mid);
    law_member_import_keeps_an_owner(d, m, mail_enabled, uid, mid);
    let om = out.0.members;
    if same_member_uuids(om, d.members) {
        assert forall|i: int, j: int| 0 <= i < j < om.len() implies #[trigger] om[i].uuid
            != #[trigger] om[j].uuid by {
            assert(om[i].uuid == d.members[i].uuid && om[j].uuid == d.members[j].uuid);
        }
        assert forall|x: Seq<char>| uuid_absent(d.members, x) && x != mid implies uuid_absent(om, x) by {
            assert forall|k: int| 0 <= k < om.len() implies (#[trigger] om[k]).uuid != x by {
                assert(om[k].uuid == d.members[k].uuid);
            }
        }
    } else {
        assert forall|i: int, j: int| 0 <= i < j < om.len() implies #[trigger] om[i].uuid
            != #[trigger] om[j].uuid by {
            assert(om[i] == om.drop_last()[i]);
            if j < om.len() - 1 {
                assert(om[j] == om.drop_last()[j]);
            }
        }
        assert forall|x: Seq<char>| uuid_absent(d.members, x) && x != mid implies uuid_absent(om, x) by {
            assert forall|k: int| 0 <= k < om.len() implies (#[trigger] om[k]).uuid != x by {
                if k < om.len() - 1 {
                    assert(om[k] == om.drop_last()[k]);
                }
            }
        }
    }
    if out.1 is None && mail_enabled && makes_invite(d, m) && !sent {
        let user = invited_user_uuid(d, m.email, uid);
        let created = first_index(d.users, user_with_email(m.email)) is None;
        lemma_undo_members(out.0, mid, user, m.email, created);
        let r = om.filter(member_other_than(mid));
        lemma_filter_keeps_unique(om, member_other_than(mid));
        lemma_filter_contained(om, member_other_than(mid));
        assert forall|k: int| 0 <= k < om.len() && (#[trigger] om[k]).uuid == mid implies !is_confirmed_owner(om[k]) by {
            if k < om.len() - 1 {
                assert(om[k] == om.drop_last()[k]);
            }
        }
        lemma_owner_count_unaffected(om, mid);
        assert forall|x: Seq<char>| uuid_absent(om, x) implies uuid_absent(r, x) by {
            assert forall|k: int| 0 <= k < r.len() implies (#[trigger] r[k]).uuid != x by {
                assert(om.contains(r[k]));
            }
        }
    }
}

proof fn lemma_members_imported_keep_an_owner(
    d: DirectoryView,
    ms: Seq<ImportMemberView>,
    mail_enabled: bool,
    sent: Seq<bool>,
    uids: Seq<Seq<char>>,
    mids: Seq<Seq<char>>,
)
    requires
        member_uuids_unique(d.members),
        d.confirmed_owner_count() >= 1,
        ms.len() <= mids.len(),
        forall|j: int| 0 <= j < mids.len() ==> uuid_absent(d.members, #[trigger] mids[j]),
        forall|i: int, j: int| 0 <= i < j < mids.len() ==> #[trigger] mids[i] != #[trigger] mids[j],
    ensures
        ({
            let r = members_imported(d, ms, mail_enabled, sent, uids, mids).0;
            &&& member_uuids_unique(r.members)
            &&& r.confirmed_owner_count() >= 1
            &&& forall|j: int| ms.len() <= j < mids.len() ==> uuid_absent(r.members, #[trigger] mids[j])
        }),
    decreases ms.len(),
{
    if ms.len() > 0 {
        lemma_members_imported_keep_an_owner(d, ms.drop_last(), mail_enabled, sent, uids, mids);
        let prev = members_imported(d, ms.drop_last(), mail_enabled, sent, uids, mids);
        if prev.1 {
            let k = ms.len() - 1;
            lemma_step_keeps_an_owner(prev.0, ms.last(), mail_enabled, sent[k], uids[k], mids[k]);
            let r = import_member_step(prev.0, ms.last(), mail_enabled, sent[k], uids[k], mids[k]).0;
            assert forall|j: int| ms.len() <= j < mids.len() implies uuid_absent(r.members, #[trigger] mids[j]) by {
                assert(mids[k] != mids[j]);
                assert(uuid_absent(prev.0.members, mids[j]));
            }
        }
    }
}

/// A whole import never leaves the organization without a confirmed owner
/// where it had one, whether it goes through or stops at a member whose
/// import fails or whose invitation mail cannot be sent; the new membership
/// uuids are distinct and fresh.
pub proof fn law_import_keeps_an_owner(
    d: DirectoryView,
    data: ImportData,
    mail_enabled: bool,
    groups_enabled: bool,
    sent: Seq<bool>,
    user_ids: Seq<Seq<char>>,
    member_ids: Seq<Seq<char>>,
    group_ids: Seq<Seq<char>>,
)
    requires
        member_uuids_unique(d.members),
        d.confirmed_owner_count() >= 1,
        data.members.deep_view().len() <= member_ids.len(),
        forall|j: int| 0 <= j < member_ids.len() ==> uuid_absent(d.members, #[trigger] member_ids[j]),
        forall|i: int, j: int|
            0 <= i < j < member_ids.len() ==> #[trigger] member_ids[i] != #[trigger] member_ids[j],
    ensures
        directory_imported(
            d,
            data,
            mail_enabled,
            groups_enabled,
            sent,
            user_ids,
            member_ids,
            group_ids,
        ).confirmed_owner_count() >= 1,
{
    let ms = data.members.deep_view();
    lemma_members_imported_keep_an_owner(d, ms, mail_enabled, sent, user_ids, member_ids);
    let r = members_imported(d, ms, mail_enabled, sent, user_ids, member_ids);
    if r.1 {
        law_import_finish_keeps_an_owner(r.0, data, groups_enabled, group_ids);
    }
}

/// `e` still holds every user and group of `d`, and a membership with the
/// uuid of every membership of `d`.
pub open spec fn keeps_records(d: DirectoryView, e: DirectoryView) -> bool {
    &&& forall|k: int| 0 <= k < d.users.len() ==> e.users.contains(#[trigger] d.users[k])
    &&& forall|k: int| 0 <= k < d.groups.len() ==> e.groups.contains(#[trigger] d.groups[k])
    &&& forall|k: int| 0 <= k < d.members.len() ==> !uuid_absent(e.members, #[trigger] d.members[k].uuid)
}

proof fn lemma_step_keeps_records(
    d0: DirectoryView,
    d: DirectoryView,
    m: ImportMemberView,
    mail_enabled: bool,
    sent: bool,
    uid: Seq<char>,
    mid: Seq<char>,
)
    requires
        keeps_records(d0, d),
        forall|k: int| 0 <= k < d0.users.len() ==> (#[trigger] d0.users[k]).uuid != uid,
        uuid_absent(d0.members, mid),
    ensures
        keeps_records(d0, import_member_step(d, m, mail_enabled, sent, uid, mid).0),
{
    broadcast use vstd::seq_lib::group_filter_ensures;

    let out = member_import_outcome(d, m, mail_enabled, uid, mid);
    lemma_member_step_shape(d, m, mail_enabled, uid, mid);
    let om = out.0.members;
    assert forall|k: int| 0 <= k < d0.users.len() implies out.0.users.contains(#[trigger] d0.users[k]) by {
        assert(d.users.contains(d0.users[k]));
        let j = choose|j: int| 0 <= j < d.users.len() && d.users[j] == d0.users[k];
        assert(out.0.users[j] == d.users[j]);
    }
    assert forall|k: int| 0 <= k < d0.members.len() implies !uuid_absent(om, #[trigger] d0.members[k].uuid) by {
        let x = d0.members[k].uuid;
        assert(!uuid_absent(d.members, x));
        let j = choose|j: int| 0 <= j < d.members.len() && !((#[trigger] d.members[j]).uuid != x);
        if same_member_uuids(om, d.members) {
            assert(om[j].uuid == x);
        } else {
            assert(om[j] == om.drop_last()[j]);
        }
    }
    if out.1 is None && mail_enabled && makes_invite(d, m) && !sent {
        let user = invited_user_uuid(d, m.email, uid);
        let created = first_index(d.users, user_with_email(m.email)) is None;
        lemma_undo_members(out.0, mid, user, m.email, created);
        let r = invite_undone(out.0, mid, user, m.email, created);
        assert forall|k: int| 0 <= k < d0.members.len() implies !uuid_absent(r.members, #[trigger] d0.members[k].uuid) by {
            let x = d0.members[k].uuid;
            assert(x != mid);
            let j = choose|j: int| 0 <= j < om.len() && !((#[trigger] om[j]).uuid != x);
            assert(member_other_than(mid)(om[j]));
            assert(r.members.contains(om[j]));
            let i = choose|i: int| 0 <= i < r.members.len() && r.members[i] == om[j];
            assert(r.members[i].uuid == x);
        }
        if created {
            assert(user == uid);
            assert forall|k: int| 0 <= k < d0.users.len() implies r.users.contains(#[trigger] d0.users[k]) by {
                let j = choose|j: int| 0 <= j < out.0.users.len() && out.0.users[j] == d0.users[k];
                assert(crate::directory::user_other_than(uid)(out.0.users[j]));
            }
        }
    }
}

proof fn lemma_members_imported_keep_records(
    d: DirectoryView,
    ms: Seq<ImportMemberView>,
    mail_enabled: bool,
    sent: Seq<bool>,
    uids: Seq<Seq<char>>,
    mids: Seq<Seq<char>>,
)
    requires
        ms.len() <= uids.len(),
        ms.len() <= mids.len(),
        forall|j: int, k: int|
            0 <= j < uids.len() && 0 <= k < d.users.len() ==> (#[trigger] d.users[k]).uuid
                != #[trigger] uids[j],
        forall|j: int| 0 <= j < mids.len() ==> uuid_absent(d.members, #[trigger] mids[j]),
    ensures
        keeps_records(d, members_imported(d, ms, mail_enabled, sent, uids, mids).0),
    decreases ms.len(),
{
    if ms.len() == 0 {
        assert forall|k: int| 0 <= k < d.users.len() implies d.users.contains(#[trigger] d.users[k]) by {}
        assert forall|k: int| 0 <= k < d.groups.len() implies d.groups.contains(#[trigger] d.groups[k]) by {}
        assert forall|k: int| 0 <= k < d.members.len() implies !uuid_absent(d.members, #[trigger] d.members[k].uuid) by {
            assert(d.members[k].uuid == d.members[k].uuid);
        }
    } else {
        lemma_members_imported_keep_records(d, ms.drop_last(), mail_enabled, sent, uids, mids);
        let prev = members_imported(d, ms.drop_last(), mail_enabled, sent, uids, mids);
        if prev.1 {
            let k = ms.len() - 1;
            assert forall|i: int| 0 <= i < d.users.len() implies (#[trigger] d.users[i]).uuid != uids[k] by {
                assert(d.users[i].uuid != uids[k]);
            }
            assert(uuid_absent(d.members, mids[k]));
            lemma_step_keeps_records(d, prev.0, ms.last(), mail_enabled, sent[k], uids[k], mids[k]);
        }
    }
}

proof fn lemma_groups_import_keeps_records(d: DirectoryView, gs: Seq<ImportGroupView>, ids: Seq<Seq<char>>)
    ensures
        after_groups_imported(d, gs, ids).users == d.users,
        after_groups_imported(d, gs, ids).members == d.members,
        forall|k: int| 0 <= k < d.groups.len() ==> after_groups_imported(d, gs, ids).groups.contains(
            #[trigger] d.groups[k],
        ),
    decreases gs.len(),
{
    if gs.len() > 0 {
        lemma_groups_import_keeps_records(d, gs.drop_last(), ids);
        let prev = after_groups_imported(d, gs.drop_last(), ids);
        let next = after_groups_imported(d, gs, ids);
        assert forall|k: int| 0 <= k < d.groups.len() implies next.groups.contains(#[trigger] d.groups[k]) by {
            let j = choose|j: int| 0 <= j < prev.groups.len() && prev.groups[j] == d.groups[k];
            assert(next.groups[j] == prev.groups[j]);
        }
    }
}

/// An import that does not ask for unlisted members to be removed keeps every
/// user, every group and every membership (a membership may be revoked,
/// restored or given a new external id), whether it goes through or stops;
/// and it only adds users, invitations, memberships and groups, replaces only
/// the member places of the groups it imports, may take back collection
/// access, and leaves collections and their group access alone. The new user
/// and membership uuids are fresh: no user, membership or group place of the
/// directory has one.
pub proof fn law_import_without_overwrite_keeps_records(
    d: DirectoryView,
    data: ImportData,
    mail_enabled: bool,
    groups_enabled: bool,
    sent: Seq<bool>,
    user_ids: Seq<Seq<char>>,
    member_ids: Seq<Seq<char>>,
    group_ids: Seq<Seq<char>>,
)
    requires
        !data.overwrite_existing,
        data.members.deep_view().len() <= user_ids.len(),
        data.members.deep_view().len() <= member_ids.len(),
        forall|j: int, k: int|
            0 <= j < user_ids.len() && 0 <= k < d.users.len() ==> (#[trigger] d.users[k]).uuid
                != #[trigger] user_ids[j],
        forall|j: int| 0 <= j < member_ids.len() ==> uuid_absent(d.members, #[trigger] member_ids[j]),
        forall|j: int, k: int|
            0 <= j < member_ids.len() && 0 <= k < d.group_users.len() ==> (#[trigger] d.group_users[k]).member_uuid
                != #[trigger] member_ids[j],
    ensures
        ({
            let e = directory_imported(
                d,
                data,
                mail_enabled,
                groups_enabled,
                sent,
                user_ids,
                member_ids,
                group_ids,
            );
            &&& keeps_records(d, e)
            &&& import_changes_only(
                d,
                e,
                data.members.deep_view(),
                data.groups.deep_view(),
                user_ids,
                member_ids,
                group_ids,
            )
        }),
{
    let ms = data.members.deep_view();
    let gs = data.groups.deep_view();
    lemma_members_imported_keep_records(d, ms, mail_enabled, sent, user_ids, member_ids);
    lemma_members_imported_changes(d, ms, mail_enabled, sent, user_ids, member_ids, gs, group_ids);
    let r = members_imported(d, ms, mail_enabled, sent, user_ids, member_ids);
    if r.1 && groups_enabled {
        let e = after_groups_imported(r.0, gs, group_ids);
        lemma_groups_import_keeps_records(r.0, gs, group_ids);
        assert forall|k: int| 0 <= k < d.groups.len() implies e.groups.contains(#[trigger] d.groups[k]) by {
            let j = choose|j: int| 0 <= j < r.0.groups.len() && r.0.groups[j] == d.groups[k];
            assert(e.groups.contains(r.0.groups[j]));
        }
        lemma_groups_import_changes(r.0, gs, group_ids);
        lemma_changes_after_groups(d, r.0, e, ms, gs, user_ids, member_ids, group_ids);
    }
}

/// Composes the changes of the member steps with those of the groups.
proof fn lemma_changes_after_groups(
    d: DirectoryView,
    e0: DirectoryView,
    e: DirectoryView,
    ms: Seq<ImportMemberView>,
    gs: Seq<ImportGroupView>,
    uids: Seq<Seq<char>>,
    mids: Seq<Seq<char>>,
    gids: Seq<Seq<char>>,
)
    requires
        e0.groups == d.groups,
        e0.group_users == d.group_users,
        import_changes_only(d, e0, ms, gs, uids, mids, gids),
        e == (DirectoryView { groups: e.groups, group_users: e.group_users, ..e0 }),
        forall|h: GroupView| #[trigger]
            e.groups.contains(h) ==> e0.groups.contains(h) || exists|j: int|
                0 <= j < gs.len() && h.uuid == #[trigger] gids[j],
        forall|l: GroupUserView| #[trigger]
            e.group_users.contains(l) ==> e0.group_users.contains(l) || import_names_group(
                e.groups,
                gs,
                gids,
                l.group_uuid,
            ),
        forall|l: GroupUserView| #[trigger]
            e0.group_users.contains(l) ==> e.group_users.contains(l) || import_names_group(
                e.groups,
                gs,
                gids,
                l.group_uuid,
            ),
    ensures
        import_changes_only(d, e, ms, gs, uids, mids, gids),
{
    assert(e.users == e0.users && e.invitations == e0.invitations && e.members == e0.members);
    assert(e.collection_users == e0.collection_users);
    assert forall|h: GroupView| #[trigger] e.groups.contains(h) implies d.groups.contains(h) || exists|j: int|
        0 <= j < gs.len() && h.uuid == #[trigger] gids[j] by {
        if e0.groups.contains(h) {
            assert(d.groups.contains(h));
        }
    }
    assert forall|l: GroupUserView| #[trigger] e.group_users.contains(l) implies d.group_users.contains(l)
        || import_names_group(e.groups, gs, gids, l.group_uuid) by {
        if e0.group_users.contains(l) {
            assert(d.group_users.contains(l));
        }
    }
    assert forall|l: GroupUserView| #[trigger] d.group_users.contains(l) implies e.group_users.contains(l)
        || import_names_group(e.groups, gs, gids, l.group_uuid) by {
        assert(e0.group_users.contains(l));
    }
}


/// Membership `b` is membership `a`, but for its status and external id.
pub open spec fn same_membership(a: MemberView, b: MemberView) -> bool {
    &&& b.uuid == a.uuid
    &&& b.user_uuid == a.user_uuid
    &&& b.atype == a.atype
    &&& b.access_all == a.access_all
    &&& b.invited_by_email == a.invited_by_email
}

/// Group `g` is the one that importing group `ig` works on, in a directory
/// with groups `groups`: the group created under `id`, or the group with the
/// external id of `ig`.
pub open spec fn group_named_by(groups: Seq<GroupView>, ig: ImportGroupView, id: Seq<char>, g: Seq<char>) -> bool {
    ||| id == g
    ||| exists|h: GroupView| #[trigger] groups.contains(h) && h.uuid == g && h.external_id == Some(ig.external_id)
}

/// Group `g` is one that an import of the groups `gs` works on.
pub open spec fn import_names_group(
    groups: Seq<GroupView>,
    gs: Seq<ImportGroupView>,
    ids: Seq<Seq<char>>,
    g: Seq<char>,
) -> bool {
    exists|j: int| 0 <= j < gs.len() && #[trigger] group_named_by(groups, gs[j], ids[j], g)
}

/// What an import of the members `ms` and the groups `gs` may change of `d`
/// to give `e`, where it removes no member: it adds users (created under
/// `user_ids`), invitations (for the members' emails), memberships (under
/// `member_ids`) and groups (under `group_ids`); it keeps every membership but
/// for its status and external id; it replaces only the member places of the
/// groups it imports; it may take back collection access; it leaves the
/// organization, its collections and their group access as they were.
pub open spec fn import_changes_only(
    d: DirectoryView,
    e: DirectoryView,
    ms: Seq<ImportMemberView>,
    gs: Seq<ImportGroupView>,
    user_ids: Seq<Seq<char>>,
    member_ids: Seq<Seq<char>>,
    group_ids: Seq<Seq<char>>,
) -> bool {
    &&& e.org_id == d.org_id
    &&& e.org == d.org
    &&& e.collections == d.collections
    &&& e.collection_groups == d.collection_groups
    &&& forall|c: CollectionUserView| #[trigger]
        e.collection_users.contains(c) ==> d.collection_users.contains(c)
    &&& forall|u: UserView| #[trigger]
        e.users.contains(u) ==> d.users.contains(u) || exists|j: int|
            0 <= j < ms.len() && u == new_user(user_ids[j], (#[trigger] ms[j]).email)
    &&& forall|x: Seq<char>| #[trigger]
        e.invitations.contains(x) ==> d.invitations.contains(x) || exists|j: int|
            0 <= j < ms.len() && x == (#[trigger] ms[j]).email
    &&& forall|x: MemberView| #[trigger]
        e.members.contains(x) ==> (exists|y: MemberView| #[trigger]
            d.members.contains(y) && same_membership(y, x)) || exists|j: int|
            0 <= j < ms.len() && x.uuid == #[trigger] member_ids[j]
    &&& forall|y: MemberView| #[trigger]
        d.members.contains(y) ==> exists|x: MemberView| #[trigger]
            e.members.contains(x) && same_membership(y, x)
    &&& forall|h: GroupView| #[trigger]
        e.groups.contains(h) ==> d.groups.contains(h) || exists|j: int|
            0 <= j < gs.len() && h.uuid == #[trigger] group_ids[j]
    &&& forall|l: GroupUserView| #[trigger]
        e.group_users.contains(l) ==> d.group_users.contains(l) || import_names_group(
            e.groups,
            gs,
            group_ids,
            l.group_uuid,
        )
    &&& forall|l: GroupUserView| #[trigger]
        d.group_users.contains(l) ==> e.group_users.contains(l) || import_names_group(
            e.groups,
            gs,
            group_ids,
            l.group_uuid,
        )
}

/// What one member step of an import may change of `d` to give `r`, for
/// member `m` with new uuids `uid` and `mid`.
spec fn member_step_changes(
    d: DirectoryView,
    r: DirectoryView,
    m: ImportMemberView,
    uid: Seq<char>,
    mid: Seq<char>,
) -> bool {
    &&& r == DirectoryView {
        users: r.users,
        invitations: r.invitations,
        members: r.members,
        collection_users: r.collection_users,
        ..d
    }
    &&& forall|c: CollectionUserView| #[trigger]
        r.collection_users.contains(c) ==> d.collection_users.contains(c)
    &&& forall|u: UserView| #[trigger] r.users.contains(u) ==> d.users.contains(u) || u == new_user(uid, m.email)
    &&& forall|x: Seq<char>| #[trigger] r.invitations.contains(x) ==> d.invitations.contains(x) || x == m.email
    &&& forall|x: MemberView| #[trigger]
        r.members.contains(x) ==> x.uuid == mid || exists|y: MemberView| #[trigger]
            d.members.contains(y) && same_membership(y, x)
    &&& forall|y: MemberView| #[trigger]
        d.members.contains(y) && y.uuid != mid ==> exists|x: MemberView| #[trigger]
            r.members.contains(x) && same_membership(y, x)
}

/// What one member step changes: users, invitations, memberships and
/// collection access, and those only as an import may.
proof fn lemma_step_changes(
    d: DirectoryView,
    m: ImportMemberView,
    mail_enabled: bool,
    sent: bool,
    uid: Seq<char>,
    mid: Seq<char>,
)
    requires
        forall|k: int| 0 <= k < d.group_users.len() ==> (#[trigger] d.group_users[k]).member_uuid != mid,
    ensures
        member_step_changes(d, import_member_step(d, m, mail_enabled, sent, uid, mid).0, m, uid, mid),
{
    broadcast use vstd::seq_lib::group_filter_ensures;

    let out = member_import_outcome(d, m, mail_enabled, uid, mid);
    let o = out.0;
    assert(o == DirectoryView {
        users: o.users,
        invitations: o.invitations,
        members: o.members,
        ..d
    });
    assert forall|u: UserView| #[trigger] o.users.contains(u) implies d.users.contains(u) || u == new_user(uid, m.email) by {
        if o.users != d.users {
            let k = choose|k: int| 0 <= k < o.users.len() && o.users[k] == u;
            assert(o.users == d.users.push(new_user(uid, m.email)));
            if k < d.users.len() {
                assert(d.users[k] == u);
            }
        }
    }
    assert forall|x: Seq<char>| #[trigger] o.invitations.contains(x) implies d.invitations.contains(x) || x == m.email by {
        if o.invitations != d.invitations {
            let k = choose|k: int| 0 <= k < o.invitations.len() && o.invitations[k] == x;
            assert(o.invitations == d.invitations.push(m.email));
            if k < d.invitations.len() {
                assert(d.invitations[k] == x);
            }
        }
    }
    lemma_outcome_members(d, m, mail_enabled, uid, mid);
    if out.1 is None && mail_enabled && makes_invite(d, m) && !sent {
        let user = invited_user_uuid(d, m.email, uid);
        let created = first_index(d.users, user_with_email(m.email)) is None;
        let r = invite_undone(o, mid, user, m.email, created);
        lemma_filter_keeps_all(o.group_users, link_not_of_member(mid));
        assert forall|c: CollectionUserView| #[trigger] r.collection_users.contains(c) implies d.collection_users.contains(c) by {
            o.collection_users.lemma_filter_contains_rev(access_not_of_user(user), c);
        }
        assert forall|x: MemberView| #[trigger] r.members.contains(x) implies o.members.contains(x) by {
            o.members.lemma_filter_contains_rev(member_other_than(mid), x);
        }
        assert forall|y: MemberView| #[trigger] d.members.contains(y) && y.uuid != mid implies exists|x: MemberView| #[trigger]
            r.members.contains(x) && same_membership(y, x) by {
            let x = choose|x: MemberView| #[trigger] o.members.contains(x) && same_membership(y, x);
            let k = choose|k: int| 0 <= k < o.members.len() && o.members[k] == x;
            assert(member_other_than(mid)(o.members[k]));
            assert(r.members.contains(x));
        }
        if created {
            assert forall|u: UserView| #[trigger] r.users.contains(u) implies o.users.contains(u) by {
                o.users.lemma_filter_contains_rev(crate::directory::user_other_than(user), u);
            }
            assert forall|x: Seq<char>| #[trigger] r.invitations.contains(x) implies o.invitations.contains(x) by {
                o.invitations.lemma_filter_contains_rev(crate::directory::text_other_than(m.email), x);
            }
        }
    }
}

/// What `member_import_outcome` does to the memberships: each is one of `d`
/// with another status or external id, or the new one under `mid`; each of
/// `d` stays so.
proof fn lemma_outcome_members(
    d: DirectoryView,
    m: ImportMemberView,
    mail_enabled: bool,
    uid: Seq<char>,
    mid: Seq<char>,
)
    ensures
        ({
            let o = member_import_outcome(d, m, mail_enabled, uid, mid).0;
            &&& forall|x: MemberView| #[trigger]
                o.members.contains(x) ==> x.uuid == mid || exists|y: MemberView| #[trigger]
                    d.members.contains(y) && same_membership(y, x)
            &&& forall|y: MemberView| #[trigger]
                d.members.contains(y) ==> exists|x: MemberView| #[trigger]
                    o.members.contains(x) && same_membership(y, x)
        }),
{
    let o = member_import_outcome(d, m, mail_enabled, uid, mid).0;
    match d.member_index_by_email(m.email) {
        Some(i) => {
            let ui = first_index(d.users, user_with_email(m.email))->0;
            assert(0 <= i < d.members.len());
            assert(o.members.len() == d.members.len());
            assert(same_membership(d.members[i], o.members[i]));
            assert forall|x: MemberView| #[trigger] o.members.contains(x) implies x.uuid == mid || exists|y: MemberView| #[trigger]
                d.members.contains(y) && same_membership(y, x) by {
                let k = choose|k: int| 0 <= k < o.members.len() && o.members[k] == x;
                assert(d.members.contains(d.members[k]));
                if k != i {
                    assert(o.members[k] == d.members[k]);
                    assert(same_membership(d.members[k], x));
                } else {
                    assert(same_membership(d.members[i], x));
                }
            }
            assert forall|y: MemberView| #[trigger] d.members.contains(y) implies exists|x: MemberView| #[trigger]
                o.members.contains(x) && same_membership(y, x) by {
                let k = choose|k: int| 0 <= k < d.members.len() && d.members[k] == y;
                assert(o.members.contains(o.members[k]));
                if k != i {
                    assert(o.members[k] == d.members[k]);
                }
                assert(same_membership(y, o.members[k]));
            }
        },
        None => {
            if m.deleted || d.org is None {
                assert(o.members == d.members);
                assert forall|x: MemberView| #[trigger] o.members.contains(x) implies x.uuid == mid || exists|y: MemberView| #[trigger]
                    d.members.contains(y) && same_membership(y, x) by {
                    assert(same_membership(x, x));
                }
                assert forall|y: MemberView| #[trigger] d.members.contains(y) implies exists|x: MemberView| #[trigger]
                    o.members.contains(x) && same_membership(y, x) by {
                    assert(same_membership(y, y));
                }
            } else {
                assert(o.members.drop_last() =~= d.members);
                assert(o.members.last().uuid == mid);
                assert forall|x: MemberView| #[trigger] o.members.contains(x) implies x.uuid == mid || exists|y: MemberView| #[trigger]
                    d.members.contains(y) && same_membership(y, x) by {
                    let k = choose|k: int| 0 <= k < o.members.len() && o.members[k] == x;
                    if k < d.members.len() {
                        assert(o.members.drop_last()[k] == x);
                        assert(d.members[k] == x);
                        assert(d.members.contains(x));
                        assert(same_membership(x, x));
                    }
                }
                assert forall|y: MemberView| #[trigger] d.members.contains(y) implies exists|x: MemberView| #[trigger]
                    o.members.contains(x) && same_membership(y, x) by {
                    let k = choose|k: int| 0 <= k < d.members.len() && d.members[k] == y;
                    assert(o.members.drop_last()[k] == y);
                    assert(o.members[k] == y);
                    assert(o.members.contains(y));
                    assert(same_membership(y, y));
                }
            }
        },
    }
}

/// Allowing more members in `import_changes_only` keeps it true.
proof fn lemma_changes_more_members(
    d: DirectoryView,
    e: DirectoryView,
    ms: Seq<ImportMemberView>,
    gs: Seq<ImportGroupView>,
    uids: Seq<Seq<char>>,
    mids: Seq<Seq<char>>,
    gids: Seq<Seq<char>>,
)
    requires
        ms.len() > 0,
        import_changes_only(d, e, ms.drop_last(), gs, uids, mids, gids),
    ensures
        import_changes_only(d, e, ms, gs, uids, mids, gids),
{
    let p = ms.drop_last();
    assert forall|u: UserView| #[trigger] e.users.contains(u) implies d.users.contains(u) || exists|j: int|
        0 <= j < ms.len() && u == new_user(uids[j], (#[trigger] ms[j]).email) by {
        if !d.users.contains(u) {
            let j = choose|j: int| 0 <= j < p.len() && u == new_user(uids[j], (#[trigger] p[j]).email);
            assert(p[j] == ms[j]);
        }
    }
    assert forall|x: Seq<char>| #[trigger] e.invitations.contains(x) implies d.invitations.contains(x) || exists|j: int|
        0 <= j < ms.len() && x == (#[trigger] ms[j]).email by {
        if !d.invitations.contains(x) {
            let j = choose|j: int| 0 <= j < p.len() && x == (#[trigger] p[j]).email;
            assert(p[j] == ms[j]);
        }
    }
}

/// The member steps of an import leave groups and their member places as they
/// were, and change the rest only as `import_changes_only` allows.
proof fn lemma_members_imported_changes(
    d: DirectoryView,
    ms: Seq<ImportMemberView>,
    mail_enabled: bool,
    sent: Seq<bool>,
    uids: Seq<Seq<char>>,
    mids: Seq<Seq<char>>,
    gs: Seq<ImportGroupView>,
    gids: Seq<Seq<char>>,
)
    requires
        ms.len() <= mids.len(),
        forall|j: int| 0 <= j < mids.len() ==> uuid_absent(d.members, #[trigger] mids[j]),
        forall|j: int, k: int|
            0 <= j < mids.len() && 0 <= k < d.group_users.len() ==> (#[trigger] d.group_users[k]).member_uuid
                != #[trigger] mids[j],
    ensures
        ({
            let r = members_imported(d, ms, mail_enabled, sent, uids, mids).0;
            &&& r.groups == d.groups
            &&& r.group_users == d.group_users
            &&& import_changes_only(d, r, ms, gs, uids, mids, gids)
        }),
    decreases ms.len(),
{
    if ms.len() == 0 {
        assert forall|x: MemberView| #[trigger] d.members.contains(x) implies (exists|y: MemberView| #[trigger]
            d.members.contains(y) && same_membership(y, x)) by {
            assert(same_membership(x, x));
        }
        assert forall|y: MemberView| #[trigger] d.members.contains(y) implies exists|x: MemberView| #[trigger]
            d.members.contains(x) && same_membership(y, x) by {
            assert(same_membership(y, y));
        }
    } else {
        let p = ms.drop_last();
        lemma_members_imported_changes(d, p, mail_enabled, sent, uids, mids, gs, gids);
        let prev = members_imported(d, p, mail_enabled, sent, uids, mids);
        if !prev.1 {
            lemma_changes_more_members(d, prev.0, ms, gs, uids, mids, gids);
        } else {
            let k = ms.len() - 1;
            let e0 = prev.0;
            assert forall|i: int| 0 <= i < e0.group_users.len() implies (#[trigger] e0.group_users[i]).member_uuid
                != mids[k] by {
                assert(d.group_users[i].member_uuid != mids[k]);
            }
            lemma_step_changes(e0, ms.last(), mail_enabled, sent[k], uids[k], mids[k]);
            let r = import_member_step(e0, ms.last(), mail_enabled, sent[k], uids[k], mids[k]).0;
            lemma_changes_after_step(d, e0, r, ms, gs, uids, mids, gids);
        }
    }
}

/// Composes the changes of the first member steps with those of the next one.
#[verifier::spinoff_prover]
proof fn lemma_changes_after_step(
    d: DirectoryView,
    e0: DirectoryView,
    r: DirectoryView,
    ms: Seq<ImportMemberView>,
    gs: Seq<ImportGroupView>,
    uids: Seq<Seq<char>>,
    mids: Seq<Seq<char>>,
    gids: Seq<Seq<char>>,
)
    requires
        ms.len() > 0,
        e0.groups == d.groups,
        e0.group_users == d.group_users,
        import_changes_only(d, e0, ms.drop_last(), gs, uids, mids, gids),
        uuid_absent(d.members, mids[ms.len() - 1]),
        member_step_changes(e0, r, ms.last(), uids[ms.len() - 1], mids[ms.len() - 1]),
    ensures
        r.groups == d.groups,
        r.group_users == d.group_users,
        import_changes_only(d, r, ms, gs, uids, mids, gids),
{
    let p = ms.drop_last();
    let k = ms.len() - 1;
    assert(ms[k] == ms.last());
    assert forall|c: CollectionUserView| #[trigger] r.collection_users.contains(c) implies d.collection_users.contains(c) by {
        assert(e0.collection_users.contains(c));
    }
    assert forall|u: UserView| #[trigger] r.users.contains(u) implies d.users.contains(u) || exists|j: int|
        0 <= j < ms.len() && u == new_user(uids[j], (#[trigger] ms[j]).email) by {
        if u != new_user(uids[k], ms[k].email) {
            assert(e0.users.contains(u));
            if !d.users.contains(u) {
                let j = choose|j: int| 0 <= j < p.len() && u == new_user(uids[j], (#[trigger] p[j]).email);
                assert(p[j] == ms[j]);
            }
        }
    }
    assert forall|x: Seq<char>| #[trigger] r.invitations.contains(x) implies d.invitations.contains(x) || exists|j: int|
        0 <= j < ms.len() && x == (#[trigger] ms[j]).email by {
        if x != ms[k].email {
            assert(e0.invitations.contains(x));
            if !d.invitations.contains(x) {
                let j = choose|j: int| 0 <= j < p.len() && x == (#[trigger] p[j]).email;
                assert(p[j] == ms[j]);
            }
        }
    }
    assert forall|x: MemberView| #[trigger] r.members.contains(x) implies (exists|y: MemberView| #[trigger]
        d.members.contains(y) && same_membership(y, x)) || exists|j: int|
        0 <= j < ms.len() && x.uuid == #[trigger] mids[j] by {
        if x.uuid != mids[k] {
            let x0 = choose|y: MemberView| #[trigger] e0.members.contains(y) && same_membership(y, x);
            if exists|y: MemberView| #[trigger] d.members.contains(y) && same_membership(y, x0) {
                let y = choose|y: MemberView| #[trigger] d.members.contains(y) && same_membership(y, x0);
                assert(same_membership(y, x));
            } else {
                let j = choose|j: int| 0 <= j < p.len() && x0.uuid == #[trigger] mids[j];
                assert(x.uuid == mids[j]);
            }
        }
    }
    assert forall|y: MemberView| #[trigger] d.members.contains(y) implies exists|x: MemberView| #[trigger]
        r.members.contains(x) && same_membership(y, x) by {
        let x0 = choose|x: MemberView| #[trigger] e0.members.contains(x) && same_membership(y, x);
        let i = choose|i: int| 0 <= i < d.members.len() && d.members[i] == y;
        assert(d.members[i].uuid != mids[k]);
        assert(x0.uuid != mids[k]);
        let x = choose|x: MemberView| #[trigger] r.members.contains(x) && same_membership(x0, x);
        assert(same_membership(y, x));
    }
}

/// Placing members in a group by external id adds links of that group only.
proof fn lemma_resolved_links_changes(
    links: Seq<GroupUserView>,
    members: Seq<MemberView>,
    g: Seq<char>,
    exts: Seq<Seq<char>>,
)
    ensures
        forall|l: GroupUserView| #[trigger]
            links.contains(l) ==> with_resolved_links(links, members, g, exts).contains(l),
        forall|l: GroupUserView| #[trigger]
            with_resolved_links(links, members, g, exts).contains(l) ==> links.contains(l) || l.group_uuid
                == g,
    decreases exts.len(),
{
    if exts.len() > 0 {
        lemma_resolved_links_changes(links, members, g, exts.drop_last());
        let prev = with_resolved_links(links, members, g, exts.drop_last());
        let r = with_resolved_links(links, members, g, exts);
        match first_index(members, member_with_external_id(exts.last())) {
            Some(i) => {
                let nl = group_link(g, members[i].uuid);
                assert(r == prev || r == prev.push(nl));
                assert forall|l: GroupUserView| #[trigger] links.contains(l) implies r.contains(l) by {
                    assert(prev.contains(l));
                    let k = choose|k: int| 0 <= k < prev.len() && prev[k] == l;
                    assert(r[k] == l);
                }
                assert forall|l: GroupUserView| #[trigger] r.contains(l) implies links.contains(l) || l.group_uuid == g by {
                    let k = choose|k: int| 0 <= k < r.len() && r[k] == l;
                    if k < prev.len() {
                        assert(prev[k] == l);
                        assert(prev.contains(l));
                    }
                }
            },
            None => {},
        }
    }
}

/// What importing one group changes: its groups gain at most the new group,
/// and only the member places of the group it works on change.
proof fn lemma_group_import_changes(d: DirectoryView, ig: ImportGroupView, id: Seq<char>)
    ensures
        ({
            let e = after_group_imported(d, ig, id);
            &&& e == DirectoryView { groups: e.groups, group_users: e.group_users, ..d }
            &&& forall|h: GroupView| #[trigger] d.groups.contains(h) ==> e.groups.contains(h)
            &&& forall|h: GroupView| #[trigger] e.groups.contains(h) ==> d.groups.contains(h) || h.uuid == id
            &&& forall|l: GroupUserView| #[trigger]
                e.group_users.contains(l) ==> d.group_users.contains(l) || group_named_by(
                    e.groups,
                    ig,
                    id,
                    l.group_uuid,
                )
            &&& forall|l: GroupUserView| #[trigger]
                d.group_users.contains(l) ==> e.group_users.contains(l) || group_named_by(
                    e.groups,
                    ig,
                    id,
                    l.group_uuid,
                )
        }),
{
    broadcast use vstd::seq_lib::group_filter_ensures;

    let e = after_group_imported(d, ig, id);
    let gid = imported_group_id(d, ig, id);
    match first_index(d.groups, group_with_external_id(ig.external_id)) {
        Some(i) => {
            assert(e.groups == d.groups);
            assert(e.groups.contains(d.groups[i]));
            assert(group_named_by(e.groups, ig, id, gid));
        },
        None => {
            assert(e.groups.drop_last() =~= d.groups);
            assert forall|h: GroupView| #[trigger] d.groups.contains(h) implies e.groups.contains(h) by {
                let k = choose|k: int| 0 <= k < d.groups.len() && d.groups[k] == h;
                assert(e.groups[k] == h);
            }
            assert forall|h: GroupView| #[trigger] e.groups.contains(h) implies d.groups.contains(h) || h.uuid == id by {
                let k = choose|k: int| 0 <= k < e.groups.len() && e.groups[k] == h;
                if k < d.groups.len() {
                    assert(d.groups[k] == h);
                }
            }
        },
    }
    let cleared = d.group_users.filter(link_not_in_group(gid));
    lemma_resolved_links_changes(cleared, d.members, gid, ig.member_external_ids);
    assert(e.group_users == with_resolved_links(cleared, d.members, gid, ig.member_external_ids));
    assert forall|l: GroupUserView| #[trigger] e.group_users.contains(l) implies d.group_users.contains(l) || group_named_by(
        e.groups,
        ig,
        id,
        l.group_uuid,
    ) by {
        if l.group_uuid != gid {
            assert(cleared.contains(l));
            d.group_users.lemma_filter_contains_rev(link_not_in_group(gid), l);
        }
    }
    assert forall|l: GroupUserView| #[trigger] d.group_users.contains(l) implies e.group_users.contains(l) || group_named_by(
        e.groups,
        ig,
        id,
        l.group_uuid,
    ) by {
        if l.group_uuid != gid {
            let k = choose|k: int| 0 <= k < d.group_users.len() && d.group_users[k] == l;
            assert(link_not_in_group(gid)(d.group_users[k]));
            assert(cleared.contains(l));
        }
    }
}

/// The groups of an import, in order, change only groups and the member
/// places of the groups the import names.
proof fn lemma_groups_import_changes(d: DirectoryView, gs: Seq<ImportGroupView>, ids: Seq<Seq<char>>)
    ensures
        ({
            let e = after_groups_imported(d, gs, ids);
            &&& e == DirectoryView { groups: e.groups, group_users: e.group_users, ..d }
            &&& forall|h: GroupView| #[trigger] d.groups.contains(h) ==> e.groups.contains(h)
            &&& forall|h: GroupView| #[trigger]
                e.groups.contains(h) ==> d.groups.contains(h) || exists|j: int|
                    0 <= j < gs.len() && h.uuid == #[trigger] ids[j]
            &&& forall|l: GroupUserView| #[trigger]
                e.group_users.contains(l) ==> d.group_users.contains(l) || import_names_group(
                    e.groups,
                    gs,
                    ids,
                    l.group_uuid,
                )
            &&& forall|l: GroupUserView| #[trigger]
                d.group_users.contains(l) ==> e.group_users.contains(l) || import_names_group(
                    e.groups,
                    gs,
                    ids,
                    l.group_uuid,
                )
        }),
    decreases gs.len(),
{
    if gs.len() > 0 {
        let p = gs.drop_last();
        let k = gs.len() - 1;
        lemma_groups_import_changes(d, p, ids);
        let prev = after_groups_imported(d, p, ids);
        lemma_group_import_changes(prev, gs.last(), ids[k]);
        let e = after_groups_imported(d, gs, ids);
        assert(gs[k] == gs.last());
        assert forall|g: Seq<char>| import_names_group(prev.groups, p, ids, g) implies import_names_group(
            e.groups,
            gs,
            ids,
            g,
        ) by {
            let j = choose|j: int| 0 <= j < p.len() && #[trigger] group_named_by(prev.groups, p[j], ids[j], g);
            assert(p[j] == gs[j]);
            if ids[j] != g {
                let h = choose|h: GroupView| #[trigger] prev.groups.contains(h) && h.uuid == g && h.external_id
                    == Some(p[j].external_id);
                assert(e.groups.contains(h));
            }
            assert(group_named_by(e.groups, gs[j], ids[j], g));
        }
        assert forall|g: Seq<char>| group_named_by(e.groups, gs.last(), ids[k], g) implies import_names_group(
            e.groups,
            gs,
            ids,
            g,
        ) by {
            assert(group_named_by(e.groups, gs[k], ids[k], g));
        }
        assert forall|h: GroupView| #[trigger] e.groups.contains(h) implies d.groups.contains(h) || exists|j: int|
            0 <= j < gs.len() && h.uuid == #[trigger] ids[j] by {
            if h.uuid != ids[k] {
                assert(prev.groups.contains(h));
            }
        }
    }
}

/// A successful edit saves the member under its uuid, in its place, with the
/// role the request names and access to all collections exactly where that
/// role is Owner or Admin, or the request names the custom role `4` with all
/// three collection permissions; what the member had before does not count.
/// Its user, status, external id and every other membership stay as they were.
pub proof fn law_edited_member_role(
    d: DirectoryView,
    id: Seq<char>,
    raw: Seq<char>,
    p: CustomPermissions,
    sels: Seq<AccessGrantView>,
    gs: Seq<Seq<char>>,
)
    requires
        member_edit_outcome(d, id, raw, p, sels, gs).1 is None,
    ensures
        ({
            let e = member_edit_outcome(d, id, raw, p, sels, gs).0;
            let t = MembershipType::from_text(raw)->0;
            let i = first_index(d.members, member_with_uuid(id))->0;
            &&& MembershipType::from_text(raw) is Some
            &&& first_index(d.members, member_with_uuid(id)) is Some
            &&& first_index(e.members, member_with_uuid(id)) == Some(i)
            &&& e.members.len() == d.members.len()
            &&& forall|k: int| 0 <= k < d.members.len() && k != i ==> e.members[k] == d.members[k]
            &&& e.members[i].uuid == id
            &&& e.members[i].user_uuid == d.members[i].user_uuid
            &&& e.members[i].status == d.members[i].status
            &&& e.members[i].external_id == d.members[i].external_id
            &&& e.members[i].atype == t.spec_code()
            &&& e.members[i].access_all == (t is Owner || t is Admin || (raw == "4"@ && p.edit_any_collection
                && p.delete_any_collection && p.create_new_collections))
        }),
{
    let t = MembershipType::from_text(raw)->0;
    let aa = grants_access_all(t, raw, p);
    let i = first_index(d.members, member_with_uuid(id))->0;
    let m = d.members[i];
    let d1 = d.with_collection_users(d.collection_users.filter(access_not_of_user(m.user_uuid)));
    if !aa {
        crate::members::lemma_granting_keeps_members(d1, m.user_uuid, sels);
    }
    let e = member_edit_outcome(d, id, raw, p, sels, gs).0;
    assert(e.members == d.members.update(i, crate::members::edited_member(m, t, aa)));
    assert(is_first(d.members, member_with_uuid(id), i));
    assert forall|j: int| 0 <= j < i implies !member_with_uuid(id)(#[trigger] e.members[j]) by {
        assert(!member_with_uuid(id)(d.members[j]));
    }
    crate::lookup::lemma_first_index_found(e.members, member_with_uuid(id), i);
}

/// Replacing a group saves it under its uuid, in its place, with the name and
/// access to all collections of the request; its external id and every other
/// group stay as they were.
pub proof fn law_replaced_group_takes_request(d: DirectoryView, g: Seq<char>, req: GroupRequest)
    requires
        first_index(d.groups, group_with_uuid(g)) is Some,
    ensures
        ({
            let i = first_index(d.groups, group_with_uuid(g))->0;
            let saved = renamed_group(d.groups[i], req);
            let e = with_group_saved(d.groups, saved);
            &&& saved.uuid == g
            &&& saved.name == req.name@
            &&& saved.access_all == req.access_all
            &&& saved.external_id == d.groups[i].external_id
            &&& e.len() == d.groups.len()
            &&& first_index(e, group_with_uuid(g)) == Some(i)
            &&& e[i] == saved
            &&& forall|k: int| 0 <= k < d.groups.len() && k != i ==> e[k] == d.groups[k]
        }),
{
    let i = first_index(d.groups, group_with_uuid(g))->0;
    let saved = renamed_group(d.groups[i], req);
    let e = with_group_saved(d.groups, saved);
    assert(is_first(d.groups, group_with_uuid(g), i));
    assert(saved.uuid == g);
    assert(e == d.groups.update(i, saved));
    assert forall|j: int| 0 <= j < i implies !group_with_uuid(g)(#[trigger] e[j]) by {
        assert(!group_with_uuid(g)(d.groups[j]));
    }
    crate::lookup::lemma_first_index_found(e, group_with_uuid(g), i);
}

/// A group that an import creates, where no group has its external id, comes
/// last, under the new uuid, with the imported name, the normalized imported
/// external id, and no access to all collections; where a group has that
/// external id, the groups stay as they were.
pub proof fn law_imported_group_created(d: DirectoryView, ig: ImportGroupView, new_id: Seq<char>)
    ensures
        ({
            let e = after_group_imported(d, ig, new_id);
            match first_index(d.groups, group_with_external_id(ig.external_id)) {
                None => {
                    &&& e.groups.len() == d.groups.len() + 1
                    &&& e.groups.drop_last() == d.groups
                    &&& e.groups.last().uuid == new_id
                    &&& e.groups.last().name == ig.name
                    &&& !e.groups.last().access_all
                    &&& e.groups.last().external_id == normalized_external_id(Some(ig.external_id))
                },
                Some(_) => e.groups == d.groups,
            }
        }),
{
    let e = after_group_imported(d, ig, new_id);
    if first_index(d.groups, group_with_external_id(ig.external_id)) is None {
        assert(e.groups.drop_last() =~= d.groups);
    }
}

/// The first direct access row of user `u` to collection `c`.
pub open spec fn access_row(rows: Seq<CollectionUserView>, u: Seq<char>, c: Seq<char>) -> Option<
    CollectionUserView,
> {
    match first_index(rows, collection_user_key(u, c)) {
        Some(i) => Some(rows[i]),
        None => None,
    }
}

/// The membership with uuid `id`, as the organization's lookup finds it.
pub open spec fn member_named(ms: Seq<MemberView>, id: Seq<char>) -> Option<MemberView> {
    match first_index(ms, member_with_uuid(id)) {
        Some(i) => Some(ms[i]),
        None => None,
    }
}

/// Saving the access of user `u` to collection `c` leaves that access with
/// the given flags, and every other access of a user to a collection as it was.
proof fn lemma_saved_access_row(
    rows: Seq<CollectionUserView>,
    u: Seq<char>,
    c: Seq<char>,
    f: AccessFlags,
    v: Seq<char>,
    c2: Seq<char>,
)
    ensures
        access_row(with_collection_user(rows, u, c, f), u, c) == Some(
            CollectionUserView { user_uuid: u, collection_uuid: c, flags: f },
        ),
        v != u || c2 != c ==> access_row(with_collection_user(rows, u, c, f), v, c2) == access_row(
            rows,
            v,
            c2,
        ),
{
    let row = CollectionUserView { user_uuid: u, collection_uuid: c, flags: f };
    let key = collection_user_key(u, c);
    let r = with_collection_user(rows, u, c, f);
    match first_index(rows, key) {
        Some(i) => {
            assert(is_first(rows, key, i));
            assert(r == rows.update(i, row));
            assert forall|j: int| 0 <= j < i implies !key(#[trigger] r[j]) by {
                assert(!key(rows[j]));
            }
            crate::lookup::lemma_first_index_found(r, key, i);
            if v != u || c2 != c {
                crate::lookup::lemma_first_index_unmoved(rows, r, collection_user_key(v, c2));
            }
        },
        None => {
            crate::lookup::lemma_first_index_none(rows, key);
            assert(r == rows.push(row));
            assert forall|j: int| 0 <= j < rows.len() implies !key(#[trigger] r[j]) by {
                assert(!key(rows[j]));
            }
            assert(is_first(r, key, rows.len() as int));
            crate::lookup::lemma_first_index_found(r, key, rows.len() as int);
            if v != u || c2 != c {
                crate::lookup::lemma_first_index_unmoved(rows, r, collection_user_key(v, c2));
            }
        },
    }
}

/// When the member grants of a collection go through, the user of each
/// granted member that lacks access to all collections holds direct access
/// to the collection with exactly the flags of its grant, unless a later
/// grant names a member of the same user.
pub proof fn law_member_grant_flags(d: DirectoryView, c: Seq<char>, grants: Seq<AccessGrantView>, k: int)
    requires
        with_member_grants(d, c, grants).1,
        0 <= k < grants.len(),
        member_named(d.members, grants[k].id) matches Some(m) && !m.access_all,
        forall|j: int|
            k < j < grants.len() ==> (member_named(d.members, #[trigger] grants[j].id) matches Some(m2) ==> m2.user_uuid
                != member_named(d.members, grants[k].id)->0.user_uuid),
    ensures
        access_row(
            with_member_grants(d, c, grants).0.collection_users,
            member_named(d.members, grants[k].id)->0.user_uuid,
            c,
        ) == Some(
            CollectionUserView {
                user_uuid: member_named(d.members, grants[k].id)->0.user_uuid,
                collection_uuid: c,
                flags: grants[k].flags,
            },
        ),
    decreases grants.len(),
{
    let n = grants.len();
    let u = member_named(d.members, grants[k].id)->0.user_uuid;
    let q = grants.drop_last();
    let prev = with_member_grants(d, c, q);
    lemma_member_grants_keep_members(d, c, q);
    assert(prev.0.members == d.members);
    assert(prev.1);
    let last = grants.last();
    if k == n - 1 {
        assert(grants[k] == last);
        let i = first_index(prev.0.members, member_with_uuid(last.id))->0;
        lemma_saved_access_row(prev.0.collection_users, prev.0.members[i].user_uuid, c, last.flags, u, c);
    } else {
        assert forall|j: int| k < j < q.len() implies (member_named(d.members, #[trigger] q[j].id) matches Some(m2)
            ==> m2.user_uuid != member_named(d.members, q[k].id)->0.user_uuid) by {
            assert(q[j] == grants[j]);
            assert(q[k] == grants[k]);
        }
        assert(q[k] == grants[k]);
        law_member_grant_flags(d, c, q, k);
        match first_index(prev.0.members, member_with_uuid(last.id)) {
            Some(i) => {
                if !prev.0.members[i].access_all {
                    assert(grants[n - 1] == last);
                    assert(member_named(d.members, grants[n - 1].id) == Some(d.members[i]));
                    lemma_saved_access_row(prev.0.collection_users, prev.0.members[i].user_uuid, c, last.flags, u, c);
                }
            },
            None => {},
        }
    }
}

/// The membership added for an invited email comes last, under the new uuid,
/// for the invited user, with the role and the access to all collections
/// that the request's settings carry; the memberships before it stay. It is
/// accepted only where mail is off and the user exists with a password, and
/// a user is added, without a password, only where none has the email.
pub proof fn law_invited_membership(
    d: DirectoryView,
    email: Seq<char>,
    s: InviteSettings,
    cfg: InviteConfig,
    new_user_id: Seq<char>,
    new_member_id: Seq<char>,
)
    ensures
        ({
            let e = invite_begun(d, email, s, cfg, new_user_id, new_member_id);
            &&& e.members.len() == d.members.len() + 1
            &&& e.members.drop_last() == d.members
            &&& e.members.last().uuid == new_member_id
            &&& e.members.last().user_uuid == invited_user_uuid(d, email, new_user_id)
            &&& e.members.last().atype == s.role.spec_code()
            &&& e.members.last().access_all == s.access_all
            &&& e.members.last().invited_by_email == Some(s.org_email@)
            &&& e.members.last().external_id is None
            &&& e.members.last().status == match first_index(d.users, user_with_email(email)) {
                Some(k) => if !cfg.mail_enabled && d.users[k].has_password {
                    crate::rules::STATUS_ACCEPTED
                } else {
                    STATUS_INVITED
                },
                None => STATUS_INVITED,
            }
            &&& first_index(d.users, user_with_email(email)) is None ==> e.users == d.users.push(
                new_user(new_user_id, email),
            )
            &&& first_index(d.users, user_with_email(email)) is Some ==> e.users == d.users
        }),
{
    let e = invite_begun(d, email, s, cfg, new_user_id, new_member_id);
    assert(e.members.drop_last() =~= d.members);
}

/// The settings of an invitation request carry the role it names, with
/// access to all collections exactly where that role is Owner or Admin, or
/// the request names the custom role `4` with all three collection
/// permissions.
pub proof fn law_requested_access_all(raw: Seq<char>, p: CustomPermissions)
    requires
        MembershipType::from_text(raw) is Some,
    ensures
        ({
            let t = MembershipType::from_text(raw)->0;
            grants_access_all(t, raw, p) == (t is Owner || t is Admin || (raw == "4"@ && p.edit_any_collection
                && p.delete_any_collection && p.create_new_collections))
        }),
{
}

/// The first access row of group `g` to collection `c`.
pub open spec fn group_access_row(rows: Seq<CollectionGroupView>, c: Seq<char>, g: Seq<char>) -> Option<
    CollectionGroupView,
> {
    match first_index(rows, collection_group_key(c, g)) {
        Some(i) => Some(rows[i]),
        None => None,
    }
}

/// Saving the access of group `g` to collection `c` leaves that access with
/// the given flags, and every other access of a group to a collection as it
/// was.
proof fn lemma_saved_group_row(
    rows: Seq<CollectionGroupView>,
    c: Seq<char>,
    g: Seq<char>,
    f: AccessFlags,
    c2: Seq<char>,
    g2: Seq<char>,
)
    ensures
        group_access_row(with_collection_group(rows, c, g, f), c, g) == Some(
            CollectionGroupView { collection_uuid: c, group_uuid: g, flags: f },
        ),
        c2 != c || g2 != g ==> group_access_row(with_collection_group(rows, c, g, f), c2, g2)
            == group_access_row(rows, c2, g2),
{
    let row = CollectionGroupView { collection_uuid: c, group_uuid: g, flags: f };
    let key = collection_group_key(c, g);
    let r = with_collection_group(rows, c, g, f);
    match first_index(rows, key) {
        Some(i) => {
            assert(is_first(rows, key, i));
            assert(r == rows.update(i, row));
            assert forall|j: int| 0 <= j < i implies !key(#[trigger] r[j]) by {
                assert(!key(rows[j]));
            }
            crate::lookup::lemma_first_index_found(r, key, i);
            if c2 != c || g2 != g {
                crate::lookup::lemma_first_index_unmoved(rows, r, collection_group_key(c2, g2));
            }
        },
        None => {
            crate::lookup::lemma_first_index_none(rows, key);
            assert(r == rows.push(row));
            assert forall|j: int| 0 <= j < rows.len() implies !key(#[trigger] r[j]) by {
                assert(!key(rows[j]));
            }
            assert(is_first(r, key, rows.len() as int));
            crate::lookup::lemma_first_index_found(r, key, rows.len() as int);
            if c2 != c || g2 != g {
                crate::lookup::lemma_first_index_unmoved(rows, r, collection_group_key(c2, g2));
            }
        },
    }
}

/// Each group granted access to collection `c` holds it with exactly the
/// flags of its grant, unless a later grant names the same group.
pub proof fn law_collection_group_flags(
    rows: Seq<CollectionGroupView>,
    c: Seq<char>,
    grants: Seq<AccessGrantView>,
    k: int,
)
    requires
        0 <= k < grants.len(),
        forall|j: int| k < j < grants.len() ==> (#[trigger] grants[j]).id != grants[k].id,
    ensures
        group_access_row(with_collection_grants(rows, c, grants), c, grants[k].id) == Some(
            CollectionGroupView { collection_uuid: c, group_uuid: grants[k].id, flags: grants[k].flags },
        ),
    decreases grants.len(),
{
    let n = grants.len();
    let q = grants.drop_last();
    let prev = with_collection_grants(rows, c, q);
    assert(grants[n - 1] == grants.last());
    if k == n - 1 {
        lemma_saved_group_row(prev, c, grants.last().id, grants.last().flags, c, grants[k].id);
    } else {
        assert forall|j: int| k < j < q.len() implies (#[trigger] q[j]).id != q[k].id by {
            assert(q[j] == grants[j]);
        }
        assert(q[k] == grants[k]);
        law_collection_group_flags(rows, c, q, k);
        lemma_saved_group_row(prev, c, grants.last().id, grants.last().flags, c, grants[k].id);
    }
}

/// Each collection selected for group `g` gives it access with exactly the
/// flags of the selection, unless a later selection names the same collection.
pub proof fn law_group_collection_flags(
    rows: Seq<CollectionGroupView>,
    g: Seq<char>,
    sels: Seq<AccessGrantView>,
    k: int,
)
    requires
        0 <= k < sels.len(),
        forall|j: int| k < j < sels.len() ==> (#[trigger] sels[j]).id != sels[k].id,
    ensures
        group_access_row(with_group_collections(rows, g, sels), sels[k].id, g) == Some(
            CollectionGroupView { collection_uuid: sels[k].id, group_uuid: g, flags: sels[k].flags },
        ),
    decreases sels.len(),
{
    let n = sels.len();
    let q = sels.drop_last();
    let prev = with_group_collections(rows, g, q);
    assert(sels[n - 1] == sels.last());
    if k == n - 1 {
        lemma_saved_group_row(prev, sels.last().id, g, sels.last().flags, sels[k].id, g);
    } else {
        assert forall|j: int| k < j < q.len() implies (#[trigger] q[j]).id != q[k].id by {
            assert(q[j] == sels[j]);
        }
        assert(q[k] == sels[k]);
        law_group_collection_flags(rows, g, q, k);
        lemma_saved_group_row(prev, sels.last().id, g, sels.last().flags, sels[k].id, g);
    }
}

/// When the collections selected for user `u` are all the organization's,
/// the user holds direct access to each with exactly the flags of its
/// selection, unless a later selection names the same collection.
pub proof fn law_user_collection_flags(d: DirectoryView, u: Seq<char>, sels: Seq<AccessGrantView>, k: int)
    requires
        with_user_collections(d, u, sels).1,
        0 <= k < sels.len(),
        forall|j: int| k < j < sels.len() ==> (#[trigger] sels[j]).id != sels[k].id,
    ensures
        access_row(with_user_collections(d, u, sels).0.collection_users, u, sels[k].id) == Some(
            CollectionUserView { user_uuid: u, collection_uuid: sels[k].id, flags: sels[k].flags },
        ),
    decreases sels.len(),
{
    let n = sels.len();
    let q = sels.drop_last();
    let prev = with_user_collections(d, u, q);
    assert(prev.1);
    assert(sels[n - 1] == sels.last());
    if k == n - 1 {
        lemma_saved_access_row(prev.0.collection_users, u, sels.last().id, sels.last().flags, u, sels[k].id);
    } else {
        assert forall|j: int| k < j < q.len() implies (#[trigger] q[j]).id != q[k].id by {
            assert(q[j] == sels[j]);
        }
        assert(q[k] == sels[k]);
        law_user_collection_flags(d, u, q, k);
        lemma_saved_access_row(prev.0.collection_users, u, sels.last().id, sels.last().flags, u, sels[k].id);
    }
}

/// A group created on request has the new uuid and the request's name,
/// access to all collections and normalized external id.
pub proof fn law_created_group_takes_request(id: Seq<char>, req: GroupRequest)
    ensures
        requested_group(id, req).uuid == id,
        requested_group(id, req).name == req.name@,
        requested_group(id, req).access_all == req.access_all,
        requested_group(id, req).external_id == normalized_external_id(opt_text(req.external_id)),
{
}

/// A collection created on request has the new uuid and the request's name
/// and normalized external id; a replaced one keeps its uuid and takes them.
pub proof fn law_collection_takes_request(id: Seq<char>, c: CollectionView, req: CollectionRequest)
    ensures
        requested_collection(id, req).uuid == id,
        requested_collection(id, req).name == req.name@,
        requested_collection(id, req).external_id == normalized_external_id(opt_text(req.external_id)),
        renamed_collection(c, req).uuid == c.uuid,
        renamed_collection(c, req).name == req.name@,
        renamed_collection(c, req).external_id == normalized_external_id(opt_text(req.external_id)),
{
}

/// A member that an import does not find by email, and that is not marked
/// deleted, joins last under the new uuid, for the user found by email or
/// the new one, as a plain user without access to all collections, with the
/// normalized external id and the organization's billing email as inviter;
/// it is invited where mail is on or the user has no password, else
/// accepted. A member found by email keeps its uuid, user, role and access
/// to all collections, and takes the normalized external id.
pub proof fn law_imported_membership(
    d: DirectoryView,
    m: ImportMemberView,
    mail_enabled: bool,
    uid: Seq<char>,
    mid: Seq<char>,
)
    ensures
        ({
            let e = member_import_outcome(d, m, mail_enabled, uid, mid).0;
            let found = first_index(d.users, user_with_email(m.email));
            match d.member_index_by_email(m.email) {
                Some(i) => {
                    &&& e.members.len() == d.members.len()
                    &&& forall|k: int| 0 <= k < d.members.len() && k != i ==> e.members[k] == d.members[k]
                    &&& e.members[i].uuid == d.members[i].uuid
                    &&& e.members[i].user_uuid == d.members[i].user_uuid
                    &&& e.members[i].atype == d.members[i].atype
                    &&& e.members[i].access_all == d.members[i].access_all
                    &&& e.members[i].external_id == normalized_external_id(Some(m.external_id))
                },
                None => !m.deleted && d.org is Some ==> {
                    &&& e.members.len() == d.members.len() + 1
                    &&& e.members.drop_last() == d.members
                    &&& e.members.last().uuid == mid
                    &&& e.members.last().user_uuid == invited_user_uuid(d, m.email, uid)
                    &&& e.members.last().atype == MembershipType::User.spec_code()
                    &&& !e.members.last().access_all
                    &&& e.members.last().external_id == normalized_external_id(Some(m.external_id))
                    &&& e.members.last().invited_by_email == Some(d.org->0.billing_email)
                    &&& e.members.last().status == if mail_enabled || found is None || !d.users[found->0].has_password {
                        STATUS_INVITED
                    } else {
                        crate::rules::STATUS_ACCEPTED
                    }
                },
            }
        }),
{
    let e = member_import_outcome(d, m, mail_enabled, uid, mid).0;
    match d.member_index_by_email(m.email) {
        Some(i) => {
            assert(0 <= i < d.members.len());
        },
        None => {
            if !m.deleted && d.org is Some {
                assert(e.members.drop_last() =~= d.members);
            }
        },
    }
}

} // verus!
