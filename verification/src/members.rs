use vstd::prelude::*;

use crate::directory::{
    access_not_of_user, lemma_replaced_groups_exact, link_not_of_member, member_group_set,
    with_collection_user, with_member_links,
};
use crate::errors::{ApiError, AuditEvent, EventKind};
use crate::lookup::{collection_with_uuid, first_index, member_with_uuid};
use crate::model::{AccessGrant, DirectoryView, MemberRecord, MemberView, OrgDirectory, AccessGrantView};
use crate::rules::{is_confirmed_owner, text_is, MembershipType};

verus! {

/// A role sent as a number or as text.
#[derive(Debug)]
pub enum NumberOrString {
    Number(i64),
    String(String),
}

pub open spec fn digit_char(d: nat) -> char {
    (d + 48) as char
}

/// The decimal digits of `n`.
pub open spec fn digits_text(n: nat) -> Seq<char>
    decreases n,
{
    if n < 10 {
        seq![digit_char(n)]
    } else {
        digits_text(n / 10).push(digit_char(n % 10))
    }
}

/// The decimal notation of `n`, with a leading `-` where it is negative.
pub open spec fn decimal_text(n: int) -> Seq<char> {
    if n < 0 {
        seq!['-'] + digits_text((-n) as nat)
    } else {
        digits_text(n as nat)
    }
}

/// The digit `d` as text.
fn digit_text(d: u64) -> (r: &'static str)
    requires
        d < 10,
    ensures
        r@ == seq![digit_char(d as nat)],
{
    proof {
        reveal_strlit("0");
        reveal_strlit("1");
        reveal_strlit("2");
        reveal_strlit("3");
        reveal_strlit("4");
        reveal_strlit("5");
        reveal_strlit("6");
        reveal_strlit("7");
        reveal_strlit("8");
        reveal_strlit("9");
    }
    match d {
        0 => "0",
        1 => "1",
        2 => "2",
        3 => "3",
        4 => "4",
        5 => "5",
        6 => "6",
        7 => "7",
        8 => "8",
        _ => "9",
    }
}

/// The decimal digits of `x`.
fn digits_string(x: u64) -> (r: String)
    ensures
        r@ == digits_text(x as nat),
    decreases x,
{
    if x < 10 {
        String::from_str(digit_text(x))
    } else {
        let mut r = digits_string(x / 10);
        r.append(digit_text(x % 10));
        r
    }
}

/// The decimal notation of `n`, with a leading `-` where it is negative.
fn decimal_string(n: i64) -> (r: String)
    ensures
        r@ == decimal_text(n as int),
{
    if n < 0 {
        let magnitude: u64 = (0i128 - (n as i128)) as u64;
        let mut r = String::from_str("-");
        proof {
            reveal_strlit("-");
        }
        r.append(digits_string(magnitude).as_str());
        r
    } else {
        digits_string(n as u64)
    }
}

impl NumberOrString {
    pub open spec fn text(&self) -> Seq<char> {
        match self {
            NumberOrString::Number(n) => decimal_text(*n as int),
            NumberOrString::String(s) => s@,
        }
    }

    /// The value as text: a number in decimal notation.
    pub fn into_string(self) -> (r: String)
        ensures
            r@ == self.text(),
    {
        match self {
            NumberOrString::Number(n) => decimal_string(n),
            NumberOrString::String(s) => s,
        }
    }
}

/// The permissions of a custom role that grant access to all collections:
/// each holds where the request sets that permission to `true`.
#[derive(Clone, Copy, Debug)]
pub struct CustomPermissions {
    pub edit_any_collection: bool,
    pub delete_any_collection: bool,
    pub create_new_collections: bool,
}

/// Whether a member with role `t`, requested as `raw`, gets access to all
/// collections: admins and owners do, and so does the custom role `4` with
/// all three collection permissions.
pub open spec fn grants_access_all(t: MembershipType, raw: Seq<char>, p: CustomPermissions) -> bool {
    t.access_level() >= MembershipType::Admin.access_level() || (raw == "4"@
        && p.edit_any_collection && p.delete_any_collection && p.create_new_collections)
}

/// The role a request asks for, with whether it grants access to all
/// collections.
pub fn requested_role(raw: &String, p: &CustomPermissions) -> (r: Result<
    (MembershipType, bool),
    ApiError,
>)
    ensures
        match MembershipType::from_text(raw@) {
            None => r == Err::<(MembershipType, bool), ApiError>(ApiError::InvalidType),
            Some(t) => r == Ok::<(MembershipType, bool), ApiError>((t, grants_access_all(t, raw@, *p))),
        },
{
    match MembershipType::from_str(raw.as_str()) {
        None => Err(ApiError::InvalidType),
        Some(t) => {
            let access_all = t.is_admin_or_higher() || (text_is(raw.as_str(), "4")
                && p.edit_any_collection && p.delete_any_collection && p.create_new_collections);
            Ok((t, access_all))
        },
    }
}

/// Which details a member listing includes.
#[derive(Clone, Copy, Debug, PartialEq, Eq, Structural)]
pub struct DetailFlags {
    pub collections: bool,
    pub groups: bool,
}

pub open spec fn unwrap_or(o: Option<bool>, d: bool) -> bool {
    match o {
        Some(b) => b,
        None => d,
    }
}

/// Details of a listing of members: none unless asked for.
pub open spec fn listing_details_of(include_collections: Option<bool>, include_groups: Option<bool>) -> DetailFlags {
    DetailFlags {
        collections: unwrap_or(include_collections, false),
        groups: unwrap_or(include_groups, false),
    }
}

/// Details of a single member: collections follow groups unless asked for.
pub open spec fn member_details_of(include_collections: Option<bool>, include_groups: Option<bool>) -> DetailFlags {
    DetailFlags {
        collections: unwrap_or(include_collections, unwrap_or(include_groups, false)),
        groups: unwrap_or(include_groups, false),
    }
}

pub fn listing_details(include_collections: Option<bool>, include_groups: Option<bool>) -> (r:
    DetailFlags)
    ensures
        r == listing_details_of(include_collections, include_groups),
{
    DetailFlags {
        collections: include_collections.unwrap_or(false),
        groups: include_groups.unwrap_or(false),
    }
}

pub fn member_details(include_collections: Option<bool>, include_groups: Option<bool>) -> (r:
    DetailFlags)
    ensures
        r == member_details_of(include_collections, include_groups),
{
    let groups = include_groups.unwrap_or(false);
    DetailFlags { collections: include_collections.unwrap_or(groups), groups }
}

pub open spec fn flat<T>(o: Option<Seq<T>>) -> Seq<T> {
    match o {
        Some(s) => s,
        None => Seq::<T>::empty(),
    }
}

/// The directory after granting user `u` direct access to each selected
/// collection in order, and whether all went through: a selected collection
/// that is not the organization's stops the granting.
pub open spec fn with_user_collections(d: DirectoryView, u: Seq<char>, sels: Seq<AccessGrantView>) -> (
    DirectoryView,
    bool,
)
    decreases sels.len(),
{
    if sels.len() == 0 {
        (d, true)
    } else {
        let prev = with_user_collections(d, u, sels.drop_last());
        if !prev.1 {
            prev
        } else if first_index(prev.0.collections, collection_with_uuid(sels.last().id)) is None {
            (prev.0, false)
        } else {
            (
                prev.0.with_collection_users(
                    with_collection_user(prev.0.collection_users, u, sels.last().id, sels.last().flags),
                ),
                true,
            )
        }
    }
}

/// Once granting has stopped, the rest of the selection changes nothing.
pub proof fn lemma_granting_stops(d: DirectoryView, u: Seq<char>, sels: Seq<AccessGrantView>, k: int)
    requires
        0 <= k <= sels.len(),
        !with_user_collections(d, u, sels.take(k)).1,
    ensures
        with_user_collections(d, u, sels) == with_user_collections(d, u, sels.take(k)),
    decreases sels.len(),
{
    if k == sels.len() {
        assert(sels.take(k) =~= sels);
    } else {
        assert(sels.drop_last().take(k) =~= sels.take(k));
        lemma_granting_stops(d, u, sels.drop_last(), k);
    }
}

/// Granting changes nothing but the collection access rows.
pub proof fn lemma_granting_keeps_members(d: DirectoryView, u: Seq<char>, sels: Seq<AccessGrantView>)
    ensures
        with_user_collections(d, u, sels).0 == d.with_collection_users(
            with_user_collections(d, u, sels).0.collection_users,
        ),
    decreases sels.len(),
{
    if sels.len() > 0 {
        lemma_granting_keeps_members(d, u, sels.drop_last());
    }
}

pub open spec fn err_of<T>(r: Result<T, ApiError>) -> Option<ApiError> {
    match r {
        Ok(_) => None,
        Err(e) => Some(e),
    }
}

/// A membership with a new role and access-to-all.
pub open spec fn edited_member(m: MemberView, t: MembershipType, access_all: bool) -> MemberView {
    MemberView { atype: t.spec_code(), access_all, ..m }
}

/// The directory after editing member `id` as a request asks, with the error
/// that stops the edit, if any: the role is checked, the member looked up,
/// its user's collection access replaced (where the role does not grant
/// access to all), its groups replaced, and the member saved.
pub open spec fn member_edit_outcome(
    d: DirectoryView,
    id: Seq<char>,
    raw: Seq<char>,
    p: CustomPermissions,
    sels: Seq<AccessGrantView>,
    gs: Seq<Seq<char>>,
) -> (DirectoryView, Option<ApiError>) {
    match MembershipType::from_text(raw) {
        None => (d, Some(ApiError::InvalidType)),
        Some(t) => {
            let aa = grants_access_all(t, raw, p);
            match first_index(d.members, member_with_uuid(id)) {
                None => (d, Some(ApiError::EditedMemberNotFound)),
                Some(i) => {
                    let m = d.members[i];
                    let d1 = d.with_collection_users(
                        d.collection_users.filter(access_not_of_user(m.user_uuid)),
                    );
                    let g = if aa {
                        (d1, true)
                    } else {
                        with_user_collections(d1, m.user_uuid, sels)
                    };
                    if !g.1 {
                        (g.0, Some(ApiError::CollectionNotInOrganization))
                    } else {
                        let d3 = g.0.with_group_users(
                            with_member_links(
                                g.0.group_users.filter(link_not_of_member(m.uuid)),
                                gs,
                                m.uuid,
                            ),
                        );
                        (d3.with_members(d3.members.update(i, edited_member(m, t, aa))), None)
                    }
                },
            }
        },
    }
}

impl OrgDirectory {
    /// Grants user `u` direct access to each selected collection, in order;
    /// stops at a collection that is not the organization's.
    pub fn grant_collections(&mut self, u: &String, sels: &Vec<AccessGrant>) -> (r: Result<
        (),
        ApiError,
    >)
        ensures
            (final(self)@, r is Ok) == with_user_collections(old(self)@, u@, sels.deep_view()),
            r is Err ==> r == Err::<(), ApiError>(ApiError::CollectionNotInOrganization),
    {
        let mut i: usize = 0;
        while i < sels.len()
            invariant
                0 <= i <= sels.len(),
                (self@, true) == with_user_collections(old(self)@, u@, sels.deep_view().take(i as int)),
            decreases sels.len() - i,
        {
            proof {
                let t = sels.deep_view().take(i + 1);
                assert(t.drop_last() =~= sels.deep_view().take(i as int));
            }
            match self.find_collection_by_uuid(&sels[i].id) {
                None => {
                    proof {
                        lemma_granting_stops(old(self)@, u@, sels.deep_view(), i + 1);
                    }
                    return Err(ApiError::CollectionNotInOrganization);
                },
                Some(_) => {
                    self.save_collection_user(u, &sels[i].id, sels[i].flags);
                },
            }
            i = i + 1;
        }
        assert(sels.deep_view().take(sels.len() as int) =~= sels.deep_view());
        Ok(())
    }

    /// The members of the organization, with the details a listing includes.
    pub fn list_members(&self, include_collections: Option<bool>, include_groups: Option<bool>) -> (r: (
        Vec<MemberRecord>,
        DetailFlags,
    ))
        ensures
            r.0.deep_view() == self@.members,
            r.1 == listing_details_of(include_collections, include_groups),
    {
        let mut out: Vec<MemberRecord> = Vec::new();
        let mut i: usize = 0;
        while i < self.members.len()
            invariant
                0 <= i <= self.members.len(),
                out.deep_view() == self@.members.take(i as int),
            decreases self.members.len() - i,
        {
            let ghost before = out.deep_view();
            out.push(self.members[i].duplicate());
            assert(out.deep_view() =~= before.push(self@.members[i as int]));
            assert(self@.members.take(i + 1) =~= self@.members.take(i as int).push(
                self@.members[i as int],
            ));
            i = i + 1;
        }
        assert(self@.members.take(self.members.len() as int) =~= self@.members);
        (out, listing_details(include_collections, include_groups))
    }

    /// Member `id`, with the details shown for a single member.
    pub fn get_member(&self, id: &String, include_collections: Option<bool>, include_groups: Option<
        bool,
    >) -> (r: Result<(MemberRecord, DetailFlags), ApiError>)
        ensures
            match first_index(self@.members, member_with_uuid(id@)) {
                None => r == Err::<(MemberRecord, DetailFlags), ApiError>(ApiError::MemberNotFound),
                Some(i) => (r matches Ok((m, f)) && m@ == self@.members[i] && f == member_details_of(
                    include_collections,
                    include_groups,
                )),
            },
    {
        match self.find_member_by_uuid(id) {
            None => Err(ApiError::MemberNotFound),
            Some(i) => Ok(
                (self.members[i].duplicate(), member_details(include_collections, include_groups)),
            ),
        }
    }

    /// Edits member `id`: its role and access-to-all, its user's direct
    /// collection access and its groups.
    pub fn edit_member(
        &mut self,
        id: &String,
        role: NumberOrString,
        p: &CustomPermissions,
        sels: &Option<Vec<AccessGrant>>,
        gs: &Option<Vec<String>>,
    ) -> (r: Result<AuditEvent, ApiError>)
        ensures
            (final(self)@, err_of(r)) == member_edit_outcome(
                old(self)@,
                id@,
                role.text(),
                *p,
                flat(sels.deep_view()),
                flat(gs.deep_view()),
            ),
            r matches Ok(ev) ==> ev.kind == EventKind::MemberUpdated && ev.subject_uuid@ == id@,
            r is Ok ==> member_group_set(final(self)@.group_users, id@) == flat(gs.deep_view()).to_set(),
    {
        let ghost d = self@;
        let raw = role.into_string();
        let (t, access_all) = match requested_role(&raw, p) {
            Ok(x) => x,
            Err(e) => {
                return Err(e);
            },
        };
        let i = match self.find_member_by_uuid(id) {
            Some(i) => i,
            None => {
                return Err(ApiError::EditedMemberNotFound);
            },
        };
        let mut m = self.members[i].duplicate();
        m.access_all = access_all;
        m.atype = t.code();
        self.clear_user_collections(&m.user_uuid);
        let ghost d1 = self@;
        if !access_all {
            match sels {
                Some(v) => {
                    let g = self.grant_collections(&m.user_uuid, v);
                    proof {
                        lemma_granting_keeps_members(d1, m.user_uuid@, v.deep_view());
                    }
                    if g.is_err() {
                        return Err(ApiError::CollectionNotInOrganization);
                    }
                },
                None => {
                    assert(with_user_collections(d1, m.user_uuid@, Seq::<AccessGrantView>::empty()) == (
                    d1, true));
                },
            }
        }
        let ghost old_links = self@.group_users;
        self.clear_member_links(&m.uuid);
        let empty: Vec<String> = Vec::new();
        match gs {
            Some(v) => self.add_member_links(v, &m.uuid),
            None => {
                self.add_member_links(&empty, &m.uuid);
                assert(empty.deep_view() =~= flat(gs.deep_view()));
            },
        }
        proof {
            lemma_replaced_groups_exact(old_links, flat(gs.deep_view()), m.uuid@);
        }
        let ev = AuditEvent { kind: EventKind::MemberUpdated, subject_uuid: m.uuid.clone() };
        let ghost before = self@.members;
        let ghost mv = m@;
        self.members.set(i, m);
        assert(self.members.deep_view() =~= before.update(i as int, mv));
        Ok(ev)
    }

    /// Deletes member `id`, unless it is the last confirmed owner.
    pub fn remove_member(&mut self, id: &String) -> (r: Result<AuditEvent, ApiError>)
        ensures
            match first_index(old(self)@.members, member_with_uuid(id@)) {
                None => r == Err::<AuditEvent, ApiError>(ApiError::DeletedMemberNotFound)
                    && final(self)@ == old(self)@,
                Some(i) => if is_confirmed_owner(old(self)@.members[i])
                    && old(self)@.confirmed_owner_count() <= 1 {
                    r == Err::<AuditEvent, ApiError>(ApiError::LastOwner) && final(self)@ == old(
                        self,
                    )@
                } else {
                    (r matches Ok(ev) && ev.kind == EventKind::MemberRemoved && ev.subject_uuid@
                        == id@ && final(self)@ == old(self)@.after_member_deleted(
                        old(self)@.members[i],
                    ))
                },
            },
    {
        let i = match self.find_member_by_uuid(id) {
            Some(i) => i,
            None => {
                return Err(ApiError::DeletedMemberNotFound);
            },
        };
        if self.members[i].is_confirmed_owner() && self.count_confirmed_owners() <= 1 {
            return Err(ApiError::LastOwner);
        }
        let ev = AuditEvent { kind: EventKind::MemberRemoved, subject_uuid: self.members[i].uuid.clone() };
        self.delete_member_at(i);
        Ok(ev)
    }
}

} // verus!
