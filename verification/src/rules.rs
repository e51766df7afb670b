use vstd::prelude::*;

use crate::model::{opt_text, MemberRecord, MemberView};

verus! {

/// Role of a member inside an organization.
#[derive(Clone, Copy, Debug, PartialEq, Eq, Structural)]
pub enum MembershipType {
    Owner,
    Admin,
    User,
    Manager,
}

/// Membership status codes as stored with a membership.
pub const STATUS_REVOKED: i32 = -1;
pub const STATUS_INVITED: i32 = 0;
pub const STATUS_ACCEPTED: i32 = 1;
pub const STATUS_CONFIRMED: i32 = 2;

/// Offset between an active status and its revoked counterpart.
pub const ACTIVATE_REVOKE_DIFF: i32 = 128;

/// Compares two strings by their characters.
pub fn text_is(s: &str, lit: &str) -> (b: bool)
    ensures
        b == (s@ == lit@),
{
    s.to_owned() == lit.to_owned()
}

impl MembershipType {
    /// The stored code of a role.
    pub open spec fn spec_code(&self) -> i32 {
        match self {
            MembershipType::Owner => 0,
            MembershipType::Admin => 1,
            MembershipType::User => 2,
            MembershipType::Manager => 3,
        }
    }

    #[verifier::when_used_as_spec(spec_code)]
    pub fn code(&self) -> (c: i32)
        ensures
            c == self.spec_code(),
    {
        match self {
            MembershipType::Owner => 0,
            MembershipType::Admin => 1,
            MembershipType::User => 2,
            MembershipType::Manager => 3,
        }
    }

    /// Access level by which roles are ordered: User < Manager < Admin < Owner.
    pub open spec fn access_level(self) -> int {
        match self {
            MembershipType::Owner => 3,
            MembershipType::Admin => 2,
            MembershipType::User => 0,
            MembershipType::Manager => 1,
        }
    }

    /// The role a textual type names: a digit or a name; `Custom` becomes `Manager`.
    pub open spec fn from_text(s: Seq<char>) -> Option<MembershipType> {
        if s == "0"@ || s == "Owner"@ {
            Some(MembershipType::Owner)
        } else if s == "1"@ || s == "Admin"@ {
            Some(MembershipType::Admin)
        } else if s == "2"@ || s == "User"@ {
            Some(MembershipType::User)
        } else if s == "3"@ || s == "Manager"@ {
            Some(MembershipType::Manager)
        } else if s == "4"@ || s == "Custom"@ {
            Some(MembershipType::Manager)
        } else {
            None
        }
    }

    pub fn from_str(s: &str) -> (r: Option<MembershipType>)
        ensures
            r == MembershipType::from_text(s@),
    {
        if text_is(s, "0") || text_is(s, "Owner") {
            Some(MembershipType::Owner)
        } else if text_is(s, "1") || text_is(s, "Admin") {
            Some(MembershipType::Admin)
        } else if text_is(s, "2") || text_is(s, "User") {
            Some(MembershipType::User)
        } else if text_is(s, "3") || text_is(s, "Manager") {
            Some(MembershipType::Manager)
        } else if text_is(s, "4") || text_is(s, "Custom") {
            Some(MembershipType::Manager)
        } else {
            None
        }
    }

    /// Whether this role is at least as high as `Admin`.
    pub fn is_admin_or_higher(&self) -> (b: bool)
        ensures
            b == (self.access_level() >= MembershipType::Admin.access_level()),
    {
        match self {
            MembershipType::Owner => true,
            MembershipType::Admin => true,
            _ => false,
        }
    }
}

/// Status after revoking: an active status moves down by the revoke offset.
pub open spec fn revoked_status(s: i32) -> i32 {
    if s > STATUS_REVOKED {
        (s - ACTIVATE_REVOKE_DIFF) as i32
    } else {
        s
    }
}

/// Status after restoring: a revoked status moves up by the revoke offset.
pub open spec fn restored_status(s: i32) -> i32 {
    if s < STATUS_INVITED {
        (s + ACTIVATE_REVOKE_DIFF) as i32
    } else {
        s
    }
}

/// An external id as it is stored: empty text is no id at all.
pub open spec fn normalized_external_id(e: Option<Seq<char>>) -> Option<Seq<char>> {
    match e {
        Some(s) => if s.len() == 0 {
            None
        } else {
            Some(s)
        },
        None => None,
    }
}

pub fn normalize_external_id(e: Option<String>) -> (r: Option<String>)
    ensures
        opt_text(r) == normalized_external_id(opt_text(e)),
{
    match e {
        Some(s) => if s.as_str().is_empty() {
            None
        } else {
            Some(s)
        },
        None => None,
    }
}

/// Compares two optional texts by their characters.
pub fn opt_text_same(a: &Option<String>, b: &Option<String>) -> (r: bool)
    ensures
        r == (opt_text(*a) == opt_text(*b)),
{
    match (a, b) {
        (Some(x), Some(y)) => *x == *y,
        (None, None) => true,
        _ => false,
    }
}

/// A confirmed owner: the role that keeps an organization manageable.
pub open spec fn is_confirmed_owner(m: MemberView) -> bool {
    m.atype == MembershipType::Owner.spec_code() && m.status == STATUS_CONFIRMED
}

impl MemberView {
    pub open spec fn with_status(self, s: i32) -> MemberView {
        MemberView { status: s, ..self }
    }

    pub open spec fn with_external_id(self, e: Option<Seq<char>>) -> MemberView {
        MemberView { external_id: e, ..self }
    }
}

impl MemberRecord {
    /// Revokes an active membership; says whether anything changed.
    pub fn revoke(&mut self) -> (changed: bool)
        ensures
            final(self)@ == old(self)@.with_status(revoked_status(old(self).status)),
            changed == (old(self).status > STATUS_REVOKED),
    {
        if self.status > STATUS_REVOKED {
            self.status = self.status - ACTIVATE_REVOKE_DIFF;
            true
        } else {
            false
        }
    }

    /// Restores a revoked membership; says whether anything changed.
    pub fn restore(&mut self) -> (changed: bool)
        ensures
            final(self)@ == old(self)@.with_status(restored_status(old(self).status)),
            changed == (old(self).status < STATUS_INVITED),
    {
        if self.status < STATUS_INVITED {
            self.status = self.status + ACTIVATE_REVOKE_DIFF;
            true
        } else {
            false
        }
    }

    /// Sets the external id, empty text clearing it; says whether it changed.
    pub fn set_external_id(&mut self, e: Option<String>) -> (changed: bool)
        ensures
            final(self)@ == old(self)@.with_external_id(normalized_external_id(opt_text(e))),
            changed == (old(self)@.external_id != normalized_external_id(opt_text(e))),
    {
        let n = normalize_external_id(e);
        let changed = !opt_text_same(&self.external_id, &n);
        self.external_id = n;
        changed
    }

    pub fn is_confirmed_owner(&self) -> (b: bool)
        ensures
            b == is_confirmed_owner(self@),
    {
        self.atype == MembershipType::Owner.code() && self.status == STATUS_CONFIRMED
    }
}

} // verus!
