use vstd::prelude::*;

verus! {

/// Why a request of the public API is refused.
#[derive(Debug)]
pub enum ApiError {
    GroupsDisabled,
    GroupNotFound,
    GroupMissing,
    InvalidType,
    OrganizationLookupFailed,
    UserDoesNotExist(String),
    DomainNotEligible,
    AlreadyInOrganization(String),
    CollectionNotInOrganization,
    MemberNotFound,
    EditedMemberNotFound,
    DeletedMemberNotFound,
    LastOwner,
    CollectionNotFound,
    OrganizationDetailsMissing,
    UserNotInOrganization,
}

/// The message that tells a client why its request was refused.
pub open spec fn api_error_message(e: ApiError) -> Seq<char> {
    match e {
        ApiError::GroupsDisabled => "Group support is disabled"@,
        ApiError::GroupNotFound => "Group not found"@,
        ApiError::GroupMissing => "Group could not be found!"@,
        ApiError::InvalidType => "Invalid type"@,
        ApiError::OrganizationLookupFailed => "Error looking up organization"@,
        ApiError::UserDoesNotExist(email) => "User does not exist: "@ + email@,
        ApiError::DomainNotEligible => "Email domain not eligible for invitations"@,
        ApiError::AlreadyInOrganization(email) => "User already in organization: "@ + email@,
        ApiError::CollectionNotInOrganization => "Collection not found in Organization"@,
        ApiError::MemberNotFound => "The specified user isn't a member of the organization"@,
        ApiError::EditedMemberNotFound => "The specified user isn't member of the organization"@,
        ApiError::DeletedMemberNotFound => "User to delete isn't member of the organization"@,
        ApiError::LastOwner => "Can't delete the last owner"@,
        ApiError::CollectionNotFound => "Collection not found"@,
        ApiError::OrganizationDetailsMissing => "Can't find organization details"@,
        ApiError::UserNotInOrganization => "User is not part of organization"@,
    }
}

impl ApiError {
    pub fn message(&self) -> (m: String)
        ensures
            m@ == api_error_message(*self),
    {
        match self {
            ApiError::GroupsDisabled => String::from_str("Group support is disabled"),
            ApiError::GroupNotFound => String::from_str("Group not found"),
            ApiError::GroupMissing => String::from_str("Group could not be found!"),
            ApiError::InvalidType => String::from_str("Invalid type"),
            ApiError::OrganizationLookupFailed => String::from_str("Error looking up organization"),
            ApiError::UserDoesNotExist(email) => String::from_str("User does not exist: ").concat(
                email.as_str(),
            ),
            ApiError::DomainNotEligible => String::from_str(
                "Email domain not eligible for invitations",
            ),
            ApiError::AlreadyInOrganization(email) => String::from_str(
                "User already in organization: ",
            ).concat(email.as_str()),
            ApiError::CollectionNotInOrganization => String::from_str(
                "Collection not found in Organization",
            ),
            ApiError::MemberNotFound => String::from_str(
                "The specified user isn't a member of the organization",
            ),
            ApiError::EditedMemberNotFound => String::from_str(
                "The specified user isn't member of the organization",
            ),
            ApiError::DeletedMemberNotFound => String::from_str(
                "User to delete isn't member of the organization",
            ),
            ApiError::LastOwner => String::from_str("Can't delete the last owner"),
            ApiError::CollectionNotFound => String::from_str("Collection not found"),
            ApiError::OrganizationDetailsMissing => String::from_str("Can't find organization details"),
            ApiError::UserNotInOrganization => String::from_str("User is not part of organization"),
        }
    }
}

/// What an operation records in the organization's event log.
#[derive(Clone, Copy, Debug, PartialEq, Eq, Structural)]
pub enum EventKind {
    GroupCreated,
    GroupUpdated,
    GroupDeleted,
    MemberInvited,
    MemberUpdated,
    MemberRemoved,
    CollectionCreated,
    CollectionUpdated,
    CollectionDeleted,
}

/// An entry for the event log: what happened, and to which record.
#[derive(Debug)]
pub struct AuditEvent {
    pub kind: EventKind,
    pub subject_uuid: String,
}

} // verus!
