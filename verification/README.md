# public_api

The organization public API of a password-manager server (directory import,
groups, members, collections, and the organization API token that guards
them), written in Verus.

`src/` is the verified library. It works on `OrgDirectory`, a snapshot of one
organization's records: its users, memberships, groups, collections and the
links between them. Each endpoint is an operation on that snapshot whose
contract gives the resulting directory and the error, if any, exactly, over
the views in `model.rs`. Invitations and directory imports mail their
invitations between steps, so they are split into steps with exact
contracts; the whole request is described by spec functions that fold the
steps (`directory_imported` in `import.rs`), over which laws are stated.

- `token.rs`: the bearer token of a request and the checks of its claims.
- `rules.rs`: roles, membership status (revoke/restore), external ids.
- `lookup.rs`, `directory.rs`: lookups and the record operations the
  endpoints are built from.
- `groups.rs`, `members.rs`, `invites.rs`, `collections.rs`, `import.rs`:
  the endpoints; `listing.rs`: what their responses list of a group or a
  member.
- `laws.rs`: properties that span operations, such as that the last
  confirmed owner is never removed or revoked (also over a whole import),
  that an import without removal keeps every user, group and membership,
  that an import without removal only adds records and replaces only the
  member places of the groups it imports, that replacing a group's members
  leaves exactly the requested ones, and that an invitation taken back leaves
  no trace where its ticket says whether that invitation created its user.
  An invitation request hands the created flag of an earlier email on to the
  later ones (`begin_invite`), so once one email of a request has created a
  user, taking back a later invitation whose user already existed removes
  that user too.

`app/` holds the HTTP routes, request bodies and host services (storage,
token decoding, mail, event log) around the library. `tests/` runs the
library on concrete directories.
