//! The user/group lookup collaborator: a `uid -> name` / `gid -> name`
//! interface. A failed lookup is not an error; callers fall back to the
//! numeric id.

use vstd::prelude::*;

verus! {

/// Relies on nix::unistd::User::from_uid (getpwuid_r): the account name
/// recorded for a user id, if the system knows one. The result depends on
/// the system's user database, so nothing is promised of it.
#[verifier::external_body]
pub fn get_user_by_uid(uid: u32) -> (r: Option<String>) {
    match nix::unistd::User::from_uid(nix::unistd::Uid::from_raw(uid)) {
        Ok(Some(u)) => Some(u.name),
        Ok(None) => None,
        Err(_) => None,
    }
}

/// Relies on nix::unistd::Group::from_gid (getgrgid_r): the group name
/// recorded for a group id, if the system knows one. The result depends on
/// the system's group database, so nothing is promised of it.
#[verifier::external_body]
pub fn get_group_by_gid(gid: u32) -> (r: Option<String>) {
    match nix::unistd::Group::from_gid(nix::unistd::Gid::from_raw(gid)) {
        Ok(Some(g)) => Some(g.name),
        Ok(None) => None,
        Err(_) => None,
    }
}

} // verus!
