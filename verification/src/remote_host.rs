//! Who may run the native remote client bridge on a host.
use vstd::prelude::*;
use crate::text::str_eq;

verus! {

/// The native remote client bridge is reserved for the herm service user
/// and root. A project user must never run it: it would start an
/// independent project-user server; project users attach through the
/// scoped remote path instead.
pub fn native_remote_allowed_for(effective_user: &str) -> (allowed: bool)
    ensures
        allowed == (effective_user@ == "herm"@ || effective_user@ == "root"@),
{
    str_eq(effective_user, "herm") || str_eq(effective_user, "root")
}

} // verus!
