//! Names and log messages that a merge attempt hands to the store.
use vstd::prelude::*;
use vstd::string::*;

verus! {

/// The full reference name of a local branch.
pub fn branch_refname(branch: &str) -> (r: String)
    ensures
        r@ == "refs/heads/"@ + branch@,
{
    String::from_str("refs/heads/").concat(branch)
}

/// The reflog message recorded when an existing branch is fast-forwarded.
pub fn fast_forward_message(refname: &str, id: &str) -> (r: String)
    ensures
        r@ == "Fast-Forward: Setting "@ + refname@ + " to id: "@ + id@,
{
    String::from_str("Fast-Forward: Setting ").concat(refname).concat(" to id: ").concat(id)
}

/// The reflog message recorded when a missing branch is created at the
/// incoming commit.
pub fn create_branch_message(branch: &str, id: &str) -> (r: String)
    ensures
        r@ == "Setting "@ + branch@ + " to "@ + id@,
{
    String::from_str("Setting ").concat(branch).concat(" to ").concat(id)
}

/// The message of a merge commit, naming both contributing commits.
pub fn merge_message(remote_id: &str, local_id: &str) -> (r: String)
    ensures
        r@ == "Merge: "@ + remote_id@ + " into "@ + local_id@,
{
    String::from_str("Merge: ").concat(remote_id).concat(" into ").concat(local_id)
}

/// The text of the error that ends an attempt whose conflicts could not all
/// be resolved.
pub fn unresolved_message() -> (r: String)
    ensures
        r@ == "Could not resolve all merge conflicts automatically"@,
{
    String::from_str("Could not resolve all merge conflicts automatically")
}

} // verus!
