//! The repository sync decisions: which branch to target, which reference
//! to move, and what to do with the outcome of the merge analysis. The
//! git operations themselves run outside the library and report their
//! findings as plain values.

use vstd::prelude::*;
use vstd::string::*;

use crate::models::Repository;

verus! {

/// What the runner does after analysing a fetch against the current head.
#[derive(Debug, Clone, Copy, PartialEq, Eq)]
pub enum MergeAction {
    /// The checkout already holds the fetched commit: keep it.
    UseCommit,
    /// The fetched commit is ahead: advance the branch reference and
    /// check it out.
    FastForward,
}

/// Why a sync is refused.
#[derive(Debug, Clone, Copy, PartialEq, Eq)]
pub enum GitSyncError {
    /// The histories diverged: only fast-forward pulls are authorized.
    FastForwardOnly,
}

impl GitSyncError {
    /// The message logged for this refusal.
    pub fn message(&self) -> (r: String)
        ensures
            r@ == "Fast-forward only authorized"@,
    {
        String::from_str("Fast-forward only authorized")
    }
}

/// The branch a sync targets: the repository's configured branch, or
/// `master` when none is configured.
pub fn target_branch(repository: &Repository) -> (r: String)
    ensures
        match repository.branch {
            Some(b) => r@ == b@,
            None => r@ == "master"@,
        },
{
    match &repository.branch {
        Some(b) => {
            let mut r: String = String::new();
            r.append(b.as_str());
            proof {
                assert(r@ =~= repository.branch->0@);
            }
            r
        },
        None => String::from_str("master"),
    }
}

/// The full reference name of a branch.
pub fn branch_ref_name(branch: &str) -> (r: String)
    ensures
        r@ == "refs/heads/"@ + branch@,
{
    let mut r: String = String::from_str("refs/heads/");
    r.append(branch);
    r
}

/// Decides what to do with a merge analysis: an up-to-date checkout keeps
/// its commit, a fast-forwardable one advances, anything else is refused.
pub fn plan_merge(up_to_date: bool, fast_forward: bool) -> (r: Result<
    MergeAction,
    GitSyncError,
>)
    ensures
        up_to_date ==> r == Ok::<MergeAction, GitSyncError>(MergeAction::UseCommit),
        !up_to_date && fast_forward ==> r == Ok::<MergeAction, GitSyncError>(
            MergeAction::FastForward,
        ),
        !up_to_date && !fast_forward ==> r == Err::<MergeAction, GitSyncError>(
            GitSyncError::FastForwardOnly,
        ),
{
    if up_to_date {
        Ok(MergeAction::UseCommit)
    } else if fast_forward {
        Ok(MergeAction::FastForward)
    } else {
        Err(GitSyncError::FastForwardOnly)
    }
}

/// The working-tree path of one repository's checkout:
/// `<workspace>/<repository-id>/repository`.
pub fn checkout_path(workspace_path: &str, repository_id: &str) -> (r: String)
    ensures
        r@ == workspace_path@ + "/"@ + repository_id@ + "/repository"@,
{
    let mut r: String = String::new();
    r.append(workspace_path);
    r.append("/");
    r.append(repository_id);
    r.append("/repository");
    proof {
        assert(r@ =~= workspace_path@ + "/"@ + repository_id@ + "/repository"@);
    }
    r
}

} // verus!
