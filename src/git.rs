//! What the library takes from the repository, through git2.
use crate::locate::BranchEntry;
use crate::walk::{CommitId, CommitRecord};
use vstd::prelude::*;

verus! {

#[verifier::external_type_specification]
#[verifier::external_body]
pub struct ExRepository(git2::Repository);

#[verifier::external_type_specification]
#[verifier::external_body]
pub struct ExGitError(git2::Error);

/// Relies on git2's Repository::find_commit, Commit::time and Commit::parent_ids:
/// the commit is looked up by its id, so the commit found carries that id.
#[verifier::external_body]
pub(crate) fn load_commit(repo: &git2::Repository, id: &CommitId) -> (r: Result<
    CommitRecord,
    git2::Error,
>)
    ensures
        r matches Ok(rec) ==> rec.id@ == id@,
{
    let commit = repo.find_commit(git2::Oid::from_bytes(&id.bytes)?)?;
    let parents = commit.parent_ids().map(|p| CommitId { bytes: p.as_bytes().to_vec() });
    Ok(CommitRecord {
        id: CommitId { bytes: commit.id().as_bytes().to_vec() },
        timestamp: commit.time().seconds(),
        parents: parents.collect(),
    })
}

/// Relies on git2's Repository::branches, Branch::name and Branch::is_head: the
/// local branches, each either its name (absent when it is not UTF-8) and whether
/// it is checked out, or, when the entry cannot be read, the reason.
#[verifier::external_body]
pub(crate) fn local_branches(repo: &git2::Repository) -> (r: Result<Vec<BranchEntry>, git2::Error>) {
    let branches = repo.branches(Some(git2::BranchType::Local))?;
    let entry = |b: Result<(git2::Branch, git2::BranchType), git2::Error>| match b.and_then(
        |(branch, _)| Ok((branch.name()?.map(|n| n.to_string()), branch.is_head())),
    ) {
        Ok((name, is_head)) => BranchEntry::Listed { name, is_head },
        Err(e) => BranchEntry::Unreadable { reason: e.message().to_string() },
    };
    Ok(branches.map(entry).collect())
}

/// Relies on git2's Repository::find_branch and Reference::peel_to_commit: the id
/// of the commit that the local branch `name` points to.
#[verifier::external_body]
pub(crate) fn branch_tip(repo: &git2::Repository, name: &String) -> (r: Result<CommitId, git2::Error>) {
    let branch = repo.find_branch(name, git2::BranchType::Local)?;
    let commit = branch.get().peel_to_commit()?;
    Ok(CommitId { bytes: commit.id().as_bytes().to_vec() })
}

} // verus!
