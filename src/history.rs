//! The whole estimate for a repository: its checked-out branch, that branch's
//! history, and the hours behind it.
use crate::estimate::{estimate_hours, estimate_of, lemma_order_independent, WorkEstimate};
use crate::git::{branch_tip, load_commit, local_branches};
use crate::locate::{find_head_branch, is_head_entry, BranchEntry};
use crate::walk::{is_ancestry, record_ids, timestamps_of, CommitId, CommitRecord, HistoryWalk};
use vstd::prelude::*;

verus! {

/// Each commit as its id and timestamp.
pub open spec fn stamped(rs: Seq<CommitRecord>) -> Seq<(Seq<u8>, i64)> {
    rs.map_values(|r: CommitRecord| (r.id@, r.timestamp))
}

/// Mapping two sequences that hold the same elements keeps them so.
pub proof fn lemma_map_keeps_multiset<A, B>(a: Seq<A>, b: Seq<A>, f: spec_fn(A) -> B)
    requires
        a.to_multiset() == b.to_multiset(),
    ensures
        a.map_values(f).to_multiset() == b.map_values(f).to_multiset(),
    decreases a.len(),
{
    broadcast use vstd::multiset::group_multiset_axioms;

    vstd::seq_lib::to_multiset_len(a);
    vstd::seq_lib::to_multiset_len(b);
    if a.len() == 0 {
        assert(a.map_values(f) =~= b.map_values(f));
    } else {
        let x = a[0];
        vstd::seq_lib::to_multiset_contains(a, x);
        vstd::seq_lib::to_multiset_contains(b, x);
        assert(a.contains(x));
        let i = choose|i: int| 0 <= i < b.len() && b[i] == x;
        vstd::seq_lib::to_multiset_remove(a, 0);
        vstd::seq_lib::to_multiset_remove(b, i);
        lemma_map_keeps_multiset(a.remove(0), b.remove(i), f);
        let am = a.map_values(f);
        let bm = b.map_values(f);
        vstd::seq_lib::to_multiset_remove(am, 0);
        vstd::seq_lib::to_multiset_remove(bm, i);
        assert(am.remove(0) =~= a.remove(0).map_values(f));
        assert(bm.remove(i) =~= b.remove(i).map_values(f));
        vstd::seq_lib::to_multiset_contains(am, f(x));
        vstd::seq_lib::to_multiset_contains(bm, f(x));
        assert(am[0] == f(x));
        assert(bm[i] == f(x));
        assert(am.contains(f(x)));
        assert(bm.contains(f(x)));
        let fx = f(x);
        let ma = am.to_multiset();
        let mb = bm.to_multiset();
        assert(ma.remove(fx) == mb.remove(fx));
        assert forall|y: B| #[trigger] ma.count(y) == mb.count(y) by {
            assert(ma.remove(fx).count(y) == mb.remove(fx).count(y));
        }
        assert(ma =~= mb);
    }
}

/// A sequence without duplicates holds each of its elements once.
proof fn lemma_distinct_multiset<A>(a: Seq<A>, b: Seq<A>)
    requires
        a.no_duplicates(),
        b.no_duplicates(),
        a.to_set() == b.to_set(),
    ensures
        a.to_multiset() == b.to_multiset(),
{
    broadcast use vstd::multiset::group_multiset_axioms;

    a.lemma_multiset_has_no_duplicates();
    b.lemma_multiset_has_no_duplicates();
    assert forall|x: A| #[trigger] a.to_multiset().count(x) == b.to_multiset().count(x) by {
        vstd::seq_lib::to_multiset_contains(a, x);
        vstd::seq_lib::to_multiset_contains(b, x);
        assert(a.to_set().contains(x) == a.contains(x));
        assert(b.to_set().contains(x) == b.contains(x));
    }
    assert(a.to_multiset() =~= b.to_multiset());
}

/// The estimate is determined by the commits themselves: two lists of the same
/// commits (ids with their timestamps), each commit once, estimate the same, in
/// whatever order they were found.
pub proof fn lemma_estimate_determined_by_commits(a: Seq<CommitRecord>, b: Seq<CommitRecord>)
    requires
        record_ids(a).no_duplicates(),
        record_ids(b).no_duplicates(),
        stamped(a).to_set() == stamped(b).to_set(),
    ensures
        estimate_of(timestamps_of(a)) == estimate_of(timestamps_of(b)),
{
    assert forall|x: Seq<CommitRecord>| #[trigger] record_ids(x).no_duplicates() implies stamped(
        x,
    ).no_duplicates() by {
        assert forall|i: int, j: int|
            0 <= i < stamped(x).len() && 0 <= j < stamped(x).len() && i != j implies stamped(x)[i]
            != stamped(x)[j] by {
            assert(record_ids(x)[i] != record_ids(x)[j]);
        }
    }
    lemma_distinct_multiset(stamped(a), stamped(b));
    let second = |p: (Seq<u8>, i64)| p.1;
    lemma_map_keeps_multiset(stamped(a), stamped(b), second);
    assert(stamped(a).map_values(second) =~= timestamps_of(a));
    assert(stamped(b).map_values(second) =~= timestamps_of(b));
    lemma_order_independent(timestamps_of(a), timestamps_of(b));
}

/// In the ancestry of a tip, a commit reached along several paths (as the shared
/// base of a merge) is present exactly once, so its timestamp counts once.
pub proof fn lemma_ancestry_holds_each_once(tip: Seq<u8>, commits: Seq<CommitRecord>, id: Seq<u8>)
    requires
        is_ancestry(tip, commits),
        record_ids(commits).contains(id),
    ensures
        record_ids(commits).to_multiset().count(id) == 1,
{
    record_ids(commits).lemma_multiset_has_no_duplicates();
    vstd::seq_lib::to_multiset_contains(record_ids(commits), id);
}

/// Why an estimate could not be made.
#[derive(Debug, Clone, Copy, PartialEq, Eq, Structural)]
pub enum HoursError {
    /// The local branches could not be listed.
    BranchEnumerationFailed,
    /// No readable local branch is checked out (for instance, a detached HEAD).
    HeadNotFound,
    /// The checked-out branch does not lead to a commit.
    CommitResolutionFailed,
    /// A commit of the history could not be loaded.
    CommitLookupFailed,
}

/// The checked-out branch: the listing it was found in, its place there, its name
/// and the commit it points to.
pub struct HeadBranch {
    pub entries: Vec<BranchEntry>,
    pub index: usize,
    pub name: String,
    pub tip: CommitId,
}

/// An estimate with the branch and the commits that it was made from.
pub struct HistoryReport {
    pub head: HeadBranch,
    pub commits: Vec<CommitRecord>,
    pub estimate: WorkEstimate,
}

/// The timestamps of `commits`, in the same order.
pub fn commit_timestamps(commits: &Vec<CommitRecord>) -> (r: Vec<i64>)
    ensures
        r@ == timestamps_of(commits@),
{
    let mut out: Vec<i64> = Vec::new();
    let mut i: usize = 0;
    while i < commits.len()
        invariant
            i <= commits@.len(),
            out@ == timestamps_of(commits@.subrange(0, i as int)),
        decreases commits@.len() - i,
    {
        out.push(commits[i].timestamp);
        i = i + 1;
        assert(timestamps_of(commits@.subrange(0, i as int)) =~= timestamps_of(
            commits@.subrange(0, i - 1),
        ).push(commits@[i - 1].timestamp));
    }
    assert(commits@.subrange(0, commits@.len() as int) =~= commits@);
    out
}

/// Estimates the work behind a set of commits, each counted once.
pub fn estimate_commits(commits: &Vec<CommitRecord>) -> (r: WorkEstimate)
    ensures
        r.seconds as int == estimate_of(timestamps_of(commits@)),
{
    estimate_hours(&commit_timestamps(commits))
}

/// Finds the checked-out branch and the commit it points to.
pub fn locate_head(repo: &git2::Repository) -> (r: Result<HeadBranch, HoursError>)
    ensures
        r matches Ok(h) ==> h.index < h.entries@.len() && is_head_entry(h.entries@[h.index as int])
            && h.entries@[h.index as int] == (BranchEntry::Listed { name: Some(h.name), is_head: true })
            && forall|k: int| 0 <= k < h.index ==> !is_head_entry(#[trigger] h.entries@[k]),
        r matches Err(e) ==> e == HoursError::BranchEnumerationFailed || e == HoursError::HeadNotFound
            || e == HoursError::CommitResolutionFailed,
{
    let entries = match local_branches(repo) {
        Ok(entries) => entries,
        Err(_) => return Err(HoursError::BranchEnumerationFailed),
    };
    let index = match find_head_branch(&entries) {
        Some(i) => i,
        None => return Err(HoursError::HeadNotFound),
    };
    let name = match &entries[index] {
        BranchEntry::Listed { name: Some(name), .. } => name.clone(),
        _ => return Err(HoursError::HeadNotFound),
    };
    let tip = match branch_tip(repo, &name) {
        Ok(tip) => tip,
        Err(_) => return Err(HoursError::CommitResolutionFailed),
    };
    Ok(HeadBranch { entries, index, name, tip })
}

/// Every commit reachable from `tip` through parent links, each once, the tip
/// first; each commit's ancestry is expanded only the first time it is reached.
pub fn walk_history(repo: &git2::Repository, tip: CommitId) -> (r: Result<
    Vec<CommitRecord>,
    HoursError,
>)
    ensures
        r matches Ok(commits) ==> is_ancestry(tip@, commits@),
        r matches Err(e) ==> e == HoursError::CommitLookupFailed,
{
    let ghost t = tip@;
    let mut walk = HistoryWalk::start(tip);
    while walk.has_pending()
        invariant
            walk.wf(),
            walk.discovered_ids()[0] == t,
        decreases usize::MAX - walk.records().len(),
    {
        let id = walk.next_id();
        match load_commit(repo, &id) {
            Ok(rec) => walk.record(rec),
            Err(_) => return Err(HoursError::CommitLookupFailed),
        }
    }
    proof {
        walk.lemma_complete(t);
    }
    Ok(walk.into_records())
}

/// Estimates the hours behind the checked-out branch of `repo`.
pub fn estimate_repository(repo: &git2::Repository) -> (r: Result<HistoryReport, HoursError>)
    ensures
        r matches Ok(rep) ==> is_ancestry(rep.head.tip@, rep.commits@) && rep.estimate.seconds as int
            == estimate_of(timestamps_of(rep.commits@)) && rep.head.index < rep.head.entries@.len()
            && rep.head.entries@[rep.head.index as int] == (BranchEntry::Listed {
            name: Some(rep.head.name),
            is_head: true,
        }) && forall|k: int| 0 <= k < rep.head.index ==> !is_head_entry(#[trigger] rep.head.entries@[k]),
{
    let head = locate_head(repo)?;
    let commits = walk_history(repo, head.tip.duplicate())?;
    let estimate = estimate_commits(&commits);
    Ok(HistoryReport { head, commits, estimate })
}

} // verus!
