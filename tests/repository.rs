use git2::{Oid, Repository, Signature, Time};
use git_hours::history::{estimate_repository, locate_head, walk_history, HoursError};
use git_hours::walk::CommitId;

fn commit(repo: &Repository, at: i64, msg: &str, parents: &[Oid]) -> Oid {
    let sig = Signature::new("dev", "dev@example.com", &Time::new(at, 0)).unwrap();
    let tree_id = repo.index().unwrap().write_tree().unwrap();
    let tree = repo.find_tree(tree_id).unwrap();
    let parents: Vec<_> = parents.iter().map(|p| repo.find_commit(*p).unwrap()).collect();
    let refs: Vec<_> = parents.iter().collect();
    repo.commit(None, &sig, &sig, msg, &tree, &refs).unwrap()
}

/// A repository at `path` with a diamond history checked out on `main`.
fn diamond_repo(path: &str) -> (Repository, Oid) {
    let repo = Repository::init(path).unwrap();
    let root = commit(&repo, 0, "root", &[]);
    let left = commit(&repo, 600, "left", &[root]);
    let right = commit(&repo, 10800, "right", &[root]);
    let merge = commit(&repo, 11400, "merge", &[left, right]);
    repo.reference("refs/heads/main", merge, true, "test history").unwrap();
    repo.set_head("refs/heads/main").unwrap();
    (repo, merge)
}

#[test]
fn repository_diamond_estimate() {
    let (repo, merge) = diamond_repo("/tmp/git_hours_diamond");
    let report = estimate_repository(&repo).unwrap();
    assert_eq!(report.head.name, "main");
    assert_eq!(report.head.tip.bytes, merge.as_bytes().to_vec());
    assert_eq!(report.commits.len(), 4);
    assert_eq!(report.estimate.seconds, 600 + 7200 + 600);
}

#[test]
fn repository_walk_reads_timestamps_and_parents() {
    let (repo, merge) = diamond_repo("/tmp/git_hours_walk");
    let commits = walk_history(&repo, CommitId { bytes: merge.as_bytes().to_vec() }).unwrap();
    assert_eq!(commits[0].timestamp, 11400);
    assert_eq!(commits[0].parents.len(), 2);
    let mut times: Vec<i64> = commits.iter().map(|c| c.timestamp).collect();
    times.sort();
    assert_eq!(times, vec![0, 600, 10800, 11400]);
}

#[test]
fn repository_unknown_commit_fails_lookup() {
    let (repo, _) = diamond_repo("/tmp/git_hours_missing");
    let r = walk_history(&repo, CommitId { bytes: vec![0xab; 20] });
    assert!(matches!(r, Err(HoursError::CommitLookupFailed)));
}

#[test]
fn repository_detached_head_is_not_found() {
    let (repo, merge) = diamond_repo("/tmp/git_hours_detached");
    repo.set_head_detached(merge).unwrap();
    assert!(matches!(locate_head(&repo), Err(HoursError::HeadNotFound)));
}
