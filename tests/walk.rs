use git_hours::history::{commit_timestamps, estimate_commits};
use git_hours::locate::{find_head_branch, BranchEntry};
use git_hours::walk::{CommitId, CommitRecord, HistoryWalk};

fn id(n: u8) -> CommitId {
    CommitId { bytes: vec![n; 20] }
}

fn rec(n: u8, timestamp: i64, parents: &[u8]) -> CommitRecord {
    CommitRecord { id: id(n), timestamp, parents: parents.iter().map(|p| id(*p)).collect() }
}

/// Walks `graph` (number, timestamp, parents) from `tip`, counting loads.
fn walk(graph: &[(u8, i64, Vec<u8>)], tip: u8) -> (Vec<CommitRecord>, usize) {
    let mut w = HistoryWalk::start(id(tip));
    let mut loads = 0;
    while w.has_pending() {
        let next = w.next_id();
        let (n, t, ps) = graph.iter().find(|(n, _, _)| id(*n).same(&next)).unwrap();
        loads += 1;
        w.record(rec(*n, *t, ps));
    }
    (w.into_records(), loads)
}

#[test]
fn diamond_holds_shared_ancestor_once() {
    // 4 merges 2 and 3, both of which have 1 as parent.
    let graph = vec![
        (1, 0, vec![]),
        (2, 600, vec![1]),
        (3, 1200, vec![1]),
        (4, 1800, vec![2, 3]),
    ];
    let (found, loads) = walk(&graph, 4);
    assert_eq!(loads, 4);
    assert_eq!(found.len(), 4);
    assert!(found[0].id.same(&id(4)));
    assert_eq!(found.iter().filter(|r| r.id.same(&id(1))).count(), 1);
    let mut times = commit_timestamps(&found);
    times.sort();
    assert_eq!(times, vec![0, 600, 1200, 1800]);
    assert_eq!(estimate_commits(&found).seconds, 1800);
}

#[test]
fn repeated_merges_load_each_commit_once() {
    // A chain of diamonds: every level merges two commits sharing the level below.
    let mut graph: Vec<(u8, i64, Vec<u8>)> = vec![(0, 0, vec![])];
    let mut base = 0u8;
    for level in 0..20u8 {
        let left = 1 + level * 3;
        let right = left + 1;
        let merge = left + 2;
        let t = (level as i64 + 1) * 300;
        graph.push((left, t, vec![base]));
        graph.push((right, t + 60, vec![base]));
        graph.push((merge, t + 120, vec![left, right]));
        base = merge;
    }
    let (found, loads) = walk(&graph, base);
    assert_eq!(loads, graph.len());
    assert_eq!(found.len(), graph.len());
}

#[test]
fn single_root_history() {
    let (found, loads) = walk(&[(9, 1234, vec![])], 9);
    assert_eq!(loads, 1);
    assert_eq!(found.len(), 1);
    assert_eq!(estimate_commits(&found).seconds, 0);
}

#[test]
fn linear_history_estimate() {
    let graph = vec![(1, 0, vec![]), (2, 600, vec![1]), (3, 1800, vec![2])];
    let (found, _) = walk(&graph, 3);
    assert_eq!(estimate_commits(&found).seconds, 1800);
}

#[test]
fn parent_later_than_child_is_sorted_first() {
    // Clock skew: the parent is timestamped after its child.
    let graph = vec![(1, 10800, vec![]), (2, 0, vec![1])];
    let (found, _) = walk(&graph, 2);
    assert_eq!(estimate_commits(&found).seconds, 7200);
}

#[test]
fn same_parent_listed_twice_is_discovered_once() {
    let graph = vec![(1, 0, vec![]), (2, 60, vec![1, 1])];
    let (found, loads) = walk(&graph, 2);
    assert_eq!(loads, 2);
    assert_eq!(found.len(), 2);
}

#[test]
fn ids_compare_by_bytes() {
    assert!(id(3).same(&id(3)));
    assert!(!id(3).same(&id(4)));
    assert!(!id(3).same(&CommitId { bytes: vec![3; 19] }));
    assert_eq!(id(7).duplicate().bytes, vec![7; 20]);
}

#[test]
fn head_branch_is_first_checked_out_one() {
    let entries = vec![
        BranchEntry::Unreadable { reason: String::from("bad") },
        BranchEntry::Listed { name: Some(String::from("dev")), is_head: false },
        BranchEntry::Listed { name: Some(String::from("main")), is_head: true },
    ];
    assert_eq!(find_head_branch(&entries), Some(2));
}

#[test]
fn detached_head_finds_no_branch() {
    let entries = vec![
        BranchEntry::Listed { name: Some(String::from("dev")), is_head: false },
        BranchEntry::Unreadable { reason: String::from("bad") },
    ];
    assert_eq!(find_head_branch(&entries), None);
    assert_eq!(find_head_branch(&vec![]), None);
}

#[test]
fn checked_out_branch_without_readable_name_is_skipped() {
    let entries = vec![
        BranchEntry::Listed { name: None, is_head: true },
        BranchEntry::Listed { name: Some(String::from("main")), is_head: true },
    ];
    assert_eq!(find_head_branch(&entries), Some(1));
    assert_eq!(find_head_branch(&vec![BranchEntry::Listed { name: None, is_head: true }]), None);
}
