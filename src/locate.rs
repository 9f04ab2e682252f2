//! Finding the checked-out branch among the local ones.
use vstd::prelude::*;

verus! {

/// One local branch as listed by the repository.
#[derive(Debug)]
pub enum BranchEntry {
    /// A branch, with its name where that is valid UTF-8, and whether it is
    /// checked out. One without a name is skipped.
    Listed { name: Option<String>, is_head: bool },
    /// An entry that could not be read; it is skipped.
    Unreadable { reason: String },
}

/// The entry is a branch with a readable name that is checked out.
pub open spec fn is_head_entry(e: BranchEntry) -> bool {
    match e {
        BranchEntry::Listed { name, is_head } => is_head && name is Some,
        BranchEntry::Unreadable { .. } => false,
    }
}

/// The index of the first readable branch flagged as checked out, if any;
/// unreadable entries are passed over.
pub fn find_head_branch(entries: &Vec<BranchEntry>) -> (r: Option<usize>)
    ensures
        match r {
            Some(i) => i < entries@.len() && is_head_entry(entries@[i as int]) && forall|k: int|
                0 <= k < i ==> !is_head_entry(#[trigger] entries@[k]),
            None => forall|k: int| 0 <= k < entries@.len() ==> !is_head_entry(#[trigger] entries@[k]),
        },
{
    let mut i: usize = 0;
    while i < entries.len()
        invariant
            i <= entries@.len(),
            forall|k: int| 0 <= k < i ==> !is_head_entry(#[trigger] entries@[k]),
        decreases entries@.len() - i,
    {
        match &entries[i] {
            BranchEntry::Listed { name, is_head } => {
                if *is_head && name.is_some() {
                    return Some(i);
                }
            },
            BranchEntry::Unreadable { .. } => {},
        }
        i = i + 1;
    }
    None
}

} // verus!
