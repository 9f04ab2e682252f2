//! The commit graph walker: every commit reachable from a tip, each exactly once.
use std::collections::HashMap;
use vstd::prelude::*;

verus! {

broadcast use vstd::std_specs::hash::group_hash_axioms;

/// A commit's identifier: the raw bytes of its object id.
#[derive(Debug)]
pub struct CommitId {
    pub bytes: Vec<u8>,
}

impl View for CommitId {
    type V = Seq<u8>;

    open spec fn view(&self) -> Seq<u8> {
        self.bytes@
    }
}

impl CommitId {
    /// A copy of this id.
    pub fn duplicate(&self) -> (r: CommitId)
        ensures
            r@ == self@,
    {
        let mut bytes: Vec<u8> = Vec::new();
        let mut i: usize = 0;
        while i < self.bytes.len()
            invariant
                i <= self@.len(),
                bytes@ == self@.subrange(0, i as int),
            decreases self@.len() - i,
        {
            bytes.push(self.bytes[i]);
            i = i + 1;
            assert(bytes@ =~= self@.subrange(0, i as int));
        }
        assert(bytes@ =~= self@);
        CommitId { bytes }
    }

    /// Whether both name the same commit.
    pub fn same(&self, other: &CommitId) -> (r: bool)
        ensures
            r == (self@ == other@),
    {
        if self.bytes.len() != other.bytes.len() {
            return false;
        }
        let mut i: usize = 0;
        while i < self.bytes.len()
            invariant
                self@.len() == other@.len(),
                i <= self@.len(),
                forall|k: int| 0 <= k < i ==> self@[k] == other@[k],
            decreases self@.len() - i,
        {
            if self.bytes[i] != other.bytes[i] {
                return false;
            }
            i = i + 1;
        }
        assert(self@ =~= other@);
        true
    }
}

/// One commit as the walk sees it: its id, its timestamp (seconds since the epoch)
/// and the ids of its parents, in order.
#[derive(Debug)]
pub struct CommitRecord {
    pub id: CommitId,
    pub timestamp: i64,
    pub parents: Vec<CommitId>,
}

/// The parent ids of a commit.
pub open spec fn parent_ids(r: CommitRecord) -> Seq<Seq<u8>> {
    r.parents@.map_values(|p: CommitId| p@)
}

/// The ids of a sequence of commits.
pub open spec fn record_ids(rs: Seq<CommitRecord>) -> Seq<Seq<u8>> {
    rs.map_values(|r: CommitRecord| r.id@)
}

/// The timestamps of a sequence of commits.
pub open spec fn timestamps_of(rs: Seq<CommitRecord>) -> Seq<i64> {
    rs.map_values(|r: CommitRecord| r.timestamp)
}

/// `order` followed by each of `parents` that is not already there, once, in order.
pub open spec fn append_new(order: Seq<Seq<u8>>, parents: Seq<Seq<u8>>) -> Seq<Seq<u8>>
    decreases parents.len(),
{
    if parents.len() == 0 {
        order
    } else {
        let a = append_new(order, parents.drop_last());
        if a.contains(parents.last()) {
            a
        } else {
            a.push(parents.last())
        }
    }
}

/// The commit at index `j` of `recs` names `id` among its parents.
pub open spec fn has_parent(recs: Seq<CommitRecord>, j: int, id: Seq<u8>) -> bool {
    parent_ids(recs[j]).contains(id)
}

/// Some commit before index `k` of `recs` names `id` among its parents.
pub open spec fn named_before(recs: Seq<CommitRecord>, k: int, id: Seq<u8>) -> bool {
    exists|j: int| 0 <= j < k && j < recs.len() && #[trigger] has_parent(recs, j, id)
}

/// `recs` is the whole ancestry of `tip`: the tip first, no commit twice, every
/// parent of a commit present, and every commit after the first a parent of an
/// earlier one.
pub open spec fn is_ancestry(tip: Seq<u8>, recs: Seq<CommitRecord>) -> bool {
    &&& recs.len() >= 1
    &&& recs[0].id@ == tip
    &&& record_ids(recs).no_duplicates()
    &&& forall|i: int, j: int|
        0 <= i < recs.len() && 0 <= j < recs[i].parents@.len() ==> record_ids(recs).contains(
            #[trigger] recs[i].parents@[j]@,
        )
    &&& forall|k: int|
        #![trigger recs[k]]
        1 <= k < recs.len() ==> named_before(recs, k, recs[k].id@)
}

/// Byte `i` of `s`, or zero past its end.
pub open spec fn byte_or_zero(s: Seq<u8>, i: int) -> u64 {
    if 0 <= i < s.len() {
        s[i] as u64
    } else {
        0
    }
}

/// The key under which an id is indexed: its first four bytes, big-endian.
pub open spec fn id_key(s: Seq<u8>) -> u64 {
    (byte_or_zero(s, 0) * 0x100_0000 + byte_or_zero(s, 1) * 0x1_0000 + byte_or_zero(s, 2) * 0x100
        + byte_or_zero(s, 3)) as u64
}

/// Computes `id_key` of an id.
fn key_of(id: &CommitId) -> (r: u64)
    ensures
        r == id_key(id@),
{
    let n = id.bytes.len();
    let b0: u64 = if n > 0 { id.bytes[0] as u64 } else { 0 };
    let b1: u64 = if n > 1 { id.bytes[1] as u64 } else { 0 };
    let b2: u64 = if n > 2 { id.bytes[2] as u64 } else { 0 };
    let b3: u64 = if n > 3 { id.bytes[3] as u64 } else { 0 };
    b0 * 0x100_0000 + b1 * 0x1_0000 + b2 * 0x100 + b3
}

/// A walk in progress: commits are discovered in order and loaded in that same
/// order; the loaded ones are a prefix of the discovered ones. `index` maps each
/// id key to the positions of the discovered ids that have it, so that telling
/// whether an id was seen compares it only with ids of the same key.
pub struct HistoryWalk {
    discovered: Vec<CommitId>,
    found: Vec<CommitRecord>,
    index: HashMap<u64, Vec<usize>>,
}

/// Facts about `append_new` that the walk relies on.
pub proof fn lemma_append_new(order: Seq<Seq<u8>>, parents: Seq<Seq<u8>>)
    requires
        order.no_duplicates(),
    ensures
        append_new(order, parents).len() >= order.len(),
        append_new(order, parents).subrange(0, order.len() as int) == order,
        append_new(order, parents).no_duplicates(),
        forall|p: Seq<u8>| parents.contains(p) ==> append_new(order, parents).contains(p),
        forall|x: Seq<u8>| order.contains(x) ==> append_new(order, parents).contains(x),
        forall|k: int|
            order.len() <= k < append_new(order, parents).len() ==> parents.contains(
                #[trigger] append_new(order, parents)[k],
            ),
    decreases parents.len(),
{
    if parents.len() > 0 {
        let init = parents.drop_last();
        lemma_append_new(order, init);
        let a = append_new(order, init);
        let r = append_new(order, parents);
        assert forall|x: Seq<u8>| a.contains(x) implies r.contains(x) by {
            let k = choose|k: int| 0 <= k < a.len() && a[k] == x;
            assert(r[k] == x);
        }
        assert forall|p: Seq<u8>| parents.contains(p) implies r.contains(p) by {
            let i = choose|i: int| 0 <= i < parents.len() && parents[i] == p;
            if i < parents.len() - 1 {
                assert(init[i] == p);
                assert(init.contains(p));
            } else {
                assert(p == parents.last());
                if !a.contains(p) {
                    assert(r[a.len() as int] == p);
                }
            }
        }
        assert forall|k: int|
            order.len() <= k < append_new(order, parents).len() implies parents.contains(
            #[trigger] append_new(order, parents)[k],
        ) by {
            if k < a.len() {
                let i = choose|i: int| 0 <= i < init.len() && init[i] == a[k];
                assert(parents[i] == a[k]);
            } else {
                assert(parents[parents.len() - 1] == parents.last());
            }
        }
        if !a.contains(parents.last()) {
            assert(a.push(parents.last()).subrange(0, order.len() as int) =~= a.subrange(
                0,
                order.len() as int,
            ));
        }
    }
}

impl HistoryWalk {
    /// The ids discovered so far, in order of discovery.
    pub closed spec fn discovered_ids(&self) -> Seq<Seq<u8>> {
        self.discovered@.map_values(|p: CommitId| p@)
    }

    /// The commits loaded so far, in order of discovery.
    pub closed spec fn records(&self) -> Seq<CommitRecord> {
        self.found@
    }

    /// `index` lists the position of every discovered id under its key, and
    /// nothing else.
    pub closed spec fn indexed(&self) -> bool {
        let d = self.discovered_ids();
        let m = self.index@;
        &&& forall|k: int|
            #![trigger d[k]]
            0 <= k < d.len() ==> m.contains_key(id_key(d[k])) && m[id_key(d[k])]@.contains(
                k as usize,
            )
        &&& forall|key: u64, j: int|
            m.contains_key(key) && 0 <= j < m[key]@.len() ==> (#[trigger] m[key]@[j]) < d.len()
    }

    pub closed spec fn wf(&self) -> bool {
        let d = self.discovered_ids();
        let f = self.found@;
        &&& self.indexed()
        &&& 1 <= d.len()
        &&& f.len() <= d.len()
        &&& forall|i: int| 0 <= i < f.len() ==> #[trigger] f[i].id@ == d[i]
        &&& d.no_duplicates()
        &&& forall|i: int, j: int|
            0 <= i < f.len() && 0 <= j < f[i].parents@.len() ==> d.contains(
                #[trigger] f[i].parents@[j]@,
            )
        &&& forall|k: int|
            #![trigger d[k]]
            1 <= k < d.len() ==> named_before(f, k, d[k])
    }

    /// A walk that has discovered only `tip`.
    pub fn start(tip: CommitId) -> (r: HistoryWalk)
        ensures
            r.wf(),
            r.discovered_ids() == seq![tip@],
            r.records() == Seq::<CommitRecord>::empty(),
    {
        let mut r = HistoryWalk { discovered: Vec::new(), found: Vec::new(), index: HashMap::new() };
        r.discover(tip);
        assert(r.discovered_ids() =~= seq![tip@]);
        r
    }

    /// Appends `id` to the discovered ids and indexes it.
    fn discover(&mut self, id: CommitId)
        requires
            old(self).indexed(),
        ensures
            final(self).indexed(),
            final(self).discovered_ids() == old(self).discovered_ids().push(id@),
            final(self).found == old(self).found,
    {
        let ghost d0 = self.discovered_ids();
        let ghost m0 = self.index@;
        let n = self.discovered.len();
        let key = key_of(&id);
        let mut bucket = match self.index.remove(&key) {
            Some(b) => b,
            None => Vec::new(),
        };
        let ghost b0 = bucket@;
        bucket.push(n);
        self.index.insert(key, bucket);
        self.discovered.push(id);
        proof {
            let d = self.discovered_ids();
            let m = self.index@;
            assert(d =~= d0.push(id@));
            assert forall|k: int| #![trigger d[k]] 0 <= k < d.len() implies m.contains_key(
                id_key(d[k]),
            ) && m[id_key(d[k])]@.contains(k as usize) by {
                if k < n {
                    assert(d[k] == d0[k]);
                    if id_key(d[k]) == key {
                        let j = choose|j: int| 0 <= j < b0.len() && b0[j] == k as usize;
                        assert(m[key]@[j] == k as usize);
                    }
                } else {
                    assert(m[key]@[b0.len() as int] == n);
                }
            }
            assert forall|key2: u64, j: int|
                m.contains_key(key2) && 0 <= j < m[key2]@.len() implies (#[trigger] m[key2]@[j])
                < d.len() by {
                if key2 == key {
                    if j < b0.len() {
                        assert(m0[key]@[j] == b0[j]);
                    }
                } else {
                    assert(m0[key2] == m[key2]);
                }
            }
        }
    }

    /// Whether `id` has been discovered already.
    fn knows(&self, id: &CommitId) -> (r: bool)
        requires
            self.indexed(),
        ensures
            r == self.discovered_ids().contains(id@),
    {
        let key = key_of(id);
        let bucket = match self.index.get(&key) {
            Some(b) => b,
            None => {
                proof {
                    if self.discovered_ids().contains(id@) {
                        let k = choose|k: int|
                            0 <= k < self.discovered_ids().len() && self.discovered_ids()[k] == id@;
                        assert(self.index@.contains_key(id_key(self.discovered_ids()[k])));
                    }
                }
                return false;
            },
        };
        let mut j: usize = 0;
        while j < bucket.len()
            invariant
                self.indexed(),
                self.index@.contains_key(key),
                self.index@[key] == *bucket,
                key == id_key(id@),
                j <= bucket@.len(),
                forall|jj: int| 0 <= jj < j ==> self.discovered_ids()[#[trigger] bucket@[jj] as int] != id@,
            decreases bucket@.len() - j,
        {
            let k = bucket[j];
            assert(k < self.discovered_ids().len());
            if self.discovered[k].same(id) {
                assert(self.discovered_ids()[k as int] == id@);
                return true;
            }
            j = j + 1;
        }
        let count = self.discovered.len();
        proof {
            assert(count == self.discovered_ids().len());
            if self.discovered_ids().contains(id@) {
                let k = choose|k: int|
                    0 <= k < self.discovered_ids().len() && self.discovered_ids()[k] == id@;
                assert(self.index@[id_key(self.discovered_ids()[k])]@.contains(k as usize));
                let jj = choose|jj: int| 0 <= jj < bucket@.len() && bucket@[jj] == k as usize;
                assert(self.discovered_ids()[bucket@[jj] as int] != id@);
            }
        }
        false
    }

    /// Whether a discovered commit is still to be loaded.
    pub fn has_pending(&self) -> (r: bool)
        requires
            self.wf(),
        ensures
            r == (self.records().len() < self.discovered_ids().len()),
            self.records().len() <= self.discovered_ids().len() <= usize::MAX,
    {
        self.found.len() < self.discovered.len()
    }

    /// The id of the next commit to load: the oldest discovery not yet loaded.
    pub fn next_id(&self) -> (r: CommitId)
        requires
            self.wf(),
            self.records().len() < self.discovered_ids().len(),
        ensures
            r@ == self.discovered_ids()[self.records().len() as int],
    {
        self.discovered[self.found.len()].duplicate()
    }

    /// Records the loaded commit `rec`, the next one due, and discovers those of its
    /// parents not seen before; a parent already seen is not expanded again.
    pub fn record(&mut self, rec: CommitRecord)
        requires
            old(self).wf(),
            old(self).records().len() < old(self).discovered_ids().len(),
            rec.id@ == old(self).discovered_ids()[old(self).records().len() as int],
        ensures
            final(self).wf(),
            final(self).records() == old(self).records().push(rec),
            final(self).discovered_ids()[0] == old(self).discovered_ids()[0],
            final(self).discovered_ids() == append_new(
                old(self).discovered_ids(),
                parent_ids(rec),
            ),
    {
        let ghost d0 = self.discovered_ids();
        let ghost f0 = self.found@;
        let ghost ps = parent_ids(rec);
        proof {
            lemma_append_new(d0, ps);
        }
        let mut j: usize = 0;
        while j < rec.parents.len()
            invariant
                j <= rec.parents@.len(),
                ps == parent_ids(rec),
                d0.no_duplicates(),
                self.indexed(),
                self.found@ == f0,
                self.discovered_ids() == append_new(d0, ps.subrange(0, j as int)),
            decreases rec.parents@.len() - j,
        {
            proof {
                assert(ps.subrange(0, j + 1).drop_last() =~= ps.subrange(0, j as int));
                lemma_append_new(d0, ps.subrange(0, j as int));
            }
            if !self.knows(&rec.parents[j]) {
                let p = rec.parents[j].duplicate();
                self.discover(p);
                assert(self.discovered_ids() =~= append_new(d0, ps.subrange(0, j + 1)));
            }
            j = j + 1;
        }
        assert(ps.subrange(0, rec.parents@.len() as int) =~= ps);
        let ghost d1 = self.discovered_ids();
        self.found.push(rec);
        proof {
            let f1 = self.found@;
            assert(f1 == f0.push(rec));
            assert(d1.subrange(0, d0.len() as int) == d0);
            assert(1 <= d1.len());
            assert(f1.len() <= d1.len());
            assert(d1.no_duplicates());
            assert(d1[0] == d1.subrange(0, d0.len() as int)[0]);
            assert forall|i: int| 0 <= i < f1.len() implies #[trigger] f1[i].id@ == d1[i] by {
                assert(d1.subrange(0, d0.len() as int)[i] == d0[i]);
            }
            assert forall|i: int, j: int|
                0 <= i < f1.len() && 0 <= j < f1[i].parents@.len() implies d1.contains(
                #[trigger] f1[i].parents@[j]@,
            ) by {
                if i < f0.len() {
                    assert(d0.contains(f0[i].parents@[j]@));
                } else {
                    assert(ps[j] == rec.parents@[j]@);
                    assert(ps.contains(rec.parents@[j]@));
                }
            }
            assert forall|k: int| #![trigger d1[k]] 1 <= k < d1.len() implies named_before(
                f1,
                k,
                d1[k],
            ) by {
                if k < d0.len() {
                    assert(d1.subrange(0, d0.len() as int)[k] == d0[k]);
                    assert(named_before(f0, k, d0[k]));
                    let j = choose|j: int|
                        0 <= j < k && j < f0.len() && #[trigger] has_parent(f0, j, d0[k]);
                    assert(f1[j] == f0[j]);
                    assert(has_parent(f1, j, d1[k]));
                } else {
                    assert(ps.contains(d1[k]));
                    assert(f1[f0.len() as int] == rec);
                    assert(has_parent(f1, f0.len() as int, d1[k]));
                }
            }
        }
    }

    /// The commits loaded, in order of discovery.
    pub fn into_records(self) -> (r: Vec<CommitRecord>)
        ensures
            r@ == self.records(),
    {
        self.found
    }

    /// Once nothing is pending, the loaded commits are the whole ancestry of the
    /// first one discovered.
    pub proof fn lemma_complete(&self, tip: Seq<u8>)
        requires
            self.wf(),
            self.discovered_ids()[0] == tip,
            self.records().len() == self.discovered_ids().len(),
        ensures
            is_ancestry(tip, self.records()),
    {
        let f = self.found@;
        let d = self.discovered_ids();
        assert(record_ids(f) =~= d);
        assert(f[0].id@ == d[0]);
        assert forall|i: int, j: int|
            0 <= i < f.len() && 0 <= j < f[i].parents@.len() implies record_ids(f).contains(
            #[trigger] f[i].parents@[j]@,
        ) by {
            assert(d.contains(f[i].parents@[j]@));
        }
        assert forall|k: int| #![trigger f[k]] 1 <= k < f.len() implies named_before(
            f,
            k,
            f[k].id@,
        ) by {
            assert(f[k].id@ == d[k]);
            assert(named_before(f, k, d[k]));
        }
    }
}

} // verus!
