//! The leases of chunks that workers have not acknowledged yet.
use vstd::prelude::*;

use crate::pool::Lease;

verus! {

/// A lease with the chunk that it holds.
#[derive(Clone, Copy, Debug)]
struct Entry {
    job_id: u128,
    chunk_index: u32,
    lease: Lease,
}

/// Leases by job and chunk, at most one each.
#[derive(Clone, Debug)]
pub struct LeaseTable {
    entries: Vec<Entry>,
}

impl Entry {
    spec fn key(self) -> (u128, u32) {
        (self.job_id, self.chunk_index)
    }
}

/// Some entry has the key.
spec fn holds_key(s: Seq<Entry>, k: (u128, u32)) -> bool {
    exists|i: int| 0 <= i < s.len() && (#[trigger] s[i]).key() == k
}

/// Where the key is.
spec fn find(s: Seq<Entry>, k: (u128, u32)) -> int {
    choose|i: int| 0 <= i < s.len() && (#[trigger] s[i]).key() == k
}

/// No key comes twice.
spec fn distinct(s: Seq<Entry>) -> bool {
    forall|i: int, j: int|
        0 <= i < j < s.len() ==> (#[trigger] s[i]).key() != (#[trigger] s[j]).key()
}

spec fn map_of(s: Seq<Entry>) -> Map<(u128, u32), Lease> {
    Map::new(|k: (u128, u32)| holds_key(s, k), |k: (u128, u32)| s[find(s, k)].lease)
}

/// An entry is found under its key.
proof fn lemma_entry(s: Seq<Entry>, i: int)
    requires
        distinct(s),
        0 <= i < s.len(),
    ensures
        map_of(s).contains_key(s[i].key()),
        map_of(s)[s[i].key()] == s[i].lease,
{
    let k = s[i].key();
    assert(holds_key(s, k));
    let j = find(s, k);
    if j < i {
        assert(s[j].key() != s[i].key());
    } else if i < j {
        assert(s[i].key() != s[j].key());
    }
}

/// Removing an entry removes its key.
proof fn lemma_removed(s: Seq<Entry>, i: int)
    requires
        distinct(s),
        0 <= i < s.len(),
    ensures
        distinct(s.remove(i)),
        map_of(s.remove(i)) == map_of(s).remove(s[i].key()),
{
    let t = s.remove(i);
    let k = s[i].key();
    assert forall|a: int, b: int| 0 <= a < b < t.len() implies (#[trigger] t[a]).key() != (
    #[trigger] t[b]).key() by {
        let x = if a < i {
            a
        } else {
            a + 1
        };
        let y = if b < i {
            b
        } else {
            b + 1
        };
        assert(s[x].key() != s[y].key());
    }
    assert forall|q: (u128, u32)| holds_key(t, q) <==> holds_key(s, q) && q != k by {
        if holds_key(t, q) {
            let a = find(t, q);
            let x = if a < i {
                a
            } else {
                a + 1
            };
            assert(s[x].key() == q);
            if x < i {
                assert(s[x].key() != s[i].key());
            } else {
                assert(s[i].key() != s[x].key());
            }
        }
        if holds_key(s, q) && q != k {
            let x = find(s, q);
            let a = if x < i {
                x
            } else {
                x - 1
            };
            assert(t[a].key() == q);
        }
    }
    assert forall|q: (u128, u32)| holds_key(t, q) implies map_of(t)[q] == map_of(s)[q] by {
        let a = find(t, q);
        let x = if a < i {
            a
        } else {
            a + 1
        };
        lemma_entry(s, x);
        lemma_entry(t, a);
    }
    assert(map_of(t) =~= map_of(s).remove(k));
}

/// Adding an entry under a new key adds it to the map.
proof fn lemma_pushed(s: Seq<Entry>, e: Entry)
    requires
        distinct(s),
        !holds_key(s, e.key()),
    ensures
        distinct(s.push(e)),
        map_of(s.push(e)) == map_of(s).insert(e.key(), e.lease),
{
    let t = s.push(e);
    assert forall|a: int, b: int| 0 <= a < b < t.len() implies (#[trigger] t[a]).key() != (
    #[trigger] t[b]).key() by {
        if b < s.len() {
            assert(s[a].key() != s[b].key());
        } else {
            assert(t[a] == s[a]);
        }
    }
    assert forall|q: (u128, u32)| holds_key(t, q) <==> holds_key(s, q) || q == e.key() by {
        if holds_key(s, q) {
            assert(t[find(s, q)].key() == q);
        }
        if q == e.key() {
            assert(t[s.len() as int].key() == q);
        }
        if holds_key(t, q) {
            let a = find(t, q);
            if a < s.len() {
                assert(s[a].key() == q);
            }
        }
    }
    assert forall|q: (u128, u32)| holds_key(t, q) implies map_of(t)[q] == map_of(s).insert(
        e.key(),
        e.lease,
    )[q] by {
        let a = find(t, q);
        lemma_entry(t, a);
        if a < s.len() {
            lemma_entry(s, a);
        }
    }
    assert(map_of(t) =~= map_of(s).insert(e.key(), e.lease));
}

/// The leases are those of `keys`, which are all the keys of the map, each
/// once.
pub open spec fn lists_leases(
    r: Seq<Lease>,
    keys: Seq<(u128, u32)>,
    m: Map<(u128, u32), Lease>,
) -> bool {
    &&& keys.no_duplicates()
    &&& forall|k: (u128, u32)| #[trigger] m.contains_key(k) <==> keys.contains(k)
    &&& r.len() == keys.len()
    &&& forall|i: int| 0 <= i < r.len() ==> #[trigger] r[i] == m[keys[i]]
}

/// The leases are all those of the map, each once, in no particular order.
pub open spec fn lists_all(r: Seq<Lease>, m: Map<(u128, u32), Lease>) -> bool {
    exists|keys: Seq<(u128, u32)>| #[trigger] lists_leases(r, keys, m)
}

/// The leases of one job.
pub open spec fn of_job(m: Map<(u128, u32), Lease>, job_id: u128) -> Map<(u128, u32), Lease> {
    Map::new(|k: (u128, u32)| m.contains_key(k) && k.0 == job_id, |k: (u128, u32)| m[k])
}

/// The leases of all other jobs.
pub open spec fn without_job(m: Map<(u128, u32), Lease>, job_id: u128) -> Map<(u128, u32), Lease> {
    Map::new(|k: (u128, u32)| m.contains_key(k) && k.0 != job_id, |k: (u128, u32)| m[k])
}

impl View for LeaseTable {
    type V = Map<(u128, u32), Lease>;

    closed spec fn view(&self) -> Map<(u128, u32), Lease> {
        map_of(self.entries@)
    }
}

impl LeaseTable {
    /// No key comes twice.
    pub closed spec fn wf(&self) -> bool {
        distinct(self.entries@)
    }

    /// An empty table.
    pub fn new() -> (t: LeaseTable)
        ensures
            t.wf(),
            t@ == Map::<(u128, u32), Lease>::empty(),
    {
        let t = LeaseTable { entries: Vec::new() };
        assert(t@ =~= Map::<(u128, u32), Lease>::empty());
        t
    }

    /// Takes the lease of a chunk out.
    pub fn take(&mut self, job_id: u128, chunk_index: u32) -> (r: Option<Lease>)
        requires
            old(self).wf(),
        ensures
            final(self).wf(),
            final(self)@ == old(self)@.remove((job_id, chunk_index)),
            r == if old(self)@.contains_key((job_id, chunk_index)) {
                Some(old(self)@[(job_id, chunk_index)])
            } else {
                None
            },
    {
        let ghost k = (job_id, chunk_index);
        let mut i: usize = 0;
        while i < self.entries.len()
            invariant
                i <= self.entries@.len(),
                *self == *old(self),
                self.wf(),
                k == (job_id, chunk_index),
                forall|j: int| 0 <= j < i ==> (#[trigger] self.entries@[j]).key() != k,
            decreases self.entries@.len() - i,
        {
            if self.entries[i].job_id == job_id && self.entries[i].chunk_index == chunk_index {
                proof {
                    lemma_entry(self.entries@, i as int);
                    lemma_removed(self.entries@, i as int);
                }
                let e = self.entries.remove(i);
                return Some(e.lease);
            }
            i = i + 1;
        }
        assert(self@ =~= self@.remove(k));
        None
    }

    /// Puts the lease of a chunk in, in place of one that is there.
    pub fn insert(&mut self, job_id: u128, chunk_index: u32, lease: Lease)
        requires
            old(self).wf(),
        ensures
            final(self).wf(),
            final(self)@ == old(self)@.insert((job_id, chunk_index), lease),
    {
        let ghost before = self@;
        let _ = self.take(job_id, chunk_index);
        let e = Entry { job_id, chunk_index, lease };
        proof {
            assert(!self@.contains_key(e.key()));
            lemma_pushed(self.entries@, e);
        }
        self.entries.push(e);
        assert(self@ =~= before.insert((job_id, chunk_index), lease));
    }

    /// Takes all leases of a job out, in no particular order.
    pub fn take_job(&mut self, job_id: u128) -> (r: Vec<Lease>)
        requires
            old(self).wf(),
        ensures
            final(self).wf(),
            final(self)@ == without_job(old(self)@, job_id),
            lists_all(r@, of_job(old(self)@, job_id)),
    {
        let ghost before = self@;
        let ghost mut keys: Seq<(u128, u32)> = Seq::empty();
        let mut out: Vec<Lease> = Vec::new();
        let mut i: usize = 0;
        while i < self.entries.len()
            invariant
                before == old(self)@,
                self.wf(),
                i <= self.entries@.len(),
                out@.len() == keys.len(),
                keys.no_duplicates(),
                forall|j: int| 0 <= j < i ==> (#[trigger] self.entries@[j]).job_id != job_id,
                forall|j: int|
                    0 <= j < keys.len() ==> before.contains_key(#[trigger] keys[j]) && keys[j].0
                        == job_id && out@[j] == before[keys[j]],
                forall|k: (u128, u32)|
                    #[trigger] self@.contains_key(k) <==> before.contains_key(k) && !keys.contains(
                        k,
                    ),
                forall|k: (u128, u32)| #[trigger] self@.contains_key(k) ==> self@[k] == before[k],
            decreases self.entries@.len() - i,
        {
            if self.entries[i].job_id == job_id {
                let ghost e = self.entries@[i as int];
                let ghost now = self@;
                let ghost had = keys;
                proof {
                    lemma_entry(self.entries@, i as int);
                    lemma_removed(self.entries@, i as int);
                    keys = keys.push(e.key());
                }
                let ghost s = self.entries@;
                let gone = self.entries.remove(i);
                out.push(gone.lease);
                proof {
                    assert(self@ == now.remove(e.key()));
                    assert(!had.contains(e.key()));
                    assert forall|k: (u128, u32)| keys.contains(k) <==> had.contains(k) || k
                        == e.key() by {
                        if had.contains(k) {
                            let j = choose|j: int| 0 <= j < had.len() && had[j] == k;
                            assert(keys[j] == k);
                        }
                        if k == e.key() {
                            assert(keys[had.len() as int] == k);
                        }
                    }
                    assert forall|j: int| 0 <= j < i implies (
                    #[trigger] self.entries@[j]).job_id != job_id by {
                        assert(self.entries@[j] == s[j]);
                    }
                }
            } else {
                i = i + 1;
            }
        }
        proof {
            assert forall|k: (u128, u32)| #[trigger] self@.contains_key(k) implies k.0 != job_id by {
                let j = find(self.entries@, k);
                assert(self.entries@[j].key() == k);
            }
            assert(self@ =~= without_job(before, job_id));
            assert forall|k: (u128, u32)| #[trigger] of_job(
                before,
                job_id,
            ).contains_key(k) <==> keys.contains(k) by {
                if keys.contains(k) {
                    let j = choose|j: int| 0 <= j < keys.len() && keys[j] == k;
                    assert(before.contains_key(keys[j]));
                } else if of_job(before, job_id).contains_key(k) {
                    assert(self@.contains_key(k));
                }
            }
            assert(lists_leases(out@, keys, of_job(before, job_id)));
        }
        out
    }

    /// All leases, in no particular order.
    pub fn leases(&self) -> (r: Vec<Lease>)
        requires
            self.wf(),
        ensures
            lists_all(r@, self@),
    {
        let ghost keys = Seq::new(self.entries@.len(), |i: int| self.entries@[i].key());
        let mut out: Vec<Lease> = Vec::new();
        let mut i: usize = 0;
        while i < self.entries.len()
            invariant
                i <= self.entries@.len(),
                out@.len() == i,
                forall|j: int| 0 <= j < i ==> #[trigger] out@[j] == self.entries@[j].lease,
            decreases self.entries@.len() - i,
        {
            out.push(self.entries[i].lease);
            i = i + 1;
        }
        proof {
            assert forall|k: (u128, u32)| #[trigger] self@.contains_key(k) <==> keys.contains(k) by {
                if self@.contains_key(k) {
                    assert(keys[find(self.entries@, k)] == k);
                }
                if keys.contains(k) {
                    let j = choose|j: int| 0 <= j < keys.len() && keys[j] == k;
                    assert(self.entries@[j].key() == k);
                }
            }
            assert forall|j: int| 0 <= j < out@.len() implies #[trigger] out@[j]
                == self@[keys[j]] by {
                lemma_entry(self.entries@, j);
            }
            assert(lists_leases(out@, keys, self@));
        }
        out
    }
}

} // verus!
