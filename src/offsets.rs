//! The next offset to commit, for each topic and partition seen in a batch
//! window.
use vstd::prelude::*;

verus! {

/// A topic and partition.
pub type PartitionKey = (Seq<char>, i32);

/// The value that `record` leaves for a key: the larger of what was there
/// and `next`.
pub open spec fn raised(m: Map<PartitionKey, i64>, k: PartitionKey, next: i64) -> i64 {
    if m.contains_key(k) && m[k] >= next {
        m[k]
    } else {
        next
    }
}

/// The next offsets to commit, by topic and partition.
pub struct OffsetTracker {
    entries: Vec<(String, i32, i64)>,
    offsets: Ghost<Map<PartitionKey, i64>>,
}

pub open spec fn entry_key(e: (String, i32, i64)) -> PartitionKey {
    (e.0@, e.1)
}

impl View for OffsetTracker {
    type V = Map<PartitionKey, i64>;

    closed spec fn view(&self) -> Map<PartitionKey, i64> {
        self.offsets@
    }
}

impl OffsetTracker {
    /// The entries hold each key once, and hold exactly the map.
    pub closed spec fn wf(&self) -> bool {
        &&& forall|i: int, j: int|
            0 <= i < j < self.entries@.len() ==> entry_key(self.entries@[i]) != entry_key(
                self.entries@[j],
            )
        &&& forall|i: int|
            0 <= i < self.entries@.len() ==> self.offsets@.contains_key(entry_key(self.entries@[i]))
                && self.offsets@[entry_key(self.entries@[i])] == self.entries@[i].2
        &&& forall|k: PartitionKey| #[trigger]
            self.offsets@.contains_key(k) ==> exists|i: int|
                0 <= i < self.entries@.len() && entry_key(self.entries@[i]) == k
    }

    /// An empty tracker.
    pub fn new() -> (r: OffsetTracker)
        ensures
            r.wf(),
            r@ == Map::<PartitionKey, i64>::empty(),
    {
        OffsetTracker { entries: Vec::new(), offsets: Ghost(Map::empty()) }
    }

    /// Whether no offset is recorded.
    pub fn is_empty(&self) -> (r: bool)
        requires
            self.wf(),
        ensures
            r == (self@ == Map::<PartitionKey, i64>::empty()),
    {
        if self.entries.len() == 0 {
            assert(self@ =~= Map::<PartitionKey, i64>::empty());
            true
        } else {
            assert(self@.contains_key(entry_key(self.entries@[0])));
            false
        }
    }

    /// Records that the message before offset `next` of `partition` of
    /// `topic` was received: the entry becomes the larger of what it was and
    /// `next`.
    pub fn record(&mut self, topic: &String, partition: i32, next: i64)
        requires
            old(self).wf(),
        ensures
            final(self).wf(),
            final(self)@ == old(self)@.insert(
                (topic@, partition),
                raised(old(self)@, (topic@, partition), next),
            ),
    {
        let ghost k = (topic@, partition);
        let ghost m = self.offsets@;
        let n = self.entries.len();
        let mut i: usize = 0;
        while i < n
            invariant
                self.wf(),
                self.offsets@ == m,
                old(self)@ == m,
                k == (topic@, partition),
                i <= n == self.entries@.len(),
                forall|j: int| 0 <= j < i ==> entry_key(self.entries@[j]) != k,
            decreases n - i,
        {
            let same_topic = self.entries[i].0.eq(topic);
            if self.entries[i].1 == partition && same_topic {
                assert(entry_key(self.entries@[i as int]) == k);
                if self.entries[i].2 < next {
                    let ghost before = self.entries@;
                    self.entries[i].2 = next;
                    self.offsets = Ghost(m.insert(k, next));
                    assert forall|j: int|
                        0 <= j < self.entries@.len() && j != i implies self.entries@[j]
                        == before[j] by {}
                    assert forall|q: PartitionKey| #[trigger]
                        self.offsets@.contains_key(q) implies exists|j: int|
                        0 <= j < self.entries@.len() && entry_key(self.entries@[j]) == q by {
                        if q != k {
                            let j = choose|j: int|
                                0 <= j < before.len() && entry_key(before[j]) == q;
                            assert(entry_key(self.entries@[j]) == q);
                        } else {
                            assert(entry_key(self.entries@[i as int]) == q);
                        }
                    }
                } else {
                    assert(m.insert(k, raised(m, k, next)) =~= m);
                }
                return;
            }
            i = i + 1;
        }
        assert(!m.contains_key(k));
        let ghost before = self.entries@;
        self.entries.push((topic.clone(), partition, next));
        self.offsets = Ghost(m.insert(k, next));
        assert(entry_key(self.entries@[n as int]) == k);
        assert forall|q: PartitionKey| #[trigger]
            self.offsets@.contains_key(q) implies exists|j: int|
            0 <= j < self.entries@.len() && entry_key(self.entries@[j]) == q by {
            if q != k {
                let j = choose|j: int| 0 <= j < before.len() && entry_key(before[j]) == q;
                assert(entry_key(self.entries@[j]) == q);
            }
        }
    }

    /// The recorded offsets as a list of (topic, partition, next offset),
    /// each key once.
    pub fn to_list(&self) -> (r: Vec<(String, i32, i64)>)
        requires
            self.wf(),
        ensures
            forall|i: int, j: int|
                0 <= i < j < r@.len() ==> entry_key(r@[i]) != entry_key(r@[j]),
            forall|i: int|
                0 <= i < r@.len() ==> self@.contains_key(entry_key(r@[i])) && self@[entry_key(
                    r@[i],
                )] == r@[i].2,
            forall|k: PartitionKey| #[trigger]
                self@.contains_key(k) ==> exists|i: int| 0 <= i < r@.len() && entry_key(r@[i]) == k,
    {
        let n = self.entries.len();
        let mut out: Vec<(String, i32, i64)> = Vec::new();
        let mut i: usize = 0;
        while i < n
            invariant
                self.wf(),
                i <= n == self.entries@.len(),
                out@.len() == i,
                forall|j: int| 0 <= j < i ==> entry_key(out@[j]) == entry_key(self.entries@[j])
                    && out@[j].2 == self.entries@[j].2,
            decreases n - i,
        {
            let e = &self.entries[i];
            out.push((e.0.clone(), e.1, e.2));
            i = i + 1;
        }
        assert forall|k: PartitionKey| #[trigger]
            self@.contains_key(k) implies exists|i: int|
            0 <= i < out@.len() && entry_key(out@[i]) == k by {
            let j = choose|j: int|
                0 <= j < self.entries@.len() && entry_key(self.entries@[j]) == k;
            assert(entry_key(out@[j]) == k);
        }
        out
    }
}

/// Recording never lowers an offset: after `record`, every key that was
/// there is still there, with an offset at least as large.
pub proof fn lemma_record_monotone(m: Map<PartitionKey, i64>, k: PartitionKey, next: i64)
    ensures
        forall|q: PartitionKey| #[trigger]
            m.contains_key(q) ==> m.insert(k, raised(m, k, next)).contains_key(q) && m.insert(
                k,
                raised(m, k, next),
            )[q] >= m[q],
        m.insert(k, raised(m, k, next))[k] >= next,
{
}

} // verus!
