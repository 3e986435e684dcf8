//! Checkpoints of aggregate state, kept to bound the cost of replay.

use vstd::prelude::*;

verus! {

/// The state of one aggregate as it was after its first `sequence` events.
pub struct Snapshot<A> {
    pub aggregate_id: String,
    pub sequence: usize,
    pub state: A,
}

/// Storage of snapshots. A snapshot is never changed once saved: a later one
/// for the same aggregate supersedes it.
pub struct SnapshotStore<A> {
    snapshots: Vec<Snapshot<A>>,
}

/// Whether `snapshots` hold one for the aggregate `id` taken at `sequence`.
pub open spec fn has_snapshot<A>(snapshots: Seq<Snapshot<A>>, id: Seq<char>, sequence: int) -> bool {
    exists|k: int|
        0 <= k < snapshots.len() && (#[trigger] snapshots[k]).aggregate_id@ == id
            && snapshots[k].sequence == sequence
}

/// The snapshot for the aggregate `id` with the highest sequence number, the
/// one saved first among equals.
pub open spec fn latest<A>(snapshots: Seq<Snapshot<A>>, id: Seq<char>) -> Option<Snapshot<A>>
    decreases snapshots.len(),
{
    if snapshots.len() == 0 {
        None
    } else {
        let earlier = latest(snapshots.drop_last(), id);
        let candidate = snapshots.last();
        if candidate.aggregate_id@ == id && (earlier is None || earlier.unwrap().sequence
            < candidate.sequence) {
            Some(candidate)
        } else {
            earlier
        }
    }
}

/// `latest` finds a snapshot exactly when one exists for the aggregate, and
/// the one it finds is stored, belongs to the aggregate, and no snapshot of
/// the aggregate has a higher sequence number.
pub proof fn lemma_latest_is_highest<A>(snapshots: Seq<Snapshot<A>>, id: Seq<char>)
    ensures
        latest(snapshots, id) is None <==> forall|k: int|
            0 <= k < snapshots.len() ==> (#[trigger] snapshots[k]).aggregate_id@ != id,
        latest(snapshots, id) is Some ==> {
            let found = latest(snapshots, id).unwrap();
            &&& found.aggregate_id@ == id
            &&& snapshots.contains(found)
            &&& forall|k: int|
                0 <= k < snapshots.len() && (#[trigger] snapshots[k]).aggregate_id@ == id
                    ==> snapshots[k].sequence <= found.sequence
        },
    decreases snapshots.len(),
{
    if snapshots.len() > 0 {
        let front = snapshots.drop_last();
        lemma_latest_is_highest(front, id);
        if latest(snapshots, id) is Some {
            let found = latest(snapshots, id).unwrap();
            if found == snapshots.last() {
                assert(snapshots[snapshots.len() - 1] == found);
            } else {
                let k = choose|k: int| 0 <= k < front.len() && front[k] == found;
                assert(snapshots[k] == found);
            }
            assert forall|k: int|
                0 <= k < snapshots.len() && (#[trigger] snapshots[k]).aggregate_id@
                    == id implies snapshots[k].sequence <= found.sequence by {
                if k < front.len() {
                    assert(front[k] == snapshots[k]);
                }
            }
        } else {
            assert forall|k: int| 0 <= k < snapshots.len() implies (
            #[trigger] snapshots[k]).aggregate_id@ != id by {
                if k < front.len() {
                    assert(front[k] == snapshots[k]);
                }
            }
        }
        if forall|k: int| 0 <= k < snapshots.len() ==> (#[trigger] snapshots[k]).aggregate_id@ != id {
            assert forall|k: int| 0 <= k < front.len() implies (#[trigger] front[k]).aggregate_id@
                != id by {
                assert(front[k] == snapshots[k]);
            }
            assert(snapshots[snapshots.len() - 1].aggregate_id@ != id);
        }
    }
}

impl<A> SnapshotStore<A> {
    /// The snapshots held, in the order they were saved.
    pub closed spec fn contents(&self) -> Seq<Snapshot<A>> {
        self.snapshots@
    }

    pub fn new() -> (store: Self)
        ensures
            store.contents() == Seq::<Snapshot<A>>::empty(),
    {
        SnapshotStore { snapshots: Vec::new() }
    }

    /// The number of snapshots held.
    pub fn len(&self) -> (count: usize)
        ensures
            count == self.contents().len(),
    {
        self.snapshots.len()
    }

    fn holds(&self, key: &String, sequence: usize) -> (found: bool)
        ensures
            found == has_snapshot(self.contents(), key@, sequence as int),
    {
        let mut k: usize = 0;
        while k < self.snapshots.len()
            invariant
                k <= self.snapshots@.len(),
                forall|j: int|
                    0 <= j < k ==> !((#[trigger] self.snapshots@[j]).aggregate_id@ == key@
                        && self.snapshots@[j].sequence == sequence),
            decreases self.snapshots@.len() - k,
        {
            if self.snapshots[k].aggregate_id == *key && self.snapshots[k].sequence == sequence {
                return true;
            }
            k += 1;
        }
        false
    }

    /// Keeps `state` as the snapshot of `aggregate_id` at `sequence`, unless
    /// one is already held for that aggregate and sequence: then nothing
    /// changes.
    pub fn save(&mut self, aggregate_id: &str, sequence: usize, state: A)
        ensures
            has_snapshot(old(self).contents(), aggregate_id@, sequence as int) ==> final(self).contents()
                == old(self).contents(),
            !has_snapshot(old(self).contents(), aggregate_id@, sequence as int) ==> {
                &&& final(self).contents().len() == old(self).contents().len() + 1
                &&& final(self).contents().drop_last() == old(self).contents()
                &&& final(self).contents().last().aggregate_id@ == aggregate_id@
                &&& final(self).contents().last().sequence == sequence
                &&& final(self).contents().last().state == state
            },
    {
        let key = aggregate_id.to_owned();
        if !self.holds(&key, sequence) {
            self.snapshots.push(Snapshot { aggregate_id: key, sequence, state });
        }
    }

    /// The snapshot of `aggregate_id` with the highest sequence number, if any
    /// is held.
    pub fn load_latest(&self, aggregate_id: &str) -> (found: Option<&Snapshot<A>>)
        ensures
            match found {
                Some(snapshot) => latest(self.contents(), aggregate_id@) == Some(*snapshot),
                None => latest(self.contents(), aggregate_id@) is None,
            },
    {
        let key = aggregate_id.to_owned();
        let mut best: Option<usize> = None;
        let mut k: usize = 0;
        while k < self.snapshots.len()
            invariant
                k <= self.snapshots@.len(),
                match best {
                    Some(b) => b < k && latest(self.snapshots@.take(k as int), key@) == Some(
                        self.snapshots@[b as int],
                    ),
                    None => latest(self.snapshots@.take(k as int), key@) is None,
                },
            decreases self.snapshots@.len() - k,
        {
            proof {
                assert(self.snapshots@.take(k + 1).drop_last() =~= self.snapshots@.take(k as int));
            }
            if self.snapshots[k].aggregate_id == key {
                let higher = match best {
                    Some(b) => self.snapshots[b].sequence < self.snapshots[k].sequence,
                    None => true,
                };
                if higher {
                    best = Some(k);
                }
            }
            k += 1;
        }
        proof {
            assert(self.snapshots@.take(k as int) =~= self.snapshots@);
        }
        match best {
            Some(b) => Some(&self.snapshots[b]),
            None => None,
        }
    }
}

} // verus!
