//! The partition chaos monkey's decisions: on each tick of its timer it
//! creates a partition of a prefix of the nodes or heals one at random,
//! and it heals every partition older than two minutes.

use vstd::prelude::*;
use crate::jepsen::partition::{NetworkPartitionSimulator, partition_name};

verus! {

/// How long a partition may stay in force, in nanoseconds (two minutes).
pub const PARTITION_LIFETIME_NANOS: u64 = 120_000_000_000;

/// Whether a partition created at `created_at` has outlived its time at
/// `now` (monotonic nanoseconds).
pub open spec fn expired(created_at: u64, now: u64) -> bool {
    now >= created_at && now - created_at > PARTITION_LIFETIME_NANOS
}

/// The partitions in force after healing the given identifiers in order.
pub open spec fn heals(m: Map<Seq<char>, Seq<Seq<char>>>, ids: Seq<Seq<char>>) -> Map<Seq<char>, Seq<Seq<char>>>
    decreases ids.len(),
{
    if ids.len() == 0 {
        m
    } else {
        heals(m, ids.drop_last()).remove(ids.last())
    }
}

/// The size of the largest partition the monkey creates among `n` nodes.
pub open spec fn max_partition_size(n: nat) -> nat {
    if n / 2 > 1 { n / 2 } else { 1 }
}

/// The monkey's record of its partitions: identifier and creation time.
pub open spec fn records_view(rs: Seq<(String, u64)>) -> Seq<(Seq<char>, u64)> {
    rs.map_values(|r: (String, u64)| (r.0@, r.1))
}

/// Whether a record has expired at `now`.
pub open spec fn record_expired(now: u64) -> spec_fn((Seq<char>, u64)) -> bool {
    |r: (Seq<char>, u64)| expired(r.1, now)
}

/// Whether a record is still young at `now`.
pub open spec fn record_young(now: u64) -> spec_fn((Seq<char>, u64)) -> bool {
    |r: (Seq<char>, u64)| !expired(r.1, now)
}

/// The identifiers of records.
pub open spec fn record_ids(rs: Seq<(Seq<char>, u64)>) -> Seq<Seq<char>> {
    rs.map_values(|r: (Seq<char>, u64)| r.0)
}

/// A monkey that partitions and heals the network of a simulator at
/// random.
pub struct PartitionChaosMonkey {
    nodes: Vec<String>,
    active_partitions: Vec<(String, u64)>,
}

impl PartitionChaosMonkey {
    /// The nodes it partitions.
    pub closed spec fn nodes(&self) -> Seq<Seq<char>> {
        self.nodes@.map_values(|n: String| n@)
    }

    /// The partitions it created and has not healed, oldest first.
    pub closed spec fn active(&self) -> Seq<(Seq<char>, u64)> {
        records_view(self.active_partitions@)
    }

    /// A monkey for the given nodes, with no partition created.
    pub fn new(nodes: Vec<String>) -> (r: Self)
        ensures
            r.nodes() == nodes@.map_values(|n: String| n@),
            r.active() == Seq::<(Seq<char>, u64)>::empty(),
    {
        let r = PartitionChaosMonkey { nodes, active_partitions: Vec::new() };
        assert(r.active() =~= Seq::<(Seq<char>, u64)>::empty());
        r
    }

    /// One tick: when `create` came up (the partition probability was
    /// hit) and there are at least two nodes, the first `1..=max(1, n/2)`
    /// nodes are partitioned off, under the identifier of `epoch_nanos`;
    /// otherwise a random one of its partitions, if any, is healed. `now`
    /// is the monotonic time of the tick.
    pub fn chaos_step(&mut self, simulator: &mut NetworkPartitionSimulator, create: bool, epoch_nanos: u64, now: u64)
        requires
            old(simulator).well_formed(),
        ensures
            final(simulator).well_formed(),
            final(self).nodes() == old(self).nodes(),
            create && old(self).nodes().len() > 1 ==> exists|size: nat|
                1 <= size <= max_partition_size(old(self).nodes().len())
                && #[trigger] final(simulator).view_partitions() == old(simulator).view_partitions().insert(partition_name(epoch_nanos), old(self).nodes().take(size as int))
                && final(self).active() == old(self).active().push((partition_name(epoch_nanos), now)),
            !(create && old(self).nodes().len() > 1) && old(self).active().len() > 0 ==> exists|i: int|
                0 <= i < old(self).active().len()
                && final(self).active() == old(self).active().remove(i)
                && final(simulator).view_partitions() == old(simulator).view_partitions().remove(#[trigger] old(self).active()[i].0),
            !(create && old(self).nodes().len() > 1) && old(self).active().len() == 0 ==>
                final(self).active() == old(self).active()
                && final(simulator).view_partitions() == old(simulator).view_partitions(),
    {
        let n = self.nodes.len();
        if create && n > 1 {
            let half = n / 2;
            let max_size = if half > 1 { half } else { 1 };
            let size = crate::random::thread_random_usize() % max_size + 1;
            let mut prefix: Vec<String> = Vec::new();
            let mut i: usize = 0;
            while i < size
                invariant
                    i <= size <= n,
                    n == self.nodes@.len(),
                    prefix@.len() == i,
                    forall|j: int| 0 <= j < i ==> (#[trigger] prefix@[j])@ == self.nodes@[j]@,
                decreases size - i,
            {
                prefix.push(self.nodes[i].clone());
                i += 1;
            }
            let ghost taken = prefix@.map_values(|s: String| s@);
            assert(taken =~= self.nodes().take(size as int));
            let id = simulator.create_partition(epoch_nanos, prefix);
            let ghost before = self.active_partitions@;
            self.active_partitions.push((id, now));
            assert(self.active() =~= records_view(before).push((partition_name(epoch_nanos), now)));
            assert(simulator.view_partitions() == old(simulator).view_partitions().insert(partition_name(epoch_nanos), old(self).nodes().take(size as int)));
        } else if self.active_partitions.len() > 0 {
            let index = crate::random::thread_random_usize() % self.active_partitions.len();
            let ghost before = self.active_partitions@;
            let (id, _) = self.active_partitions.remove(index);
            simulator.heal_partition(id.as_str());
            assert(self.active() =~= records_view(before).remove(index as int));
            assert(old(self).active()[index as int].0 == id@);
        }
    }

    /// Heals every partition older than two minutes at `now`, oldest first,
    /// and forgets it.
    pub fn heal_expired(&mut self, simulator: &mut NetworkPartitionSimulator, now: u64)
        requires
            old(simulator).well_formed(),
        ensures
            final(simulator).well_formed(),
            final(self).nodes() == old(self).nodes(),
            final(self).active() == old(self).active().filter(record_young(now)),
            final(simulator).view_partitions() == heals(old(simulator).view_partitions(), record_ids(old(self).active().filter(record_expired(now)))),
    {
        let ghost all = self.active();
        let ghost m0 = simulator.view_partitions();
        let mut kept: Vec<(String, u64)> = Vec::new();
        let mut rest: Vec<(String, u64)> = Vec::new();
        std::mem::swap(&mut rest, &mut self.active_partitions);
        let len = rest.len();
        let mut i: usize = 0;
        while i < len
            invariant
                i <= len,
                len == all.len(),
                records_view(rest@) == all.skip(i as int),
                self.nodes() == old(self).nodes(),
                simulator.well_formed(),
                records_view(kept@) == all.take(i as int).filter(record_young(now)),
                simulator.view_partitions() == heals(m0, record_ids(all.take(i as int).filter(record_expired(now)))),
            decreases len - i,
        {
            assert(records_view(rest@).len() == rest@.len());
            assert(records_view(rest@)[0] == all.skip(i as int)[0]);
            let ghost r0 = rest@;
            let (id, created_at) = rest.remove(0);
            proof {
                assert(rest@ =~= r0.subrange(1, r0.len() as int));
                assert forall|k: int| 0 <= k < records_view(rest@).len() implies records_view(rest@)[k] == all.skip(i + 1)[k] by {
                    assert(records_view(rest@)[k] == records_view(r0)[k + 1]);
                    assert(records_view(r0)[k + 1] == all.skip(i as int)[k + 1]);
                }
                assert(all[i as int] == (id@, created_at));
                assert(records_view(rest@) =~= all.skip(i + 1));
                assert(all.take(i + 1).drop_last() =~= all.take(i as int));
                reveal(Seq::filter);
            }
            let ghost young_before = all.take(i as int).filter(record_young(now));
            let ghost old_before = all.take(i as int).filter(record_expired(now));
            if now >= created_at && now - created_at > PARTITION_LIFETIME_NANOS {
                simulator.heal_partition(id.as_str());
                proof {
                    assert(all.take(i + 1).filter(record_young(now)) == young_before);
                    assert(all.take(i + 1).filter(record_expired(now)) == old_before.push((id@, created_at)));
                    assert(record_ids(old_before.push((id@, created_at))) =~= record_ids(old_before).push(id@));
                    assert(record_ids(old_before.push((id@, created_at))).drop_last() =~= record_ids(old_before));
                }
            } else {
                let ghost k0 = kept@;
                kept.push((id, created_at));
                proof {
                    assert(all.take(i + 1).filter(record_young(now)) == young_before.push((id@, created_at)));
                    assert(all.take(i + 1).filter(record_expired(now)) == old_before);
                    assert(records_view(kept@) =~= records_view(k0).push((id@, created_at)));
                }
            }
            i += 1;
        }
        assert(all.take(len as int) =~= all);
        self.active_partitions = kept;
    }

    /// Heals every partition it created, oldest first, and forgets them.
    pub fn finish(&mut self, simulator: &mut NetworkPartitionSimulator)
        requires
            old(simulator).well_formed(),
        ensures
            final(simulator).well_formed(),
            final(self).nodes() == old(self).nodes(),
            final(self).active() == Seq::<(Seq<char>, u64)>::empty(),
            final(simulator).view_partitions() == heals(old(simulator).view_partitions(), record_ids(old(self).active())),
    {
        let ghost all = self.active();
        let ghost m0 = simulator.view_partitions();
        let mut i: usize = 0;
        while i < self.active_partitions.len()
            invariant
                i <= self.active_partitions@.len(),
                all == records_view(self.active_partitions@),
                self.nodes() == old(self).nodes(),
                simulator.well_formed(),
                simulator.view_partitions() == heals(m0, record_ids(all.take(i as int))),
            decreases self.active_partitions@.len() - i,
        {
            proof {
                assert(record_ids(all.take(i + 1)).drop_last() =~= record_ids(all.take(i as int)));
                assert(record_ids(all.take(i + 1)).last() == self.active_partitions@[i as int].0@);
            }
            simulator.heal_partition(self.active_partitions[i].0.as_str());
            i += 1;
        }
        assert(all.take(all.len() as int) =~= all);
        self.active_partitions = Vec::new();
        assert(self.active() =~= Seq::<(Seq<char>, u64)>::empty());
    }
}


/// Healing a list of partitions leaves none of them in force, and every
/// other partition as it was.
pub proof fn lemma_heals_removes(m: Map<Seq<char>, Seq<Seq<char>>>, ids: Seq<Seq<char>>)
    ensures
        forall|j: int| 0 <= j < ids.len() ==> !heals(m, ids).contains_key(#[trigger] ids[j]),
        forall|id: Seq<char>| !ids.contains(id) ==> (#[trigger] heals(m, ids).contains_key(id) == m.contains_key(id))
            && (m.contains_key(id) ==> heals(m, ids)[id] == m[id]),
    decreases ids.len(),
{
    if ids.len() > 0 {
        let front = ids.drop_last();
        lemma_heals_removes(m, front);
        assert forall|j: int| 0 <= j < ids.len() implies !heals(m, ids).contains_key(#[trigger] ids[j]) by {
            if j < ids.len() - 1 {
                assert(front[j] == ids[j]);
            }
        }
        assert forall|id: Seq<char>| !ids.contains(id) implies (#[trigger] heals(m, ids).contains_key(id) == m.contains_key(id))
            && (m.contains_key(id) ==> heals(m, ids)[id] == m[id]) by {
            assert(id != ids.last());
            if front.contains(id) {
                let k = choose|k: int| 0 <= k < front.len() && front[k] == id;
                assert(ids[k] == id);
            }
            assert(heals(m, front).contains_key(id) == m.contains_key(id));
        }
    }
}

} // verus!
