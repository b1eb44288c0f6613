//! Bookkeeping of simulated network partitions.

use vstd::prelude::*;
use crate::text::{decimal, push_decimal};
use crate::jepsen::checkers::contains_string;

verus! {

/// The partitions in force, each a set of nodes cut off from the rest, and
/// a running count of partitions created minus partitions healed.
pub struct NetworkPartitionSimulator {
    partitions: Vec<(String, Vec<String>)>,
    active_partitions: u64,
}

/// The nodes of each partition, by partition identifier.
pub open spec fn partition_view(ps: Seq<(String, Vec<String>)>) -> Map<Seq<char>, Seq<Seq<char>>>
    decreases ps.len(),
{
    if ps.len() == 0 {
        Map::empty()
    } else {
        partition_view(ps.drop_last()).insert(ps.last().0@, ps.last().1@.map_values(|n: String| n@))
    }
}

/// Two nodes can talk when no partition holds exactly one of them.
pub open spec fn communicates(m: Map<Seq<char>, Seq<Seq<char>>>, a: Seq<char>, b: Seq<char>) -> bool {
    forall|id: Seq<char>| #[trigger] m.contains_key(id) ==> (m[id].contains(a) <==> m[id].contains(b))
}

/// The identifier of a partition created at `nanos` nanoseconds since the
/// Unix epoch.
pub open spec fn partition_name(nanos: u64) -> Seq<char> {
    "partition_"@ + decimal(nanos as nat)
}

impl NetworkPartitionSimulator {
    /// Partition identifiers are distinct.
    pub closed spec fn well_formed(&self) -> bool {
        forall|a: int, b: int| 0 <= a < b < self.partitions@.len()
            ==> self.partitions@[a].0@ != self.partitions@[b].0@
    }

    /// The partitions in force.
    pub closed spec fn view_partitions(&self) -> Map<Seq<char>, Seq<Seq<char>>> {
        partition_view(self.partitions@)
    }

    /// Partitions created minus partitions healed, wrapping like a 64-bit
    /// counter.
    pub closed spec fn active(&self) -> u64 {
        self.active_partitions
    }

    /// No partitions.
    pub fn new() -> (r: Self)
        ensures
            r.well_formed(),
            r.view_partitions() == Map::<Seq<char>, Seq<Seq<char>>>::empty(),
            r.active() == 0,
    {
        NetworkPartitionSimulator { partitions: Vec::new(), active_partitions: 0 }
    }

    /// The running count of partitions created minus partitions healed.
    pub fn active_partitions(&self) -> (r: u64)
        ensures
            r == self.active(),
    {
        self.active_partitions
    }

    /// Cuts `nodes` off from the rest under the identifier derived from the
    /// creation time (replacing a partition of the same identifier), and
    /// returns the identifier.
    pub fn create_partition(&mut self, nanos: u64, nodes: Vec<String>) -> (r: String)
        requires
            old(self).well_formed(),
        ensures
            final(self).well_formed(),
            r@ == partition_name(nanos),
            final(self).view_partitions() == old(self).view_partitions().insert(r@, nodes@.map_values(|n: String| n@)),
            final(self).active() == old(self).active().wrapping_add(1),
    {
        let mut id = "partition_".to_owned();
        push_decimal(&mut id, nanos);
        self.remove_entry(&id);
        let ghost before = self.partitions@;
        self.partitions.push((id.clone(), nodes));
        proof {
            assert(self.partitions@.drop_last() =~= before);
            assert forall|a: int, b: int| 0 <= a < b < self.partitions@.len()
                implies self.partitions@[a].0@ != self.partitions@[b].0@ by {
                if b == before.len() {
                    assert(self.partitions@[a] == before[a]);
                    lemma_view_contains(before, a);
                }
            }
        }
        self.active_partitions = self.active_partitions.wrapping_add(1);
        id
    }

    /// Removes the partition `partition_id` if it is in force; the count
    /// goes down only then.
    pub fn heal_partition(&mut self, partition_id: &str)
        requires
            old(self).well_formed(),
        ensures
            final(self).well_formed(),
            final(self).view_partitions() == old(self).view_partitions().remove(partition_id@),
            final(self).active() == (if old(self).view_partitions().contains_key(partition_id@) {
                old(self).active().wrapping_sub(1)
            } else {
                old(self).active()
            }),
    {
        let id = partition_id.to_owned();
        let removed = self.remove_entry(&id);
        if removed {
            self.active_partitions = self.active_partitions.wrapping_sub(1);
        }
    }

    /// Whether `node1` and `node2` are on the same side of every partition.
    pub fn can_communicate(&self, node1: &str, node2: &str) -> (r: bool)
        requires
            self.well_formed(),
        ensures
            r == communicates(self.view_partitions(), node1@, node2@),
    {
        let a = node1.to_owned();
        let b = node2.to_owned();
        let mut i: usize = 0;
        while i < self.partitions.len()
            invariant
                i <= self.partitions@.len(),
                self.well_formed(),
                a@ == node1@,
                b@ == node2@,
                forall|j: int| 0 <= j < i ==> (
                    self.partitions@[j].1@.map_values(|n: String| n@).contains(a@)
                    <==> self.partitions@[j].1@.map_values(|n: String| n@).contains(b@)),
            decreases self.partitions@.len() - i,
        {
            let nodes = &self.partitions[i].1;
            if contains_string(nodes, &a) != contains_string(nodes, &b) {
                proof {
                    lemma_view_entry(self.partitions@, i as int);
                }
                return false;
            }
            i += 1;
        }
        proof {
            let m = self.view_partitions();
            assert forall|id: Seq<char>| #[trigger] m.contains_key(id) implies (m[id].contains(a@) <==> m[id].contains(b@)) by {
                let j = lemma_view_key(self.partitions@, id);
                lemma_view_entry(self.partitions@, j);
            }
        }
        true
    }

    /// Removes the entry for `id`, saying whether there was one.
    fn remove_entry(&mut self, id: &String) -> (r: bool)
        requires
            old(self).well_formed(),
        ensures
            final(self).well_formed(),
            final(self).active() == old(self).active(),
            final(self).view_partitions() == old(self).view_partitions().remove(id@),
            r == old(self).view_partitions().contains_key(id@),
    {
        let mut i: usize = 0;
        while i < self.partitions.len()
            invariant
                i <= self.partitions@.len(),
                self.partitions@ == old(self).partitions@,
                self.active_partitions == old(self).active_partitions,
                old(self).well_formed(),
                forall|j: int| 0 <= j < i ==> self.partitions@[j].0@ != id@,
            decreases self.partitions@.len() - i,
        {
            if self.partitions[i].0 == *id {
                let ghost before = self.partitions@;
                proof {
                    lemma_view_remove(before, i as int);
                }
                self.partitions.remove(i);
                return true;
            }
            i += 1;
        }
        proof {
            lemma_view_absent(self.partitions@, id@);
            assert(self.view_partitions().remove(id@) =~= self.view_partitions());
        }
        false
    }
}

/// The key of entry `a` is in the view.
proof fn lemma_view_contains(ps: Seq<(String, Vec<String>)>, a: int)
    requires
        0 <= a < ps.len(),
    ensures
        partition_view(ps).contains_key(ps[a].0@),
    decreases ps.len(),
{
    if a < ps.len() - 1 {
        lemma_view_contains(ps.drop_last(), a);
    }
}

/// With distinct identifiers, the view maps entry `j`'s identifier to its
/// nodes.
proof fn lemma_view_entry(ps: Seq<(String, Vec<String>)>, j: int)
    requires
        0 <= j < ps.len(),
        forall|a: int, b: int| 0 <= a < b < ps.len() ==> ps[a].0@ != ps[b].0@,
    ensures
        partition_view(ps).contains_key(ps[j].0@),
        partition_view(ps)[ps[j].0@] == ps[j].1@.map_values(|n: String| n@),
    decreases ps.len(),
{
    if j < ps.len() - 1 {
        lemma_view_entry(ps.drop_last(), j);
        assert(ps.drop_last()[j] == ps[j]);
    }
}

/// Every identifier in the view belongs to some entry.
proof fn lemma_view_key(ps: Seq<(String, Vec<String>)>, id: Seq<char>) -> (j: int)
    requires
        partition_view(ps).contains_key(id),
    ensures
        0 <= j < ps.len(),
        ps[j].0@ == id,
    decreases ps.len(),
{
    if ps.last().0@ == id {
        (ps.len() - 1) as int
    } else {
        let j = lemma_view_key(ps.drop_last(), id);
        assert(ps.drop_last()[j] == ps[j]);
        j
    }
}

/// An identifier held by no entry is not in the view.
proof fn lemma_view_absent(ps: Seq<(String, Vec<String>)>, id: Seq<char>)
    requires
        forall|j: int| 0 <= j < ps.len() ==> ps[j].0@ != id,
    ensures
        !partition_view(ps).contains_key(id),
    decreases ps.len(),
{
    if ps.len() > 0 {
        assert forall|j: int| 0 <= j < ps.drop_last().len() implies ps.drop_last()[j].0@ != id by {
            assert(ps.drop_last()[j] == ps[j]);
        }
        lemma_view_absent(ps.drop_last(), id);
    }
}

/// Removing entry `i` removes its identifier from the view.
proof fn lemma_view_remove(ps: Seq<(String, Vec<String>)>, i: int)
    requires
        0 <= i < ps.len(),
        forall|a: int, b: int| 0 <= a < b < ps.len() ==> ps[a].0@ != ps[b].0@,
    ensures
        partition_view(ps.remove(i)) == partition_view(ps).remove(ps[i].0@),
        partition_view(ps).contains_key(ps[i].0@),
        forall|a: int, b: int| 0 <= a < b < ps.remove(i).len() ==> ps.remove(i)[a].0@ != ps.remove(i)[b].0@,
    decreases ps.len(),
{
    lemma_view_contains(ps, i);
    let q = ps.remove(i);
    assert forall|a: int, b: int| 0 <= a < b < q.len() implies q[a].0@ != q[b].0@ by {
        if b < i {
            assert(q[a] == ps[a] && q[b] == ps[b]);
        } else if a < i {
            assert(q[a] == ps[a] && q[b] == ps[b + 1]);
        } else {
            assert(q[a] == ps[a + 1] && q[b] == ps[b + 1]);
        }
    }
    if i == ps.len() - 1 {
        assert(q =~= ps.drop_last());
        assert forall|j: int| 0 <= j < q.len() implies q[j].0@ != ps[i].0@ by {
            assert(q[j] == ps[j]);
        }
        lemma_view_absent(q, ps[i].0@);
        assert(partition_view(q) =~= partition_view(ps).remove(ps[i].0@));
    } else {
        let d = ps.drop_last();
        assert forall|a: int, b: int| 0 <= a < b < d.len() implies d[a].0@ != d[b].0@ by {
            assert(d[a] == ps[a] && d[b] == ps[b]);
        }
        lemma_view_remove(d, i);
        assert(d.remove(i) =~= q.drop_last());
        assert(q.last() == ps.last());
        assert(d[i] == ps[i]);
        assert(partition_view(q) =~= partition_view(ps).remove(ps[i].0@));
    }
}

/// Creating a partition under a new identifier and healing it leaves the
/// partitions in force as they were.
pub proof fn lemma_create_then_heal(
    m: Map<Seq<char>, Seq<Seq<char>>>,
    id: Seq<char>,
    nodes: Seq<Seq<char>>,
)
    requires
        !m.contains_key(id),
    ensures
        m.insert(id, nodes).remove(id) == m,
{
    assert(m.insert(id, nodes).remove(id) =~= m);
}

/// With no partition in force every pair of nodes can talk, and a node
/// inside a partition cannot reach one outside it.
pub proof fn lemma_partition_separates(
    m: Map<Seq<char>, Seq<Seq<char>>>,
    id: Seq<char>,
    a: Seq<char>,
    b: Seq<char>,
)
    ensures
        m == Map::<Seq<char>, Seq<Seq<char>>>::empty() ==> communicates(m, a, b),
        m.contains_key(id) && m[id].contains(a) && !m[id].contains(b) ==> !communicates(m, a, b),
{
}

} // verus!
