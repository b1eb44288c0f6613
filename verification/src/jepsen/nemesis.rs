//! Fault-injection plans: which node pairs a network partition cuts and a
//! heal restores, and the firewall endpoints of a cut.

use vstd::prelude::*;
use vstd::string::*;
use std::collections::HashMap;
use super::model::{PartitionType, FaultType, FaultEvent};
use crate::types::RTDBError;

verus! {

broadcast use vstd::std_specs::hash::group_hash_axioms;

/// The pairs `(xs[a], y)` for `a < n` and `y` in `ys`, `a`-major.
pub open spec fn cross_pairs(xs: Seq<usize>, ys: Seq<usize>, n: nat) -> Seq<(usize, usize)>
    decreases n,
{
    if n == 0 {
        Seq::empty()
    } else {
        cross_pairs(xs, ys, (n - 1) as nat) + ys.map_values(|y: usize| (xs[n - 1], y))
    }
}

/// The pairs `(nodes[a], nodes[b])` for `a < b`, `a < n`, in order.
pub open spec fn ordered_pairs(nodes: Seq<usize>, n: nat) -> Seq<(usize, usize)>
    decreases n,
{
    if n == 0 {
        Seq::empty()
    } else {
        ordered_pairs(nodes, (n - 1) as nat) + nodes.skip(n as int).map_values(|y: usize| (nodes[n - 1], y))
    }
}

/// The size of the majority side of a majority/minority split.
pub open spec fn majority_size(n: nat) -> nat {
    n / 2 + 1
}

/// The node pairs a partition of the given type cuts: majority against
/// minority, every pair, or (for the kinds not implemented) none.
pub open spec fn partition_pairs(kind: PartitionType, nodes: Seq<usize>) -> Seq<(usize, usize)> {
    match kind {
        PartitionType::MajorityMinority => {
            let m = majority_size(nodes.len());
            cross_pairs(nodes.take(m as int), nodes.skip(m as int), m)
        },
        PartitionType::Complete => ordered_pairs(nodes, nodes.len()),
        PartitionType::Random => Seq::empty(),
        PartitionType::Ring => Seq::empty(),
    }
}

/// Appends `(x, y)` for every `y` in `ys[from..]`.
fn push_pairs(r: &mut Vec<(usize, usize)>, x: usize, ys: &Vec<usize>, from: usize)
    requires
        from <= ys@.len(),
    ensures
        final(r)@ == old(r)@ + ys@.skip(from as int).map_values(|y: usize| (x, y)),
{
    let ghost r0 = r@;
    let mut j: usize = from;
    while j < ys.len()
        invariant
            from <= j <= ys@.len(),
            r@ == r0 + ys@.subrange(from as int, j as int).map_values(|y: usize| (x, y)),
        decreases ys@.len() - j,
    {
        r.push((x, ys[j]));
        assert(ys@.subrange(from as int, j + 1) =~= ys@.subrange(from as int, j as int).push(ys@[j as int]));
        assert(r@ =~= r0 + ys@.subrange(from as int, j + 1).map_values(|y: usize| (x, y)));
        j += 1;
    }
    assert(ys@.subrange(from as int, ys@.len() as int) =~= ys@.skip(from as int));
}

/// Every pair of distinct positions, earlier node first.
pub fn heal_plan(nodes: &Vec<usize>) -> (r: Vec<(usize, usize)>)
    ensures
        r@ == ordered_pairs(nodes@, nodes@.len()),
{
    let mut r: Vec<(usize, usize)> = Vec::new();
    let mut i: usize = 0;
    while i < nodes.len()
        invariant
            i <= nodes@.len(),
            r@ == ordered_pairs(nodes@, i as nat),
        decreases nodes@.len() - i,
    {
        push_pairs(&mut r, nodes[i], nodes, i + 1);
        i += 1;
    }
    r
}

/// The node pairs whose communication a partition of the given kind
/// blocks. A majority/minority split needs at least one node.
pub fn partition_plan(kind: PartitionType, nodes: &Vec<usize>) -> (r: Vec<(usize, usize)>)
    requires
        kind == PartitionType::MajorityMinority ==> nodes@.len() > 0,
    ensures
        r@ == partition_pairs(kind, nodes@),
{
    match kind {
        PartitionType::MajorityMinority => {
            let m = nodes.len() / 2 + 1;
            let mut majority: Vec<usize> = Vec::new();
            let mut minority: Vec<usize> = Vec::new();
            let mut k: usize = 0;
            while k < nodes.len()
                invariant
                    k <= nodes@.len(),
                    m == nodes@.len() / 2 + 1,
                    majority@ == nodes@.take(if k < m { k as int } else { m as int }),
                    minority@ == (if k < m { Seq::<usize>::empty() } else { nodes@.subrange(m as int, k as int) }),
                decreases nodes@.len() - k,
            {
                if k < m {
                    majority.push(nodes[k]);
                    assert(nodes@.take(k + 1) =~= nodes@.take(k as int).push(nodes@[k as int]));
                } else {
                    minority.push(nodes[k]);
                    assert(nodes@.subrange(m as int, k + 1) =~= nodes@.subrange(m as int, k as int).push(nodes@[k as int]));
                }
                k += 1;
            }
            assert(majority@ =~= nodes@.take(m as int));
            assert(minority@ =~= nodes@.skip(m as int));
            let mut r: Vec<(usize, usize)> = Vec::new();
            let mut a: usize = 0;
            while a < majority.len()
                invariant
                    a <= majority@.len(),
                    majority@.len() == m,
                    r@ == cross_pairs(majority@, minority@, a as nat),
                decreases majority@.len() - a,
            {
                push_pairs(&mut r, majority[a], &minority, 0);
                assert(minority@.skip(0) =~= minority@);
                a += 1;
            }
            r
        },
        PartitionType::Complete => heal_plan(nodes),
        PartitionType::Random => Vec::new(),
        PartitionType::Ring => Vec::new(),
    }
}

/// The host part of `"host:port"`: everything before the first `':'`.
pub open spec fn host_of(address: Seq<char>) -> Seq<char>
    decreases address.len(),
{
    if address.len() == 0 {
        Seq::empty()
    } else if address[0] == ':' {
        Seq::empty()
    } else {
        seq![address[0]] + host_of(address.drop_first())
    }
}

/// The host part of an address.
pub fn address_host(address: &str) -> (r: String)
    ensures
        r@ == host_of(address@),
{
    let n = address.unicode_len();
    let mut r = String::new();
    let mut i: usize = 0;
    while i < n && address.get_char(i) != ':'
        invariant
            i <= n,
            n == address@.len(),
            forall|j: int| 0 <= j < i ==> address@[j] != ':',
            r@ == address@.take(i as int),
        decreases n - i,
    {
        let c = address.get_char(i);
        crate::text::push_char(&mut r, c);
        assert(address@.take(i + 1) =~= address@.take(i as int).push(c));
        i += 1;
    }
    proof {
        lemma_host_prefix(address@, i as int);
    }
    r
}

proof fn lemma_host_prefix(s: Seq<char>, i: int)
    requires
        0 <= i <= s.len(),
        forall|j: int| 0 <= j < i ==> s[j] != ':',
        i == s.len() || s[i] == ':',
    ensures
        host_of(s) == s.take(i),
    decreases s.len(),
{
    if s.len() > 0 && s[0] != ':' {
        let t = s.drop_first();
        assert forall|j: int| 0 <= j < i - 1 implies t[j] != ':' by {
            assert(t[j] == s[j + 1]);
        }
        if i < s.len() {
            assert(t[i - 1] == s[i]);
        }
        lemma_host_prefix(t, i - 1);
        assert(seq![s[0]] + t.take(i - 1) =~= s.take(i));
    } else if s.len() > 0 {
        assert(i == 0);
        assert(s.take(0) =~= Seq::<char>::empty());
    } else {
        assert(s.take(i) =~= Seq::<char>::empty());
    }
}

/// The hosts of two nodes whose traffic is to be blocked or restored, or
/// an error when either index is out of range.
pub fn firewall_hosts(addresses: &Vec<String>, node1: usize, node2: usize) -> (r: Result<(String, String), RTDBError>)
    ensures
        node1 < addresses@.len() && node2 < addresses@.len() ==> (r matches Ok((a, b))
            && a@ == host_of(addresses@[node1 as int]@) && b@ == host_of(addresses@[node2 as int]@)),
        !(node1 < addresses@.len() && node2 < addresses@.len()) ==> (r matches Err(RTDBError::Config(m))
            && m@ == "Invalid node index"@),
{
    if node1 >= addresses.len() || node2 >= addresses.len() {
        return Err(RTDBError::Config("Invalid node index".to_owned()));
    }
    Ok((address_host(addresses[node1].as_str()), address_host(addresses[node2].as_str())))
}


/// Whether no identifier occurs twice among the entries.
pub open spec fn ids_distinct<T>(s: Seq<(u128, T)>) -> bool {
    forall|i: int, j: int| 0 <= i < j < s.len() ==> s[i].0 != s[j].0
}

/// The entries as a map from identifier to value, later entries winning.
pub open spec fn entry_map<T>(s: Seq<(u128, T)>) -> Map<u128, T>
    decreases s.len(),
{
    if s.len() == 0 {
        Map::empty()
    } else {
        entry_map(s.drop_last()).insert(s.last().0, s.last().1)
    }
}

/// An identifier is mapped exactly when some entry carries it, and with
/// distinct identifiers it is mapped to that entry's value.
proof fn lemma_entry_map_index<T>(s: Seq<(u128, T)>)
    ensures
        forall|id: u128| entry_map(s).contains_key(id) <==> exists|j: int| 0 <= j < s.len() && (#[trigger] s[j]).0 == id,
        ids_distinct(s) ==> forall|j: int| 0 <= j < s.len() ==> entry_map(s)[(#[trigger] s[j]).0] == s[j].1,
    decreases s.len(),
{
    if s.len() > 0 {
        let t = s.drop_last();
        lemma_entry_map_index(t);
        assert forall|id: u128| entry_map(s).contains_key(id) <==> exists|j: int| 0 <= j < s.len() && (#[trigger] s[j]).0 == id by {
            let last = s.len() - 1;
            if id == s[last].0 {
                assert(entry_map(s).contains_key(id));
            } else {
                if entry_map(s).contains_key(id) {
                    assert(entry_map(t).contains_key(id));
                    let j = choose|j: int| 0 <= j < t.len() && (#[trigger] t[j]).0 == id;
                    assert(s[j] == t[j]);
                }
                if exists|j: int| 0 <= j < s.len() && (#[trigger] s[j]).0 == id {
                    let j = choose|j: int| 0 <= j < s.len() && (#[trigger] s[j]).0 == id;
                    assert(j < last);
                    assert(t[j] == s[j]);
                    assert(entry_map(t).contains_key(id));
                }
            }
        }
        if ids_distinct(s) {
            assert forall|j: int| 0 <= j < s.len() implies entry_map(s)[(#[trigger] s[j]).0] == s[j].1 by {
                if j < s.len() - 1 {
                    assert(t[j] == s[j]);
                    assert(ids_distinct(t));
                }
            }
        }
    }
}

/// Removing the entry at `i` removes its identifier from the map.
proof fn lemma_entry_map_remove<T>(s: Seq<(u128, T)>, i: int)
    requires
        ids_distinct(s),
        0 <= i < s.len(),
    ensures
        entry_map(s.remove(i)) == entry_map(s).remove(s[i].0),
    decreases s.len(),
{
    let t = s.drop_last();
    assert(ids_distinct(t));
    if i == s.len() - 1 {
        assert(s.remove(i) =~= t);
        lemma_entry_map_index(t);
        assert(!entry_map(t).contains_key(s[i].0)) by {
            if entry_map(t).contains_key(s[i].0) {
                let j = choose|j: int| 0 <= j < t.len() && (#[trigger] t[j]).0 == s[i].0;
                assert(s[j] == t[j]);
            }
        }
        assert(entry_map(s).remove(s[i].0) =~= entry_map(t));
    } else {
        lemma_entry_map_remove(t, i);
        assert(s.remove(i) =~= t.remove(i).push(s.last()));
        assert(s.remove(i).drop_last() =~= t.remove(i));
        assert(s[i].0 != s.last().0);
        assert(entry_map(s.remove(i)) =~= entry_map(s).remove(s[i].0));
    }
}

/// Records keyed by the identifier of the fault they describe, the
/// bookkeeping of a nemesis's active faults.
///
/// The records are kept in a vector, in the order they were made, rather
/// than in a hash map: stopping a nemesis ends its faults one by one, and
/// the commands it issues then come in that order, which a contract can
/// state only where the walk over the table has a known order. vstd gives
/// a hash map's keys no such order.
pub struct FaultTable<T> {
    entries: Vec<(u128, T)>,
}

impl<T> View for FaultTable<T> {
    type V = Map<u128, T>;

    closed spec fn view(&self) -> Map<u128, T> {
        entry_map(self.entries@)
    }
}

impl<T> FaultTable<T> {
    /// No identifier is recorded twice.
    pub closed spec fn well_formed(&self) -> bool {
        ids_distinct(self.entries@)
    }

    /// An empty table.
    pub fn new() -> (r: Self)
        ensures
            r.well_formed(),
            r@ == Map::<u128, T>::empty(),
    {
        FaultTable { entries: Vec::new() }
    }

    /// The position of the entry for `id`, if there is one.
    fn position(&self, id: u128) -> (r: Option<usize>)
        requires
            self.well_formed(),
        ensures
            match r {
                Some(i) => i < self.entries@.len() && self.entries@[i as int].0 == id,
                None => !self@.contains_key(id),
            },
    {
        proof {
            lemma_entry_map_index(self.entries@);
        }
        let mut i: usize = 0;
        while i < self.entries.len()
            invariant
                i <= self.entries@.len(),
                forall|j: int| 0 <= j < i ==> (#[trigger] self.entries@[j]).0 != id,
            decreases self.entries@.len() - i,
        {
            if self.entries[i].0 == id {
                return Some(i);
            }
            i += 1;
        }
        None
    }

    /// Takes out the record of `id`, if there is one.
    pub fn remove(&mut self, id: u128) -> (r: Option<T>)
        requires
            old(self).well_formed(),
        ensures
            final(self).well_formed(),
            final(self)@ == old(self)@.remove(id),
            r == (if old(self)@.contains_key(id) { Some(old(self)@[id]) } else { None::<T> }),
    {
        proof {
            lemma_entry_map_index(self.entries@);
        }
        match self.position(id) {
            Some(i) => {
                let ghost s = self.entries@;
                let (_, value) = self.entries.remove(i);
                proof {
                    lemma_entry_map_remove(s, i as int);
                    assert forall|a: int, b: int| 0 <= a < b < self.entries@.len() implies self.entries@[a].0 != self.entries@[b].0 by {
                        let a2 = if a < i { a } else { a + 1 };
                        let b2 = if b < i { b } else { b + 1 };
                        assert(self.entries@[a] == s[a2]);
                        assert(self.entries@[b] == s[b2]);
                    }
                }
                Some(value)
            },
            None => {
                assert(self@.remove(id) =~= self@);
                None
            },
        }
    }

    /// Records `value` under `id`, replacing any earlier record of it.
    pub fn insert(&mut self, id: u128, value: T)
        requires
            old(self).well_formed(),
        ensures
            final(self).well_formed(),
            final(self)@ == old(self)@.insert(id, value),
    {
        let _ = self.remove(id);
        let ghost s = self.entries@;
        proof {
            lemma_entry_map_index(s);
        }
        self.entries.push((id, value));
        proof {
            assert(self.entries@.drop_last() =~= s);
            assert forall|a: int, b: int| 0 <= a < b < self.entries@.len() implies self.entries@[a].0 != self.entries@[b].0 by {
                if b == s.len() {
                    assert(self.entries@[a] == s[a]);
                    if s[a].0 == id {
                        assert(entry_map(s).contains_key(id));
                    }
                } else {
                    assert(self.entries@[a] == s[a]);
                    assert(self.entries@[b] == s[b]);
                }
            }
            assert(self@ =~= old(self)@.insert(id, value));
        }
    }

    /// The recorded identifiers, in the order they were recorded.
    pub closed spec fn order(&self) -> Seq<u128> {
        self.entries@.map_values(|e: (u128, T)| e.0)
    }

    /// The recorded identifiers, each once, in the order they were
    /// recorded.
    pub fn ids(&self) -> (r: Vec<u128>)
        requires
            self.well_formed(),
        ensures
            r@ == self.order(),
            r@.no_duplicates(),
            forall|id: u128| self@.contains_key(id) <==> r@.contains(id),
    {
        proof {
            lemma_entry_map_index(self.entries@);
        }
        let mut r: Vec<u128> = Vec::new();
        let mut i: usize = 0;
        while i < self.entries.len()
            invariant
                i <= self.entries@.len(),
                ids_distinct(self.entries@),
                r@.len() == i,
                forall|j: int| 0 <= j < i ==> r@[j] == (#[trigger] self.entries@[j]).0,
            decreases self.entries@.len() - i,
        {
            r.push(self.entries[i].0);
            i += 1;
        }
        proof {
            assert forall|a: int, b: int| 0 <= a < r@.len() && 0 <= b < r@.len() && a != b implies r@[a] != r@[b] by {
                assert(r@[a] == self.entries@[a].0);
                assert(r@[b] == self.entries@[b].0);
            }
            assert(r@ =~= self.order());
            assert forall|id: u128| self@.contains_key(id) <==> r@.contains(id) by {
                if self@.contains_key(id) {
                    let j = choose|j: int| 0 <= j < self.entries@.len() && (#[trigger] self.entries@[j]).0 == id;
                    assert(r@[j] == id);
                }
                if r@.contains(id) {
                    let j = choose|j: int| 0 <= j < r@.len() && r@[j] == id;
                    assert(self.entries@[j].0 == id);
                }
            }
        }
        r
    }

    /// Whether nothing is recorded.
    pub fn is_empty(&self) -> (r: bool)
        requires
            self.well_formed(),
        ensures
            r <==> self@.dom() == Set::<u128>::empty(),
    {
        proof {
            lemma_entry_map_index(self.entries@);
            if self.entries@.len() > 0 {
                assert(self@.contains_key(self.entries@[0].0));
            }
        }
        self.entries.len() == 0
    }
}


/// What a nemesis asks of the host it runs on: a firewall rule to add or
/// remove (`iptables -A INPUT -s source -d destination -j DROP`, and the
/// same with `-D`), or a signal to send to a node's process.
#[derive(Debug, Clone)]
pub enum NemesisCommand {
    /// Drop packets from `source` to `destination`.
    Block { source: String, destination: String },
    /// Remove that rule.
    Unblock { source: String, destination: String },
    /// Send `SIGKILL`.
    Kill { pid: u32 },
    /// Send `SIGSTOP`.
    Pause { pid: u32 },
    /// Send `SIGCONT`.
    Resume { pid: u32 },
}

/// The mathematical form of a command.
pub enum CommandView {
    Block(Seq<char>, Seq<char>),
    Unblock(Seq<char>, Seq<char>),
    Kill(u32),
    Pause(u32),
    Resume(u32),
}

/// The mathematical form of a command.
pub open spec fn command_view(c: NemesisCommand) -> CommandView {
    match c {
        NemesisCommand::Block { source, destination } => CommandView::Block(source@, destination@),
        NemesisCommand::Unblock { source, destination } => CommandView::Unblock(source@, destination@),
        NemesisCommand::Kill { pid } => CommandView::Kill(pid),
        NemesisCommand::Pause { pid } => CommandView::Pause(pid),
        NemesisCommand::Resume { pid } => CommandView::Resume(pid),
    }
}

/// The mathematical form of a list of commands.
pub open spec fn commands_view(cs: Seq<NemesisCommand>) -> Seq<CommandView> {
    cs.map_values(|c: NemesisCommand| command_view(c))
}

/// The firewall rule for traffic from node `b` to node `a`, added or
/// removed.
pub open spec fn rule_command(addresses: Seq<Seq<char>>, a: usize, b: usize, block: bool) -> CommandView {
    if block {
        CommandView::Block(host_of(addresses[b as int]), host_of(addresses[a as int]))
    } else {
        CommandView::Unblock(host_of(addresses[b as int]), host_of(addresses[a as int]))
    }
}

/// The rules issued for the pairs in order, stopping at the first pair
/// that names a node without an address, and whether every pair was valid.
pub open spec fn rule_run(addresses: Seq<Seq<char>>, pairs: Seq<(usize, usize)>, block: bool) -> (Seq<CommandView>, bool)
    decreases pairs.len(),
{
    if pairs.len() == 0 {
        (Seq::empty(), true)
    } else {
        let (cs, ok) = rule_run(addresses, pairs.drop_last(), block);
        let (a, b) = pairs.last();
        if !ok {
            (cs, false)
        } else if a < addresses.len() && b < addresses.len() {
            (cs.push(rule_command(addresses, a, b, block)), true)
        } else {
            (cs, false)
        }
    }
}

/// The addresses as character sequences.
pub open spec fn addresses_view(addresses: Seq<String>) -> Seq<Seq<char>> {
    addresses.map_values(|a: String| a@)
}

/// Issues the firewall rules for the pairs in order, stopping with an
/// error at the first pair that names a node without an address.
fn apply_rules(addresses: &Vec<String>, commands: &mut Vec<NemesisCommand>, pairs: &Vec<(usize, usize)>, block: bool) -> (r: Result<(), RTDBError>)
    ensures
        commands_view(final(commands)@) == commands_view(old(commands)@) + rule_run(addresses_view(addresses@), pairs@, block).0,
        r is Ok <==> rule_run(addresses_view(addresses@), pairs@, block).1,
        r matches Err(e) ==> (e matches RTDBError::Config(m) && m@ == "Invalid node index"@),
{
    let ghost addrs = addresses_view(addresses@);
    let ghost c0 = commands_view(commands@);
    let mut i: usize = 0;
    while i < pairs.len()
        invariant
            i <= pairs@.len(),
            addrs == addresses_view(addresses@),
            c0 == commands_view(old(commands)@),
            rule_run(addrs, pairs@.take(i as int), block).1,
            commands_view(commands@) == c0 + rule_run(addrs, pairs@.take(i as int), block).0,
        decreases pairs@.len() - i,
    {
        assert(pairs@.take(i + 1).drop_last() =~= pairs@.take(i as int));
        let (a, b) = pairs[i];
        match firewall_hosts(addresses, a, b) {
            Ok((ha, hb)) => {
                let ghost before = commands@;
                let cmd = if block {
                    NemesisCommand::Block { source: hb, destination: ha }
                } else {
                    NemesisCommand::Unblock { source: hb, destination: ha }
                };
                commands.push(cmd);
                assert(commands_view(commands@) =~= commands_view(before).push(command_view(commands@.last())));
            },
            Err(e) => {
                proof {
                    lemma_rule_run_stops(addrs, pairs@, block, i as int);
                }
                return Err(e);
            },
        }
        i += 1;
    }
    assert(pairs@.take(pairs@.len() as int) =~= pairs@);
    Ok(())
}

/// Once a pair is invalid, the run stops there: the later pairs add no
/// rules and the run fails.
proof fn lemma_rule_run_stops(addresses: Seq<Seq<char>>, pairs: Seq<(usize, usize)>, block: bool, i: int)
    requires
        0 <= i < pairs.len(),
        rule_run(addresses, pairs.take(i), block).1,
        !(pairs[i].0 < addresses.len() && pairs[i].1 < addresses.len()),
    ensures
        rule_run(addresses, pairs, block) == (rule_run(addresses, pairs.take(i), block).0, false),
    decreases pairs.len(),
{
    if pairs.len() == i + 1 {
        assert(pairs.drop_last() =~= pairs.take(i));
    } else {
        assert(pairs.drop_last().take(i) =~= pairs.take(i));
        lemma_rule_run_stops(addresses, pairs.drop_last(), block, i);
    }
}

/// A network partition in force.
#[derive(Debug, Clone)]
pub struct PartitionState {
    pub partition_type: PartitionType,
    pub affected_nodes: Vec<usize>,
    /// When it was created, in nanoseconds since the Unix epoch.
    pub start_time: u64,
}

/// A nemesis that partitions the network by firewall rules between the
/// nodes' hosts.
pub struct NetworkPartitionNemesis {
    node_addresses: Vec<String>,
    active_partitions: FaultTable<PartitionState>,
    commands: Vec<NemesisCommand>,
}

impl NetworkPartitionNemesis {
    /// The bookkeeping is consistent.
    pub closed spec fn well_formed(&self) -> bool {
        self.active_partitions.well_formed()
    }

    /// The nodes' addresses (`"host:port"`).
    pub closed spec fn addresses(&self) -> Seq<Seq<char>> {
        addresses_view(self.node_addresses@)
    }

    /// The partitions in force, by fault identifier.
    pub closed spec fn active(&self) -> Map<u128, PartitionState> {
        self.active_partitions@
    }

    /// The firewall commands issued and not yet taken by the host.
    pub closed spec fn pending(&self) -> Seq<CommandView> {
        commands_view(self.commands@)
    }

    /// What injecting `fault` into `nodes` at `now` leaves (`after`) and
    /// returns (`r`): for a partition, the rules of its pairs are issued
    /// and, when every node has an address, it is recorded under some fresh
    /// identifier; any other fault is refused and changes nothing.
    pub open spec fn injected(self, after: Self, fault: FaultType, nodes: Seq<usize>, now: u64, r: Result<FaultEvent, RTDBError>) -> bool {
        match fault {
            FaultType::Partition(kind) => {
                let (rules, ok) = rule_run(self.addresses(), partition_pairs(kind, nodes), true);
                &&& after.pending() == self.pending() + rules
                &&& ok ==> (r matches Ok(event)
                    && event.fault_type == fault && event.start_time == now && event.end_time is None
                    && event.affected_nodes@ == nodes
                    && exists|id: u128, state: PartitionState| after.active() == self.active().insert(id, state)
                        && state.partition_type == kind && state.affected_nodes@ == nodes && state.start_time == now)
                &&& !ok ==> (r matches Err(RTDBError::Config(m)) && m@ == "Invalid node index"@
                    && after.active() == self.active())
            },
            _ => {
                &&& r matches Err(RTDBError::Config(m)) && m@ == "Unsupported fault type for NetworkPartitionNemesis"@
                &&& after.active() == self.active()
                &&& after.pending() == self.pending()
            },
        }
    }

    /// What recovering `fault_id` leaves and returns: the partition is
    /// dropped and the rules between every pair of its nodes removed.
    pub open spec fn recovered(self, after: Self, fault_id: u128, r: Result<(), RTDBError>) -> bool {
        &&& after.active() == self.active().remove(fault_id)
        &&& (self.active().contains_key(fault_id) ==> {
                let nodes = self.active()[fault_id].affected_nodes@;
                let (rules, ok) = rule_run(self.addresses(), ordered_pairs(nodes, nodes.len()), false);
                &&& after.pending() == self.pending() + rules
                &&& (r is Ok <==> ok)
                &&& r matches Err(e) ==> (e matches RTDBError::Config(m) && m@ == "Invalid node index"@)
            })
        &&& (!self.active().contains_key(fault_id) ==> r is Ok && after.pending() == self.pending())
    }

    /// A nemesis for the nodes at the given addresses, with no partition in
    /// force.
    pub fn new(node_addresses: Vec<String>) -> (r: Self)
        ensures
            r.well_formed(),
            r.addresses() == addresses_view(node_addresses@),
            r.active() == Map::<u128, PartitionState>::empty(),
            r.pending() == Seq::<CommandView>::empty(),
    {
        let r = NetworkPartitionNemesis { node_addresses, active_partitions: FaultTable::new(), commands: Vec::new() };
        assert(r.pending() =~= Seq::<CommandView>::empty());
        r
    }

    /// Starting needs nothing.
    pub fn start(&self) -> (r: Result<(), RTDBError>)
        ensures
            r is Ok,
    {
        Ok(())
    }

    /// Hands the issued commands to the host, in the order they were
    /// issued.
    pub fn take_commands(&mut self) -> (r: Vec<NemesisCommand>)
        ensures
            commands_view(r@) == old(self).pending(),
            final(self).pending() == Seq::<CommandView>::empty(),
            final(self).well_formed() == old(self).well_formed(),
            final(self).addresses() == old(self).addresses(),
            final(self).active() == old(self).active(),
    {
        let mut r: Vec<NemesisCommand> = Vec::new();
        std::mem::swap(&mut r, &mut self.commands);
        assert(self.pending() =~= Seq::<CommandView>::empty());
        r
    }

    /// Partitions the given nodes: the firewall rules of the partition's
    /// pairs are issued (traffic from the second node of a pair to the
    /// first is dropped) and the partition is recorded under a fresh
    /// identifier. A node without an address stops the rules there and the
    /// fault is refused; so is any fault but a partition.
    pub fn inject_fault(&mut self, fault: FaultType, nodes: Vec<usize>, now: u64) -> (r: Result<FaultEvent, RTDBError>)
        requires
            old(self).well_formed(),
            fault == FaultType::Partition(PartitionType::MajorityMinority) ==> nodes@.len() > 0,
        ensures
            final(self).well_formed(),
            final(self).addresses() == old(self).addresses(),
            old(self).injected(*final(self), fault, nodes@, now, r),
    {
        match fault {
            FaultType::Partition(kind) => {
                let fault_id = crate::random::new_uuid();
                let pairs = partition_plan(kind, &nodes);
                match apply_rules(&self.node_addresses, &mut self.commands, &pairs, true) {
                    Ok(()) => {},
                    Err(e) => return Err(e),
                }
                let state = PartitionState { partition_type: kind, affected_nodes: nodes.clone(), start_time: now };
                let ghost st = state;
                self.active_partitions.insert(fault_id, state);
                assert(self.active() == old(self).active().insert(fault_id, st));
                Ok(FaultEvent { fault_type: fault, start_time: now, end_time: None, affected_nodes: nodes })
            },
            _ => Err(RTDBError::Config("Unsupported fault type for NetworkPartitionNemesis".to_owned())),
        }
    }

    /// Ends the partition recorded under `fault_id`, if there is one: it is
    /// dropped from the record and the rules between every pair of its
    /// nodes are removed, stopping with an error at a node without an
    /// address.
    pub fn recover(&mut self, fault_id: u128) -> (r: Result<(), RTDBError>)
        requires
            old(self).well_formed(),
        ensures
            final(self).well_formed(),
            final(self).addresses() == old(self).addresses(),
            final(self).active() == old(self).active().remove(fault_id),
            old(self).recovered(*final(self), fault_id, r),
    {
        match self.active_partitions.remove(fault_id) {
            Some(state) => {
                let pairs = heal_plan(&state.affected_nodes);
                apply_rules(&self.node_addresses, &mut self.commands, &pairs, false)
            },
            None => Ok(()),
        }
    }

    /// The partitions in force, in the order they were recorded.
    pub closed spec fn order(&self) -> Seq<u128> {
        self.active_partitions.order()
    }

    /// Ends every partition in force, in the order they were recorded,
    /// stopping at the first node without an address; when every node of
    /// every partition has one, all are ended.
    pub fn stop(&mut self) -> (r: Result<(), RTDBError>)
        requires
            old(self).well_formed(),
        ensures
            final(self).well_formed(),
            final(self).addresses() == old(self).addresses(),
            final(self).active().submap_of(old(self).active()),
            ({
                let (rules, ok) = heal_run(old(self).addresses(), old(self).active(), old(self).order());
                &&& final(self).pending() == old(self).pending() + rules
                &&& (r is Ok <==> ok)
            }),
            all_addressed(old(self).addresses(), old(self).active()) ==> r is Ok,
            r is Ok ==> final(self).active() == Map::<u128, PartitionState>::empty(),
            r matches Err(e) ==> (e matches RTDBError::Config(m) && m@ == "Invalid node index"@),
    {
        let ids = self.active_partitions.ids();
        let ghost addrs = self.addresses();
        let ghost m0 = self.active();
        let ghost p0 = self.pending();
        proof {
            assert(ids@.subrange(0, ids@.len() as int) =~= ids@);
            assert(ids@.take(0) =~= Seq::<u128>::empty());
            assert forall|j: int| 0 <= j < ids@.len() implies m0.contains_key(#[trigger] ids@[j]) by {
                assert(ids@.contains(ids@[j]));
            }
            if all_addressed(addrs, m0) {
                lemma_heal_run_ok(addrs, m0, ids@);
            }
        }
        let mut i: usize = 0;
        while i < ids.len()
            invariant
                i <= ids@.len(),
                ids@ == old(self).order(),
                ids@.no_duplicates(),
                forall|k: u128| m0.contains_key(k) <==> ids@.contains(k),
                addrs == old(self).addresses(),
                m0 == old(self).active(),
                p0 == old(self).pending(),
                self.well_formed(),
                self.addresses() == addrs,
                self.active().submap_of(m0),
                forall|id: u128| #[trigger] self.active().contains_key(id) ==> ids@.subrange(i as int, ids@.len() as int).contains(id),
                forall|j: int| i <= j < ids@.len() ==> self.active().contains_key(#[trigger] ids@[j]),
                heal_run(addrs, m0, ids@.take(i as int)).1,
                self.pending() == p0 + heal_run(addrs, m0, ids@.take(i as int)).0,
                all_addressed(addrs, m0) ==> heal_run(addrs, m0, ids@).1,
            decreases ids@.len() - i,
        {
            let ghost before = self.active();
            let ghost pend = self.pending();
            let id = ids[i];
            proof {
                assert(ids@.take(i + 1).drop_last() =~= ids@.take(i as int));
                assert(ids@.take(i + 1).last() == id);
                assert(before.contains_key(id));
                assert(before.dom().contains(id));
                assert(ids@.contains(ids@[i as int]));
                assert(m0.dom().contains(id));
                assert(before[id] == m0[id]);
            }
            let res = self.recover(id);
            proof {
                assert forall|k: u128| #[trigger] self.active().dom().contains(k) implies m0.dom().contains(k) && self.active()[k] == m0[k] by {
                    assert(before.dom().contains(k));
                }
                assert(self.active().submap_of(m0));
            }
            proof {
                assert(self.pending() =~= p0 + heal_run(addrs, m0, ids@.take(i + 1)).0);
            }
            match res {
                Ok(()) => {},
                Err(e) => {
                    proof {
                        lemma_heal_run_stops(addrs, m0, ids@, i as int);
                    }
                    assert(self.active().submap_of(old(self).active()));
                    return Err(e);
                },
            }
            proof {
                assert forall|k: u128| #[trigger] self.active().contains_key(k) implies ids@.subrange(i + 1, ids@.len() as int).contains(k) by {
                    assert(before.contains_key(k) && k != id);
                    let j = choose|j: int| 0 <= j < ids@.len() - i && ids@.subrange(i as int, ids@.len() as int)[j] == k;
                    assert(j != 0);
                    assert(ids@.subrange(i + 1, ids@.len() as int)[j - 1] == k);
                }
                assert forall|j: int| i + 1 <= j < ids@.len() implies self.active().contains_key(#[trigger] ids@[j]) by {
                    assert(ids@[j] != ids@[i as int]);
                }
            }
            i += 1;
        }
        proof {
            assert(ids@.take(ids@.len() as int) =~= ids@);
            assert(self.active() =~= Map::<u128, PartitionState>::empty());
        }
        Ok(())
    }
}

/// The heal rules of the partitions recorded under `ids`, in that order,
/// stopping at the first node without an address, and whether every
/// partition was healed.
pub open spec fn heal_run(addresses: Seq<Seq<char>>, active: Map<u128, PartitionState>, ids: Seq<u128>) -> (Seq<CommandView>, bool)
    decreases ids.len(),
{
    if ids.len() == 0 {
        (Seq::empty(), true)
    } else {
        let (cs, ok) = heal_run(addresses, active, ids.drop_last());
        if !ok {
            (cs, false)
        } else {
            let nodes = active[ids.last()].affected_nodes@;
            let (rules, healed) = rule_run(addresses, ordered_pairs(nodes, nodes.len()), false);
            (cs + rules, healed)
        }
    }
}

/// Whether every node of every partition in force has an address.
pub open spec fn all_addressed(addresses: Seq<Seq<char>>, active: Map<u128, PartitionState>) -> bool {
    forall|id: u128, k: int| active.contains_key(id) && 0 <= k < active[id].affected_nodes@.len()
        ==> (#[trigger] active[id].affected_nodes@[k]) < addresses.len()
}

/// Once a heal fails, the later partitions add no rules.
proof fn lemma_heal_run_stops(addresses: Seq<Seq<char>>, active: Map<u128, PartitionState>, ids: Seq<u128>, i: int)
    requires
        0 <= i < ids.len(),
        !heal_run(addresses, active, ids.take(i + 1)).1,
    ensures
        heal_run(addresses, active, ids) == heal_run(addresses, active, ids.take(i + 1)),
    decreases ids.len(),
{
    if ids.len() == i + 1 {
        assert(ids.take(i + 1) =~= ids);
    } else {
        assert(ids.drop_last().take(i + 1) =~= ids.take(i + 1));
        lemma_heal_run_stops(addresses, active, ids.drop_last(), i);
    }
}

/// Each ordered pair of the first `n` positions pairs two of the nodes.
proof fn lemma_ordered_pairs_from_nodes(nodes: Seq<usize>, n: nat)
    requires
        n <= nodes.len(),
    ensures
        forall|k: int| 0 <= k < ordered_pairs(nodes, n).len() ==>
            nodes.contains((#[trigger] ordered_pairs(nodes, n)[k]).0) && nodes.contains(ordered_pairs(nodes, n)[k].1),
    decreases n,
{
    if n > 0 {
        let m = (n - 1) as nat;
        lemma_ordered_pairs_from_nodes(nodes, m);
        let front = ordered_pairs(nodes, m);
        let back = nodes.skip(n as int).map_values(|y: usize| (nodes[n - 1], y));
        assert(ordered_pairs(nodes, n) == front + back);
        assert forall|k: int| 0 <= k < ordered_pairs(nodes, n).len() implies
            nodes.contains((#[trigger] ordered_pairs(nodes, n)[k]).0) && nodes.contains(ordered_pairs(nodes, n)[k].1) by {
            if k < front.len() {
                assert(ordered_pairs(nodes, n)[k] == front[k]);
            } else {
                let j = k - front.len();
                assert(ordered_pairs(nodes, n)[k] == back[j]);
                assert(nodes[n - 1] == nodes[n - 1]);
                assert(nodes[n + j] == back[j].1);
            }
        }
    }
}

/// Rules between addressed nodes all go through.
proof fn lemma_rule_run_ok(addresses: Seq<Seq<char>>, pairs: Seq<(usize, usize)>, block: bool)
    requires
        forall|k: int| 0 <= k < pairs.len() ==> (#[trigger] pairs[k]).0 < addresses.len() && pairs[k].1 < addresses.len(),
    ensures
        rule_run(addresses, pairs, block).1,
    decreases pairs.len(),
{
    if pairs.len() > 0 {
        assert forall|k: int| 0 <= k < pairs.drop_last().len() implies
            (#[trigger] pairs.drop_last()[k]).0 < addresses.len() && pairs.drop_last()[k].1 < addresses.len() by {
            assert(pairs.drop_last()[k] == pairs[k]);
        }
        lemma_rule_run_ok(addresses, pairs.drop_last(), block);
        assert(pairs.last() == pairs[pairs.len() - 1]);
    }
}

/// When every node is addressed, healing the recorded partitions goes
/// through.
proof fn lemma_heal_run_ok(addresses: Seq<Seq<char>>, active: Map<u128, PartitionState>, ids: Seq<u128>)
    requires
        all_addressed(addresses, active),
        forall|j: int| 0 <= j < ids.len() ==> active.contains_key(#[trigger] ids[j]),
    ensures
        heal_run(addresses, active, ids).1,
    decreases ids.len(),
{
    if ids.len() > 0 {
        assert forall|j: int| 0 <= j < ids.drop_last().len() implies active.contains_key(#[trigger] ids.drop_last()[j]) by {
            assert(ids.drop_last()[j] == ids[j]);
        }
        lemma_heal_run_ok(addresses, active, ids.drop_last());
        let id = ids.last();
        assert(active.contains_key(ids[ids.len() - 1]));
        let nodes = active[id].affected_nodes@;
        lemma_ordered_pairs_from_nodes(nodes, nodes.len());
        let pairs = ordered_pairs(nodes, nodes.len());
        assert forall|k: int| 0 <= k < pairs.len() implies (#[trigger] pairs[k]).0 < addresses.len() && pairs[k].1 < addresses.len() by {
            let a = choose|a: int| 0 <= a < nodes.len() && nodes[a] == pairs[k].0;
            let b = choose|b: int| 0 <= b < nodes.len() && nodes[b] == pairs[k].1;
            assert(active[id].affected_nodes@[a] < addresses.len());
            assert(active[id].affected_nodes@[b] < addresses.len());
        }
        lemma_rule_run_ok(addresses, pairs, false);
    }
}


/// A signal a process nemesis sends.
#[derive(Debug, Clone, Copy, PartialEq, Eq, Structural)]
pub enum Signal {
    Kill,
    Stop,
    Continue,
}

/// The command sending `signal` to `pid`.
pub open spec fn signal_command(signal: Signal, pid: u32) -> CommandView {
    match signal {
        Signal::Kill => CommandView::Kill(pid),
        Signal::Stop => CommandView::Pause(pid),
        Signal::Continue => CommandView::Resume(pid),
    }
}

/// The signals sent to the nodes in order, skipping nodes with no known
/// process.
pub open spec fn signals(pids: Map<usize, u32>, nodes: Seq<usize>, signal: Signal) -> Seq<CommandView>
    decreases nodes.len(),
{
    if nodes.len() == 0 {
        Seq::empty()
    } else {
        let last = nodes.last();
        signals(pids, nodes.drop_last(), signal) + if pids.contains_key(last) {
            seq![signal_command(signal, pids[last])]
        } else {
            Seq::empty()
        }
    }
}

/// Sends `signal` to the process of each node that has one.
fn send_signals(pids: &HashMap<usize, u32>, commands: &mut Vec<NemesisCommand>, nodes: &Vec<usize>, signal: Signal)
    ensures
        commands_view(final(commands)@) == commands_view(old(commands)@) + signals(pids@, nodes@, signal),
{
    let ghost c0 = commands_view(commands@);
    let mut i: usize = 0;
    while i < nodes.len()
        invariant
            i <= nodes@.len(),
            c0 == commands_view(old(commands)@),
            commands_view(commands@) == c0 + signals(pids@, nodes@.take(i as int), signal),
        decreases nodes@.len() - i,
    {
        assert(nodes@.take(i + 1).drop_last() =~= nodes@.take(i as int));
        let ghost before = commands@;
        match pids.get(&nodes[i]) {
            Some(pid) => {
                let cmd = match signal {
                    Signal::Kill => NemesisCommand::Kill { pid: *pid },
                    Signal::Stop => NemesisCommand::Pause { pid: *pid },
                    Signal::Continue => NemesisCommand::Resume { pid: *pid },
                };
                commands.push(cmd);
                assert(commands_view(commands@) =~= commands_view(before).push(command_view(cmd)));
            },
            None => {},
        }
        i += 1;
    }
    assert(nodes@.take(nodes@.len() as int) =~= nodes@);
}

/// How a process fault was injected.
#[derive(Debug, Clone, Copy, PartialEq, Eq, Structural)]
pub enum ProcessFaultType {
    Kill,
    Pause,
}

/// A process fault in force.
#[derive(Debug, Clone)]
pub struct ProcessFaultState {
    pub fault_type: ProcessFaultType,
    pub affected_nodes: Vec<usize>,
    /// When it was injected, in nanoseconds since the Unix epoch.
    pub start_time: u64,
}

/// A nemesis that kills or pauses the nodes' processes.
pub struct ProcessNemesis {
    node_pids: HashMap<usize, u32>,
    active_faults: FaultTable<ProcessFaultState>,
    commands: Vec<NemesisCommand>,
}

impl ProcessNemesis {
    /// The bookkeeping is consistent.
    pub closed spec fn well_formed(&self) -> bool {
        self.active_faults.well_formed()
    }

    /// The process of each registered node.
    pub closed spec fn pids(&self) -> Map<usize, u32> {
        self.node_pids@
    }

    /// The faults in force, by fault identifier.
    pub closed spec fn active(&self) -> Map<u128, ProcessFaultState> {
        self.active_faults@
    }

    /// The signals issued and not yet taken by the host.
    pub closed spec fn pending(&self) -> Seq<CommandView> {
        commands_view(self.commands@)
    }

    /// What injecting `fault` into `nodes` at `now` leaves and returns: a
    /// crash kills and a pause stops the nodes' processes, recorded under
    /// some fresh identifier; any other fault is refused.
    pub open spec fn injected(self, after: Self, fault: FaultType, nodes: Seq<usize>, now: u64, r: Result<FaultEvent, RTDBError>) -> bool {
        &&& ((fault == FaultType::Crash || fault == FaultType::Pause) ==> {
                    let kind = if fault == FaultType::Crash { ProcessFaultType::Kill } else { ProcessFaultType::Pause };
                    let signal = if fault == FaultType::Crash { Signal::Kill } else { Signal::Stop };
                    &&& after.pending() == self.pending() + signals(self.pids(), nodes, signal)
                    &&& r matches Ok(event) && event.fault_type == fault && event.start_time == now
                        && event.end_time is None && event.affected_nodes@ == nodes
                    &&& exists|id: u128, state: ProcessFaultState| after.active() == self.active().insert(id, state)
                        && state.fault_type == kind && state.affected_nodes@ == nodes && state.start_time == now
                })
        &&& (!(fault == FaultType::Crash || fault == FaultType::Pause) ==> {
                    &&& r matches Err(RTDBError::Config(m)) && m@ == "Unsupported fault type for ProcessNemesis"@
                    &&& after.active() == self.active()
                    &&& after.pending() == self.pending()
                })
    }

    /// What recovering `fault_id` leaves: the fault is dropped, and the
    /// processes it paused are resumed.
    pub open spec fn recovered(self, after: Self, fault_id: u128) -> bool {
        &&& after.active() == self.active().remove(fault_id)
        &&& after.pending() == self.pending() + if self.active().contains_key(fault_id)
            && self.active()[fault_id].fault_type == ProcessFaultType::Pause {
            signals(self.pids(), self.active()[fault_id].affected_nodes@, Signal::Continue)
        } else {
            Seq::<CommandView>::empty()
        }
    }

    /// A nemesis with no node registered and no fault in force.
    pub fn new() -> (r: Self)
        ensures
            r.well_formed(),
            r.pids() == Map::<usize, u32>::empty(),
            r.active() == Map::<u128, ProcessFaultState>::empty(),
            r.pending() == Seq::<CommandView>::empty(),
    {
        let r = ProcessNemesis { node_pids: HashMap::new(), active_faults: FaultTable::new(), commands: Vec::new() };
        assert(r.pending() =~= Seq::<CommandView>::empty());
        r
    }

    /// Records the process of a node, replacing an earlier one.
    pub fn register_node(&mut self, node_id: usize, pid: u32)
        ensures
            final(self).pids() == old(self).pids().insert(node_id, pid),
            final(self).well_formed() == old(self).well_formed(),
            final(self).active() == old(self).active(),
            final(self).pending() == old(self).pending(),
    {
        self.node_pids.insert(node_id, pid);
    }

    /// Starting needs nothing.
    pub fn start(&self) -> (r: Result<(), RTDBError>)
        ensures
            r is Ok,
    {
        Ok(())
    }

    /// Hands the issued signals to the host, in the order they were issued.
    pub fn take_commands(&mut self) -> (r: Vec<NemesisCommand>)
        ensures
            commands_view(r@) == old(self).pending(),
            final(self).pending() == Seq::<CommandView>::empty(),
            final(self).well_formed() == old(self).well_formed(),
            final(self).pids() == old(self).pids(),
            final(self).active() == old(self).active(),
    {
        let mut r: Vec<NemesisCommand> = Vec::new();
        std::mem::swap(&mut r, &mut self.commands);
        assert(self.pending() =~= Seq::<CommandView>::empty());
        r
    }

    /// Kills (for a crash) or pauses the processes of the given nodes that
    /// have one, and records the fault under a fresh identifier; any other
    /// fault is refused.
    pub fn inject_fault(&mut self, fault: FaultType, nodes: Vec<usize>, now: u64) -> (r: Result<FaultEvent, RTDBError>)
        requires
            old(self).well_formed(),
        ensures
            final(self).well_formed(),
            final(self).pids() == old(self).pids(),
            old(self).injected(*final(self), fault, nodes@, now, r),
    {
        let fault_id = crate::random::new_uuid();
        let (kind, signal) = match fault {
            FaultType::Crash => (ProcessFaultType::Kill, Signal::Kill),
            FaultType::Pause => (ProcessFaultType::Pause, Signal::Stop),
            _ => {
                return Err(RTDBError::Config("Unsupported fault type for ProcessNemesis".to_owned()));
            },
        };
        send_signals(&self.node_pids, &mut self.commands, &nodes, signal);
        let state = ProcessFaultState { fault_type: kind, affected_nodes: nodes.clone(), start_time: now };
        let ghost st = state;
        self.active_faults.insert(fault_id, state);
        assert(self.active() == old(self).active().insert(fault_id, st));
        Ok(FaultEvent { fault_type: fault, start_time: now, end_time: None, affected_nodes: nodes })
    }

    /// Ends the fault recorded under `fault_id`, if there is one: it is
    /// dropped from the record, and paused processes are resumed (killed
    /// ones are left for the host to restart).
    pub fn recover(&mut self, fault_id: u128) -> (r: Result<(), RTDBError>)
        requires
            old(self).well_formed(),
        ensures
            final(self).well_formed(),
            r is Ok,
            final(self).pids() == old(self).pids(),
            old(self).recovered(*final(self), fault_id),
    {
        match self.active_faults.remove(fault_id) {
            Some(state) => {
                match state.fault_type {
                    ProcessFaultType::Kill => {
                        assert(self.pending() =~= old(self).pending() + Seq::<CommandView>::empty());
                    },
                    ProcessFaultType::Pause => {
                        send_signals(&self.node_pids, &mut self.commands, &state.affected_nodes, Signal::Continue);
                    },
                }
            },
            None => {
                assert(self.pending() =~= old(self).pending() + Seq::<CommandView>::empty());
            },
        }
        Ok(())
    }

    /// The faults in force, in the order they were recorded.
    pub closed spec fn order(&self) -> Seq<u128> {
        self.active_faults.order()
    }

    /// Ends every fault in force, in the order they were recorded: the
    /// processes each pause stopped are resumed.
    pub fn stop(&mut self) -> (r: Result<(), RTDBError>)
        requires
            old(self).well_formed(),
        ensures
            final(self).well_formed(),
            r is Ok,
            final(self).pids() == old(self).pids(),
            final(self).active() == Map::<u128, ProcessFaultState>::empty(),
            final(self).pending() == old(self).pending() + resume_run(old(self).pids(), old(self).active(), old(self).order()),
    {
        let ids = self.active_faults.ids();
        let ghost m0 = self.active();
        let ghost p0 = self.pending();
        proof {
            assert(ids@.subrange(0, ids@.len() as int) =~= ids@);
            assert(ids@.take(0) =~= Seq::<u128>::empty());
            assert(p0 + Seq::<CommandView>::empty() =~= p0);
            assert forall|j: int| 0 <= j < ids@.len() implies m0.contains_key(#[trigger] ids@[j]) by {
                assert(ids@.contains(ids@[j]));
            }
        }
        let mut i: usize = 0;
        while i < ids.len()
            invariant
                i <= ids@.len(),
                ids@ == old(self).order(),
                ids@.no_duplicates(),
                forall|k: u128| m0.contains_key(k) <==> ids@.contains(k),
                m0 == old(self).active(),
                p0 == old(self).pending(),
                self.well_formed(),
                self.pids() == old(self).pids(),
                self.active().submap_of(m0),
                forall|id: u128| #[trigger] self.active().contains_key(id) ==> ids@.subrange(i as int, ids@.len() as int).contains(id),
                forall|j: int| i <= j < ids@.len() ==> self.active().contains_key(#[trigger] ids@[j]),
                self.pending() == p0 + resume_run(old(self).pids(), m0, ids@.take(i as int)),
            decreases ids@.len() - i,
        {
            let ghost before = self.active();
            let id = ids[i];
            proof {
                assert(ids@.take(i + 1).drop_last() =~= ids@.take(i as int));
                assert(ids@.take(i + 1).last() == id);
                assert(before.dom().contains(id));
                assert(ids@.contains(ids@[i as int]));
                assert(m0.dom().contains(id));
                assert(before[id] == m0[id]);
            }
            let _ = self.recover(id);
            proof {
                assert(self.pending() =~= p0 + resume_run(old(self).pids(), m0, ids@.take(i + 1)));
                assert forall|k: u128| #[trigger] self.active().dom().contains(k) implies m0.dom().contains(k) && self.active()[k] == m0[k] by {
                    assert(before.dom().contains(k));
                }
                assert(self.active().submap_of(m0));
                assert forall|k: u128| #[trigger] self.active().contains_key(k) implies ids@.subrange(i + 1, ids@.len() as int).contains(k) by {
                    assert(before.contains_key(k) && k != id);
                    let j = choose|j: int| 0 <= j < ids@.len() - i && ids@.subrange(i as int, ids@.len() as int)[j] == k;
                    assert(j != 0);
                    assert(ids@.subrange(i + 1, ids@.len() as int)[j - 1] == k);
                }
                assert forall|j: int| i + 1 <= j < ids@.len() implies self.active().contains_key(#[trigger] ids@[j]) by {
                    assert(ids@[j] != ids@[i as int]);
                }
            }
            i += 1;
        }
        assert(ids@.take(ids@.len() as int) =~= ids@);
        assert(self.active() =~= Map::<u128, ProcessFaultState>::empty());
        Ok(())
    }
}

/// The resume signals of the faults recorded under `ids`, in that order:
/// a pause's processes are resumed, a kill's are left alone.
pub open spec fn resume_run(pids: Map<usize, u32>, active: Map<u128, ProcessFaultState>, ids: Seq<u128>) -> Seq<CommandView>
    decreases ids.len(),
{
    if ids.len() == 0 {
        Seq::empty()
    } else {
        let f = active[ids.last()];
        resume_run(pids, active, ids.drop_last()) + if f.fault_type == ProcessFaultType::Pause {
            signals(pids, f.affected_nodes@, Signal::Continue)
        } else {
            Seq::<CommandView>::empty()
        }
    }
}

/// The absolute value.
pub open spec fn abs_int(x: int) -> int {
    if x < 0 { -x } else { x }
}

/// `a % m` as Rust computes it on integers: the remainder of division
/// rounded toward zero, with the sign of `a`.
pub open spec fn truncated_rem(a: int, m: int) -> int {
    if a >= 0 { a % abs_int(m) } else { -((-a) % abs_int(m)) }
}

/// The clock skew drawn for a node: the random draw modulo the largest
/// skew, as Rust's `%` computes it (which overflows for `i64::MIN % -1`).
pub fn clock_skew(draw: i64, max_skew_ms: i64) -> (r: i64)
    requires
        max_skew_ms != 0,
        !(max_skew_ms == -1 && draw == i64::MIN),
    ensures
        r == truncated_rem(draw as int, max_skew_ms as int),
        abs_int(r as int) < abs_int(max_skew_ms as int),
{
    let m: u64 = if max_skew_ms < 0 { (0i128 - max_skew_ms as i128) as u64 } else { max_skew_ms as u64 };
    let a: u64 = if draw < 0 { (0i128 - draw as i128) as u64 } else { draw as u64 };
    let r: u64 = a % m;
    if draw < 0 { 0i64 - (r as i64) } else { r as i64 }
}

/// A clock skew in force.
#[derive(Debug, Clone)]
pub struct ClockSkewState {
    pub affected_nodes: Vec<usize>,
    /// The skew applied to each node, in milliseconds, in node order.
    pub skew_amounts: Vec<(usize, i64)>,
    /// When it was applied, in nanoseconds since the Unix epoch.
    pub start_time: u64,
}

/// A nemesis that skews the nodes' clocks by up to a bound.
pub struct ClockSkewNemesis {
    max_skew_ms: i64,
    active_skews: FaultTable<ClockSkewState>,
}

impl ClockSkewNemesis {
    /// The bookkeeping is consistent.
    pub closed spec fn well_formed(&self) -> bool {
        self.active_skews.well_formed()
    }

    /// The bound on a skew, in milliseconds.
    pub closed spec fn max_skew(&self) -> i64 {
        self.max_skew_ms
    }

    /// The skews in force, by fault identifier.
    pub closed spec fn active(&self) -> Map<u128, ClockSkewState> {
        self.active_skews@
    }

    /// What injecting `fault` into `nodes` at `now` leaves and returns: a
    /// clock skew gives each node a skew below the bound, recorded under
    /// some fresh identifier; any other fault is refused.
    pub open spec fn injected(self, after: Self, fault: FaultType, nodes: Seq<usize>, now: u64, r: Result<FaultEvent, RTDBError>) -> bool {
        &&& (fault == FaultType::ClockSkew ==> {
                    &&& r matches Ok(event) && event.fault_type == fault && event.start_time == now
                        && event.end_time is None && event.affected_nodes@ == nodes
                    &&& exists|id: u128, state: ClockSkewState| after.active() == self.active().insert(id, state)
                        && state.affected_nodes@ == nodes && state.start_time == now
                        && state.skew_amounts@.len() == nodes.len()
                        && forall|i: int| 0 <= i < nodes.len() ==> (#[trigger] state.skew_amounts@[i]).0 == nodes[i]
                            && abs_int(state.skew_amounts@[i].1 as int) < abs_int(self.max_skew() as int)
                })
        &&& (fault != FaultType::ClockSkew ==> {
                    &&& r matches Err(RTDBError::Config(m)) && m@ == "Unsupported fault type for ClockSkewNemesis"@
                    &&& after.active() == self.active()
                })
    }

    /// A nemesis skewing clocks by less than `max_skew_ms`, with no skew in
    /// force.
    pub fn new(max_skew_ms: i64) -> (r: Self)
        ensures
            r.well_formed(),
            r.max_skew() == max_skew_ms,
            r.active() == Map::<u128, ClockSkewState>::empty(),
    {
        ClockSkewNemesis { max_skew_ms, active_skews: FaultTable::new() }
    }

    /// Starting needs nothing.
    pub fn start(&self) -> (r: Result<(), RTDBError>)
        ensures
            r is Ok,
    {
        Ok(())
    }

    /// Skews each node's clock by a random amount below the bound (with the
    /// sign of the draw) and records the skews under a fresh identifier;
    /// any other fault is refused. The bound must be neither 0 nor -1.
    pub fn inject_fault(&mut self, fault: FaultType, nodes: Vec<usize>, now: u64) -> (r: Result<FaultEvent, RTDBError>)
        requires
            old(self).well_formed(),
            old(self).max_skew() != 0,
            old(self).max_skew() != -1,
        ensures
            final(self).well_formed(),
            final(self).max_skew() == old(self).max_skew(),
            old(self).injected(*final(self), fault, nodes@, now, r),
    {
        match fault {
            FaultType::ClockSkew => {
                let fault_id = crate::random::new_uuid();
                let mut skews: Vec<(usize, i64)> = Vec::new();
                let mut i: usize = 0;
                while i < nodes.len()
                    invariant
                        i <= nodes@.len(),
                        self.max_skew_ms != 0,
                        self.max_skew_ms != -1,
                        skews@.len() == i,
                        forall|j: int| 0 <= j < i ==> (#[trigger] skews@[j]).0 == nodes@[j]
                            && abs_int(skews@[j].1 as int) < abs_int(self.max_skew_ms as int),
                    decreases nodes@.len() - i,
                {
                    let draw = crate::random::thread_random_i64();
                    let skew = clock_skew(draw, self.max_skew_ms);
                    skews.push((nodes[i], skew));
                    i += 1;
                }
                let state = ClockSkewState { affected_nodes: nodes.clone(), skew_amounts: skews, start_time: now };
                let ghost st = state;
                self.active_skews.insert(fault_id, state);
                assert(self.active() == old(self).active().insert(fault_id, st));
                Ok(FaultEvent { fault_type: fault, start_time: now, end_time: None, affected_nodes: nodes })
            },
            _ => Err(RTDBError::Config("Unsupported fault type for ClockSkewNemesis".to_owned())),
        }
    }

    /// Ends the skew recorded under `fault_id`, if there is one.
    pub fn recover(&mut self, fault_id: u128) -> (r: Result<(), RTDBError>)
        requires
            old(self).well_formed(),
        ensures
            final(self).well_formed(),
            r is Ok,
            final(self).max_skew() == old(self).max_skew(),
            final(self).active() == old(self).active().remove(fault_id),
    {
        let _ = self.active_skews.remove(fault_id);
        Ok(())
    }

    /// Ends every skew in force.
    pub fn stop(&mut self) -> (r: Result<(), RTDBError>)
        requires
            old(self).well_formed(),
        ensures
            final(self).well_formed(),
            r is Ok,
            final(self).max_skew() == old(self).max_skew(),
            final(self).active() == Map::<u128, ClockSkewState>::empty(),
    {
        let ids = self.active_skews.ids();
        proof {
            assert(ids@.subrange(0, ids@.len() as int) =~= ids@);
        }
        let mut i: usize = 0;
        while i < ids.len()
            invariant
                i <= ids@.len(),
                self.well_formed(),
                self.max_skew() == old(self).max_skew(),
                forall|id: u128| #[trigger] self.active().contains_key(id) ==> ids@.subrange(i as int, ids@.len() as int).contains(id),
            decreases ids@.len() - i,
        {
            let ghost before = self.active();
            let id = ids[i];
            let _ = self.recover(id);
            proof {
                assert forall|k: u128| #[trigger] self.active().contains_key(k) implies ids@.subrange(i + 1, ids@.len() as int).contains(k) by {
                    assert(before.contains_key(k) && k != id);
                    let j = choose|j: int| 0 <= j < ids@.len() - i && ids@.subrange(i as int, ids@.len() as int)[j] == k;
                    assert(j != 0);
                    assert(ids@.subrange(i + 1, ids@.len() as int)[j - 1] == k);
                }
            }
            i += 1;
        }
        assert(self.active() =~= Map::<u128, ClockSkewState>::empty());
        Ok(())
    }
}


/// A nemesis that injects every kind of fault but network delay, through
/// a network, a process and a clock nemesis.
pub struct CombinedNemesis {
    network_nemesis: NetworkPartitionNemesis,
    process_nemesis: ProcessNemesis,
    clock_nemesis: ClockSkewNemesis,
}

impl CombinedNemesis {
    /// The three parts are consistent.
    pub closed spec fn well_formed(&self) -> bool {
        &&& self.network_nemesis.well_formed()
        &&& self.process_nemesis.well_formed()
        &&& self.clock_nemesis.well_formed()
    }

    /// The part that partitions the network.
    pub closed spec fn network(&self) -> NetworkPartitionNemesis {
        self.network_nemesis
    }

    /// The part that kills and pauses processes.
    pub closed spec fn process(&self) -> ProcessNemesis {
        self.process_nemesis
    }

    /// The part that skews clocks.
    pub closed spec fn clock(&self) -> ClockSkewNemesis {
        self.clock_nemesis
    }

    /// A nemesis for the nodes at the given addresses, skewing clocks by
    /// less than `max_clock_skew_ms`, with no fault in force.
    pub fn new(node_addresses: Vec<String>, max_clock_skew_ms: i64) -> (r: Self)
        ensures
            r.well_formed(),
            r.network().addresses() == addresses_view(node_addresses@),
            r.network().active() == Map::<u128, PartitionState>::empty(),
            r.network().pending() == Seq::<CommandView>::empty(),
            r.process().pids() == Map::<usize, u32>::empty(),
            r.process().active() == Map::<u128, ProcessFaultState>::empty(),
            r.process().pending() == Seq::<CommandView>::empty(),
            r.clock().max_skew() == max_clock_skew_ms,
            r.clock().active() == Map::<u128, ClockSkewState>::empty(),
    {
        CombinedNemesis {
            network_nemesis: NetworkPartitionNemesis::new(node_addresses),
            process_nemesis: ProcessNemesis::new(),
            clock_nemesis: ClockSkewNemesis::new(max_clock_skew_ms),
        }
    }

    /// Records the process of a node.
    pub fn register_node(&mut self, node_id: usize, pid: u32)
        ensures
            final(self).well_formed() == old(self).well_formed(),
            final(self).process().pids() == old(self).process().pids().insert(node_id, pid),
            final(self).process().active() == old(self).process().active(),
            final(self).process().pending() == old(self).process().pending(),
            final(self).network() == old(self).network(),
            final(self).clock() == old(self).clock(),
    {
        self.process_nemesis.register_node(node_id, pid);
    }

    /// Starts the three parts.
    pub fn start(&self) -> (r: Result<(), RTDBError>)
        ensures
            r is Ok,
    {
        self.network_nemesis.start()?;
        self.process_nemesis.start()?;
        self.clock_nemesis.start()?;
        Ok(())
    }

    /// Stops the network part, then the process part, then the clock part,
    /// ending every fault in force; a node of a partition without an
    /// address stops it in the network part.
    pub fn stop(&mut self) -> (r: Result<(), RTDBError>)
        requires
            old(self).well_formed(),
        ensures
            final(self).well_formed(),
            final(self).network().addresses() == old(self).network().addresses(),
            ({
                let net = old(self).network();
                let (rules, ok) = heal_run(net.addresses(), net.active(), net.order());
                &&& final(self).network().pending() == net.pending() + rules
                &&& ok ==> {
                    &&& r is Ok
                    &&& final(self).network().active() == Map::<u128, PartitionState>::empty()
                    &&& final(self).process().active() == Map::<u128, ProcessFaultState>::empty()
                    &&& final(self).process().pids() == old(self).process().pids()
                    &&& final(self).process().pending() == old(self).process().pending()
                        + resume_run(old(self).process().pids(), old(self).process().active(), old(self).process().order())
                    &&& final(self).clock().active() == Map::<u128, ClockSkewState>::empty()
                    &&& final(self).clock().max_skew() == old(self).clock().max_skew()
                }
                &&& !ok ==> {
                    &&& r matches Err(RTDBError::Config(m)) && m@ == "Invalid node index"@
                    &&& final(self).process() == old(self).process()
                    &&& final(self).clock() == old(self).clock()
                }
            }),
            all_addressed(old(self).network().addresses(), old(self).network().active()) ==> r is Ok,
    {
        self.network_nemesis.stop()?;
        self.process_nemesis.stop()?;
        self.clock_nemesis.stop()?;
        Ok(())
    }

    /// Hands the host the issued commands: the network part's, then the
    /// process part's.
    pub fn take_commands(&mut self) -> (r: Vec<NemesisCommand>)
        ensures
            commands_view(r@) == old(self).network().pending() + old(self).process().pending(),
            final(self).network().pending() == Seq::<CommandView>::empty(),
            final(self).process().pending() == Seq::<CommandView>::empty(),
            final(self).well_formed() == old(self).well_formed(),
            final(self).network().active() == old(self).network().active(),
            final(self).network().addresses() == old(self).network().addresses(),
            final(self).process().active() == old(self).process().active(),
            final(self).process().pids() == old(self).process().pids(),
            final(self).clock() == old(self).clock(),
    {
        let mut r = self.network_nemesis.take_commands();
        let mut more = self.process_nemesis.take_commands();
        let ghost (a, b) = (r@, more@);
        r.append(&mut more);
        assert(commands_view(r@) =~= commands_view(a) + commands_view(b));
        r
    }

    /// Injects a partition through the network part, a crash or pause
    /// through the process part and a clock skew through the clock part;
    /// network delay is refused.
    pub fn inject_fault(&mut self, fault: FaultType, nodes: Vec<usize>, now: u64) -> (r: Result<FaultEvent, RTDBError>)
        requires
            old(self).well_formed(),
            fault == FaultType::Partition(PartitionType::MajorityMinority) ==> nodes@.len() > 0,
            fault == FaultType::ClockSkew ==> old(self).clock().max_skew() != 0 && old(self).clock().max_skew() != -1,
        ensures
            final(self).well_formed(),
            match fault {
                FaultType::Partition(_) => {
                    &&& old(self).network().injected(final(self).network(), fault, nodes@, now, r)
                    &&& final(self).network().addresses() == old(self).network().addresses()
                    &&& final(self).process() == old(self).process()
                    &&& final(self).clock() == old(self).clock()
                },
                FaultType::Crash | FaultType::Pause => {
                    &&& old(self).process().injected(final(self).process(), fault, nodes@, now, r)
                    &&& final(self).process().pids() == old(self).process().pids()
                    &&& final(self).network() == old(self).network()
                    &&& final(self).clock() == old(self).clock()
                },
                FaultType::ClockSkew => {
                    &&& old(self).clock().injected(final(self).clock(), fault, nodes@, now, r)
                    &&& final(self).clock().max_skew() == old(self).clock().max_skew()
                    &&& final(self).network() == old(self).network()
                    &&& final(self).process() == old(self).process()
                },
                FaultType::Delay => {
                    &&& r matches Err(RTDBError::Config(m)) && m@ == "Unsupported fault type"@
                    &&& final(self).network() == old(self).network()
                    &&& final(self).process() == old(self).process()
                    &&& final(self).clock() == old(self).clock()
                },
            },
    {
        match fault {
            FaultType::Partition(_) => self.network_nemesis.inject_fault(fault, nodes, now),
            FaultType::Crash | FaultType::Pause => self.process_nemesis.inject_fault(fault, nodes, now),
            FaultType::ClockSkew => self.clock_nemesis.inject_fault(fault, nodes, now),
            FaultType::Delay => Err(RTDBError::Config("Unsupported fault type".to_owned())),
        }
    }

    /// Recovers `fault_id` in all three parts (only one can hold it),
    /// whatever they report.
    pub fn recover(&mut self, fault_id: u128) -> (r: Result<(), RTDBError>)
        requires
            old(self).well_formed(),
        ensures
            final(self).well_formed(),
            r is Ok,
            exists|r1: Result<(), RTDBError>| old(self).network().recovered(final(self).network(), fault_id, r1),
            final(self).network().addresses() == old(self).network().addresses(),
            old(self).process().recovered(final(self).process(), fault_id),
            final(self).process().pids() == old(self).process().pids(),
            final(self).clock().active() == old(self).clock().active().remove(fault_id),
            final(self).clock().max_skew() == old(self).clock().max_skew(),
    {
        let r1 = self.network_nemesis.recover(fault_id);
        let _ = self.process_nemesis.recover(fault_id);
        let _ = self.clock_nemesis.recover(fault_id);
        assert(old(self).network().recovered(self.network(), fault_id, r1));
        Ok(())
    }
}


/// Recovering the fault an injection has just recorded under a fresh
/// identifier leaves the record of faults in force as it was before the
/// injection (the `active` maps of `injected` and `recovered`).
pub proof fn lemma_recover_undoes_inject<T>(active: Map<u128, T>, id: u128, state: T)
    requires
        !active.contains_key(id),
    ensures
        active.insert(id, state).remove(id) == active,
{
    assert(active.insert(id, state).remove(id) =~= active);
}

/// Each pair of a majority node among the first `k` with a minority node
/// is an ordered pair of the nodes.
proof fn lemma_cross_in_ordered(nodes: Seq<usize>, m: nat, k: nat)
    requires
        k <= m <= nodes.len(),
    ensures
        forall|i: int| 0 <= i < cross_pairs(nodes.take(m as int), nodes.skip(m as int), k).len()
            ==> ordered_pairs(nodes, nodes.len()).contains(#[trigger] cross_pairs(nodes.take(m as int), nodes.skip(m as int), k)[i]),
    decreases k,
{
    if k > 0 {
        let xs = nodes.take(m as int);
        let ys = nodes.skip(m as int);
        let c = (k - 1) as nat;
        lemma_cross_in_ordered(nodes, m, c);
        let front = cross_pairs(xs, ys, c);
        let back = ys.map_values(|y: usize| (xs[k - 1], y));
        assert(cross_pairs(xs, ys, k) == front + back);
        assert forall|i: int| 0 <= i < cross_pairs(xs, ys, k).len()
            implies ordered_pairs(nodes, nodes.len()).contains(#[trigger] cross_pairs(xs, ys, k)[i]) by {
            if i < front.len() {
                assert(cross_pairs(xs, ys, k)[i] == front[i]);
            } else {
                let j = i - front.len();
                assert(cross_pairs(xs, ys, k)[i] == back[j]);
                assert(back[j] == (nodes[k - 1], nodes[m + j]));
                lemma_ordered_pairs_member(nodes, nodes.len(), k - 1, m + j);
            }
        }
    }
}

/// `ordered_pairs(nodes, n)` pairs `nodes[a]` with every later node, for
/// each `a < n`.
proof fn lemma_ordered_pairs_member(nodes: Seq<usize>, n: nat, a: int, b: int)
    requires
        n <= nodes.len(),
        0 <= a < n,
        a < b < nodes.len(),
    ensures
        ordered_pairs(nodes, n).contains((nodes[a], nodes[b])),
    decreases n,
{
    let m = (n - 1) as nat;
    let front = ordered_pairs(nodes, m);
    let back = nodes.skip(n as int).map_values(|y: usize| (nodes[n - 1], y));
    assert(ordered_pairs(nodes, n) == front + back);
    if a < m {
        lemma_ordered_pairs_member(nodes, m, a, b);
        let k = choose|k: int| 0 <= k < front.len() && front[k] == (nodes[a], nodes[b]);
        assert(ordered_pairs(nodes, n)[k] == (nodes[a], nodes[b]));
    } else {
        let k = b - n;
        assert(back[k] == (nodes[a], nodes[b]));
        assert(ordered_pairs(nodes, n)[front.len() + k] == (nodes[a], nodes[b]));
    }
}

/// Healing a partition restores every link the partition cut: each pair
/// a partition blocks is among the pairs a heal of the same nodes
/// unblocks.
pub proof fn lemma_heal_covers_partition(kind: PartitionType, nodes: Seq<usize>)
    requires
        kind == PartitionType::MajorityMinority ==> nodes.len() > 0,
    ensures
        forall|i: int| 0 <= i < partition_pairs(kind, nodes).len()
            ==> ordered_pairs(nodes, nodes.len()).contains(#[trigger] partition_pairs(kind, nodes)[i]),
{
    match kind {
        PartitionType::MajorityMinority => {
            lemma_cross_in_ordered(nodes, majority_size(nodes.len()), majority_size(nodes.len()));
        },
        PartitionType::Complete => {
            assert forall|i: int| 0 <= i < partition_pairs(kind, nodes).len()
                implies ordered_pairs(nodes, nodes.len()).contains(#[trigger] partition_pairs(kind, nodes)[i]) by {
                assert(ordered_pairs(nodes, nodes.len())[i] == partition_pairs(kind, nodes)[i]);
            }
        },
        _ => {},
    }
}

/// The resume command for a pause command (other commands stay).
pub open spec fn resume_of(c: CommandView) -> CommandView {
    match c {
        CommandView::Pause(pid) => CommandView::Resume(pid),
        _ => c,
    }
}

/// Recovering a pause resumes exactly the processes the pause stopped, in
/// the same order, as long as no node was registered in between.
pub proof fn lemma_resume_matches_pause(pids: Map<usize, u32>, nodes: Seq<usize>)
    ensures
        signals(pids, nodes, Signal::Continue) == signals(pids, nodes, Signal::Stop).map_values(|c: CommandView| resume_of(c)),
    decreases nodes.len(),
{
    if nodes.len() > 0 {
        lemma_resume_matches_pause(pids, nodes.drop_last());
        let a = signals(pids, nodes.drop_last(), Signal::Stop);
        let last = nodes.last();
        let b = if pids.contains_key(last) { seq![signal_command(Signal::Stop, pids[last])] } else { Seq::<CommandView>::empty() };
        assert((a + b).map_values(|c: CommandView| resume_of(c))
            =~= a.map_values(|c: CommandView| resume_of(c)) + b.map_values(|c: CommandView| resume_of(c)));
        if pids.contains_key(last) {
            assert(b.map_values(|c: CommandView| resume_of(c)) =~= seq![signal_command(Signal::Continue, pids[last])]);
        } else {
            assert(b.map_values(|c: CommandView| resume_of(c)) =~= Seq::<CommandView>::empty());
        }
    } else {
        assert(signals(pids, nodes, Signal::Stop).map_values(|c: CommandView| resume_of(c)) =~= Seq::<CommandView>::empty());
    }
}

} // verus!
