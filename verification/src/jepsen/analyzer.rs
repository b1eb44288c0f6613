//! Timed vector-store operations and the analyzer that looks for
//! read-after-write anomalies among them.
//!
//! Times are nanoseconds on a monotonic clock; vector components are kept
//! as the bit patterns of their `f32` values.

use vstd::prelude::*;
use crate::sorting::{before, ordered_by_time, in_range, same_members, time_order, sort_by_time};
use super::history::positions;
use super::model::{ConsistencyModel, ViolationType};

verus! {

/// An operation against the vector store.
#[derive(Debug)]
pub enum JepsenOperation {
    /// Read a vector by identifier.
    Read { id: u64, vector_id: String },
    /// Write a vector.
    Write { id: u64, vector_id: String, vector: Vec<u32> },
    /// Nearest-neighbour search.
    Search { id: u64, query: Vec<u32>, limit: usize },
    /// Delete a vector.
    Delete { id: u64, vector_id: String },
    /// Replace a vector if it still holds the expected value.
    CompareAndSwap { id: u64, vector_id: String, expected: Vec<u32>, new: Vec<u32> },
}

/// An executed operation with its timing and outcome.
#[derive(Debug)]
pub struct TimedOperationResult {
    pub operation: JepsenOperation,
    /// When the operation was started.
    pub start_time: u64,
    /// When it finished.
    pub end_time: u64,
    pub success: bool,
    pub error: Option<String>,
    pub result_data: Option<Vec<u8>>,
    pub node_id: String,
}

/// The vector an operation addresses; a search addresses none.
pub open spec fn vector_id_of(op: JepsenOperation) -> Option<Seq<char>> {
    match op {
        JepsenOperation::Read { vector_id, .. } => Some(vector_id@),
        JepsenOperation::Write { vector_id, .. } => Some(vector_id@),
        JepsenOperation::Search { .. } => None,
        JepsenOperation::Delete { vector_id, .. } => Some(vector_id@),
        JepsenOperation::CompareAndSwap { vector_id, .. } => Some(vector_id@),
    }
}

/// `b` is a copy of `a`: the same variant with equal fields (vectors
/// compared by contents).
pub open spec fn same_operation(a: JepsenOperation, b: JepsenOperation) -> bool {
    match (a, b) {
        (JepsenOperation::Read { id: i1, vector_id: v1 }, JepsenOperation::Read { id: i2, vector_id: v2 }) =>
            i1 == i2 && v1 == v2,
        (JepsenOperation::Write { id: i1, vector_id: v1, vector: x1 }, JepsenOperation::Write { id: i2, vector_id: v2, vector: x2 }) =>
            i1 == i2 && v1 == v2 && x1@ == x2@,
        (JepsenOperation::Search { id: i1, query: q1, limit: l1 }, JepsenOperation::Search { id: i2, query: q2, limit: l2 }) =>
            i1 == i2 && q1@ == q2@ && l1 == l2,
        (JepsenOperation::Delete { id: i1, vector_id: v1 }, JepsenOperation::Delete { id: i2, vector_id: v2 }) =>
            i1 == i2 && v1 == v2,
        (JepsenOperation::CompareAndSwap { id: i1, vector_id: v1, expected: e1, new: n1 },
         JepsenOperation::CompareAndSwap { id: i2, vector_id: v2, expected: e2, new: n2 }) =>
            i1 == i2 && v1 == v2 && e1@ == e2@ && n1@ == n2@,
        _ => false,
    }
}

/// `b` is a copy of `a`.
pub open spec fn same_result(a: TimedOperationResult, b: TimedOperationResult) -> bool {
    &&& same_operation(a.operation, b.operation)
    &&& a.start_time == b.start_time
    &&& a.end_time == b.end_time
    &&& a.success == b.success
    &&& a.error == b.error
    &&& (a.result_data is Some <==> b.result_data is Some)
    &&& (a.result_data is Some ==> a.result_data->0@ == b.result_data->0@)
    &&& a.node_id == b.node_id
}

impl JepsenOperation {
    /// A copy of the operation.
    pub fn copy(&self) -> (r: JepsenOperation)
        ensures
            same_operation(*self, r),
    {
        match self {
            JepsenOperation::Read { id, vector_id } => JepsenOperation::Read { id: *id, vector_id: vector_id.clone() },
            JepsenOperation::Write { id, vector_id, vector } =>
                JepsenOperation::Write { id: *id, vector_id: vector_id.clone(), vector: vector.clone() },
            JepsenOperation::Search { id, query, limit } =>
                JepsenOperation::Search { id: *id, query: query.clone(), limit: *limit },
            JepsenOperation::Delete { id, vector_id } => JepsenOperation::Delete { id: *id, vector_id: vector_id.clone() },
            JepsenOperation::CompareAndSwap { id, vector_id, expected, new } =>
                JepsenOperation::CompareAndSwap {
                    id: *id,
                    vector_id: vector_id.clone(),
                    expected: expected.clone(),
                    new: new.clone(),
                },
        }
    }

    /// The vector the operation addresses; `None` for a search.
    pub fn vector_id(&self) -> (r: Option<&String>)
        ensures
            match r {
                Some(v) => vector_id_of(*self) == Some(v@),
                None => vector_id_of(*self) is None,
            },
    {
        match self {
            JepsenOperation::Read { vector_id, .. } => Some(vector_id),
            JepsenOperation::Write { vector_id, .. } => Some(vector_id),
            JepsenOperation::Search { .. } => None,
            JepsenOperation::Delete { vector_id, .. } => Some(vector_id),
            JepsenOperation::CompareAndSwap { vector_id, .. } => Some(vector_id),
        }
    }
}

impl TimedOperationResult {
    /// A copy of the result.
    pub fn copy(&self) -> (r: TimedOperationResult)
        ensures
            same_result(*self, r),
    {
        let error = match &self.error {
            Some(e) => Some(e.clone()),
            None => None,
        };
        let result_data = match &self.result_data {
            Some(d) => Some(d.clone()),
            None => None,
        };
        proof {
            if self.result_data is Some {
                assert(result_data->0@ =~= self.result_data->0@);
            }
        }
        TimedOperationResult {
            operation: self.operation.copy(),
            start_time: self.start_time,
            end_time: self.end_time,
            success: self.success,
            error,
            result_data,
            node_id: self.node_id.clone(),
        }
    }
}

/// Start times, by position.
pub open spec fn start_times(s: Seq<TimedOperationResult>) -> Seq<u64> {
    Seq::new(s.len(), |i: int| s[i].start_time)
}

/// The results stably sorted by start time (ties keep their order).
pub open spec fn stable_by_start(s: Seq<TimedOperationResult>) -> Seq<TimedOperationResult> {
    time_order(start_times(s), positions(s.len())).map_values(|j: usize| s[j as int])
}

/// Sorts the results by start time, keeping ties in their order.
pub fn stable_sort_by_start(v: Vec<TimedOperationResult>) -> (r: Vec<TimedOperationResult>)
    ensures
        r@ == stable_by_start(v@),
{
    let ghost s = v@;
    let ghost times = start_times(s);
    let len = v.len();
    let mut src = v;
    let mut r: Vec<TimedOperationResult> = Vec::new();
    let ghost mut g: Seq<usize> = Seq::empty();
    let mut k: usize = 0;
    while k < len
        invariant
            len == s.len(),
            k <= len,
            times == start_times(s),
            src@ == s.skip(k as int),
            r@.len() == k,
            g.len() == k,
            forall|a: int| 0 <= a < k ==> r@[a] == s[g[a] as int],
            forall|y: usize| g.contains(y) <==> y < k,
            ordered_by_time(times, g),
            in_range(times, g),
        decreases len - k,
    {
        assert(src@[0] == s[k as int]);
        let x = src.remove(0);
        assert(src@ =~= s.skip(k + 1));
        proof {
            assert forall|a: int| 0 <= a < g.len() implies g[a] < k by {
                assert(g.contains(g[a]));
            }
        }
        let mut p: usize = 0;
        while p < r.len() && r[p].start_time <= x.start_time
            invariant
                p <= r@.len(),
                r@.len() == g.len(),
                k < s.len(),
                x == s[k as int],
                times == start_times(s),
                forall|a: int| 0 <= a < r@.len() ==> r@[a] == s[g[a] as int],
                forall|a: int| 0 <= a < g.len() ==> g[a] < k,
                forall|a: int| 0 <= a < p ==> before(times, g[a] as int, k as int),
            decreases r@.len() - p,
        {
            assert(times[g[p as int] as int] == r@[p as int].start_time);
            p += 1;
        }
        let ghost old_r = r@;
        let ghost old_g = g;
        r.insert(p, x);
        proof {
            g = old_g.insert(p as int, k as usize);
            old_g.insert_ensures(p as int, k as usize);
            old_r.insert_ensures(p as int, x);
            assert(times[k as int] == x.start_time);
            if p < old_g.len() {
                assert(times[old_g[p as int] as int] == old_r[p as int].start_time);
                assert(before(times, k as int, old_g[p as int] as int));
            }
            assert forall|a: int| 0 <= a < k + 1 implies r@[a] == s[g[a] as int] by {
                if a < p {
                    assert(r@[a] == old_r[a] && g[a] == old_g[a]);
                } else if a > p {
                    assert(r@[a] == old_r[a - 1] && g[a] == old_g[a - 1]);
                }
            }
            assert forall|a: int, b: int| 0 <= a < b < g.len() implies before(times, g[a] as int, g[b] as int) by {
                if b < p {
                    assert(g[a] == old_g[a] && g[b] == old_g[b]);
                } else if b == p {
                    assert(g[a] == old_g[a]);
                } else if a == p {
                    assert(g[b] == old_g[b - 1]);
                    if b - 1 > p {
                        assert(before(times, old_g[p as int] as int, old_g[b - 1] as int));
                    }
                } else if a < p {
                    assert(g[a] == old_g[a] && g[b] == old_g[b - 1]);
                } else {
                    assert(g[a] == old_g[a - 1] && g[b] == old_g[b - 1]);
                }
            }
            assert forall|a: int| 0 <= a < g.len() implies g[a] < times.len() by {
                if a < p {
                    assert(g[a] == old_g[a]);
                } else if a > p {
                    assert(g[a] == old_g[a - 1]);
                }
            }
            assert forall|y: usize| g.contains(y) <==> y < k + 1 by {
                if g.contains(y) {
                    let j = choose|j: int| 0 <= j < g.len() && g[j] == y;
                    if j < p {
                        assert(old_g[j] == y);
                        assert(old_g.contains(y));
                    } else if j > p {
                        assert(old_g[j - 1] == y);
                        assert(old_g.contains(y));
                    }
                }
                if y < k + 1 {
                    if y < k {
                        assert(old_g.contains(y));
                        let j = choose|j: int| 0 <= j < old_g.len() && old_g[j] == y;
                        if j < p {
                            assert(g[j] == y);
                        } else {
                            assert(g[j + 1] == y);
                        }
                    } else {
                        assert(g[p as int] == y);
                    }
                }
            }
        }
        k += 1;
    }
    proof {
        let pos = positions(s.len());
        let o = time_order(times, pos);
        assert forall|y: usize| g.contains(y) <==> pos.contains(y) by {
            if y < s.len() {
                assert(pos[y as int] == y);
            }
            if pos.contains(y) {
                let j = choose|j: int| 0 <= j < pos.len() && pos[j] == y;
            }
        }
        assert(same_members(g, pos) && ordered_by_time(times, g));
        assert(same_members(o, pos) && ordered_by_time(times, o));
        assert(in_range(times, o)) by {
            assert forall|a: int| 0 <= a < o.len() implies o[a] < times.len() by {
                assert(o.contains(o[a]));
                assert(pos.contains(o[a]));
            }
        }
        assert forall|y: usize| g.contains(y) <==> o.contains(y) by {}
        crate::sorting::lemma_time_order_unique(times, g, o);
        assert(r@ =~= g.map_values(|j: usize| s[j as int]));
    }
    r
}

/// The vectors addressed among the first `n` results, in order of first
/// appearance.
pub open spec fn vector_ids_upto(s: Seq<TimedOperationResult>, n: nat) -> Seq<Seq<char>>
    decreases n,
{
    if n == 0 {
        Seq::empty()
    } else {
        let ids = vector_ids_upto(s, (n - 1) as nat);
        match vector_id_of(s[n - 1].operation) {
            Some(v) => if ids.contains(v) { ids } else { ids.push(v) },
            None => ids,
        }
    }
}

/// Positions below `n` of the results addressing vector `v`, increasing.
pub open spec fn vector_positions_upto(s: Seq<TimedOperationResult>, v: Seq<char>, n: nat) -> Seq<usize>
    decreases n,
{
    if n == 0 {
        Seq::empty()
    } else {
        let p = vector_positions_upto(s, v, (n - 1) as nat);
        if vector_id_of(s[n - 1].operation) == Some(v) { p.push((n - 1) as usize) } else { p }
    }
}

/// The positions of vector `v`'s results, stably sorted by start time.
pub open spec fn vector_order(s: Seq<TimedOperationResult>, v: Seq<char>) -> Seq<usize> {
    time_order(start_times(s), vector_positions_upto(s, v, s.len()))
}

/// A read that comes right after a write, in start order, did not
/// succeed: it missed the write. Overlapping operations count too, since
/// the nodes' clocks may be skewed.
pub open spec fn read_missed_write(a: TimedOperationResult, b: TimedOperationResult) -> bool {
    &&& a.operation is Write
    &&& b.operation is Read
    &&& !b.success
}

/// The first `k' >= k` at which consecutive entries of `o` form a missed
/// read.
pub open spec fn first_anomaly_from(s: Seq<TimedOperationResult>, o: Seq<usize>, k: nat) -> Option<nat>
    decreases o.len() - k,
{
    if k + 1 >= o.len() {
        None
    } else if read_missed_write(s[o[k as int] as int], s[o[k + 1int] as int]) {
        Some(k)
    } else {
        first_anomaly_from(s, o, k + 1)
    }
}

/// Where `first_anomaly_from` stops, a write is directly followed by a
/// read that failed.
proof fn lemma_first_anomaly(s: Seq<TimedOperationResult>, o: Seq<usize>, k: nat)
    ensures
        first_anomaly_from(s, o, k) matches Some(m) ==> {
            &&& k <= m
            &&& m + 1 < o.len()
            &&& s[o[m as int] as int].operation is Write
            &&& s[o[m + 1int] as int].operation is Read
            &&& !s[o[m + 1int] as int].success
        },
    decreases o.len() - k,
{
    if k + 1 < o.len() && !read_missed_write(s[o[k as int] as int], s[o[k + 1int] as int]) {
        lemma_first_anomaly(s, o, k + 1);
    }
}

/// Only a write followed by a failed read is a missed read: for each
/// vector reported, the pair found is a write and, directly after it in
/// start order, a read of the vector that failed. A failed read after a
/// delete, a search or another read is never reported.
pub proof fn lemma_missed_read_is_after_write(s: Seq<TimedOperationResult>, v: Seq<char>)
    ensures
        ({
            let o = vector_order(s, v);
            first_anomaly_from(s, o, 0) matches Some(k) ==> {
                &&& k + 1 < o.len()
                &&& s[o[k as int] as int].operation is Write
                &&& s[o[k + 1int] as int].operation is Read
                &&& !s[o[k + 1int] as int].success
            }
        }),
{
    lemma_first_anomaly(s, vector_order(s, v), 0);
}

/// The vectors whose time-ordered results contain a missed read, in order
/// of first appearance.
pub open spec fn anomalous_vectors(s: Seq<TimedOperationResult>) -> Seq<Seq<char>> {
    vector_ids_upto(s, s.len()).filter(|v: Seq<char>| first_anomaly_from(s, vector_order(s, v), 0) is Some)
}

/// A consistency violation between two operations.
#[derive(Debug)]
pub struct ConsistencyViolation {
    pub violation_type: ViolationType,
    pub description: String,
    pub operation1: TimedOperationResult,
    pub operation2: TimedOperationResult,
}

/// `viol` reports the first missed read on vector `v`.
pub open spec fn is_missed_read_violation(s: Seq<TimedOperationResult>, v: Seq<char>, viol: ConsistencyViolation) -> bool {
    let o = vector_order(s, v);
    let k = first_anomaly_from(s, o, 0)->0;
    &&& viol.violation_type == ViolationType::ReadAfterWrite
    &&& viol.description@ == "Read operation failed to see write for vector "@ + v
    &&& same_result(s[o[k as int] as int], viol.operation1)
    &&& same_result(s[o[k + 1int] as int], viol.operation2)
}

/// The outcome of the analysis.
#[derive(Debug)]
pub struct LinearizabilityResult {
    pub is_linearizable: bool,
    pub violations: Vec<ConsistencyViolation>,
    pub operations_analyzed: usize,
    pub simdx_acceleration: bool,
}

/// Collects timed results and looks for missed reads among them.
pub struct HistoryAnalyzer {
    operations: Vec<TimedOperationResult>,
    simdx_enabled: bool,
    consistency_model: ConsistencyModel,
}

impl HistoryAnalyzer {
    /// The results collected so far, in their current order.
    pub closed spec fn history(&self) -> Seq<TimedOperationResult> {
        self.operations@
    }

    /// Whether batch ordering and the per-vector analysis are on.
    pub closed spec fn simdx(&self) -> bool {
        self.simdx_enabled
    }

    /// The model the analyzer was made for.
    pub closed spec fn model(&self) -> ConsistencyModel {
        self.consistency_model
    }

    /// An analyzer with no results.
    pub fn new(consistency_model: ConsistencyModel, enable_simdx: bool) -> (r: Self)
        ensures
            r.history() == Seq::<TimedOperationResult>::empty(),
            r.simdx() == enable_simdx,
            r.model() == consistency_model,
    {
        HistoryAnalyzer { operations: Vec::new(), simdx_enabled: enable_simdx, consistency_model }
    }

    /// The results collected so far.
    pub fn operations(&self) -> (r: &Vec<TimedOperationResult>)
        ensures
            r@ == self.history(),
    {
        &self.operations
    }

    /// Appends a result; with batch ordering on, every 64th result sorts
    /// the whole history stably by start time.
    pub fn add_operation(&mut self, result: TimedOperationResult)
        ensures
            final(self).simdx() == old(self).simdx(),
            final(self).model() == old(self).model(),
            final(self).history() == (if old(self).simdx() && (old(self).history().len() + 1) % 64 == 0 {
                stable_by_start(old(self).history().push(result))
            } else {
                old(self).history().push(result)
            }),
    {
        self.operations.push(result);
        if self.simdx_enabled && self.operations.len() % 64 == 0 {
            let mut ops: Vec<TimedOperationResult> = Vec::new();
            std::mem::swap(&mut ops, &mut self.operations);
            self.operations = stable_sort_by_start(ops);
        }
    }
}

/// The vectors addressed by the results, in order of first appearance.
fn collect_vector_ids(s: &Vec<TimedOperationResult>) -> (r: Vec<String>)
    ensures
        r@.map_values(|x: String| x@) == vector_ids_upto(s@, s@.len()),
{
    let mut ids: Vec<String> = Vec::new();
    let mut i: usize = 0;
    while i < s.len()
        invariant
            i <= s@.len(),
            ids@.map_values(|x: String| x@) == vector_ids_upto(s@, i as nat),
        decreases s@.len() - i,
    {
        match s[i].operation.vector_id() {
            Some(v) => {
                if !crate::jepsen::checkers::contains_string(&ids, v) {
                    let ghost before_ids = ids@;
                    ids.push(v.clone());
                    assert(ids@.map_values(|x: String| x@) =~= before_ids.map_values(|x: String| x@).push(v@));
                }
            },
            None => {},
        }
        i += 1;
    }
    ids
}

proof fn lemma_vector_positions_increasing(s: Seq<TimedOperationResult>, v: Seq<char>, n: nat)
    requires
        n <= s.len(),
        s.len() <= usize::MAX,
    ensures
        forall|a: int, b: int| 0 <= a < b < vector_positions_upto(s, v, n).len()
            ==> vector_positions_upto(s, v, n)[a] < vector_positions_upto(s, v, n)[b],
        forall|a: int| 0 <= a < vector_positions_upto(s, v, n).len() ==> vector_positions_upto(s, v, n)[a] < n,
    decreases n,
{
    if n > 0 {
        lemma_vector_positions_increasing(s, v, (n - 1) as nat);
        let p = vector_positions_upto(s, v, (n - 1) as nat);
        let q = vector_positions_upto(s, v, n);
        if vector_id_of(s[n - 1].operation) == Some(v) {
            assert(q == p.push((n - 1) as usize));
            assert forall|a: int, b: int| 0 <= a < b < q.len() implies q[a] < q[b] by {
                assert(q[a] == p[a]);
                if b < p.len() {
                    assert(q[b] == p[b]);
                }
            }
            assert forall|a: int| 0 <= a < q.len() implies q[a] < n by {
                if a < p.len() {
                    assert(q[a] == p[a]);
                }
            }
        }
    }
}

/// Positions of the results addressing vector `v`, increasing.
fn positions_of_vector(s: &Vec<TimedOperationResult>, v: &String) -> (r: Vec<usize>)
    ensures
        r@ == vector_positions_upto(s@, v@, s@.len()),
{
    let mut r: Vec<usize> = Vec::new();
    let mut i: usize = 0;
    while i < s.len()
        invariant
            i <= s@.len(),
            r@ == vector_positions_upto(s@, v@, i as nat),
        decreases s@.len() - i,
    {
        match s[i].operation.vector_id() {
            Some(w) => {
                if *w == *v {
                    r.push(i);
                }
            },
            None => {},
        }
        i += 1;
    }
    r
}

/// Start times, by position.
fn start_time_list(s: &Vec<TimedOperationResult>) -> (r: Vec<u64>)
    ensures
        r@ == start_times(s@),
{
    let mut r: Vec<u64> = Vec::new();
    let mut i: usize = 0;
    while i < s.len()
        invariant
            i <= s@.len(),
            r@.len() == i,
            forall|a: int| 0 <= a < i ==> r@[a] == s@[a].start_time,
        decreases s@.len() - i,
    {
        r.push(s[i].start_time);
        i += 1;
    }
    assert(r@ =~= start_times(s@));
    r
}

/// Whether `b` is a read that missed the write `a`.
fn missed_read(a: &TimedOperationResult, b: &TimedOperationResult) -> (r: bool)
    ensures
        r == read_missed_write(*a, *b),
{
    match (&a.operation, &b.operation) {
        (JepsenOperation::Write { .. }, JepsenOperation::Read { .. }) => !b.success,
        _ => false,
    }
}

/// The first missed read along the order `o`, if any.
fn find_anomaly(s: &Vec<TimedOperationResult>, o: &Vec<usize>) -> (r: Option<usize>)
    requires
        forall|a: int| 0 <= a < o@.len() ==> o@[a] < s@.len(),
    ensures
        match r {
            Some(k) => first_anomaly_from(s@, o@, 0) == Some(k as nat) && k + 1 < o@.len(),
            None => first_anomaly_from(s@, o@, 0) is None,
        },
{
    let mut k: usize = 0;
    while k < o.len() && k + 1 < o.len()
        invariant
            forall|a: int| 0 <= a < o@.len() ==> o@[a] < s@.len(),
            k <= o@.len(),
            first_anomaly_from(s@, o@, 0) == first_anomaly_from(s@, o@, k as nat),
        decreases o@.len() - k,
    {
        if missed_read(&s[o[k]], &s[o[k + 1]]) {
            return Some(k);
        }
        k += 1;
    }
    None
}

impl HistoryAnalyzer {
    /// With the per-vector analysis on, one violation per vector whose
    /// results, in start order, hold a write directly followed by a read
    /// that failed, for the first such pair, vectors in order of first
    /// appearance; with it off, none.
    pub fn check_linearizability(&self) -> (r: LinearizabilityResult)
        ensures
            r.operations_analyzed == self.history().len(),
            r.simdx_acceleration == self.simdx(),
            r.is_linearizable == (r.violations@.len() == 0),
            !self.simdx() ==> r.violations@.len() == 0,
            self.simdx() ==> r.violations@.len() == anomalous_vectors(self.history()).len(),
            self.simdx() ==> forall|j: int| 0 <= j < r.violations@.len() ==>
                is_missed_read_violation(self.history(), anomalous_vectors(self.history())[j], #[trigger] r.violations@[j]),
            forall|j: int| 0 <= j < r.violations@.len() ==> {
                &&& (#[trigger] r.violations@[j]).operation1.operation is Write
                &&& r.violations@[j].operation2.operation is Read
                &&& !r.violations@[j].operation2.success
            },
    {
        let violations = if self.simdx_enabled {
            self.check_vectors()
        } else {
            Vec::new()
        };
        proof {
            assert forall|j: int| 0 <= j < violations@.len() implies {
                &&& (#[trigger] violations@[j]).operation1.operation is Write
                &&& violations@[j].operation2.operation is Read
                &&& !violations@[j].operation2.success
            } by {
                let s = self.history();
                let v = anomalous_vectors(s)[j];
                lemma_missed_read_is_after_write(s, v);
                assert(anomalous_vectors(s).contains(v));
                assert(first_anomaly_from(s, vector_order(s, v), 0) is Some) by {
                    reveal(Seq::filter);
                    vector_ids_upto(s, s.len()).filter_lemma(|w: Seq<char>| first_anomaly_from(s, vector_order(s, w), 0) is Some);
                }
            }
        }
        LinearizabilityResult {
            is_linearizable: violations.len() == 0,
            violations,
            operations_analyzed: self.operations.len(),
            simdx_acceleration: self.simdx_enabled,
        }
    }

    fn check_vectors(&self) -> (r: Vec<ConsistencyViolation>)
        ensures
            r@.len() == anomalous_vectors(self.history()).len(),
            forall|j: int| 0 <= j < r@.len() ==>
                is_missed_read_violation(self.history(), anomalous_vectors(self.history())[j], #[trigger] r@[j]),
    {
        let s = &self.operations;
        let ids = collect_vector_ids(s);
        let times = start_time_list(s);
        let ghost ks = vector_ids_upto(s@, s@.len());
        let ghost pred = |v: Seq<char>| first_anomaly_from(s@, vector_order(s@, v), 0) is Some;
        let mut violations: Vec<ConsistencyViolation> = Vec::new();
        let mut j: usize = 0;
        assert(ks.take(0) =~= Seq::<Seq<char>>::empty());
        assert(Seq::<Seq<char>>::empty().filter(pred) =~= Seq::<Seq<char>>::empty()) by {
            reveal(Seq::filter);
        }
        while j < ids.len()
            invariant
                j <= ids@.len(),
                ids@.map_values(|x: String| x@) == ks,
                ks == vector_ids_upto(s@, s@.len()),
                times@ == start_times(s@),
                pred == (|v: Seq<char>| first_anomaly_from(s@, vector_order(s@, v), 0) is Some),
                violations@.len() == ks.take(j as int).filter(pred).len(),
                forall|a: int| 0 <= a < violations@.len()
                    ==> is_missed_read_violation(s@, ks.take(j as int).filter(pred)[a], #[trigger] violations@[a]),
            decreases ids@.len() - j,
        {
            let v = &ids[j];
            assert(ks[j as int] == v@);
            assert(ks.take(j + 1) =~= ks.take(j as int).push(v@));
            proof {
                ks.take(j as int).lemma_filter_push(v@, pred);
            }
            let positions = positions_of_vector(s, v);
            proof {
                assert(s@.len() == s.len());
                lemma_vector_positions_increasing(s@, v@, s@.len());
                assert(in_range(times@, positions@));
            }
            let order = sort_by_time(&times, &positions);
            proof {
                assert forall|a: int| 0 <= a < order@.len() implies order@[a] < s@.len() by {
                    assert(times@.len() == s@.len());
                }
            }
            let found = find_anomaly(s, &order);
            match found {
                Some(k) => {
                    assert(k + 1 < order@.len());
                    let mut description = "Read operation failed to see write for vector ".to_owned();
                    description.append(v.as_str());
                    let viol = ConsistencyViolation {
                        violation_type: ViolationType::ReadAfterWrite,
                        description,
                        operation1: s[order[k]].copy(),
                        operation2: s[order[k + 1]].copy(),
                    };
                    violations.push(viol);
                },
                None => {},
            }
            j += 1;
        }
        assert(ks.take(ids@.len() as int) =~= ks);
        violations
    }
}

} // verus!
