//! Analysis of test histories: latencies, throughput over time windows,
//! concurrency, per-process sequences, error counts and filters.
//!
//! Times and durations are in nanoseconds.

use vstd::prelude::*;
use crate::sorting::{before, ordered_by_time, in_range, same_members, time_order, sort_by_time};
use super::model::{Operation, OperationType, OperationResult, TransactionOp, History, op_key, txn_op_key};

verus! {

/// Latency statistics of a history (nanoseconds).
#[derive(Debug, Clone, Copy, PartialEq, Eq, Structural)]
pub struct LatencyAnalysis {
    /// Number of operations measured.
    pub count: usize,
    /// Smallest latency.
    pub min: u64,
    /// Largest latency.
    pub max: u64,
    /// Mean latency (rounded down).
    pub mean: u64,
    /// Median latency.
    pub median: u64,
    /// 95th percentile latency.
    pub p95: u64,
    /// 99th percentile latency.
    pub p99: u64,
}

impl LatencyAnalysis {
    /// All statistics zero.
    pub fn zero() -> (r: Self)
        ensures
            r == (LatencyAnalysis { count: 0, min: 0, max: 0, mean: 0, median: 0, p95: 0, p99: 0 }),
    {
        LatencyAnalysis { count: 0, min: 0, max: 0, mean: 0, median: 0, p95: 0, p99: 0 }
    }
}

/// The latency of an operation: completion minus invocation, when it
/// completed no earlier than it was invoked.
pub open spec fn latency_of(op: Operation) -> Option<u64> {
    match op.complete_time {
        Some(c) => if c >= op.invoke_time { Some((c - op.invoke_time) as u64) } else { None },
        None => None,
    }
}

/// The latencies of the first `n` operations that have one, in history
/// order.
pub open spec fn latencies_upto(h: Seq<Operation>, n: nat) -> Seq<u64>
    decreases n,
{
    if n == 0 {
        Seq::empty()
    } else {
        let l = latencies_upto(h, (n - 1) as nat);
        match latency_of(h[n - 1]) {
            Some(d) => l.push(d),
            None => l,
        }
    }
}

/// The latencies of the history, in history order.
pub open spec fn latencies(h: Seq<Operation>) -> Seq<u64> {
    latencies_upto(h, h.len())
}

/// The positions `0..n`.
pub open spec fn positions(n: nat) -> Seq<usize> {
    Seq::new(n, |i: int| i as usize)
}

/// The latencies sorted ascending.
pub open spec fn sorted_latencies(h: Seq<Operation>) -> Seq<u64> {
    let l = latencies(h);
    time_order(l, positions(l.len())).map_values(|i: usize| l[i as int])
}

/// Sum of a sequence of latencies.
pub open spec fn sum_u64(s: Seq<u64>) -> int
    decreases s.len(),
{
    if s.len() == 0 {
        0
    } else {
        sum_u64(s.drop_last()) + s.last()
    }
}

proof fn lemma_sum_bound(s: Seq<u64>)
    ensures
        0 <= sum_u64(s) <= s.len() * 0xffff_ffff_ffff_ffffnat,
    decreases s.len(),
{
    if s.len() > 0 {
        lemma_sum_bound(s.drop_last());
    }
}

/// A sum of values between `lo` and `hi` lies between the count times
/// each bound.
proof fn lemma_sum_between(s: Seq<u64>, lo: int, hi: int)
    requires
        forall|i: int| 0 <= i < s.len() ==> lo <= #[trigger] s[i] <= hi,
    ensures
        s.len() * lo <= sum_u64(s) <= s.len() * hi,
    decreases s.len(),
{
    if s.len() > 0 {
        let t = s.drop_last();
        assert forall|i: int| 0 <= i < t.len() implies lo <= #[trigger] t[i] <= hi by {
            assert(t[i] == s[i]);
        }
        lemma_sum_between(t, lo, hi);
        let n = s.len() as int;
        assert((n - 1) * lo + lo == n * lo) by (nonlinear_arith);
        assert((n - 1) * hi + hi == n * hi) by (nonlinear_arith);
    }
}

/// Latencies of the history's operations, in history order.
pub fn collect_latencies(h: &History) -> (r: Vec<u64>)
    ensures
        r@ == latencies(h.operations@),
        r@.len() <= h.operations@.len(),
{
    let ops = &h.operations;
    let mut r: Vec<u64> = Vec::new();
    let mut i: usize = 0;
    while i < ops.len()
        invariant
            i <= ops@.len(),
            r@ == latencies_upto(ops@, i as nat),
            r@.len() <= i,
        decreases ops@.len() - i,
    {
        match ops[i].complete_time {
            Some(c) => {
                if c >= ops[i].invoke_time {
                    r.push(c - ops[i].invoke_time);
                }
            },
            None => {},
        }
        i += 1;
    }
    r
}

/// Latency statistics: count, extremes, mean (rounded down), and the
/// sorted latencies at positions `count/2`, `count*95/100` and
/// `count*99/100`; all zero when no operation has a latency.
pub fn analyze_latencies(history: &History) -> (r: LatencyAnalysis)
    ensures
        ({
            let s = sorted_latencies(history.operations@);
            let n = latencies(history.operations@).len();
            &&& r.count == n
            &&& n == 0 ==> r == LatencyAnalysis { count: 0, min: 0, max: 0, mean: 0, median: 0, p95: 0, p99: 0 }
            &&& n > 0 ==> {
                &&& r.min == s[0]
                &&& r.max == s[n - 1]
                &&& r.median == s[(n / 2) as int]
                &&& r.p95 == s[((n * 95) / 100) as int]
                &&& r.p99 == s[((n * 99) / 100) as int]
                &&& r.mean == sum_u64(latencies(history.operations@)) / (n as int)
                &&& r.min <= r.median && r.median <= r.p95 && r.p95 <= r.p99 && r.p99 <= r.max
                &&& r.min <= r.mean && r.mean <= r.max
            }
        }),
{
    let lat = collect_latencies(history);
    let n = lat.len();
    if n == 0 {
        return LatencyAnalysis::zero();
    }
    let mut idxs: Vec<usize> = Vec::new();
    let mut i: usize = 0;
    while i < n
        invariant
            i <= n,
            n == lat@.len(),
            idxs@ == positions(i as nat),
        decreases n - i,
    {
        idxs.push(i);
        assert(idxs@ =~= positions((i + 1) as nat));
        i += 1;
    }
    let order = sort_by_time(&lat, &idxs);
    let ghost s = order@.map_values(|k: usize| lat@[k as int]);
    // sum
    let mut sum: u128 = 0;
    let mut j: usize = 0;
    while j < n
        invariant
            j <= n,
            n == lat@.len(),
            sum == sum_u64(lat@.take(j as int)),
        decreases n - j,
    {
        proof {
            assert(lat@.take(j + 1).drop_last() =~= lat@.take(j as int));
            lemma_sum_bound(lat@.take(j as int));
            assert(j * 0xffff_ffff_ffff_ffffnat <= 0xffff_ffff_ffff_ffffnat * 0xffff_ffff_ffff_ffffnat) by (nonlinear_arith)
                requires j <= 0xffff_ffff_ffff_ffffnat;
        }
        sum = sum + lat[j] as u128;
        j += 1;
    }
    assert(lat@.take(n as int) =~= lat@);
    let mean = (sum / (n as u128)) as u64;
    proof {
        lemma_sum_bound(lat@);
        assert((sum as int) / (n as int) <= 0xffff_ffff_ffff_ffff) by (nonlinear_arith)
            requires sum as int <= n * 0xffff_ffff_ffff_ffffnat, n > 0;
    }
    let i95 = ((n as u128 * 95) / 100) as usize;
    let i99 = ((n as u128 * 99) / 100) as usize;
    proof {
        let nn = n as int;
        assert(nn / 2 <= (nn * 95) / 100 && (nn * 95) / 100 <= (nn * 99) / 100 && (nn * 99) / 100 <= nn - 1) by (nonlinear_arith)
            requires nn > 0;
        let lo = lat@[order@[0] as int] as int;
        let hi = lat@[order@[nn - 1] as int] as int;
        assert forall|a: int, b: int| 0 <= a <= b < nn implies lat@[order@[a] as int] <= lat@[order@[b] as int] by {
            if a < b {
                assert(before(lat@, order@[a] as int, order@[b] as int));
            }
        }
        assert forall|j: int| 0 <= j < lat@.len() implies lo <= #[trigger] lat@[j] <= hi by {
            assert(idxs@[j] == j as usize);
            assert(idxs@.contains(j as usize));
            assert(order@.contains(j as usize));
            let a = choose|a: int| 0 <= a < order@.len() && order@[a] == j as usize;
            if a > 0 {
                assert(before(lat@, order@[0] as int, order@[a] as int));
            }
            if a < nn - 1 {
                assert(before(lat@, order@[a] as int, order@[nn - 1] as int));
            }
        }
        lemma_sum_between(lat@, lo, hi);
        let sm = sum as int;
        assert(lo <= sm / nn && sm / nn <= hi) by (nonlinear_arith)
            requires nn * lo <= sm, sm <= nn * hi, nn > 0;
    }
    LatencyAnalysis {
        count: n,
        min: lat[order[0]],
        max: lat[order[n - 1]],
        mean,
        median: lat[order[n / 2]],
        p95: lat[order[i95]],
        p99: lat[order[i99]],
    }
}

/// Operation counts of one time window.
#[derive(Debug, Clone, Copy, PartialEq, Eq, Structural)]
pub struct ThroughputWindow {
    /// Window start (inclusive).
    pub start_time: u64,
    /// Window end (exclusive).
    pub end_time: u64,
    /// Operations invoked in the window.
    pub total_ops: usize,
    /// Operations invoked in the window that have a result.
    pub successful_ops: usize,
}

/// Operation counts over consecutive windows.
#[derive(Debug, Clone)]
pub struct ThroughputAnalysis {
    /// The windows, in time order.
    pub windows: Vec<ThroughputWindow>,
}

/// Number of the first `n` operations invoked in `[lo, hi)`, and of those
/// that have a result.
pub open spec fn ops_in_window(h: Seq<Operation>, lo: u64, hi: u64, n: nat) -> (nat, nat)
    decreases n,
{
    if n == 0 {
        (0, 0)
    } else {
        let (t, ok) = ops_in_window(h, lo, hi, (n - 1) as nat);
        let op = h[n - 1];
        if lo <= op.invoke_time < hi {
            (t + 1, if op.result is Some { ok + 1 } else { ok })
        } else {
            (t, ok)
        }
    }
}

/// Of the first `n` operations, the count in a window is the number
/// invoked in `[lo, hi)`, and the successful count the number of those
/// that have a result.
pub proof fn lemma_window_counts(h: Seq<Operation>, lo: u64, hi: u64, n: nat)
    requires
        n <= h.len(),
    ensures
        ops_in_window(h, lo, hi, n).0 == h.take(n as int).filter(|op: Operation| lo <= op.invoke_time < hi).len(),
        ops_in_window(h, lo, hi, n).1
            == h.take(n as int).filter(|op: Operation| lo <= op.invoke_time < hi && op.result is Some).len(),
    decreases n,
{
    reveal(Seq::filter);
    if n > 0 {
        lemma_window_counts(h, lo, hi, (n - 1) as nat);
        assert(h.take(n as int).drop_last() =~= h.take(n - 1));
        assert(h.take(n as int).last() == h[n - 1]);
    } else {
        assert(h.take(0) =~= Seq::<Operation>::empty());
    }
}

/// Counts the operations invoked in `[lo, hi)`.
pub fn count_in_window(h: &Vec<Operation>, lo: u64, hi: u64) -> (r: (usize, usize))
    ensures
        r.0 == ops_in_window(h@, lo, hi, h@.len()).0,
        r.1 == ops_in_window(h@, lo, hi, h@.len()).1,
        r.0 == h@.filter(|op: Operation| lo <= op.invoke_time < hi).len(),
        r.1 == h@.filter(|op: Operation| lo <= op.invoke_time < hi && op.result is Some).len(),
{
    proof {
        lemma_window_counts(h@, lo, hi, h@.len());
        assert(h@.take(h@.len() as int) =~= h@);
    }
    let mut t: usize = 0;
    let mut ok: usize = 0;
    let mut i: usize = 0;
    while i < h.len()
        invariant
            i <= h@.len(),
            t == ops_in_window(h@, lo, hi, i as nat).0,
            ok == ops_in_window(h@, lo, hi, i as nat).1,
            ok <= t <= i,
        decreases h@.len() - i,
    {
        let op = &h[i];
        if lo <= op.invoke_time && op.invoke_time < hi {
            t += 1;
            if op.result.is_some() {
                ok += 1;
            }
        }
        i += 1;
    }
    (t, ok)
}

/// Splits the test's time span into windows of `window_size`, starting at
/// the test start, while a window starts before the test end, and counts
/// the operations invoked in each. No windows for an empty history.
pub fn analyze_throughput(history: &History, window_size: u64) -> (r: ThroughputAnalysis)
    requires
        window_size > 0,
        history.metadata.end_time + window_size <= u64::MAX,
    ensures
        ({
            let h = history.operations@;
            let start = history.metadata.start_time as int;
            let end = history.metadata.end_time as int;
            let n = r.windows@.len();
            &&& (h.len() == 0 || end <= start) ==> n == 0
            &&& (h.len() > 0 && start < end) ==> {
                &&& n > 0
                &&& (n - 1) * window_size < end - start <= n * window_size
            }
            &&& forall|k: int| 0 <= k < n ==> {
                let w = #[trigger] r.windows@[k];
                &&& w.start_time == start + k * window_size
                &&& w.end_time == start + (k + 1) * window_size
                &&& w.total_ops == ops_in_window(h, w.start_time, w.end_time, h.len()).0
                &&& w.successful_ops == ops_in_window(h, w.start_time, w.end_time, h.len()).1
            }
        }),
{
    let mut windows: Vec<ThroughputWindow> = Vec::new();
    if history.operations.len() == 0 {
        return ThroughputAnalysis { windows };
    }
    let start = history.metadata.start_time;
    let end = history.metadata.end_time;
    let mut cur = start;
    proof {
        assert(windows@.len() * window_size == 0) by (nonlinear_arith)
            requires windows@.len() == 0;
    }
    while cur < end
        invariant
            window_size > 0,
            end + window_size <= u64::MAX,
            start <= cur,
            cur as int == start + windows@.len() * window_size,
            windows@.len() > 0 ==> (windows@.len() - 1) * window_size < end - start,
            forall|k: int| 0 <= k < windows@.len() ==> {
                let w = #[trigger] windows@[k];
                &&& w.start_time == start + k * window_size
                &&& w.end_time == start + (k + 1) * window_size
                &&& w.total_ops == ops_in_window(history.operations@, w.start_time, w.end_time, history.operations@.len()).0
                &&& w.successful_ops == ops_in_window(history.operations@, w.start_time, w.end_time, history.operations@.len()).1
            },
        decreases if cur < end { end - cur } else { 0 },
    {
        let wend = cur + window_size;
        let (t, ok) = count_in_window(&history.operations, cur, wend);
        proof {
            assert((windows@.len() + 1) * window_size == windows@.len() * window_size + window_size) by (nonlinear_arith);
        }
        windows.push(ThroughputWindow { start_time: cur, end_time: wend, total_ops: t, successful_ops: ok });
        cur = wend;
    }
    ThroughputAnalysis { windows }
}

/// A group of operations overlapping in time.
#[derive(Debug, Clone)]
pub struct ConcurrentGroup {
    /// The operations, by identifier.
    pub operations: Vec<u128>,
    /// Invocation time of the group's first operation.
    pub start_time: u64,
    /// Latest completion time in the group.
    pub end_time: u64,
}

/// The invocation time of the first operation with identifier `id`.
pub open spec fn first_invoke_of(h: Seq<Operation>, id: u128) -> u64 {
    h[first_position_of(h, id)].invoke_time
}

/// The first position holding identifier `id`.
pub open spec fn first_position_of(h: Seq<Operation>, id: u128) -> int {
    choose|p: int| 0 <= p < h.len() && h[p].id == id && forall|q: int| 0 <= q < p ==> h[q].id != id
}

/// The state of the concurrency grouping: finished groups, the open
/// group's operations, and its latest completion time.
pub struct GroupingState {
    pub groups: Seq<(Seq<u128>, u64, u64)>,
    pub current: Seq<u128>,
    pub group_end: u64,
}

/// One step of the grouping over operations in invocation order: an
/// incomplete operation is skipped; one invoked no later than the open
/// group's end joins it; otherwise the open group is closed (kept if it
/// has more than one operation) and a new one starts.
pub open spec fn grouping_step(h: Seq<Operation>, st: GroupingState, op: Operation) -> GroupingState {
    match op.complete_time {
        None => st,
        Some(c) => {
            if st.current.len() == 0 || op.invoke_time <= st.group_end {
                GroupingState {
                    groups: st.groups,
                    current: st.current.push(op.id),
                    group_end: if st.group_end >= c { st.group_end } else { c },
                }
            } else {
                GroupingState {
                    groups: if st.current.len() > 1 {
                        st.groups.push((st.current, first_invoke_of(h, st.current[0]), st.group_end))
                    } else {
                        st.groups
                    },
                    current: seq![op.id],
                    group_end: c,
                }
            }
        },
    }
}

/// The grouping state after the first `n` operations of `ops`.
pub open spec fn grouping_upto(h: Seq<Operation>, ops: Seq<Operation>, n: nat) -> GroupingState
    decreases n,
{
    if n == 0 {
        GroupingState { groups: Seq::empty(), current: Seq::empty(), group_end: 0 }
    } else {
        grouping_step(h, grouping_upto(h, ops, (n - 1) as nat), ops[n - 1])
    }
}

/// The concurrent groups of a history: the grouping over operations in
/// invocation order (ties in history order), with the open group added at
/// the end if it has more than one operation; every group starts at the
/// invocation of its first operation.
pub open spec fn concurrent_groups(h: Seq<Operation>) -> Seq<(Seq<u128>, u64, u64)> {
    let ops = time_order(invoke_times_of(h), positions(h.len())).map_values(|i: usize| h[i as int]);
    let st = grouping_upto(h, ops, ops.len());
    if st.current.len() > 1 {
        st.groups.push((st.current, first_invoke_of(h, st.current[0]), st.group_end))
    } else {
        st.groups
    }
}

/// Invocation times, by position.
pub open spec fn invoke_times_of(h: Seq<Operation>) -> Seq<u64> {
    h.map_values(|op: Operation| op.invoke_time)
}

/// The view of a group.
pub open spec fn group_view(g: ConcurrentGroup) -> (Seq<u128>, u64, u64) {
    (g.operations@, g.start_time, g.end_time)
}

/// The first position of `id` in the history.
fn find_first(h: &Vec<Operation>, id: u128) -> (r: usize)
    requires
        exists|p: int| 0 <= p < h@.len() && h@[p].id == id,
    ensures
        r as int == first_position_of(h@, id),
        r < h@.len(),
{
    let mut i: usize = 0;
    while i < h.len()
        invariant
            i <= h@.len(),
            exists|p: int| 0 <= p < h@.len() && h@[p].id == id,
            forall|q: int| 0 <= q < i ==> h@[q].id != id,
        decreases h@.len() - i,
    {
        if h[i].id == id {
            proof {
                let f = first_position_of(h@, id);
                assert(0 <= i && (i as int) < h@.len() && h@[i as int].id == id && forall|q: int| 0 <= q < i ==> h@[q].id != id);
                if f != i as int {
                    if f < i as int {
                        assert(h@[f].id != id);
                    } else {
                        assert(h@[i as int].id != id);
                    }
                }
            }
            return i;
        }
        i += 1;
    }
    proof {
        let p = choose|p: int| 0 <= p < h@.len() && h@[p].id == id;
        assert(h@[p].id != id);
    }
    0
}

/// Groups of operations that overlap in time (see `concurrent_groups`).
#[verifier::rlimit(40)]
pub fn find_concurrent_operations(history: &History) -> (r: Vec<ConcurrentGroup>)
    ensures
        r@.map_values(|g: ConcurrentGroup| group_view(g)) == concurrent_groups(history.operations@),
{
    let h = &history.operations;
    let times = invoke_time_list(h);
    let mut idxs: Vec<usize> = Vec::new();
    let mut i: usize = 0;
    while i < h.len()
        invariant
            i <= h@.len(),
            idxs@ == positions(i as nat),
        decreases h@.len() - i,
    {
        idxs.push(i);
        assert(idxs@ =~= positions((i + 1) as nat));
        i += 1;
    }
    let order = sort_by_time(&times, &idxs);
    let ghost ops = order@.map_values(|k: usize| h@[k as int]);
    proof {
        assert(forall|a: int| 0 <= a < order@.len() ==> order@[a] < h@.len());
    }
    let mut groups: Vec<ConcurrentGroup> = Vec::new();
    let mut current: Vec<u128> = Vec::new();
    let mut group_end: u64 = 0;
    let mut j: usize = 0;
    while j < order.len()
        invariant
            j <= order@.len(),
            ops == order@.map_values(|k: usize| h@[k as int]),
            forall|a: int| 0 <= a < order@.len() ==> order@[a] < h@.len(),
            groups@.map_values(|g: ConcurrentGroup| group_view(g)) == grouping_upto(h@, ops, j as nat).groups,
            current@ == grouping_upto(h@, ops, j as nat).current,
            group_end == grouping_upto(h@, ops, j as nat).group_end,
            forall|a: int| 0 <= a < current@.len() ==> exists|p: int| 0 <= p < h@.len() && h@[p].id == #[trigger] current@[a],
        decreases order@.len() - j,
    {
        let op = &h[order[j]];
        let ghost before_groups = groups@;
        match op.complete_time {
            Some(c) => {
                if current.len() == 0 || op.invoke_time <= group_end {
                    current.push(op.id);
                    if group_end < c {
                        group_end = c;
                    }
                } else {
                    if current.len() > 1 {
                        let first = find_first(h, current[0]);
                        let g = ConcurrentGroup {
                            operations: current,
                            start_time: h[first].invoke_time,
                            end_time: group_end,
                        };
                        groups.push(g);
                        assert(groups@.map_values(|g: ConcurrentGroup| group_view(g)) =~=
                            before_groups.map_values(|g: ConcurrentGroup| group_view(g)).push(group_view(g)));
                    }
                    current = Vec::new();
                    current.push(op.id);
                    group_end = c;
                }
            },
            None => {},
        }
        proof {
            assert(ops[j as int] == *op);
            assert forall|a: int| 0 <= a < current@.len() implies exists|p: int| 0 <= p < h@.len() && h@[p].id == #[trigger] current@[a] by {
                if current@[a] == op.id {
                    assert(h@[order@[j as int] as int].id == current@[a]);
                }
            }
        }
        j += 1;
    }
    if current.len() > 1 {
        let ghost before_groups = groups@;
        let first = find_first(h, current[0]);
        let g = ConcurrentGroup { operations: current, start_time: h[first].invoke_time, end_time: group_end };
        groups.push(g);
        assert(groups@.map_values(|g: ConcurrentGroup| group_view(g)) =~=
            before_groups.map_values(|g: ConcurrentGroup| group_view(g)).push(group_view(g)));
    }
    groups
}

/// Invocation times of the operations, by position.
pub fn invoke_time_list(h: &Vec<Operation>) -> (r: Vec<u64>)
    ensures
        r@ == invoke_times_of(h@),
{
    let mut r: Vec<u64> = Vec::new();
    let mut i: usize = 0;
    while i < h.len()
        invariant
            i <= h@.len(),
            r@.len() == i,
            forall|a: int| 0 <= a < i ==> r@[a] == h@[a].invoke_time,
        decreases h@.len() - i,
    {
        r.push(h[i].invoke_time);
        i += 1;
    }
    assert(r@ =~= invoke_times_of(h@));
    r
}

/// The name of an operation's type.
pub open spec fn op_type_name(op: OperationType) -> Seq<char> {
    match op {
        OperationType::Read { .. } => "read"@,
        OperationType::Write { .. } => "write"@,
        OperationType::Cas { .. } => "cas"@,
        OperationType::Transaction { .. } => "transaction"@,
        OperationType::Append { .. } => "append"@,
        OperationType::SetAdd { .. } => "set_add"@,
        OperationType::Increment { .. } => "increment"@,
    }
}

/// The name of an operation's type.
pub fn operation_type_name(op: &OperationType) -> (r: &'static str)
    ensures
        r@ == op_type_name(*op),
{
    match op {
        OperationType::Read { .. } => "read",
        OperationType::Write { .. } => "write",
        OperationType::Cas { .. } => "cas",
        OperationType::Transaction { .. } => "transaction",
        OperationType::Append { .. } => "append",
        OperationType::SetAdd { .. } => "set_add",
        OperationType::Increment { .. } => "increment",
    }
}

/// Outcome counts for one operation type.
#[derive(Debug, Clone, Copy, PartialEq, Eq, Structural)]
pub struct ErrorRate {
    /// Operations of this type.
    pub total: usize,
    /// Those without an error and with a result.
    pub successes: usize,
    /// Those with an error.
    pub errors: usize,
}

/// Outcome counts of the first `n` operations of type `name`.
pub open spec fn error_rate_upto(h: Seq<Operation>, name: Seq<char>, n: nat) -> ErrorRate
    decreases n,
{
    if n == 0 {
        ErrorRate { total: 0, successes: 0, errors: 0 }
    } else {
        let e = error_rate_upto(h, name, (n - 1) as nat);
        let op = h[n - 1];
        if op_type_name(op.op) == name {
            ErrorRate {
                total: (e.total + 1) as usize,
                successes: if op.error is None && op.result is Some { (e.successes + 1) as usize } else { e.successes },
                errors: if op.error is Some { (e.errors + 1) as usize } else { e.errors },
            }
        } else {
            e
        }
    }
}

/// The operation types present among the first `n` operations, in order
/// of first appearance.
pub open spec fn type_names_upto(h: Seq<Operation>, n: nat) -> Seq<Seq<char>>
    decreases n,
{
    if n == 0 {
        Seq::empty()
    } else {
        let names = type_names_upto(h, (n - 1) as nat);
        let t = op_type_name(h[n - 1].op);
        if names.contains(t) { names } else { names.push(t) }
    }
}

proof fn lemma_error_rate_bounds(h: Seq<Operation>, name: Seq<char>, n: nat)
    requires
        n <= usize::MAX,
    ensures
        error_rate_upto(h, name, n).total <= n,
        error_rate_upto(h, name, n).successes <= error_rate_upto(h, name, n).total,
        error_rate_upto(h, name, n).errors <= error_rate_upto(h, name, n).total,
    decreases n,
{
    if n > 0 {
        lemma_error_rate_bounds(h, name, (n - 1) as nat);
    }
}

/// The types listed are exactly those of some operation, each once, and of
/// each type's operations the successful and the failed ones are
/// disjoint: together they are at most all of them.
pub proof fn lemma_error_rate_types(h: Seq<Operation>, n: nat)
    requires
        n <= h.len(),
        n <= usize::MAX,
    ensures
        forall|t: Seq<char>| type_names_upto(h, n).contains(t) <==>
            exists|i: int| 0 <= i < n && op_type_name(#[trigger] h[i].op) == t,
        type_names_upto(h, n).no_duplicates(),
        forall|t: Seq<char>| #[trigger] error_rate_upto(h, t, n).successes + error_rate_upto(h, t, n).errors
            <= error_rate_upto(h, t, n).total,
    decreases n,
{
    if n > 0 {
        lemma_error_rate_types(h, (n - 1) as nat);
        let names = type_names_upto(h, (n - 1) as nat);
        let tn = op_type_name(h[n - 1].op);
        assert forall|t: Seq<char>| type_names_upto(h, n).contains(t) <==>
            exists|i: int| 0 <= i < n && op_type_name(#[trigger] h[i].op) == t by {
            if exists|i: int| 0 <= i < n && op_type_name(#[trigger] h[i].op) == t {
                let i = choose|i: int| 0 <= i < n && op_type_name(#[trigger] h[i].op) == t;
                if i < n - 1 {
                    assert(names.contains(t));
                    if !names.contains(tn) {
                        let q = choose|q: int| 0 <= q < names.len() && names[q] == t;
                        assert(names.push(tn)[q] == t);
                    }
                } else if !names.contains(tn) {
                    assert(names.push(tn)[names.len() as int] == t);
                }
            }
            if type_names_upto(h, n).contains(t) && !names.contains(t) {
                if !names.contains(tn) {
                    let q = choose|q: int| 0 <= q < names.push(tn).len() && names.push(tn)[q] == t;
                    assert(q == names.len());
                }
                assert(op_type_name(h[n - 1].op) == t);
            }
        }
        assert forall|t: Seq<char>| #[trigger] error_rate_upto(h, t, n).successes + error_rate_upto(h, t, n).errors
            <= error_rate_upto(h, t, n).total by {
            lemma_error_rate_bounds(h, t, (n - 1) as nat);
            assert(error_rate_upto(h, t, (n - 1) as nat).successes + error_rate_upto(h, t, (n - 1) as nat).errors
                <= error_rate_upto(h, t, (n - 1) as nat).total);
        }
    }
}

/// Outcome counts per operation type, types in order of first appearance.
pub fn analyze_error_rates(history: &History) -> (r: Vec<(String, ErrorRate)>)
    ensures
        r@.map_values(|e: (String, ErrorRate)| e.0@) == type_names_upto(history.operations@, history.operations@.len()),
        forall|k: int| 0 <= k < r@.len() ==>
            #[trigger] r@[k].1 == error_rate_upto(history.operations@, r@[k].0@, history.operations@.len()),
{
    let h = &history.operations;
    let mut r: Vec<(String, ErrorRate)> = Vec::new();
    let mut i: usize = 0;
    while i < h.len()
        invariant
            i <= h@.len(),
            r@.map_values(|e: (String, ErrorRate)| e.0@) == type_names_upto(h@, i as nat),
            forall|k: int| 0 <= k < r@.len() ==> #[trigger] r@[k].1 == error_rate_upto(h@, r@[k].0@, i as nat),
        decreases h@.len() - i,
    {
        let op = &h[i];
        let name = operation_type_name(&op.op);
        let name_s = name.to_owned();
        let ghost names = r@.map_values(|e: (String, ErrorRate)| e.0@);
        // find the entry for this type
        let mut k: usize = 0;
        while k < r.len() && r[k].0 != name_s
            invariant
                k <= r@.len(),
                names == r@.map_values(|e: (String, ErrorRate)| e.0@),
                forall|a: int| 0 <= a < k ==> r@[a].0@ != name_s@,
            decreases r@.len() - k,
        {
            k += 1;
        }
        if k == r.len() {
            assert(!names.contains(name_s@)) by {
                if names.contains(name_s@) {
                    let a = choose|a: int| 0 <= a < names.len() && names[a] == name_s@;
                    assert(r@[a].0@ == names[a]);
                }
            }
            let ghost r0 = r@;
            r.push((name_s, ErrorRate { total: 0, successes: 0, errors: 0 }));
            proof {
                assert(r@.map_values(|e: (String, ErrorRate)| e.0@) =~= names.push(op_type_name(op.op)));
                lemma_error_rate_names_absent(h@, op_type_name(op.op), i as nat);
            }
        }
        else {
            proof {
                assert(names[k as int] == r@[k as int].0@);
                assert(names.contains(op_type_name(op.op)));
            }
        }
        proof {
            lemma_error_rate_bounds(h@, r@[k as int].0@, i as nat);
        }
        let ghost r1 = r@;
        let cur = r[k].1;
        let new_rate = ErrorRate {
            total: cur.total + 1,
            successes: if op.error.is_none() && op.result.is_some() { cur.successes + 1 } else { cur.successes },
            errors: if op.error.is_some() { cur.errors + 1 } else { cur.errors },
        };
        let key = r[k].0.clone();
        r.set(k, (key, new_rate));
        proof {
            assert(r@.map_values(|e: (String, ErrorRate)| e.0@) =~= r1.map_values(|e: (String, ErrorRate)| e.0@));
            assert(r1.map_values(|e: (String, ErrorRate)| e.0@) == type_names_upto(h@, (i + 1) as nat));
            assert forall|a: int| 0 <= a < r@.len() implies #[trigger] r@[a].1 == error_rate_upto(h@, r@[a].0@, (i + 1) as nat) by {
                if a != k {
                    assert(r@[a] == r1[a]);
                    assert(r1[a].0@ != r1[k as int].0@) by {
                        lemma_names_distinct(h@, i as nat);
                        assert(r1.map_values(|e: (String, ErrorRate)| e.0@)[a] == r1[a].0@);
                        assert(r1.map_values(|e: (String, ErrorRate)| e.0@)[k as int] == r1[k as int].0@);
                    }
                }
            }
        }
        i += 1;
    }
    r
}

proof fn lemma_names_distinct(h: Seq<Operation>, n: nat)
    ensures
        forall|a: int, b: int| 0 <= a < b < type_names_upto(h, n).len() ==> type_names_upto(h, n)[a] != type_names_upto(h, n)[b],
    decreases n,
{
    if n > 0 {
        lemma_names_distinct(h, (n - 1) as nat);
        let names = type_names_upto(h, (n - 1) as nat);
        let t = op_type_name(h[n - 1].op);
        if !names.contains(t) {
            assert forall|a: int, b: int| 0 <= a < b < names.push(t).len() implies names.push(t)[a] != names.push(t)[b] by {
                if b == names.len() {
                    assert(names.push(t)[a] == names[a]);
                    assert(names.contains(names[a]));
                }
            }
        }
    }
}

proof fn lemma_error_rate_names_absent(h: Seq<Operation>, name: Seq<char>, n: nat)
    requires
        !type_names_upto(h, n).contains(name),
    ensures
        error_rate_upto(h, name, n) == (ErrorRate { total: 0, successes: 0, errors: 0 }),
    decreases n,
{
    if n > 0 {
        let names = type_names_upto(h, (n - 1) as nat);
        let t = op_type_name(h[n - 1].op);
        if names.contains(t) {
            assert(t != name);
        } else {
            assert(names.push(t)[names.len() as int] == t);
            assert(t != name);
            assert forall|x: Seq<char>| names.contains(x) implies names.push(t).contains(x) by {
                let a = choose|a: int| 0 <= a < names.len() && names[a] == x;
                assert(names.push(t)[a] == x);
            }
        }
        lemma_error_rate_names_absent(h, name, (n - 1) as nat);
    }
}

/// Which operations a filter keeps.
pub enum OperationFilter {
    /// Operations of the named type (see `op_type_name`).
    OperationType(String),
    /// Operations invoked within `[start, end]`.
    TimeRange(u64, u64),
    /// Operations of a process.
    Process(usize),
    /// Operations with a result.
    Successful,
    /// Operations with an error.
    Failed,
    /// Operations touching a key (a transaction touches the keys of its
    /// steps).
    Key(String),
}

/// Whether `op` touches key `k`.
pub open spec fn touches_key(op: OperationType, k: Seq<char>) -> bool {
    match op {
        OperationType::Transaction { ops } => exists|i: int| 0 <= i < ops@.len() && #[trigger] txn_op_key(ops@[i]) == k,
        _ => op_key(op) == Some(k),
    }
}

/// Whether the filter keeps `op`.
pub open spec fn keeps(f: OperationFilter, op: Operation) -> bool {
    match f {
        OperationFilter::OperationType(t) => op_type_name(op.op) == t@,
        OperationFilter::TimeRange(start, end) => start <= op.invoke_time <= end,
        OperationFilter::Process(p) => op.process == p,
        OperationFilter::Successful => op.result is Some,
        OperationFilter::Failed => op.error is Some,
        OperationFilter::Key(k) => touches_key(op.op, k@),
    }
}

/// Whether `op` touches key `k`.
pub fn operation_touches_key(op: &OperationType, k: &String) -> (r: bool)
    ensures
        r == touches_key(*op, k@),
{
    match op {
        OperationType::Transaction { ops } => {
            let mut i: usize = 0;
            while i < ops.len()
                invariant
                    i <= ops@.len(),
                    *op == (OperationType::Transaction { ops: *ops }),
                    forall|j: int| 0 <= j < i ==> txn_op_key(ops@[j]) != k@,
                decreases ops@.len() - i,
            {
                if *ops[i].key() == *k {
                    assert(txn_op_key(ops@[i as int]) == k@);
                    assert(op->ops == *ops);
                    assert(op->ops@ == ops@);
                    assert(touches_key(*op, k@));
                    return true;
                }
                i += 1;
            }
            false
        },
        _ => {
            match op.key() {
                Some(key) => *key == *k,
                None => false,
            }
        },
    }
}

/// Whether the filter keeps `op`.
pub fn filter_keeps(f: &OperationFilter, op: &Operation) -> (r: bool)
    ensures
        r == keeps(*f, *op),
{
    match f {
        OperationFilter::OperationType(t) => {
            let name = operation_type_name(&op.op).to_owned();
            name == *t
        },
        OperationFilter::TimeRange(start, end) => *start <= op.invoke_time && op.invoke_time <= *end,
        OperationFilter::Process(p) => op.process == *p,
        OperationFilter::Successful => op.result.is_some(),
        OperationFilter::Failed => op.error.is_some(),
        OperationFilter::Key(k) => operation_touches_key(&op.op, k),
    }
}

/// The operations the filter keeps, in history order.
pub fn filter_operations<'a>(history: &'a History, f: &OperationFilter) -> (r: Vec<&'a Operation>)
    ensures
        r@.unref() == history.operations@.filter(|op: Operation| keeps(*f, op)),
{
    let h = &history.operations;
    let ghost pred = |op: Operation| keeps(*f, op);
    let mut r: Vec<&'a Operation> = Vec::new();
    let mut i: usize = 0;
    assert(h@.take(0).filter(pred) =~= Seq::<Operation>::empty()) by {
        reveal(Seq::filter);
    }
    while i < h.len()
        invariant
            i <= h@.len(),
            pred == (|op: Operation| keeps(*f, op)),
            r@.unref() == h@.take(i as int).filter(pred),
        decreases h@.len() - i,
    {
        let ghost r0 = r@;
        proof {
            assert(h@.take(i + 1) =~= h@.take(i as int).push(h@[i as int]));
            h@.take(i as int).lemma_filter_push(h@[i as int], pred);
        }
        if filter_keeps(f, &h[i]) {
            r.push(&h[i]);
            assert(r@.unref() =~= r0.unref().push(h@[i as int]));
        }
        i += 1;
    }
    assert(h@.take(h@.len() as int) =~= h@);
    r
}

/// Operations of the named type.
pub fn by_operation_type<'a>(history: &'a History, op_type: &str) -> (r: Vec<&'a Operation>)
    ensures
        r@.unref() == history.operations@.filter(|op: Operation| op_type_name(op.op) == op_type@),
{
    let f = OperationFilter::OperationType(op_type.to_owned());
    let r = filter_operations(history, &f);
    assert(history.operations@.filter(|op: Operation| keeps(f, op))
        == history.operations@.filter(|op: Operation| op_type_name(op.op) == op_type@)) by {
        assert((|op: Operation| keeps(f, op)) =~= (|op: Operation| op_type_name(op.op) == op_type@));
    }
    r
}

/// Operations invoked within `[start, end]`.
pub fn by_time_range(history: &History, start: u64, end: u64) -> (r: Vec<&Operation>)
    ensures
        r@.unref() == history.operations@.filter(|op: Operation| start <= op.invoke_time <= end),
{
    let f = OperationFilter::TimeRange(start, end);
    let r = filter_operations(history, &f);
    assert((|op: Operation| keeps(f, op)) =~= (|op: Operation| start <= op.invoke_time <= end));
    r
}

/// Operations of a process.
pub fn by_process(history: &History, process_id: usize) -> (r: Vec<&Operation>)
    ensures
        r@.unref() == history.operations@.filter(|op: Operation| op.process == process_id),
{
    let f = OperationFilter::Process(process_id);
    let r = filter_operations(history, &f);
    assert((|op: Operation| keeps(f, op)) =~= (|op: Operation| op.process == process_id));
    r
}

/// Operations with a result.
pub fn successful_only(history: &History) -> (r: Vec<&Operation>)
    ensures
        r@.unref() == history.operations@.filter(|op: Operation| op.result is Some),
{
    let f = OperationFilter::Successful;
    let r = filter_operations(history, &f);
    assert((|op: Operation| keeps(f, op)) =~= (|op: Operation| op.result is Some));
    r
}

/// Operations with an error.
pub fn failed_only(history: &History) -> (r: Vec<&Operation>)
    ensures
        r@.unref() == history.operations@.filter(|op: Operation| op.error is Some),
{
    let f = OperationFilter::Failed;
    let r = filter_operations(history, &f);
    assert((|op: Operation| keeps(f, op)) =~= (|op: Operation| op.error is Some));
    r
}

/// Operations touching a key.
pub fn by_key<'a>(history: &'a History, key: &str) -> (r: Vec<&'a Operation>)
    ensures
        r@.unref() == history.operations@.filter(|op: Operation| touches_key(op.op, key@)),
{
    let f = OperationFilter::Key(key.to_owned());
    let r = filter_operations(history, &f);
    assert((|op: Operation| keeps(f, op)) =~= (|op: Operation| touches_key(op.op, key@)));
    r
}

} // verus!

verus! {

/// For each position, the invocation time of the first operation with
/// the same identifier: the key by which per-process sequences are sorted.
pub open spec fn first_invoke_keys(h: Seq<Operation>) -> Seq<u64> {
    Seq::new(h.len(), |j: int| first_invoke_of(h, h[j].id))
}

/// Positions below `n` of the operations of process `p`, in increasing order.
pub open spec fn process_positions_upto(h: Seq<Operation>, p: usize, n: nat) -> Seq<usize>
    decreases n,
{
    if n == 0 {
        Seq::empty()
    } else {
        let s = process_positions_upto(h, p, (n - 1) as nat);
        if h[n - 1].process == p { s.push((n - 1) as usize) } else { s }
    }
}

/// The processes among the first `n` operations, in order of first appearance.
pub open spec fn processes_upto(h: Seq<Operation>, n: nat) -> Seq<usize>
    decreases n,
{
    if n == 0 {
        Seq::empty()
    } else {
        let s = processes_upto(h, (n - 1) as nat);
        if s.contains(h[n - 1].process) { s } else { s.push(h[n - 1].process) }
    }
}

/// The identifiers of process `p`'s operations, stably sorted by the
/// invocation time of the first operation carrying each identifier.
pub open spec fn process_sequence(h: Seq<Operation>, p: usize) -> Seq<u128> {
    time_order(first_invoke_keys(h), process_positions_upto(h, p, h.len())).map_values(|j: usize| h[j as int].id)
}

proof fn lemma_process_positions_increasing(h: Seq<Operation>, p: usize, n: nat)
    requires
        n <= h.len(),
        h.len() <= usize::MAX,
    ensures
        forall|a: int, b: int| 0 <= a < b < process_positions_upto(h, p, n).len()
            ==> process_positions_upto(h, p, n)[a] < process_positions_upto(h, p, n)[b],
        forall|a: int| 0 <= a < process_positions_upto(h, p, n).len() ==> process_positions_upto(h, p, n)[a] < n,
    decreases n,
{
    if n > 0 {
        lemma_process_positions_increasing(h, p, (n - 1) as nat);
        let s = process_positions_upto(h, p, (n - 1) as nat);
        let q = process_positions_upto(h, p, n);
        if h[n - 1].process == p {
            assert(q == s.push((n - 1) as usize));
            assert forall|a: int, b: int| 0 <= a < b < q.len() implies q[a] < q[b] by {
                assert(q[a] == s[a]);
                if b < s.len() {
                    assert(q[b] == s[b]);
                }
            }
            assert forall|a: int| 0 <= a < q.len() implies q[a] < n by {
                if a < s.len() {
                    assert(q[a] == s[a]);
                }
            }
        }
    }
}

/// The first position holding identifier `h[j].id` is the `q` found by a
/// forward scan.
proof fn lemma_first_position(h: Seq<Operation>, id: u128, q: int)
    requires
        0 <= q < h.len(),
        h[q].id == id,
        forall|x: int| 0 <= x < q ==> h[x].id != id,
    ensures
        first_position_of(h, id) == q,
{
    let p = first_position_of(h, id);
    assert(0 <= p < h.len() && h[p].id == id && forall|x: int| 0 <= x < p ==> h[x].id != id);
    if p < q {
        assert(h[p].id != id);
    } else if q < p {
        assert(h[q].id != id);
    }
}

/// For each position, the invocation time of the first operation with the
/// same identifier.
pub fn first_invoke_key_list(h: &Vec<Operation>) -> (r: Vec<u64>)
    ensures
        r@ == first_invoke_keys(h@),
{
    let mut r: Vec<u64> = Vec::new();
    let mut j: usize = 0;
    while j < h.len()
        invariant
            j <= h@.len(),
            r@.len() == j,
            forall|a: int| 0 <= a < j ==> r@[a] == first_invoke_of(h@, h@[a].id),
        decreases h@.len() - j,
    {
        let id = h[j].id;
        let mut q: usize = 0;
        while h[q].id != id
            invariant
                q <= j < h@.len(),
                id == h@[j as int].id,
                forall|x: int| 0 <= x < q ==> h@[x].id != id,
            decreases j - q,
        {
            q += 1;
        }
        proof {
            lemma_first_position(h@, id, q as int);
        }
        r.push(h[q].invoke_time);
        j += 1;
    }
    assert(r@ =~= first_invoke_keys(h@));
    r
}

/// The processes of the history, in order of first appearance.
pub fn process_list(h: &Vec<Operation>) -> (r: Vec<usize>)
    ensures
        r@ == processes_upto(h@, h@.len()),
{
    let mut r: Vec<usize> = Vec::new();
    let mut i: usize = 0;
    while i < h.len()
        invariant
            i <= h@.len(),
            r@ == processes_upto(h@, i as nat),
        decreases h@.len() - i,
    {
        let p = h[i].process;
        let mut k: usize = 0;
        while k < r.len() && r[k] != p
            invariant
                k <= r@.len(),
                forall|a: int| 0 <= a < k ==> r@[a] != p,
            decreases r@.len() - k,
        {
            k += 1;
        }
        if k == r.len() {
            assert(!r@.contains(p)) by {
                if r@.contains(p) {
                    let a = choose|a: int| 0 <= a < r@.len() && r@[a] == p;
                }
            }
            r.push(p);
        } else {
            assert(r@[k as int] == p);
        }
        i += 1;
    }
    r
}

/// Positions of the operations of process `p`, in increasing order.
pub fn positions_of_process(h: &Vec<Operation>, p: usize) -> (r: Vec<usize>)
    ensures
        r@ == process_positions_upto(h@, p, h@.len()),
{
    let mut r: Vec<usize> = Vec::new();
    let mut i: usize = 0;
    while i < h.len()
        invariant
            i <= h@.len(),
            r@ == process_positions_upto(h@, p, i as nat),
        decreases h@.len() - i,
    {
        if h[i].process == p {
            r.push(i);
        }
        i += 1;
    }
    r
}

/// The identifiers of each process's operations, sorted by invocation time
/// (ties in history order); processes in order of first appearance.
pub fn extract_process_sequences(history: &History) -> (r: Vec<(usize, Vec<u128>)>)
    ensures
        r@.map_values(|e: (usize, Vec<u128>)| e.0) == processes_upto(history.operations@, history.operations@.len()),
        forall|k: int| 0 <= k < r@.len() ==>
            (#[trigger] r@[k]).1@ == process_sequence(history.operations@, r@[k].0),
{
    let h = &history.operations;
    let keys = first_invoke_key_list(h);
    let procs = process_list(h);
    let mut r: Vec<(usize, Vec<u128>)> = Vec::new();
    let mut k: usize = 0;
    while k < procs.len()
        invariant
            k <= procs@.len(),
            keys@ == first_invoke_keys(h@),
            r@.len() == k,
            forall|a: int| 0 <= a < k ==> (#[trigger] r@[a]).0 == procs@[a],
            forall|a: int| 0 <= a < k ==> (#[trigger] r@[a]).1@ == process_sequence(h@, r@[a].0),
        decreases procs@.len() - k,
    {
        let p = procs[k];
        let positions = positions_of_process(h, p);
        proof {
            assert(h@.len() == h.len());
            lemma_process_positions_increasing(h@, p, h@.len());
            assert(keys@.len() == h@.len());
            assert(in_range(keys@, positions@));
        }
        let order = sort_by_time(&keys, &positions);
        let mut ids: Vec<u128> = Vec::new();
        let mut j: usize = 0;
        while j < order.len()
            invariant
                j <= order@.len(),
                in_range(keys@, order@),
                keys@.len() == h@.len(),
                ids@.len() == j,
                forall|a: int| 0 <= a < j ==> ids@[a] == h@[order@[a] as int].id,
            decreases order@.len() - j,
        {
            ids.push(h[order[j]].id);
            j += 1;
        }
        assert(ids@ =~= order@.map_values(|x: usize| h@[x as int].id));
        r.push((p, ids));
        k += 1;
    }
    assert(r@.map_values(|e: (usize, Vec<u128>)| e.0) =~= procs@);
    r
}

} // verus!
