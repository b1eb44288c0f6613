//! Consistency checkers: a single-register linearizability checker and a
//! transaction serializability checker.

use vstd::prelude::*;
use crate::json::{Json, JsonValue, json_eq};
use crate::sorting::{before, ordered_by_time, in_range, same_members, time_order, sort_by_time};
use crate::digraph::{edge, well_formed, is_walk, is_graph_cycle, has_graph_cycle, find_graph_cycle};
use super::model::{Operation, OperationType, OperationResult, TransactionOp, Violation, ViolationType, ConsistencyModel, CheckerResult, CheckerMetadata, History, op_key, txn_op_key};

verus! {

// ---------------------------------------------------------------------
// Linearizability
// ---------------------------------------------------------------------

/// The operation takes part in the linearizability check: a completed
/// read, write or compare-and-swap.
pub open spec fn lin_candidate(op: Operation) -> bool {
    &&& (op.op is Read || op.op is Write || op.op is Cas)
    &&& op.complete_time is Some
}

/// The key of a candidate operation.
pub open spec fn lin_key(op: Operation) -> Seq<char> {
    op_key(op.op)->0
}

/// One step of the register model: the state after `op`, or `None` when
/// `op` cannot have happened in `state`.
///
/// A successful write sets the register; a read of a value is accepted
/// when it equals the register or the register is null; a successful
/// compare-and-swap requires the register to equal the expected value.
pub open spec fn lin_step(state: Json, op: Operation) -> Option<Json> {
    match (op.op, op.result) {
        (OperationType::Write { value, .. }, Some(OperationResult::WriteOk)) => Some(value@),
        (OperationType::Read { .. }, Some(OperationResult::ReadOk { value: Some(v) })) => {
            if v@ != state && state != Json::Null {
                None
            } else {
                Some(state)
            }
        },
        (OperationType::Cas { old, new, .. }, Some(OperationResult::CasOk { success })) => {
            if success {
                if state == old@ {
                    Some(new@)
                } else {
                    None
                }
            } else {
                Some(state)
            }
        },
        _ => Some(state),
    }
}

/// Whether the register model accepts `ops` in order, starting from `state`.
pub open spec fn lin_accepts(state: Json, ops: Seq<Operation>) -> bool
    decreases ops.len(),
{
    if ops.len() == 0 {
        true
    } else {
        match lin_step(state, ops[0]) {
            None => false,
            Some(next) => lin_accepts(next, ops.drop_first()),
        }
    }
}

/// What the register model makes of an operation followed by others: a
/// successful write leaves the written value in the register; a
/// successful compare-and-swap whose expected value is the register's
/// leaves its new value there, and one whose expected value is not cannot
/// have happened; a compare-and-swap that did not swap leaves the
/// register; a read of a value is accepted exactly when the register holds
/// that value or is still null, and leaves the register.
pub proof fn lemma_register_model(state: Json, op: Operation, rest: Seq<Operation>)
    ensures
        op.op matches OperationType::Write { value, .. } ==> (op.result == Some(OperationResult::WriteOk)
            ==> lin_accepts(state, seq![op] + rest) == lin_accepts(value@, rest)),
        op.op matches OperationType::Cas { old, new, .. } ==> (op.result == Some(OperationResult::CasOk { success: true })
            ==> lin_accepts(state, seq![op] + rest) == (state == old@ && lin_accepts(new@, rest))),
        op.op is Cas ==> (op.result == Some(OperationResult::CasOk { success: false })
            ==> lin_accepts(state, seq![op] + rest) == lin_accepts(state, rest)),
        op.op is Read ==> (op.result matches Some(OperationResult::ReadOk { value: Some(v) })
            ==> lin_accepts(state, seq![op] + rest) == ((v@ == state || state == Json::Null) && lin_accepts(state, rest))),
{
    assert((seq![op] + rest).drop_first() =~= rest);
    assert((seq![op] + rest)[0] == op);
}

/// After a successful write of `a` and a successful compare-and-swap from
/// `a` to `b`, whatever the register held before, a read of a value is
/// accepted exactly when the value is `b` (or `b` is null): a read of `a`
/// is refused when `b` is another value that is not null.
pub proof fn lemma_cas_moves_register(state: Json, w: Operation, c: Operation, r: Operation, a: JsonValue, b: JsonValue)
    requires
        w.op matches OperationType::Write { value, .. } && value@ == a@,
        w.result == Some(OperationResult::WriteOk),
        c.op matches OperationType::Cas { old, new, .. } && old@ == a@ && new@ == b@,
        c.result == Some(OperationResult::CasOk { success: true }),
        r.op is Read,
    ensures
        r.result matches Some(OperationResult::ReadOk { value: Some(v) }) ==> (
            lin_accepts(state, seq![w, c, r]) == (v@ == b@ || b@ == Json::Null)),
{
    let rest_c = seq![c, r];
    let rest_r = seq![r];
    assert(seq![w, c, r] =~= seq![w] + rest_c);
    assert(rest_c =~= seq![c] + rest_r);
    assert(rest_r =~= seq![r] + Seq::<Operation>::empty());
    lemma_register_model(state, w, rest_c);
    lemma_register_model(a@, c, rest_r);
    lemma_register_model(b@, r, Seq::<Operation>::empty());
}

/// Invocation times of the operations, by position.
pub open spec fn invoke_times(h: Seq<Operation>) -> Seq<u64> {
    h.map_values(|op: Operation| op.invoke_time)
}

/// Positions, in increasing order, of the candidates among the first `n`
/// operations that act on key `k`.
pub open spec fn key_positions_upto(h: Seq<Operation>, k: Seq<char>, n: nat) -> Seq<usize>
    decreases n,
{
    if n == 0 {
        Seq::empty()
    } else {
        let p = key_positions_upto(h, k, (n - 1) as nat);
        if lin_candidate(h[n - 1]) && lin_key(h[n - 1]) == k {
            p.push((n - 1) as usize)
        } else {
            p
        }
    }
}

/// Positions of the candidates acting on key `k`.
pub open spec fn key_positions(h: Seq<Operation>, k: Seq<char>) -> Seq<usize> {
    key_positions_upto(h, k, h.len())
}

/// The candidates on key `k`, ordered by invocation time (ties in history
/// order).
pub open spec fn key_history(h: Seq<Operation>, k: Seq<char>) -> Seq<Operation> {
    time_order(invoke_times(h), key_positions(h, k)).map_values(|i: usize| h[i as int])
}

/// Whether the operations on key `k` are accepted by the register model.
pub open spec fn key_linearizable(h: Seq<Operation>, k: Seq<char>) -> bool {
    lin_accepts(Json::Null, key_history(h, k))
}

/// Keys of the candidates among the first `n` operations, in order of
/// first appearance.
pub open spec fn lin_keys_upto(h: Seq<Operation>, n: nat) -> Seq<Seq<char>>
    decreases n,
{
    if n == 0 {
        Seq::empty()
    } else {
        let ks = lin_keys_upto(h, (n - 1) as nat);
        if lin_candidate(h[n - 1]) && !ks.contains(lin_key(h[n - 1])) {
            ks.push(lin_key(h[n - 1]))
        } else {
            ks
        }
    }
}

/// Keys of all candidates, in order of first appearance.
pub open spec fn lin_keys(h: Seq<Operation>) -> Seq<Seq<char>> {
    lin_keys_upto(h, h.len())
}

/// The keys whose operations are not linearizable, in order of first
/// appearance.
pub open spec fn failing_keys(h: Seq<Operation>) -> Seq<Seq<char>> {
    lin_keys(h).filter(|k: Seq<char>| !key_linearizable(h, k))
}

/// Number of candidates among the first `n` operations.
pub open spec fn lin_candidate_count(h: Seq<Operation>, n: nat) -> nat
    decreases n,
{
    if n == 0 {
        0
    } else {
        lin_candidate_count(h, (n - 1) as nat) + if lin_candidate(h[n - 1]) { 1nat } else { 0nat }
    }
}

/// The description of a linearizability violation on key `k`.
pub open spec fn lin_violation_description(k: Seq<char>) -> Seq<char> {
    "Linearizability violation found for key '"@ + k + "'"@
}

/// `v` reports that the operations on key `k` are not linearizable.
pub open spec fn is_lin_violation(h: Seq<Operation>, k: Seq<char>, v: Violation) -> bool {
    &&& v.violation_type == ViolationType::LinearizabilityViolation
    &&& v.operations@ == key_history(h, k).map_values(|op: Operation| op.id)
    &&& v.description@ == lin_violation_description(k)
    &&& v.context@.len() == 0
}

/// Linearizability checker for single-register operations.
pub struct LinearizabilityChecker {
    /// Maximum search depth for linearization.
    pub max_depth: usize,
}

impl LinearizabilityChecker {
    /// A checker with the default search depth (1000).
    pub fn new() -> (r: Self)
        ensures
            r.max_depth == 1000,
    {
        LinearizabilityChecker { max_depth: 1000 }
    }

    /// A checker with the given search depth.
    pub fn with_max_depth(max_depth: usize) -> (r: Self)
        ensures
            r.max_depth == max_depth,
    {
        LinearizabilityChecker { max_depth }
    }

    /// The checker's name.
    pub fn name(&self) -> (r: &'static str)
        ensures
            r@ == "linearizability"@,
    {
        "linearizability"
    }

    /// The model this checker validates.
    pub fn consistency_model(&self) -> (r: ConsistencyModel)
        ensures
            r == ConsistencyModel::Linearizability,
    {
        ConsistencyModel::Linearizability
    }

    /// Runs the register model over `ops` (already in time order).
    pub fn is_linearizable(&self, h: &Vec<Operation>, order: &Vec<usize>) -> (r: bool)
        requires
            forall|a: int| 0 <= a < order@.len() ==> order@[a] < h@.len(),
        ensures
            r == lin_accepts(Json::Null, order@.map_values(|i: usize| h@[i as int])),
    {
        let ghost ops = order@.map_values(|i: usize| h@[i as int]);
        let mut state = JsonValue::Null;
        let mut i: usize = 0;
        assert(ops.skip(0) =~= ops);
        while i < order.len()
            invariant
                i <= order@.len(),
                ops == order@.map_values(|i: usize| h@[i as int]),
                forall|a: int| 0 <= a < order@.len() ==> order@[a] < h@.len(),
                lin_accepts(Json::Null, ops) == lin_accepts(state@, ops.skip(i as int)),
            decreases order@.len() - i,
        {
            let op = &h[order[i]];
            let ghost rest = ops.skip(i as int);
            assert(rest[0] == *op);
            assert(rest.drop_first() =~= ops.skip(i + 1));
            match (&op.op, &op.result) {
                (OperationType::Write { value, .. }, Some(OperationResult::WriteOk)) => {
                    state = value.deep_clone();
                },
                (OperationType::Read { .. }, Some(OperationResult::ReadOk { value: Some(read_value) })) => {
                    if !json_eq(read_value, &state) && !state.is_null() {
                        return false;
                    }
                },
                (OperationType::Cas { old, new, .. }, Some(OperationResult::CasOk { success })) => {
                    if *success {
                        if json_eq(&state, old) {
                            state = new.deep_clone();
                        } else {
                            return false;
                        }
                    }
                },
                _ => {},
            }
            i += 1;
        }
        assert(ops.skip(i as int).len() == 0);
        true
    }
}

/// Whether `op` takes part in the linearizability check.
pub fn is_lin_candidate(op: &Operation) -> (r: bool)
    ensures
        r == lin_candidate(*op),
{
    let kind_ok = match &op.op {
        OperationType::Read { .. } => true,
        OperationType::Write { .. } => true,
        OperationType::Cas { .. } => true,
        _ => false,
    };
    kind_ok && op.complete_time.is_some()
}

/// Whether `needle` occurs in `v`.
pub fn contains_string(v: &Vec<String>, needle: &String) -> (r: bool)
    ensures
        r == v@.map_values(|x: String| x@).contains(needle@),
{
    let ghost vs = v@.map_values(|x: String| x@);
    let mut i: usize = 0;
    while i < v.len()
        invariant
            i <= v@.len(),
            vs == v@.map_values(|x: String| x@),
            forall|j: int| 0 <= j < i ==> vs[j] != needle@,
        decreases v@.len() - i,
    {
        if v[i] == *needle {
            assert(vs[i as int] == needle@);
            return true;
        }
        i += 1;
    }
    assert(!vs.contains(needle@)) by {
        if vs.contains(needle@) {
            let j = choose|j: int| 0 <= j < vs.len() && vs[j] == needle@;
            assert(vs[j] != needle@);
        }
    }
    false
}

/// The invocation times of the operations.
pub fn invoke_time_vec(h: &Vec<Operation>) -> (r: Vec<u64>)
    ensures
        r@ == invoke_times(h@),
{
    let mut r: Vec<u64> = Vec::new();
    let mut i: usize = 0;
    while i < h.len()
        invariant
            i <= h@.len(),
            r@ == invoke_times(h@.take(i as int)),
        decreases h@.len() - i,
    {
        r.push(h[i].invoke_time);
        assert(invoke_times(h@.take(i + 1)) =~= invoke_times(h@.take(i as int)).push(h@[i as int].invoke_time));
        i += 1;
    }
    assert(h@.take(h@.len() as int) =~= h@);
    r
}

/// `key_positions_upto` lists increasing positions below `n`.
pub proof fn lemma_key_positions_increasing(h: Seq<Operation>, k: Seq<char>, n: nat)
    requires
        n <= h.len(),
        h.len() <= usize::MAX,
    ensures
        forall|a: int, b: int| 0 <= a < b < key_positions_upto(h, k, n).len()
            ==> key_positions_upto(h, k, n)[a] < key_positions_upto(h, k, n)[b],
        forall|a: int| 0 <= a < key_positions_upto(h, k, n).len() ==> key_positions_upto(h, k, n)[a] < n,
    decreases n,
{
    if n > 0 {
        lemma_key_positions_increasing(h, k, (n - 1) as nat);
        let p = key_positions_upto(h, k, (n - 1) as nat);
        let q = key_positions_upto(h, k, n);
        if lin_candidate(h[n - 1]) && lin_key(h[n - 1]) == k {
            assert(q == p.push((n - 1) as usize));
            assert forall|a: int, b: int| 0 <= a < b < q.len() implies q[a] < q[b] by {
                if b < p.len() {
                    assert(q[a] == p[a] && q[b] == p[b]);
                } else {
                    assert(q[a] == p[a]);
                }
            }
            assert forall|a: int| 0 <= a < q.len() implies q[a] < n by {
                if a < p.len() {
                    assert(q[a] == p[a]);
                }
            }
        } else {
            assert(q == p);
        }
    }
}

/// Positions of the candidates acting on key `k`, in increasing order.
pub fn positions_of_key(h: &Vec<Operation>, k: &String) -> (r: Vec<usize>)
    ensures
        r@ == key_positions(h@, k@),
{
    let mut r: Vec<usize> = Vec::new();
    let mut i: usize = 0;
    while i < h.len()
        invariant
            i <= h@.len(),
            r@ == key_positions_upto(h@, k@, i as nat),
        decreases h@.len() - i,
    {
        let op = &h[i];
        if is_lin_candidate(op) {
            match op.op.key() {
                Some(key) => {
                    if *key == *k {
                        r.push(i);
                    }
                },
                None => {},
            }
        }
        i += 1;
    }
    r
}

/// Keys of the candidates in order of first appearance, and the number
/// of candidates.
pub fn collect_lin_keys(h: &Vec<Operation>) -> (r: (Vec<String>, usize))
    ensures
        r.0@.map_values(|x: String| x@) == lin_keys(h@),
        r.1 == lin_candidate_count(h@, h@.len()),
{
    let mut keys: Vec<String> = Vec::new();
    let mut count: usize = 0;
    let mut i: usize = 0;
    while i < h.len()
        invariant
            i <= h@.len(),
            keys@.map_values(|x: String| x@) == lin_keys_upto(h@, i as nat),
            count == lin_candidate_count(h@, i as nat),
            count <= i,
        decreases h@.len() - i,
    {
        let op = &h[i];
        if is_lin_candidate(op) {
            count += 1;
            match op.op.key() {
                Some(key) => {
                    if !contains_string(&keys, key) {
                        let ghost before_keys = keys@;
                        keys.push(key.clone());
                        assert(keys@.map_values(|x: String| x@) =~= before_keys.map_values(|x: String| x@).push(key@));
                    }
                },
                None => {},
            }
        }
        i += 1;
    }
    (keys, count)
}

/// The operation identifiers at the given positions.
pub fn ids_at(h: &Vec<Operation>, order: &Vec<usize>) -> (r: Vec<u128>)
    requires
        forall|a: int| 0 <= a < order@.len() ==> order@[a] < h@.len(),
    ensures
        r@ == order@.map_values(|i: usize| h@[i as int]).map_values(|op: Operation| op.id),
{
    let mut r: Vec<u128> = Vec::new();
    let mut i: usize = 0;
    while i < order.len()
        invariant
            i <= order@.len(),
            forall|a: int| 0 <= a < order@.len() ==> order@[a] < h@.len(),
            r@.len() == i,
            forall|a: int| 0 <= a < i ==> r@[a] == h@[order@[a] as int].id,
        decreases order@.len() - i,
    {
        r.push(h[order[i]].id);
        i += 1;
    }
    assert(r@ =~= order@.map_values(|i: usize| h@[i as int]).map_values(|op: Operation| op.id));
    r
}

impl LinearizabilityChecker {
    /// The key's operations in time order and whether the register model
    /// accepts them.
    fn check_key(&self, h: &Vec<Operation>, times: &Vec<u64>, k: &String) -> (r: (Vec<usize>, bool))
        requires
            times@ == invoke_times(h@),
        ensures
            r.0@ == time_order(invoke_times(h@), key_positions(h@, k@)),
            forall|a: int| 0 <= a < r.0@.len() ==> r.0@[a] < h@.len(),
            r.1 == key_linearizable(h@, k@),
    {
        let positions = positions_of_key(h, k);
        proof {
            assert(h@.len() == h.len());
            lemma_key_positions_increasing(h@, k@, h@.len());
            assert(in_range(times@, positions@));
        }
        let order = sort_by_time(times, &positions);
        proof {
            assert forall|a: int| 0 <= a < order@.len() implies order@[a] < h@.len() by {
                assert(times@.len() == h@.len());
            }
        }
        let ok = self.is_linearizable(h, &order);
        (order, ok)
    }

    /// One violation per key whose operations are not linearizable, in
    /// order of the keys' first appearance.
    pub fn find_linearizability_violations(&self, h: &Vec<Operation>) -> (r: Vec<Violation>)
        ensures
            r@.len() == failing_keys(h@).len(),
            forall|j: int| 0 <= j < r@.len() ==> is_lin_violation(h@, failing_keys(h@)[j], #[trigger] r@[j]),
    {
        let (keys, _count) = collect_lin_keys(h);
        let ghost ks = lin_keys(h@);
        let ghost pred = |k: Seq<char>| !key_linearizable(h@, k);
        let times = invoke_time_vec(h);
        let mut violations: Vec<Violation> = Vec::new();
        let mut j: usize = 0;
        assert(ks.take(0) =~= Seq::<Seq<char>>::empty());
        assert(Seq::<Seq<char>>::empty().filter(pred) =~= Seq::<Seq<char>>::empty()) by {
            reveal(Seq::filter);
        }
        while j < keys.len()
            invariant
                j <= keys@.len(),
                keys@.map_values(|x: String| x@) == ks,
                ks == lin_keys(h@),
                times@ == invoke_times(h@),
                pred == (|k: Seq<char>| !key_linearizable(h@, k)),
                violations@.len() == ks.take(j as int).filter(pred).len(),
                forall|a: int| 0 <= a < violations@.len()
                    ==> is_lin_violation(h@, ks.take(j as int).filter(pred)[a], #[trigger] violations@[a]),
            decreases keys@.len() - j,
        {
            let k = &keys[j];
            assert(ks[j as int] == k@);
            assert(ks.take(j + 1) =~= ks.take(j as int).push(k@));
            proof {
                ks.take(j as int).lemma_filter_push(k@, pred);
            }
            let (order, ok) = self.check_key(h, &times, k);
            if !ok {
                let ids = ids_at(h, &order);
                let mut description = "Linearizability violation found for key '".to_owned();
                description.append(k.as_str());
                description.append("'");
                let v = Violation {
                    violation_type: ViolationType::LinearizabilityViolation,
                    operations: ids,
                    description,
                    context: Vec::new(),
                };
                violations.push(v);
            }
            j += 1;
        }
        assert(ks.take(keys@.len() as int) =~= ks);
        violations
    }

    /// Checks every key's operations against the register model.
    pub fn check(&self, history: &History) -> (r: CheckerResult)
        ensures
            r.valid == (failing_keys(history.operations@).len() == 0),
            r.model == ConsistencyModel::Linearizability,
            r.violations@.len() == failing_keys(history.operations@).len(),
            forall|j: int| 0 <= j < r.violations@.len()
                ==> is_lin_violation(history.operations@, failing_keys(history.operations@)[j], #[trigger] r.violations@[j]),
            r.metadata.operations_analyzed == lin_candidate_count(history.operations@, history.operations@.len()),
            r.metadata.check_duration_nanos == 0,
            r.metadata.stats@.len() == 0,
    {
        let (_keys, count) = collect_lin_keys(&history.operations);
        let violations = self.find_linearizability_violations(&history.operations);
        CheckerResult {
            valid: violations.len() == 0,
            model: ConsistencyModel::Linearizability,
            violations,
            metadata: CheckerMetadata {
                check_duration_nanos: 0,
                operations_analyzed: count,
                stats: Vec::new(),
            },
        }
    }
}

// ---------------------------------------------------------------------
// Serializability
// ---------------------------------------------------------------------

/// The operation takes part in the serializability check: a completed
/// transaction.
pub open spec fn txn_candidate(op: Operation) -> bool {
    op.op is Transaction && op.complete_time is Some
}

/// The steps of a transaction.
pub open spec fn txn_steps(op: Operation) -> Seq<TransactionOp> {
    op.op->ops@
}

/// Two step lists touch a common key.
pub open spec fn keys_overlap(a: Seq<TransactionOp>, b: Seq<TransactionOp>) -> bool {
    exists|i: int, j: int| 0 <= i < a.len() && 0 <= j < b.len() && txn_op_key(a[i]) == txn_op_key(b[j])
}

/// The transaction at position `q` depends on the one at `p`: both are
/// candidates, `p` comes first, and they touch a common key.
pub open spec fn depends(h: Seq<Operation>, p: int, q: int) -> bool {
    &&& 0 <= p < q < h.len()
    &&& txn_candidate(h[p])
    &&& txn_candidate(h[q])
    &&& keys_overlap(txn_steps(h[p]), txn_steps(h[q]))
}

/// An edge of the dependency graph, between operation identifiers.
pub open spec fn dependency_edge(h: Seq<Operation>, x: u128, y: u128) -> bool {
    exists|p: int, q: int| depends(h, p, q) && h[p].id == x && h[q].id == y
}

/// `c` is a cycle of the dependency graph.
pub open spec fn is_dependency_cycle(h: Seq<Operation>, c: Seq<u128>) -> bool {
    &&& c.len() > 0
    &&& forall|i: int| 0 < i < c.len() ==> dependency_edge(h, c[i - 1], #[trigger] c[i])
    &&& dependency_edge(h, c.last(), c[0])
}

/// The dependency graph of the history has a cycle.
pub open spec fn has_dependency_cycle(h: Seq<Operation>) -> bool {
    exists|c: Seq<u128>| is_dependency_cycle(h, c)
}

/// No two operations of the history share an identifier.
pub open spec fn operation_ids_distinct(h: Seq<Operation>) -> bool {
    forall|i: int, j: int| 0 <= i < j < h.len() ==> h[i].id != h[j].id
}

/// The position of the operation with identifier `x`.
pub open spec fn position_of(h: Seq<Operation>, x: u128) -> int {
    choose|i: int| 0 <= i < h.len() && h[i].id == x
}

/// With distinct identifiers, a dependency edge leads from an earlier
/// operation to a later one.
proof fn lemma_edge_forward(h: Seq<Operation>, x: u128, y: u128)
    requires
        operation_ids_distinct(h),
        dependency_edge(h, x, y),
    ensures
        0 <= position_of(h, x) < position_of(h, y) < h.len(),
{
    let (p, q) = choose|p: int, q: int| depends(h, p, q) && h[p].id == x && h[q].id == y;
    let px = position_of(h, x);
    let py = position_of(h, y);
    assert(0 <= px < h.len() && h[px].id == x);
    assert(0 <= py < h.len() && h[py].id == y);
    if px != p {
        if px < p { assert(h[px].id != h[p].id); } else { assert(h[p].id != h[px].id); }
    }
    if py != q {
        if py < q { assert(h[py].id != h[q].id); } else { assert(h[q].id != h[py].id); }
    }
}

/// Along a cycle, positions rise with every edge.
proof fn lemma_cycle_rises(h: Seq<Operation>, c: Seq<u128>, k: int)
    requires
        operation_ids_distinct(h),
        is_dependency_cycle(h, c),
        0 <= k < c.len(),
    ensures
        position_of(h, c[0]) + k <= position_of(h, c[k]),
    decreases k,
{
    if k > 0 {
        lemma_cycle_rises(h, c, k - 1);
        assert(dependency_edge(h, c[k - 1], c[k]));
        lemma_edge_forward(h, c[k - 1], c[k]);
    }
}

/// Every dependency edge runs from an earlier transaction to a later one,
/// so when no two operations share an identifier the dependency graph has
/// no cycle and the serializability checker reports none.
pub proof fn lemma_no_dependency_cycle(h: Seq<Operation>)
    requires
        operation_ids_distinct(h),
    ensures
        !has_dependency_cycle(h),
{
    if has_dependency_cycle(h) {
        let c = choose|c: Seq<u128>| is_dependency_cycle(h, c);
        lemma_cycle_rises(h, c, c.len() - 1);
        lemma_edge_forward(h, c.last(), c[0]);
        assert(false);
    }
}

/// The description of a serializability violation.
pub open spec fn cycle_description() -> Seq<char> {
    "Cycle detected in transaction dependency graph"@
}

/// Whether two transactions touch a common key.
pub fn txn_keys_overlap(a: &Vec<TransactionOp>, b: &Vec<TransactionOp>) -> (r: bool)
    ensures
        r == keys_overlap(a@, b@),
{
    let mut i: usize = 0;
    while i < a.len()
        invariant
            i <= a@.len(),
            forall|x: int, y: int| 0 <= x < i && 0 <= y < b@.len() ==> txn_op_key(a@[x]) != txn_op_key(b@[y]),
        decreases a@.len() - i,
    {
        let ka = a[i].key();
        let mut j: usize = 0;
        while j < b.len()
            invariant
                i < a@.len(),
                j <= b@.len(),
                ka@ == txn_op_key(a@[i as int]),
                forall|y: int| 0 <= y < j ==> txn_op_key(a@[i as int]) != txn_op_key(b@[y]),
            decreases b@.len() - j,
        {
            let kb = b[j].key();
            if *ka == *kb {
                return true;
            }
            j += 1;
        }
        i += 1;
    }
    false
}

/// Whether `op` is a completed transaction, with its steps.
pub fn txn_candidate_steps(op: &Operation) -> (r: Option<&Vec<TransactionOp>>)
    ensures
        match r {
            Some(steps) => txn_candidate(*op) && steps@ == txn_steps(*op),
            None => !txn_candidate(*op),
        },
{
    match &op.op {
        OperationType::Transaction { ops } => {
            if op.complete_time.is_some() {
                Some(ops)
            } else {
                None
            }
        },
        _ => None,
    }
}

/// Position of `x` in `v`, if present.
pub fn index_of_id(v: &Vec<u128>, x: u128) -> (r: Option<usize>)
    ensures
        match r {
            Some(i) => i < v@.len() && v@[i as int] == x,
            None => !v@.contains(x),
        },
{
    let mut i: usize = 0;
    while i < v.len()
        invariant
            i <= v@.len(),
            forall|j: int| 0 <= j < i ==> v@[j] != x,
        decreases v@.len() - i,
    {
        if v[i] == x {
            return Some(i);
        }
        i += 1;
    }
    None
}

/// The dependency graph in dense form: the distinct identifiers of the
/// candidates (`nodes`) and adjacency lists over their positions in
/// `nodes`.
pub open spec fn dense_graph_of(h: Seq<Operation>, nodes: Seq<u128>, adj: Seq<Vec<usize>>) -> bool {
    &&& adj.len() == nodes.len()
    &&& well_formed(adj)
    &&& forall|a: int, b: int| 0 <= a < b < nodes.len() ==> nodes[a] != nodes[b]
    &&& forall|p: int| 0 <= p < h.len() && txn_candidate(h[p]) ==> nodes.contains(h[p].id)
    &&& forall|u: int, v: int| 0 <= u < nodes.len() && 0 <= v < nodes.len()
        ==> (adj[u]@.contains(v as usize) <==> dependency_edge(h, nodes[u], nodes[v]))
}

/// Some dependency from position `p` to a position below `bound` joins the
/// nodes of edge `e`.
pub open spec fn edge_from(h: Seq<Operation>, node_of: Seq<usize>, p: int, bound: int, e: (usize, usize)) -> bool {
    exists|b: int| b < bound && depends(h, p, b) && node_of[p] == e.0 && node_of[b] == e.1
}

/// Some dependency from a position below `bound` joins the nodes of edge `e`.
pub open spec fn edge_upto(h: Seq<Operation>, node_of: Seq<usize>, bound: int, e: (usize, usize)) -> bool {
    exists|a: int, b: int| a < bound && depends(h, a, b) && node_of[a] == e.0 && node_of[b] == e.1
}

proof fn lemma_edge_from_step(h: Seq<Operation>, node_of: Seq<usize>, p: int, q: int)
    ensures
        forall|e: (usize, usize)| #[trigger] edge_from(h, node_of, p, q + 1, e) <==>
            (edge_from(h, node_of, p, q, e) || (depends(h, p, q) && e == (node_of[p], node_of[q]))),
{
    assert forall|e: (usize, usize)| #[trigger] edge_from(h, node_of, p, q + 1, e) <==>
        (edge_from(h, node_of, p, q, e) || (depends(h, p, q) && e == (node_of[p], node_of[q]))) by {
        if edge_from(h, node_of, p, q + 1, e) {
            let b = choose|b: int| b < q + 1 && depends(h, p, b) && node_of[p] == e.0 && node_of[b] == e.1;
            if b < q {
                assert(edge_from(h, node_of, p, q, e));
            }
        }
        if edge_from(h, node_of, p, q, e) {
            let b = choose|b: int| b < q && depends(h, p, b) && node_of[p] == e.0 && node_of[b] == e.1;
            assert(b < q + 1);
        }
        if depends(h, p, q) && e == (node_of[p], node_of[q]) {
            assert(q < q + 1);
        }
    }
}

proof fn lemma_edge_upto_step(h: Seq<Operation>, node_of: Seq<usize>, p: int)
    requires
        0 <= p < h.len(),
    ensures
        forall|e: (usize, usize)| #[trigger] edge_upto(h, node_of, p + 1, e) <==>
            (edge_upto(h, node_of, p, e) || edge_from(h, node_of, p, h.len() as int, e)),
{
    assert forall|e: (usize, usize)| #[trigger] edge_upto(h, node_of, p + 1, e) <==>
        (edge_upto(h, node_of, p, e) || edge_from(h, node_of, p, h.len() as int, e)) by {
        if edge_upto(h, node_of, p + 1, e) {
            let (a, b) = choose|a: int, b: int| a < p + 1 && depends(h, a, b) && node_of[a] == e.0 && node_of[b] == e.1;
            if a < p {
                assert(edge_upto(h, node_of, p, e));
            } else {
                assert(b < h.len());
                assert(edge_from(h, node_of, p, h.len() as int, e));
            }
        }
        if edge_upto(h, node_of, p, e) {
            let (a, b) = choose|a: int, b: int| a < p && depends(h, a, b) && node_of[a] == e.0 && node_of[b] == e.1;
            assert(a < p + 1);
        }
        if edge_from(h, node_of, p, h.len() as int, e) {
            let b = choose|b: int| b < h.len() && depends(h, p, b) && node_of[p] == e.0 && node_of[b] == e.1;
            assert(p < p + 1);
        }
    }
}

/// Builds the dense dependency graph.
pub fn build_dependency_graph(h: &Vec<Operation>) -> (r: (Vec<u128>, Vec<Vec<usize>>))
    ensures
        dense_graph_of(h@, r.0@, r.1@),
{
    // Distinct identifiers of candidates, and each candidate's node.
    let mut nodes: Vec<u128> = Vec::new();
    let mut node_of: Vec<usize> = Vec::new();
    let mut p: usize = 0;
    while p < h.len()
        invariant
            p <= h@.len(),
            node_of@.len() == p,
            forall|a: int, b: int| 0 <= a < b < nodes@.len() ==> nodes@[a] != nodes@[b],
            forall|q: int| 0 <= q < p && txn_candidate(h@[q])
                ==> node_of@[q] < nodes@.len() && nodes@[node_of@[q] as int] == h@[q].id,
        decreases h@.len() - p,
    {
        let id = h[p].id;
        let mut idx: usize = 0;
        if txn_candidate_steps(&h[p]).is_some() {
            match index_of_id(&nodes, id) {
                Some(i) => { idx = i; },
                None => {
                    idx = nodes.len();
                    nodes.push(id);
                },
            }
        }
        node_of.push(idx);
        p += 1;
    }
    // Edges between candidate positions, as node pairs.
    let mut edges: Vec<(usize, usize)> = Vec::new();
    let mut p: usize = 0;
    while p < h.len()
        invariant
            p <= h@.len(),
            node_of@.len() == h@.len(),
            forall|q: int| 0 <= q < h@.len() && txn_candidate(h@[q])
                ==> node_of@[q] < nodes@.len() && nodes@[node_of@[q] as int] == h@[q].id,
            forall|e: (usize, usize)| edges@.contains(e) <==> edge_upto(h@, node_of@, p as int, e),
        decreases h@.len() - p,
    {
        let ghost edges_before = edges@;
        match txn_candidate_steps(&h[p]) {
            Some(sp) => {
                let mut q: usize = p + 1;
                while q < h.len()
                    invariant
                        p < q <= h@.len(),
                        node_of@.len() == h@.len(),
                        txn_candidate(h@[p as int]),
                        sp@ == txn_steps(h@[p as int]),
                        forall|e: (usize, usize)| edges_before.contains(e) <==> edge_upto(h@, node_of@, p as int, e),
                        forall|e: (usize, usize)| edges@.contains(e) <==>
                            (edges_before.contains(e) || edge_from(h@, node_of@, p as int, q as int, e)),
                    decreases h@.len() - q,
                {
                    let ghost e0 = edges@;
                    let mut added = false;
                    match txn_candidate_steps(&h[q]) {
                        Some(sq) => {
                            if txn_keys_overlap(sp, sq) {
                                edges.push((node_of[p], node_of[q]));
                                added = true;
                            }
                        },
                        None => {},
                    }
                    proof {
                        lemma_edge_from_step(h@, node_of@, p as int, q as int);
                        if added {
                            assert(depends(h@, p as int, q as int));
                            assert forall|e: (usize, usize)| edges@.contains(e) <==> (e0.contains(e) || e == (node_of@[p as int], node_of@[q as int])) by {
                                if edges@.contains(e) && !e0.contains(e) {
                                    let k = choose|k: int| 0 <= k < edges@.len() && edges@[k] == e;
                                    assert(k == e0.len());
                                }
                                if e0.contains(e) {
                                    let k = choose|k: int| 0 <= k < e0.len() && e0[k] == e;
                                    assert(edges@[k] == e);
                                }
                                if e == (node_of@[p as int], node_of@[q as int]) {
                                    assert(edges@[e0.len() as int] == e);
                                }
                            }
                        } else {
                            assert(!depends(h@, p as int, q as int));
                            assert(edges@ == e0);
                        }
                        assert forall|e: (usize, usize)| edges@.contains(e) <==>
                            (edges_before.contains(e) || edge_from(h@, node_of@, p as int, q + 1, e)) by {
                            assert(e0.contains(e) <==> (edges_before.contains(e) || edge_from(h@, node_of@, p as int, q as int, e)));
                            assert(edge_from(h@, node_of@, p as int, q + 1, e) <==>
                                (edge_from(h@, node_of@, p as int, q as int, e) || (depends(h@, p as int, q as int) && e == (node_of@[p as int], node_of@[q as int]))));
                        }
                    }
                    let ghost old_q: int = q as int;
                    q += 1;
                    assert(q as int == old_q + 1);
                    assert forall|e: (usize, usize)| edges@.contains(e) <==>
                            (edges_before.contains(e) || edge_from(h@, node_of@, p as int, q as int, e)) by {
                        assert(edges@.contains(e) <==>
                            (edges_before.contains(e) || edge_from(h@, node_of@, p as int, old_q + 1, e)));
                    }
                }
                proof {
                    lemma_edge_upto_step(h@, node_of@, p as int);
                    assert forall|e: (usize, usize)| edges@.contains(e) <==> edge_upto(h@, node_of@, p + 1, e) by {
                        assert(edges_before.contains(e) <==> edge_upto(h@, node_of@, p as int, e));
                        assert(edge_upto(h@, node_of@, p + 1, e) <==>
                            (edge_upto(h@, node_of@, p as int, e) || edge_from(h@, node_of@, p as int, h@.len() as int, e)));
                    }
                }
            },
            None => {
                proof {
                    lemma_edge_upto_step(h@, node_of@, p as int);
                    assert forall|e: (usize, usize)| edges@.contains(e) <==> edge_upto(h@, node_of@, p + 1, e) by {
                        assert(edges_before.contains(e) <==> edge_upto(h@, node_of@, p as int, e));
                        assert(edge_upto(h@, node_of@, p + 1, e) <==>
                            (edge_upto(h@, node_of@, p as int, e) || edge_from(h@, node_of@, p as int, h@.len() as int, e)));
                        assert(!edge_from(h@, node_of@, p as int, h@.len() as int, e));
                    }
                }
            },
        }
        p += 1;
    }
    // Adjacency lists.
    let mut adj: Vec<Vec<usize>> = Vec::new();
    let mut u: usize = 0;
    while u < nodes.len()
        invariant
            u <= nodes@.len(),
            adj@.len() == u,
            forall|e: (usize, usize)| edges@.contains(e) ==> e.0 < nodes@.len() && e.1 < nodes@.len(),
            forall|x: int, v: usize| 0 <= x < u ==> (adj@[x]@.contains(v) <==> edges@.contains((x as usize, v))),
            forall|x: int, j: int| 0 <= x < u && 0 <= j < adj@[x]@.len() ==> adj@[x]@[j] < nodes@.len(),
        decreases nodes@.len() - u,
    {
        let mut row: Vec<usize> = Vec::new();
        let mut k: usize = 0;
        while k < edges.len()
            invariant
                k <= edges@.len(),
                u < nodes@.len(),
                forall|e: (usize, usize)| edges@.contains(e) ==> e.0 < nodes@.len() && e.1 < nodes@.len(),
                forall|v: usize| row@.contains(v) <==> exists|j: int| 0 <= j < k && edges@[j] == (u, v),
                forall|j: int| 0 <= j < row@.len() ==> row@[j] < nodes@.len(),
            decreases edges@.len() - k,
        {
            let (a, b) = edges[k];
            if a == u {
                let ghost r0 = row@;
                row.push(b);
                proof {
                    assert(edges@.contains(edges@[k as int]));
                    assert forall|v: usize| row@.contains(v) <==> exists|j: int| 0 <= j < k + 1 && edges@[j] == (u, v) by {
                        if row@.contains(v) && !r0.contains(v) {
                            let i = choose|i: int| 0 <= i < row@.len() && row@[i] == v;
                            assert(i == r0.len());
                            assert(edges@[k as int] == (u, v));
                        }
                        if r0.contains(v) {
                            let i = choose|i: int| 0 <= i < r0.len() && r0[i] == v;
                            assert(row@[i] == v);
                        }
                        if edges@[k as int] == (u, v) {
                            assert(row@[r0.len() as int] == v);
                        }
                    }
                }
            } else {
                proof {
                    assert forall|v: usize| row@.contains(v) <==> exists|j: int| 0 <= j < k + 1 && edges@[j] == (u, v) by {
                        if exists|j: int| 0 <= j < k + 1 && edges@[j] == (u, v) {
                            let j = choose|j: int| 0 <= j < k + 1 && edges@[j] == (u, v);
                            assert(j != k);
                        }
                    }
                }
            }
            k += 1;
        }
        proof {
            assert forall|v: usize| row@.contains(v) <==> edges@.contains((u, v)) by {
                if edges@.contains((u, v)) {
                    let j = choose|j: int| 0 <= j < edges@.len() && edges@[j] == (u, v);
                }
            }
        }
        adj.push(row);
        u += 1;
    }
    proof {
        assert forall|p: int| 0 <= p < h@.len() && txn_candidate(h@[p]) implies nodes@.contains(h@[p].id) by {
            assert(nodes@[node_of@[p] as int] == h@[p].id);
        }
        assert forall|x: int, y: int| 0 <= x < nodes@.len() && 0 <= y < nodes@.len()
            implies (adj@[x]@.contains(y as usize) <==> dependency_edge(h@, nodes@[x], nodes@[y])) by {
            if adj@[x]@.contains(y as usize) {
                assert(edges@.contains((x as usize, y as usize)));
                assert(edge_upto(h@, node_of@, h@.len() as int, (x as usize, y as usize)));
                let (a, b) = choose|a: int, b: int| a < h@.len() && depends(h@, a, b) && node_of@[a] == x as usize && node_of@[b] == y as usize;
                assert(h@[a].id == nodes@[x] && h@[b].id == nodes@[y]);
            }
            if dependency_edge(h@, nodes@[x], nodes@[y]) {
                let (a, b) = choose|a: int, b: int| depends(h@, a, b) && h@[a].id == nodes@[x] && h@[b].id == nodes@[y];
                assert(nodes@[node_of@[a] as int] == nodes@[x]);
                assert(node_of@[a] == x as usize);
                assert(nodes@[node_of@[b] as int] == nodes@[y]);
                assert(node_of@[b] == y as usize);
                assert(edge_upto(h@, node_of@, h@.len() as int, (x as usize, y as usize)));
                assert(edges@.contains((x as usize, y as usize)));
            }
        }
    }
    (nodes, adj)
}

/// Identifiers of the nodes along a dense cycle.
pub open spec fn cycle_ids(nodes: Seq<u128>, c: Seq<usize>) -> Seq<u128> {
    c.map_values(|i: usize| nodes[i as int])
}

/// A cycle of the dense graph is a cycle of the dependency graph, and the
/// dependency graph has a cycle only if the dense graph does.
pub proof fn lemma_dense_cycles(h: Seq<Operation>, nodes: Seq<u128>, adj: Seq<Vec<usize>>)
    requires
        dense_graph_of(h, nodes, adj),
        nodes.len() <= usize::MAX,
    ensures
        forall|c: Seq<usize>| is_graph_cycle(adj, c) ==> is_dependency_cycle(h, #[trigger] cycle_ids(nodes, c)),
        has_dependency_cycle(h) ==> has_graph_cycle(adj),
{
    assert forall|c: Seq<usize>| is_graph_cycle(adj, c) implies is_dependency_cycle(h, #[trigger] cycle_ids(nodes, c)) by {
        let d = cycle_ids(nodes, c);
        assert forall|i: int| 0 < i < d.len() implies dependency_edge(h, d[i - 1], #[trigger] d[i]) by {
            assert(edge(adj, c[i - 1] as int, c[i] as int));
        }
        assert(edge(adj, c.last() as int, c[0] as int));
        assert(d.last() == nodes[c.last() as int]);
    }
    if has_dependency_cycle(h) {
        let d = choose|d: Seq<u128>| is_dependency_cycle(h, d);
        // Every identifier on the cycle is a node.
        assert forall|i: int| 0 <= i < d.len() implies nodes.contains(#[trigger] d[i]) by {
            if i > 0 {
                assert(dependency_edge(h, d[i - 1], d[i]));
                let (a, b) = choose|a: int, b: int| depends(h, a, b) && h[a].id == d[i - 1] && h[b].id == d[i];
                assert(txn_candidate(h[b]));
            } else {
                assert(dependency_edge(h, d.last(), d[0]));
                let (a, b) = choose|a: int, b: int| depends(h, a, b) && h[a].id == d.last() && h[b].id == d[0];
                assert(txn_candidate(h[b]));
            }
        }
        let c = Seq::new(d.len(), |i: int| choose|u: usize| (u as int) < nodes.len() && nodes[u as int] == d[i]);
        assert forall|i: int| 0 <= i < d.len() implies (c[i] as int) < nodes.len() && nodes[c[i] as int] == d[i] by {
            assert(nodes.contains(d[i]));
            let k = choose|k: int| 0 <= k < nodes.len() && nodes[k] == d[i];
            assert((k as usize) as int == k);
        }
        assert forall|i: int| 0 < i < c.len() implies edge(adj, c[i - 1] as int, #[trigger] c[i] as int) by {
            assert(dependency_edge(h, d[i - 1], d[i]));
        }
        assert(dependency_edge(h, d.last(), d[0]));
        assert(edge(adj, c.last() as int, c[0] as int));
        assert(is_graph_cycle(adj, c));
    }
}

/// Serializability checker for multi-key transactions.
pub struct SerializabilityChecker {
    /// Check strict serializability instead of serializability.
    pub strict: bool,
}

impl SerializabilityChecker {
    /// A serializability checker.
    pub fn new() -> (r: Self)
        ensures
            !r.strict,
    {
        SerializabilityChecker { strict: false }
    }

    /// A strict-serializability checker.
    pub fn strict() -> (r: Self)
        ensures
            r.strict,
    {
        SerializabilityChecker { strict: true }
    }

    /// The checker's name.
    pub fn name(&self) -> (r: &'static str)
        ensures
            r@ == (if self.strict { "strict-serializability"@ } else { "serializability"@ }),
    {
        if self.strict {
            "strict-serializability"
        } else {
            "serializability"
        }
    }

    /// The model this checker validates.
    pub fn consistency_model(&self) -> (r: ConsistencyModel)
        ensures
            r == (if self.strict { ConsistencyModel::StrictSerializability } else { ConsistencyModel::Serializability }),
    {
        if self.strict {
            ConsistencyModel::StrictSerializability
        } else {
            ConsistencyModel::Serializability
        }
    }

    /// A cycle of the transaction dependency graph, if it has one.
    pub fn find_cycle(&self, h: &Vec<Operation>) -> (r: Option<Vec<u128>>)
        ensures
            match r {
                Some(c) => is_dependency_cycle(h@, c@),
                None => !has_dependency_cycle(h@),
            },
    {
        let (nodes, adj) = build_dependency_graph(h);
        proof {
            assert(nodes@.len() == nodes.len());
            lemma_dense_cycles(h@, nodes@, adj@);
        }
        match find_graph_cycle(&adj) {
            Some(c) => {
                let mut ids: Vec<u128> = Vec::new();
                let mut i: usize = 0;
                while i < c.len()
                    invariant
                        i <= c@.len(),
                        is_graph_cycle(adj@, c@),
                        adj@.len() == nodes@.len(),
                        well_formed(adj@),
                        ids@ == cycle_ids(nodes@, c@).take(i as int),
                    decreases c@.len() - i,
                {
                    proof {
                        if i > 0 {
                            assert(edge(adj@, c@[i - 1] as int, c@[i as int] as int));
                        } else {
                            assert(edge(adj@, c@.last() as int, c@[0] as int));
                        }
                    }
                    ids.push(nodes[c[i]]);
                    assert(ids@ =~= cycle_ids(nodes@, c@).take(i + 1));
                    i += 1;
                }
                assert(ids@ =~= cycle_ids(nodes@, c@));
                Some(ids)
            },
            None => None,
        }
    }

    /// The violations: one for a dependency cycle, if there is one.
    pub fn find_serializability_violations(&self, h: &Vec<Operation>) -> (r: Vec<Violation>)
        ensures
            r@.len() == (if has_dependency_cycle(h@) { 1int } else { 0int }),
            r@.len() == 1 ==> {
                &&& is_dependency_cycle(h@, r@[0].operations@)
                &&& r@[0].violation_type == (if self.strict { ViolationType::StrictSerializabilityViolation } else { ViolationType::SerializabilityViolation })
                &&& r@[0].description@ == cycle_description()
                &&& r@[0].context@.len() == 0
            },
    {
        let mut violations: Vec<Violation> = Vec::new();
        match self.find_cycle(h) {
            Some(cycle) => {
                let violation_type = if self.strict {
                    ViolationType::StrictSerializabilityViolation
                } else {
                    ViolationType::SerializabilityViolation
                };
                violations.push(Violation {
                    violation_type,
                    operations: cycle,
                    description: "Cycle detected in transaction dependency graph".to_owned(),
                    context: Vec::new(),
                });
            },
            None => {},
        }
        violations
    }

    /// Checks the transactions of the history for a dependency cycle.
    pub fn check(&self, history: &History) -> (r: CheckerResult)
        ensures
            r.valid == !has_dependency_cycle(history.operations@),
            r.model == (if self.strict { ConsistencyModel::StrictSerializability } else { ConsistencyModel::Serializability }),
            r.violations@.len() == (if has_dependency_cycle(history.operations@) { 1int } else { 0int }),
            r.violations@.len() == 1 ==> {
                &&& is_dependency_cycle(history.operations@, r.violations@[0].operations@)
                &&& r.violations@[0].violation_type == (if self.strict { ViolationType::StrictSerializabilityViolation } else { ViolationType::SerializabilityViolation })
                &&& r.violations@[0].description@ == cycle_description()
            },
            r.metadata.operations_analyzed == txn_candidate_count(history.operations@, history.operations@.len()),
            r.metadata.check_duration_nanos == 0,
            r.metadata.stats@.len() == 0,
            operation_ids_distinct(history.operations@) ==> r.valid && r.violations@.len() == 0,
    {
        proof {
            if operation_ids_distinct(history.operations@) {
                lemma_no_dependency_cycle(history.operations@);
            }
        }
        let count = count_txn_candidates(&history.operations);
        let violations = self.find_serializability_violations(&history.operations);
        CheckerResult {
            valid: violations.len() == 0,
            model: self.consistency_model(),
            violations,
            metadata: CheckerMetadata {
                check_duration_nanos: 0,
                operations_analyzed: count,
                stats: Vec::new(),
            },
        }
    }
}

/// Number of completed transactions among the first `n` operations.
pub open spec fn txn_candidate_count(h: Seq<Operation>, n: nat) -> nat
    decreases n,
{
    if n == 0 {
        0
    } else {
        txn_candidate_count(h, (n - 1) as nat) + if txn_candidate(h[n - 1]) { 1nat } else { 0nat }
    }
}

/// Number of completed transactions.
pub fn count_txn_candidates(h: &Vec<Operation>) -> (r: usize)
    ensures
        r == txn_candidate_count(h@, h@.len()),
{
    let mut count: usize = 0;
    let mut i: usize = 0;
    while i < h.len()
        invariant
            i <= h@.len(),
            count == txn_candidate_count(h@, i as nat),
            count <= i,
        decreases h@.len() - i,
    {
        if txn_candidate_steps(&h[i]).is_some() {
            count += 1;
        }
        i += 1;
    }
    count
}

/// One of the consistency checkers.
pub enum BasicChecker {
    /// The linearizability checker.
    Linearizability(LinearizabilityChecker),
    /// The (strict) serializability checker.
    Serializability(SerializabilityChecker),
}

/// The model a basic checker validates.
pub open spec fn basic_model(c: BasicChecker) -> ConsistencyModel {
    match c {
        BasicChecker::Linearizability(_) => ConsistencyModel::Linearizability,
        BasicChecker::Serializability(s) => if s.strict {
            ConsistencyModel::StrictSerializability
        } else {
            ConsistencyModel::Serializability
        },
    }
}

/// Whether the history passes a basic checker.
pub open spec fn basic_valid(c: BasicChecker, h: Seq<Operation>) -> bool {
    match c {
        BasicChecker::Linearizability(_) => failing_keys(h).len() == 0,
        BasicChecker::Serializability(_) => !has_dependency_cycle(h),
    }
}

/// Number of violations a basic checker reports.
pub open spec fn basic_violation_count(c: BasicChecker, h: Seq<Operation>) -> nat {
    match c {
        BasicChecker::Linearizability(_) => failing_keys(h).len(),
        BasicChecker::Serializability(_) => if has_dependency_cycle(h) { 1nat } else { 0nat },
    }
}

/// Number of operations a basic checker looks at.
pub open spec fn basic_analyzed(c: BasicChecker, h: Seq<Operation>) -> nat {
    match c {
        BasicChecker::Linearizability(_) => lin_candidate_count(h, h.len()),
        BasicChecker::Serializability(_) => txn_candidate_count(h, h.len()),
    }
}

impl BasicChecker {
    /// Checks the history.
    pub fn check(&self, history: &History) -> (r: CheckerResult)
        ensures
            r.valid == basic_valid(*self, history.operations@),
            r.model == basic_model(*self),
            r.violations@.len() == basic_violation_count(*self, history.operations@),
            r.metadata.operations_analyzed == basic_analyzed(*self, history.operations@),
    {
        match self {
            BasicChecker::Linearizability(c) => c.check(history),
            BasicChecker::Serializability(c) => c.check(history),
        }
    }

    /// The checker's name.
    pub fn name(&self) -> (r: &'static str)
        ensures
            r@ == (match *self {
                BasicChecker::Linearizability(_) => "linearizability"@,
                BasicChecker::Serializability(s) => if s.strict { "strict-serializability"@ } else { "serializability"@ },
            }),
    {
        match self {
            BasicChecker::Linearizability(c) => c.name(),
            BasicChecker::Serializability(c) => c.name(),
        }
    }

    /// The model this checker validates.
    pub fn consistency_model(&self) -> (r: ConsistencyModel)
        ensures
            r == basic_model(*self),
    {
        match self {
            BasicChecker::Linearizability(c) => c.consistency_model(),
            BasicChecker::Serializability(c) => c.consistency_model(),
        }
    }
}

/// The checker for a consistency model: linearizability for the
/// linearizability, sequential and causal models, serializability for
/// serializability, strict serializability for strict serializability.
///
/// The models without a checker of their own (`Linearizable`,
/// `Sequential`, `Eventual`) are checked for linearizability too.
pub fn create_checker(model: ConsistencyModel) -> (r: BasicChecker)
    ensures
        match model {
            ConsistencyModel::Serializability => r == BasicChecker::Serializability(SerializabilityChecker { strict: false }),
            ConsistencyModel::StrictSerializability => r == BasicChecker::Serializability(SerializabilityChecker { strict: true }),
            _ => r == BasicChecker::Linearizability(LinearizabilityChecker { max_depth: 1000 }),
        },
{
    match model {
        ConsistencyModel::Serializability => BasicChecker::Serializability(SerializabilityChecker::new()),
        ConsistencyModel::StrictSerializability => BasicChecker::Serializability(SerializabilityChecker::strict()),
        _ => BasicChecker::Linearizability(LinearizabilityChecker::new()),
    }
}

/// Sum over checkers of the number of operations each analyzes.
pub open spec fn total_analyzed(cs: Seq<BasicChecker>, h: Seq<Operation>) -> nat
    decreases cs.len(),
{
    if cs.len() == 0 {
        0
    } else {
        total_analyzed(cs.drop_last(), h) + basic_analyzed(cs.last(), h)
    }
}

/// Sum over checkers of the number of violations each reports.
pub open spec fn total_violations(cs: Seq<BasicChecker>, h: Seq<Operation>) -> nat
    decreases cs.len(),
{
    if cs.len() == 0 {
        0
    } else {
        total_violations(cs.drop_last(), h) + basic_violation_count(cs.last(), h)
    }
}

/// A checker that runs several checkers and merges their findings.
pub struct CombinedChecker {
    /// The checkers, run in order.
    pub checkers: Vec<BasicChecker>,
}

impl CombinedChecker {
    /// Linearizability then serializability.
    pub fn new() -> (r: Self)
        ensures
            r.checkers@ == seq![
                BasicChecker::Linearizability(LinearizabilityChecker { max_depth: 1000 }),
                BasicChecker::Serializability(SerializabilityChecker { strict: false }),
            ],
    {
        let mut checkers: Vec<BasicChecker> = Vec::new();
        checkers.push(BasicChecker::Linearizability(LinearizabilityChecker::new()));
        checkers.push(BasicChecker::Serializability(SerializabilityChecker::new()));
        CombinedChecker { checkers }
    }

    /// The given checkers.
    pub fn with_checkers(checkers: Vec<BasicChecker>) -> (r: Self)
        ensures
            r.checkers@ == checkers@,
    {
        CombinedChecker { checkers }
    }

    /// The checker's name.
    pub fn name(&self) -> (r: &'static str)
        ensures
            r@ == "combined"@,
    {
        "combined"
    }

    /// The model reported: the strictest, strict serializability.
    pub fn consistency_model(&self) -> (r: ConsistencyModel)
        ensures
            r == ConsistencyModel::StrictSerializability,
    {
        ConsistencyModel::StrictSerializability
    }

    /// Runs every checker; the history is valid when none finds a
    /// violation.
    pub fn check(&self, history: &History) -> (r: CheckerResult)
        requires
            total_analyzed(self.checkers@, history.operations@) <= usize::MAX,
        ensures
            r.model == ConsistencyModel::StrictSerializability,
            r.violations@.len() == total_violations(self.checkers@, history.operations@),
            r.valid == (total_violations(self.checkers@, history.operations@) == 0),
            r.metadata.operations_analyzed == total_analyzed(self.checkers@, history.operations@),
            r.metadata.check_duration_nanos == 0,
            r.metadata.stats@.len() == 0,
    {
        let mut all: Vec<Violation> = Vec::new();
        let mut total: usize = 0;
        let mut i: usize = 0;
        while i < self.checkers.len()
            invariant
                i <= self.checkers@.len(),
                all@.len() == total_violations(self.checkers@.take(i as int), history.operations@),
                total == total_analyzed(self.checkers@.take(i as int), history.operations@),
                total_analyzed(self.checkers@, history.operations@) <= usize::MAX,
            decreases self.checkers@.len() - i,
        {
            let result = self.checkers[i].check(history);
            let mut vs = result.violations;
            proof {
                assert(self.checkers@.take(i + 1).drop_last() =~= self.checkers@.take(i as int));
                lemma_total_analyzed_prefix(self.checkers@, history.operations@, i + 1);
            }
            all.append(&mut vs);
            total = total + result.metadata.operations_analyzed;
            i += 1;
        }
        assert(self.checkers@.take(self.checkers@.len() as int) =~= self.checkers@);
        CheckerResult {
            valid: all.len() == 0,
            model: ConsistencyModel::StrictSerializability,
            violations: all,
            metadata: CheckerMetadata {
                check_duration_nanos: 0,
                operations_analyzed: total,
                stats: Vec::new(),
            },
        }
    }
}

proof fn lemma_total_analyzed_prefix(cs: Seq<BasicChecker>, h: Seq<Operation>, k: int)
    requires
        0 <= k <= cs.len(),
    ensures
        total_analyzed(cs.take(k), h) <= total_analyzed(cs, h),
    decreases cs.len() - k,
{
    if k < cs.len() {
        lemma_total_analyzed_prefix(cs, h, k + 1);
        assert(cs.take(k + 1).drop_last() =~= cs.take(k));
    } else {
        assert(cs.take(k) =~= cs);
    }
}

/// Transactions at different positions with distinct identifiers never
/// form a dependency cycle: dependencies always point to later positions.
pub proof fn lemma_distinct_ids_no_cycle(h: Seq<Operation>)
    requires
        forall|a: int, b: int| 0 <= a < b < h.len() ==> h[a].id != h[b].id,
    ensures
        !has_dependency_cycle(h),
{
    if has_dependency_cycle(h) {
        let c = choose|c: Seq<u128>| is_dependency_cycle(h, c);
        // The position of each identifier on the cycle; positions increase
        // along the cycle.
        let pos = |x: u128| choose|p: int| 0 <= p < h.len() && h[p].id == x;
        assert forall|i: int| 0 < i < c.len() implies pos(c[i - 1]) < pos(#[trigger] c[i]) by {
            assert(dependency_edge(h, c[i - 1], c[i]));
            let (a, b) = choose|a: int, b: int| depends(h, a, b) && h[a].id == c[i - 1] && h[b].id == c[i];
            assert(pos(c[i - 1]) == a);
            assert(pos(c[i]) == b);
        }
        assert(dependency_edge(h, c.last(), c[0]));
        let (a, b) = choose|a: int, b: int| depends(h, a, b) && h[a].id == c.last() && h[b].id == c[0];
        assert(pos(c.last()) == a);
        assert(pos(c[0]) == b);
        lemma_increasing_along(c, pos, c.len() - 1);
    }
}

proof fn lemma_increasing_along(c: Seq<u128>, pos: spec_fn(u128) -> int, i: int)
    requires
        0 <= i < c.len(),
        forall|k: int| 0 < k < c.len() ==> pos(c[k - 1]) < pos(#[trigger] c[k]),
    ensures
        pos(c[0]) + i <= pos(c[i]),
    decreases i,
{
    if i > 0 {
        lemma_increasing_along(c, pos, i - 1);
        assert(pos(c[i - 1]) < pos(c[i]));
    }
}

} // verus!
