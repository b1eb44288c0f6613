//! Analysis of operations: the keys they touch, conflicts between them,
//! grouping by key and summary counts.

use vstd::prelude::*;
use rand::rngs::StdRng;
use super::model::{Operation, OperationType, TransactionOp, op_key, txn_op_key};
use super::checkers::contains_string;
use crate::json::{Json, JsonNumber, JsonValue};
use crate::text::{decimal, push_decimal};
use crate::random::{random_index, random_u64, random_u32, random_bool, random_i64_in, random_u64_in, random_ratio};

verus! {

/// The distinct keys among the first `n` steps, in order of first
/// appearance.
pub open spec fn step_keys_upto(ops: Seq<TransactionOp>, n: nat) -> Seq<Seq<char>>
    decreases n,
{
    if n == 0 {
        Seq::empty()
    } else {
        let ks = step_keys_upto(ops, (n - 1) as nat);
        let k = txn_op_key(ops[n - 1]);
        if ks.contains(k) { ks } else { ks.push(k) }
    }
}

/// The distinct keys an operation touches, in order of first appearance.
pub open spec fn op_keys(op: OperationType) -> Seq<Seq<char>> {
    match op {
        OperationType::Transaction { ops } => step_keys_upto(ops@, ops@.len()),
        _ => seq![op_key(op)->0],
    }
}

/// The keys an operation accesses, each once, in order of first
/// appearance.
pub fn extract_keys(op: &OperationType) -> (r: Vec<String>)
    ensures
        r@.map_values(|k: String| k@) == op_keys(*op),
{
    match op {
        OperationType::Transaction { ops } => {
            let mut keys: Vec<String> = Vec::new();
            let mut i: usize = 0;
            while i < ops.len()
                invariant
                    i <= ops@.len(),
                    keys@.map_values(|k: String| k@) == step_keys_upto(ops@, i as nat),
                decreases ops@.len() - i,
            {
                let k = ops[i].key();
                if !contains_string(&keys, k) {
                    let ghost before = keys@;
                    keys.push(k.clone());
                    assert(keys@.map_values(|x: String| x@) =~= before.map_values(|x: String| x@).push(k@));
                }
                i += 1;
            }
            assert(op->ops@ == ops@);
            keys
        },
        _ => {
            let k = match op.key() {
                Some(k) => k.clone(),
                None => String::new(),
            };
            let keys = vec![k];
            assert(keys@.map_values(|x: String| x@) =~= op_keys(*op));
            keys
        },
    }
}

/// The operation may modify data: everything but a read, and a
/// transaction with at least one write step.
pub open spec fn is_write(op: OperationType) -> bool {
    match op {
        OperationType::Read { .. } => false,
        OperationType::Transaction { ops } => exists|i: int| 0 <= i < ops@.len() && #[trigger] ops@[i] is Write,
        _ => true,
    }
}

/// Whether the operation may modify data.
pub fn is_write_operation(op: &OperationType) -> (r: bool)
    ensures
        r == is_write(*op),
{
    match op {
        OperationType::Read { .. } => false,
        OperationType::Transaction { ops } => {
            let mut i: usize = 0;
            while i < ops.len()
                invariant
                    i <= ops@.len(),
                    *op == (OperationType::Transaction { ops: *ops }),
                    forall|j: int| 0 <= j < i ==> !(ops@[j] is Write),
                decreases ops@.len() - i,
            {
                match &ops[i] {
                    TransactionOp::Write { .. } => {
                        assert(op->ops@ == ops@);
                        assert(ops@[i as int] is Write);
                        return true;
                    },
                    _ => {},
                }
                i += 1;
            }
            assert(op->ops@ == ops@);
            false
        },
        _ => true,
    }
}

/// The two operations touch a common key.
pub open spec fn share_key(a: OperationType, b: OperationType) -> bool {
    exists|k: Seq<char>| #[trigger] op_keys(a).contains(k) && op_keys(b).contains(k)
}

/// The two operations conflict: they touch a common key and at least one
/// of them may write.
pub open spec fn conflicts(a: OperationType, b: OperationType) -> bool {
    share_key(a, b) && (is_write(a) || is_write(b))
}

/// Whether the two operations conflict.
pub fn operations_conflict(op1: &OperationType, op2: &OperationType) -> (r: bool)
    ensures
        r == conflicts(*op1, *op2),
{
    let keys1 = extract_keys(op1);
    let keys2 = extract_keys(op2);
    let ghost v1 = keys1@.map_values(|k: String| k@);
    let mut i: usize = 0;
    while i < keys1.len()
        invariant
            i <= keys1@.len(),
            v1 == keys1@.map_values(|k: String| k@),
            v1 == op_keys(*op1),
            keys2@.map_values(|k: String| k@) == op_keys(*op2),
            forall|j: int| 0 <= j < i ==> !op_keys(*op2).contains(#[trigger] v1[j]),
        decreases keys1@.len() - i,
    {
        if contains_string(&keys2, &keys1[i]) {
            assert(v1[i as int] == keys1@[i as int]@);
            assert(op_keys(*op1).contains(v1[i as int]));
            assert(share_key(*op1, *op2));
            return is_write_operation(op1) || is_write_operation(op2);
        }
        i += 1;
    }
    assert forall|k: Seq<char>| !(#[trigger] op_keys(*op1).contains(k) && op_keys(*op2).contains(k)) by {
        if op_keys(*op1).contains(k) {
            let j = choose|j: int| 0 <= j < v1.len() && v1[j] == k;
            assert(!op_keys(*op2).contains(v1[j]));
        }
    }
    false
}

/// Conflict does not depend on the order of the two operations.
pub proof fn lemma_conflict_symmetric(a: OperationType, b: OperationType)
    ensures
        conflicts(a, b) == conflicts(b, a),
{
    if share_key(a, b) {
        let k = choose|k: Seq<char>| #[trigger] op_keys(a).contains(k) && op_keys(b).contains(k);
        assert(op_keys(b).contains(k) && op_keys(a).contains(k));
    }
    if share_key(b, a) {
        let k = choose|k: Seq<char>| #[trigger] op_keys(b).contains(k) && op_keys(a).contains(k);
        assert(op_keys(a).contains(k) && op_keys(b).contains(k));
    }
}

/// `acc` extended by the members of `ks` it lacks, in order.
pub open spec fn add_new(acc: Seq<Seq<char>>, ks: Seq<Seq<char>>) -> Seq<Seq<char>>
    decreases ks.len(),
{
    if ks.len() == 0 {
        acc
    } else {
        let a = add_new(acc, ks.drop_last());
        if a.contains(ks.last()) { a } else { a.push(ks.last()) }
    }
}

/// The keys touched by the first `n` operations, in order of first
/// appearance.
pub open spec fn all_keys_upto(h: Seq<Operation>, n: nat) -> Seq<Seq<char>>
    decreases n,
{
    if n == 0 {
        Seq::empty()
    } else {
        add_new(all_keys_upto(h, (n - 1) as nat), op_keys(h[n - 1].op))
    }
}

/// The operations touching key `k`, in order.
pub open spec fn touching(h: Seq<Operation>, k: Seq<char>) -> Seq<Operation> {
    h.filter(|op: Operation| op_keys(op.op).contains(k))
}

/// Appends to `acc` the keys it lacks.
fn add_new_keys(acc: &mut Vec<String>, ks: &Vec<String>)
    ensures
        final(acc)@.map_values(|k: String| k@) == add_new(old(acc)@.map_values(|k: String| k@), ks@.map_values(|k: String| k@)),
{
    let ghost a0 = acc@.map_values(|k: String| k@);
    let ghost kv = ks@.map_values(|k: String| k@);
    let mut i: usize = 0;
    assert(kv.take(0) =~= Seq::<Seq<char>>::empty());
    while i < ks.len()
        invariant
            i <= ks@.len(),
            kv == ks@.map_values(|k: String| k@),
            acc@.map_values(|k: String| k@) == add_new(a0, kv.take(i as int)),
        decreases ks@.len() - i,
    {
        assert(kv.take(i + 1).drop_last() =~= kv.take(i as int));
        assert(kv.take(i + 1).last() == ks@[i as int]@);
        if !contains_string(acc, &ks[i]) {
            let ghost before = acc@;
            acc.push(ks[i].clone());
            assert(acc@.map_values(|x: String| x@) =~= before.map_values(|x: String| x@).push(ks@[i as int]@));
        }
        i += 1;
    }
    assert(kv.take(ks@.len() as int) =~= kv);
}

/// The operations grouped by the keys they touch: keys in order of first
/// appearance, each with the operations touching it, in order.
pub fn group_by_keys<'a>(operations: &'a Vec<Operation>) -> (r: Vec<(String, Vec<&'a Operation>)>)
    ensures
        r@.map_values(|g: (String, Vec<&'a Operation>)| g.0@) == all_keys_upto(operations@, operations@.len()),
        forall|j: int| 0 <= j < r@.len() ==> (#[trigger] r@[j]).1@.unref() == touching(operations@, r@[j].0@),
{
    let h = operations;
    let mut keys: Vec<String> = Vec::new();
    let mut i: usize = 0;
    while i < h.len()
        invariant
            i <= h@.len(),
            keys@.map_values(|k: String| k@) == all_keys_upto(h@, i as nat),
        decreases h@.len() - i,
    {
        let ks = extract_keys(&h[i].op);
        add_new_keys(&mut keys, &ks);
        i += 1;
    }
    let mut groups: Vec<(String, Vec<&'a Operation>)> = Vec::new();
    let mut j: usize = 0;
    while j < keys.len()
        invariant
            j <= keys@.len(),
            groups@.len() == j,
            forall|a: int| 0 <= a < j ==> (#[trigger] groups@[a]).0@ == keys@[a]@,
            forall|a: int| 0 <= a < j ==> (#[trigger] groups@[a]).1@.unref() == touching(h@, groups@[a].0@),
        decreases keys@.len() - j,
    {
        let k = &keys[j];
        let ghost pred = |op: Operation| op_keys(op.op).contains(k@);
        let mut members: Vec<&'a Operation> = Vec::new();
        let mut i: usize = 0;
        assert(h@.take(0).filter(pred) =~= Seq::<Operation>::empty()) by {
            reveal(Seq::filter);
        }
        while i < h.len()
            invariant
                i <= h@.len(),
                pred == (|op: Operation| op_keys(op.op).contains(k@)),
                members@.unref() == h@.take(i as int).filter(pred),
            decreases h@.len() - i,
        {
            let ghost m0 = members@;
            proof {
                assert(h@.take(i + 1) =~= h@.take(i as int).push(h@[i as int]));
                h@.take(i as int).lemma_filter_push(h@[i as int], pred);
            }
            let ks = extract_keys(&h[i].op);
            if contains_string(&ks, k) {
                members.push(&h[i]);
                assert(members@.unref() =~= m0.unref().push(h@[i as int]));
            }
            i += 1;
        }
        assert(h@.take(h@.len() as int) =~= h@);
        groups.push((k.clone(), members));
        j += 1;
    }
    assert(groups@.map_values(|g: (String, Vec<&'a Operation>)| g.0@) =~= keys@.map_values(|k: String| k@));
    groups
}

/// Counts of operations by type and outcome.
#[derive(Debug, Clone, Copy, PartialEq, Eq, Structural)]
pub struct OperationStats {
    pub total: usize,
    /// Operations with a result.
    pub successful: usize,
    /// Operations without a result but with an error.
    pub failed: usize,
    pub reads: usize,
    pub writes: usize,
    pub cas_ops: usize,
    pub transactions: usize,
    pub appends: usize,
    pub set_adds: usize,
    pub increments: usize,
}

impl Default for OperationStats {
    fn default() -> (r: Self)
        ensures
            r == (OperationStats {
                total: 0, successful: 0, failed: 0, reads: 0, writes: 0, cas_ops: 0,
                transactions: 0, appends: 0, set_adds: 0, increments: 0,
            }),
    {
        OperationStats {
            total: 0, successful: 0, failed: 0, reads: 0, writes: 0, cas_ops: 0,
            transactions: 0, appends: 0, set_adds: 0, increments: 0,
        }
    }
}

/// How many of the first `n` operations satisfy `p`.
pub open spec fn count_upto(h: Seq<Operation>, p: spec_fn(Operation) -> bool, n: nat) -> nat
    decreases n,
{
    if n == 0 {
        0
    } else {
        count_upto(h, p, (n - 1) as nat) + if p(h[n - 1]) { 1nat } else { 0nat }
    }
}

proof fn lemma_count_bound(h: Seq<Operation>, p: spec_fn(Operation) -> bool, n: nat)
    ensures
        count_upto(h, p, n) <= n,
    decreases n,
{
    if n > 0 {
        lemma_count_bound(h, p, (n - 1) as nat);
    }
}

/// The counts of `h`.
pub open spec fn stats_of(h: Seq<Operation>) -> OperationStats {
    let n = h.len();
    OperationStats {
        total: n as usize,
        successful: count_upto(h, |op: Operation| op.result is Some, n) as usize,
        failed: count_upto(h, |op: Operation| op.result is None && op.error is Some, n) as usize,
        reads: count_upto(h, |op: Operation| op.op is Read, n) as usize,
        writes: count_upto(h, |op: Operation| op.op is Write, n) as usize,
        cas_ops: count_upto(h, |op: Operation| op.op is Cas, n) as usize,
        transactions: count_upto(h, |op: Operation| op.op is Transaction, n) as usize,
        appends: count_upto(h, |op: Operation| op.op is Append, n) as usize,
        set_adds: count_upto(h, |op: Operation| op.op is SetAdd, n) as usize,
        increments: count_upto(h, |op: Operation| op.op is Increment, n) as usize,
    }
}

/// Counts the operations by type and outcome.
pub fn calculate_stats(operations: &Vec<Operation>) -> (r: OperationStats)
    ensures
        r == stats_of(operations@),
{
    let h = operations;
    let ghost ps = |op: Operation| op.result is Some;
    let ghost pf = |op: Operation| op.result is None && op.error is Some;
    let ghost pr = |op: Operation| op.op is Read;
    let ghost pw = |op: Operation| op.op is Write;
    let ghost pc = |op: Operation| op.op is Cas;
    let ghost pt = |op: Operation| op.op is Transaction;
    let ghost pa = |op: Operation| op.op is Append;
    let ghost pss = |op: Operation| op.op is SetAdd;
    let ghost pi = |op: Operation| op.op is Increment;
    let mut stats = OperationStats::default();
    let mut i: usize = 0;
    while i < h.len()
        invariant
            i <= h@.len(),
            stats.total == 0,
            stats.successful == count_upto(h@, ps, i as nat),
            stats.failed == count_upto(h@, pf, i as nat),
            stats.reads == count_upto(h@, pr, i as nat),
            stats.writes == count_upto(h@, pw, i as nat),
            stats.cas_ops == count_upto(h@, pc, i as nat),
            stats.transactions == count_upto(h@, pt, i as nat),
            stats.appends == count_upto(h@, pa, i as nat),
            stats.set_adds == count_upto(h@, pss, i as nat),
            stats.increments == count_upto(h@, pi, i as nat),
            ps == (|op: Operation| op.result is Some),
            pf == (|op: Operation| op.result is None && op.error is Some),
            pr == (|op: Operation| op.op is Read),
            pw == (|op: Operation| op.op is Write),
            pc == (|op: Operation| op.op is Cas),
            pt == (|op: Operation| op.op is Transaction),
            pa == (|op: Operation| op.op is Append),
            pss == (|op: Operation| op.op is SetAdd),
            pi == (|op: Operation| op.op is Increment),
        decreases h@.len() - i,
    {
        proof {
            lemma_count_bound(h@, ps, i as nat);
            lemma_count_bound(h@, pf, i as nat);
            lemma_count_bound(h@, pr, i as nat);
            lemma_count_bound(h@, pw, i as nat);
            lemma_count_bound(h@, pc, i as nat);
            lemma_count_bound(h@, pt, i as nat);
            lemma_count_bound(h@, pa, i as nat);
            lemma_count_bound(h@, pss, i as nat);
            lemma_count_bound(h@, pi, i as nat);
        }
        let op = &h[i];
        match &op.op {
            OperationType::Read { .. } => stats.reads += 1,
            OperationType::Write { .. } => stats.writes += 1,
            OperationType::Cas { .. } => stats.cas_ops += 1,
            OperationType::Transaction { .. } => stats.transactions += 1,
            OperationType::Append { .. } => stats.appends += 1,
            OperationType::SetAdd { .. } => stats.set_adds += 1,
            OperationType::Increment { .. } => stats.increments += 1,
        }
        if op.result.is_some() {
            stats.successful += 1;
        } else if op.error.is_some() {
            stats.failed += 1;
        }
        i += 1;
    }
    stats.total = h.len();
    stats
}


/// The kinds of operation a generator makes; the weighted choice among
/// them is made by the caller.
#[derive(Debug, Clone, Copy, PartialEq, Eq, Structural)]
pub enum OperationKind {
    Read,
    Write,
    Cas,
    Transaction,
    Append,
    Increment,
}

/// A value a generator writes: any non-negative integer, a string
/// `"value-<n>"` for a `u32` `n`, a boolean, or `null`.
pub open spec fn is_generated_value(v: Json) -> bool {
    ||| v matches Json::Number(JsonNumber::PosInt(_))
    ||| exists|n: u32| v == Json::Str("value-"@ + decimal(n as nat))
    ||| v matches Json::Bool(_)
    ||| v == Json::Null
}

/// Whether a transaction step is a read of one of the keys or a write of
/// a generated value to one.
pub open spec fn is_generated_step(keys: Seq<Seq<char>>, step: TransactionOp) -> bool {
    match step {
        TransactionOp::Read { key } => keys.contains(key@),
        TransactionOp::Write { key, value } => keys.contains(key@) && is_generated_value(value@),
    }
}

/// Whether `op` is an operation of `kind` a generator over `keys` can
/// make: on one of the keys, with generated values, an increment by
/// `-10..=10`, a transaction of one to five generated steps.
pub open spec fn is_generated(keys: Seq<Seq<char>>, kind: OperationKind, op: OperationType) -> bool {
    match kind {
        OperationKind::Read => op matches OperationType::Read { key } && keys.contains(key@),
        OperationKind::Write => op matches OperationType::Write { key, value }
            && keys.contains(key@) && is_generated_value(value@),
        OperationKind::Cas => op matches OperationType::Cas { key, old, new }
            && keys.contains(key@) && is_generated_value(old@) && is_generated_value(new@),
        OperationKind::Append => op matches OperationType::Append { key, value }
            && keys.contains(key@) && is_generated_value(value@),
        OperationKind::Increment => op matches OperationType::Increment { key, delta }
            && keys.contains(key@) && -10 <= delta <= 10,
        OperationKind::Transaction => op matches OperationType::Transaction { ops }
            && 1 <= ops@.len() <= 5
            && forall|i: int| 0 <= i < ops@.len() ==> is_generated_step(keys, #[trigger] ops@[i]),
    }
}

/// Random operations over a fixed set of keys.
pub struct OperationGenerator {
    keys: Vec<String>,
}

impl OperationGenerator {
    /// The keys operations target.
    pub closed spec fn key_names(&self) -> Seq<Seq<char>> {
        self.keys@.map_values(|k: String| k@)
    }

    /// A generator targeting `keys`.
    pub fn new(keys: Vec<String>) -> (r: Self)
        ensures
            r.key_names() == keys@.map_values(|k: String| k@),
    {
        OperationGenerator { keys }
    }

    /// The number of keys.
    pub fn len(&self) -> (r: usize)
        ensures
            r == self.key_names().len(),
    {
        self.keys.len()
    }

    /// One of the keys, each equally likely.
    fn random_key(&self, rng: &mut StdRng) -> (r: String)
        requires
            self.keys@.len() > 0,
        ensures
            self.key_names().contains(r@),
    {
        let i = random_index(rng, self.keys.len());
        let k = self.keys[i].clone();
        assert(self.key_names()[i as int] == k@);
        k
    }

    /// A random value: an integer, a string `"value-<n>"`, a boolean or
    /// `null`, each kind equally likely.
    fn random_value(rng: &mut StdRng) -> (r: JsonValue)
        ensures
            is_generated_value(r@),
    {
        let kind = random_u64_in(rng, 0, 3);
        if kind == 0 {
            JsonValue::Number(JsonNumber::PosInt(random_u64(rng)))
        } else if kind == 1 {
            let n = random_u32(rng);
            let mut s = "value-".to_owned();
            push_decimal(&mut s, n as u64);
            let r = JsonValue::Str(s);
            assert(r@ == Json::Str("value-"@ + decimal(n as nat)));
            r
        } else if kind == 2 {
            JsonValue::Bool(random_bool(rng))
        } else {
            JsonValue::Null
        }
    }

    /// A transaction of one to five steps, each a read (with probability
    /// 3/5) or a write of a random value, on random keys.
    fn generate_transaction(&self, rng: &mut StdRng) -> (r: OperationType)
        requires
            self.keys@.len() > 0,
        ensures
            is_generated(self.key_names(), OperationKind::Transaction, r),
    {
        let size = random_u64_in(rng, 1, 5);
        let mut ops: Vec<TransactionOp> = Vec::new();
        let mut i: u64 = 0;
        while i < size
            invariant
                1 <= size <= 5,
                i <= size,
                self.keys@.len() > 0,
                ops@.len() == i,
                forall|j: int| 0 <= j < ops@.len() ==> is_generated_step(self.key_names(), #[trigger] ops@[j]),
            decreases size - i,
        {
            let key = self.random_key(rng);
            if random_ratio(rng, 3, 5) {
                ops.push(TransactionOp::Read { key });
            } else {
                let value = Self::random_value(rng);
                ops.push(TransactionOp::Write { key, value });
            }
            i += 1;
        }
        OperationType::Transaction { ops }
    }

    /// A random operation of the given kind.
    pub fn generate_kind(&self, kind: OperationKind, rng: &mut StdRng) -> (r: OperationType)
        requires
            self.key_names().len() > 0,
        ensures
            is_generated(self.key_names(), kind, r),
    {
        match kind {
            OperationKind::Read => OperationType::Read { key: self.random_key(rng) },
            OperationKind::Write => {
                let key = self.random_key(rng);
                let value = Self::random_value(rng);
                OperationType::Write { key, value }
            },
            OperationKind::Cas => {
                let key = self.random_key(rng);
                let old = Self::random_value(rng);
                let new = Self::random_value(rng);
                OperationType::Cas { key, old, new }
            },
            OperationKind::Transaction => self.generate_transaction(rng),
            OperationKind::Append => {
                let key = self.random_key(rng);
                let value = Self::random_value(rng);
                OperationType::Append { key, value }
            },
            OperationKind::Increment => {
                let key = self.random_key(rng);
                let delta = random_i64_in(rng, -10, 10);
                OperationType::Increment { key, delta }
            },
        }
    }
}

} // verus!
