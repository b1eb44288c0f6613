//! The in-process Jepsen client: every operation of a test runs directly
//! against an in-memory vector store, each key's value kept as the
//! `"value"` field of the payload of a zero vector.
//!
//! JSON values are compared as documents, object fields in order; values
//! that come from a JSON parser have their fields in key order, so this is
//! comparison by content.

use vstd::prelude::*;
use crate::json::{Json, JsonValue, JsonNumber, json_eq, json_as_i64, as_i64};
use crate::types::{RTDBError, Vector, fields_view};
use crate::text::push_decimal;
use crate::text::decimal;
use crate::jepsen::model::{OperationType, OperationResult, TransactionOp};
use crate::jepsen::store::{
    HighPerformanceStore, StoredView, key_id, key_to_id, value_payload, read_of, value_field,
    UltraFastJepsenClient, writes,
};

verus! {

/// How the optimized in-process client batches its writes.
#[derive(Debug, Clone)]
pub struct OptimizedClientConfig {
    /// Vector dimension (1 keeps it a pure key-value store).
    pub vector_dim: usize,
    /// Writes per batch.
    pub batch_size: usize,
    /// Milliseconds between flushes of buffered writes.
    pub flush_interval_ms: u64,
    pub enable_pooling: bool,
    pub in_memory_only: bool,
}

impl Default for OptimizedClientConfig {
    fn default() -> (r: Self)
        ensures
            r.vector_dim == 1,
            r.batch_size == 100,
            r.flush_interval_ms == 10,
            r.enable_pooling,
            r.in_memory_only,
    {
        OptimizedClientConfig { vector_dim: 1, batch_size: 100, flush_interval_ms: 10, enable_pooling: true, in_memory_only: true }
    }
}

/// The mathematical form of an operation's outcome.
pub enum Outcome {
    ReadOk(Option<Json>),
    WriteOk,
    CasOk(bool),
    TransactionOk(Seq<Option<Json>>),
    AppendOk,
    SetAddOk,
    IncrementOk(i64),
}

/// The values of an optional value.
pub open spec fn opt_view(v: Option<JsonValue>) -> Option<Json> {
    match v {
        Some(x) => Some(x@),
        None => None,
    }
}

/// The mathematical form of an operation's result.
pub open spec fn outcome_view(r: OperationResult) -> Outcome {
    match r {
        OperationResult::ReadOk { value } => Outcome::ReadOk(opt_view(value)),
        OperationResult::WriteOk => Outcome::WriteOk,
        OperationResult::CasOk { success } => Outcome::CasOk(success),
        OperationResult::TransactionOk { results } => Outcome::TransactionOk(results@.map_values(|x: Option<JsonValue>| opt_view(x))),
        OperationResult::AppendOk => Outcome::AppendOk,
        OperationResult::SetAddOk => Outcome::SetAddOk,
        OperationResult::IncrementOk { value } => Outcome::IncrementOk(value),
    }
}

/// A vector of `n` zero components.
pub open spec fn zeros(n: nat) -> Seq<u32> {
    Seq::new(n, |i: int| 0u32)
}

/// The contents after writing `v` under `key`.
pub open spec fn kv_write(c: Map<u64, StoredView>, dim: nat, key: Seq<char>, v: Json) -> Map<u64, StoredView> {
    c.insert(key_id(key), (zeros(dim), value_payload(v)))
}

/// The number a JSON writer makes of an `i64`.
pub open spec fn json_int(n: i64) -> Json {
    if n >= 0 {
        Json::Number(JsonNumber::PosInt(n as u64))
    } else {
        Json::Number(JsonNumber::NegInt(n))
    }
}

/// The integer a counter holds: its value if that is an integer within
/// `i64`, else 0.
pub open spec fn counter_of(v: Option<Json>) -> int {
    match v {
        Some(x) => match json_as_i64(x) {
            Some(n) => n as int,
            None => 0,
        },
        None => 0,
    }
}

/// The elements of a list or set key: its value if that is an array,
/// else none.
pub open spec fn elements_of(v: Option<Json>) -> Seq<Json> {
    match v {
        Some(Json::Array(xs)) => xs,
        _ => Seq::empty(),
    }
}

/// The contents and results after the steps of a transaction, in order:
/// a read gives the key's value, a write stores it and gives `true`.
pub open spec fn txn_steps(c: Map<u64, StoredView>, dim: nat, ops: Seq<TransactionOp>) -> (Map<u64, StoredView>, Seq<Option<Json>>)
    decreases ops.len(),
{
    if ops.len() == 0 {
        (c, Seq::empty())
    } else {
        let (c1, rs) = txn_steps(c, dim, ops.drop_last());
        match ops.last() {
            TransactionOp::Read { key } => (c1, rs.push(read_of(c1, key@))),
            TransactionOp::Write { key, value } => (kv_write(c1, dim, key@, value@), rs.push(Some(Json::Bool(true)))),
        }
    }
}

/// Whether an operation is defined on the contents: an increment must not
/// overflow `i64`.
pub open spec fn kv_defined(c: Map<u64, StoredView>, op: OperationType) -> bool {
    match op {
        OperationType::Increment { key, delta } => i64::MIN <= counter_of(read_of(c, key@)) + delta <= i64::MAX,
        _ => true,
    }
}

/// What an operation does to the contents, and its outcome.
pub open spec fn kv_step(c: Map<u64, StoredView>, dim: nat, op: OperationType) -> (Map<u64, StoredView>, Outcome) {
    match op {
        OperationType::Read { key } => (c, Outcome::ReadOk(read_of(c, key@))),
        OperationType::Write { key, value } => (kv_write(c, dim, key@, value@), Outcome::WriteOk),
        OperationType::Cas { key, old, new } => {
            let swap = match read_of(c, key@) {
                Some(x) => x == old@,
                None => old@ == Json::Null,
            };
            if swap {
                (kv_write(c, dim, key@, new@), Outcome::CasOk(true))
            } else {
                (c, Outcome::CasOk(false))
            }
        },
        OperationType::Increment { key, delta } => {
            let n = (counter_of(read_of(c, key@)) + delta) as i64;
            (kv_write(c, dim, key@, json_int(n)), Outcome::IncrementOk(n))
        },
        OperationType::Append { key, value } => (
            kv_write(c, dim, key@, Json::Array(elements_of(read_of(c, key@)).push(value@))),
            Outcome::AppendOk,
        ),
        OperationType::SetAdd { key, element } => {
            let set = elements_of(read_of(c, key@));
            if set.contains(element@) {
                (c, Outcome::SetAddOk)
            } else {
                (kv_write(c, dim, key@, Json::Array(set.push(element@))), Outcome::SetAddOk)
            }
        },
        OperationType::Transaction { ops } => {
            let (c1, rs) = txn_steps(c, dim, ops@);
            (c1, Outcome::TransactionOk(rs))
        },
    }
}

/// The `"value"` field of the payload stored under `key`'s identifier.
pub(crate) fn store_read(store: &HighPerformanceStore, key: &str) -> (r: Option<JsonValue>)
    requires
        store.well_formed(),
    ensures
        opt_view(r) == read_of(store.contents(), key@),
{
    match store.get(key_to_id(key)) {
        Some(v) => match &v.payload {
            Some(fields) => value_field(fields),
            None => None,
        },
        None => None,
    }
}

/// Stores `value` under `key` as the `"value"` field of the payload of a
/// zero vector of `dim` components.
pub(crate) fn store_write(store: &mut HighPerformanceStore, dim: usize, key: &str, value: JsonValue)
    requires
        old(store).well_formed(),
    ensures
        final(store).well_formed(),
        final(store).contents() == kv_write(old(store).contents(), dim as nat, key@, value@),
{
    let id = key_to_id(key);
    let mut data: Vec<u32> = Vec::new();
    let mut i: usize = 0;
    while i < dim
        invariant
            i <= dim,
            data@ == zeros(i as nat),
        decreases dim - i,
    {
        data.push(0u32);
        assert(data@ =~= zeros((i + 1) as nat));
        i += 1;
    }
    let ghost v = value@;
    let vector = Vector { data, payload: Some(vec![("value".to_owned(), value)]) };
    proof {
        assert(fields_view(vector.payload->0@) =~= seq![("value"@, v)]);
    }
    let _ = store.put(id, vector);
}

/// A Jepsen client running operations directly against its own store.
pub struct DirectJepsenClient {
    id: usize,
    collection_name: String,
    vector_dim: usize,
    store: HighPerformanceStore,
}

impl DirectJepsenClient {
    /// The store is well formed.
    pub closed spec fn well_formed(&self) -> bool {
        self.store.well_formed()
    }

    /// The values stored, by key identifier.
    pub closed spec fn contents(&self) -> Map<u64, StoredView> {
        self.store.contents()
    }

    /// The dimension of the stored vectors.
    pub closed spec fn dim(&self) -> nat {
        self.vector_dim as nat
    }

    /// The client's number.
    pub closed spec fn client_id(&self) -> usize {
        self.id
    }

    /// The name of the client's collection.
    pub closed spec fn collection(&self) -> Seq<char> {
        self.collection_name@
    }

    /// A client `id` with an empty store of `vector_dim`-dimensional
    /// vectors, in collection `jepsen_direct_<id>`.
    pub fn new(id: usize, vector_dim: usize) -> (r: Self)
        ensures
            r.well_formed(),
            r.contents() == Map::<u64, StoredView>::empty(),
            r.dim() == vector_dim,
            r.client_id() == id,
            r.collection() == "jepsen_direct_"@ + decimal(id as nat),
    {
        let mut name = "jepsen_direct_".to_owned();
        push_decimal(&mut name, id as u64);
        DirectJepsenClient { id, collection_name: name, vector_dim, store: HighPerformanceStore::new() }
    }

    /// The client's number.
    pub fn id(&self) -> (r: usize)
        ensures
            r == self.client_id(),
    {
        self.id
    }

    /// The name of the client's collection.
    pub fn collection_name(&self) -> (r: &str)
        ensures
            r@ == self.collection(),
    {
        self.collection_name.as_str()
    }

    /// The value of `key`.
    fn read_value(&self, key: &str) -> (r: Option<JsonValue>)
        requires
            self.well_formed(),
        ensures
            opt_view(r) == read_of(self.contents(), key@),
    {
        store_read(&self.store, key)
    }

    /// Stores `value` under `key`.
    fn write_value(&mut self, key: &str, value: JsonValue)
        requires
            old(self).well_formed(),
        ensures
            final(self).well_formed(),
            final(self).contents() == kv_write(old(self).contents(), old(self).dim(), key@, value@),
            final(self).dim() == old(self).dim(),
            final(self).client_id() == old(self).client_id(),
            final(self).collection() == old(self).collection(),
    {
        store_write(&mut self.store, self.vector_dim, key, value);
    }

    /// A read: the key's value.
    fn execute_read(&mut self, key: String) -> (r: OperationResult)
        requires
            old(self).well_formed(),
        ensures
            final(self).well_formed(),
            final(self).dim() == old(self).dim(),
            final(self).client_id() == old(self).client_id(),
            final(self).collection() == old(self).collection(),
            (final(self).contents(), outcome_view(r)) == kv_step(old(self).contents(), old(self).dim(), OperationType::Read { key }),
    {
                let value = self.read_value(key.as_str());
                OperationResult::ReadOk { value }
            }

    /// A write: the value is stored under the key.
    fn execute_write(&mut self, key: String, value: JsonValue) -> (r: OperationResult)
        requires
            old(self).well_formed(),
        ensures
            final(self).well_formed(),
            final(self).dim() == old(self).dim(),
            final(self).client_id() == old(self).client_id(),
            final(self).collection() == old(self).collection(),
            (final(self).contents(), outcome_view(r)) == kv_step(old(self).contents(), old(self).dim(), OperationType::Write { key, value }),
    {
                self.write_value(key.as_str(), value);
                OperationResult::WriteOk
            }

    /// A compare-and-swap: `replacement` is stored when the key holds
    /// `expected` (or holds nothing and `expected` is `null`).
    fn execute_cas(&mut self, key: String, expected: JsonValue, replacement: JsonValue) -> (r: OperationResult)
        requires
            old(self).well_formed(),
        ensures
            final(self).well_formed(),
            final(self).dim() == old(self).dim(),
            final(self).client_id() == old(self).client_id(),
            final(self).collection() == old(self).collection(),
            (final(self).contents(), outcome_view(r)) == kv_step(old(self).contents(), old(self).dim(), OperationType::Cas { key, old: expected, new: replacement }),
    {
                let current = self.read_value(key.as_str());
                let swap = match &current {
                    Some(x) => json_eq(x, &expected),
                    None => expected.is_null(),
                };
                if swap {
                    self.write_value(key.as_str(), replacement);
                    OperationResult::CasOk { success: true }
                } else {
                    OperationResult::CasOk { success: false }
                }
            }

    /// An increment: the counter plus `delta` is stored and given.
    fn execute_increment(&mut self, key: String, delta: i64) -> (r: OperationResult)
        requires
            old(self).well_formed(),
            kv_defined(old(self).contents(), OperationType::Increment { key, delta }),
        ensures
            final(self).well_formed(),
            final(self).dim() == old(self).dim(),
            final(self).client_id() == old(self).client_id(),
            final(self).collection() == old(self).collection(),
            (final(self).contents(), outcome_view(r)) == kv_step(old(self).contents(), old(self).dim(), OperationType::Increment { key, delta }),
    {
                let current = match self.read_value(key.as_str()) {
                    Some(v) => match as_i64(&v) {
                        Some(n) => n,
                        None => 0,
                    },
                    None => 0,
                };
                let n = current + delta;
                let stored = if n >= 0 {
                    JsonValue::Number(JsonNumber::PosInt(n as u64))
                } else {
                    JsonValue::Number(JsonNumber::NegInt(n))
                };
                self.write_value(key.as_str(), stored);
                OperationResult::IncrementOk { value: n }
            }

    /// An append: the value joins the end of the key's list.
    fn execute_append(&mut self, key: String, value: JsonValue) -> (r: OperationResult)
        requires
            old(self).well_formed(),
        ensures
            final(self).well_formed(),
            final(self).dim() == old(self).dim(),
            final(self).client_id() == old(self).client_id(),
            final(self).collection() == old(self).collection(),
            (final(self).contents(), outcome_view(r)) == kv_step(old(self).contents(), old(self).dim(), OperationType::Append { key, value }),
    {
                let current = self.read_value(key.as_str());
                let ghost cur = opt_view(current);
                let mut list = match current {
                    Some(JsonValue::Array(xs)) => {
                        assert(cur->0->Array_0 =~= xs@.map_values(|x: JsonValue| x@));
                        xs
                    },
                    _ => Vec::new(),
                };
                assert(elements_of(cur) =~= list@.map_values(|x: JsonValue| x@));
                let ghost before = list@;
                list.push(value);
                let stored = JsonValue::Array(list);
                proof {
                    assert(stored@->Array_0 =~= before.map_values(|x: JsonValue| x@).push(value@));
                }
                self.write_value(key.as_str(), stored);
                OperationResult::AppendOk
            }

    /// A set addition: the element joins the key's set unless it is in it.
    fn execute_set_add(&mut self, key: String, element: JsonValue) -> (r: OperationResult)
        requires
            old(self).well_formed(),
        ensures
            final(self).well_formed(),
            final(self).dim() == old(self).dim(),
            final(self).client_id() == old(self).client_id(),
            final(self).collection() == old(self).collection(),
            (final(self).contents(), outcome_view(r)) == kv_step(old(self).contents(), old(self).dim(), OperationType::SetAdd { key, element }),
    {
                let current = self.read_value(key.as_str());
                let ghost cur = opt_view(current);
                let mut set = match current {
                    Some(JsonValue::Array(xs)) => {
                        assert(cur->0->Array_0 =~= xs@.map_values(|x: JsonValue| x@));
                        xs
                    },
                    _ => Vec::new(),
                };
                assert(elements_of(cur) =~= set@.map_values(|x: JsonValue| x@));
                let ghost elems = set@.map_values(|x: JsonValue| x@);
                let mut i: usize = 0;
                let mut found = false;
                assert(elems.take(0) =~= Seq::<Json>::empty());
                while i < set.len()
                    invariant
                        i <= set@.len(),
                        elems == set@.map_values(|x: JsonValue| x@),
                        found == elems.take(i as int).contains(element@),
                    decreases set@.len() - i,
                {
                    let eq = json_eq(&set[i], &element);
                    proof {
                        assert(elems.take(i + 1) =~= elems.take(i as int).push(elems[i as int]));
                        assert(elems[i as int] == set@[i as int]@);
                        if elems.take(i + 1).contains(element@) {
                            let k = choose|k: int| 0 <= k < i + 1 && #[trigger] elems.take(i + 1)[k] == element@;
                            if k < i {
                                assert(elems.take(i as int)[k] == element@);
                            }
                        }
                        if found {
                            let k = choose|k: int| 0 <= k < i && #[trigger] elems.take(i as int)[k] == element@;
                            assert(elems.take(i + 1)[k] == element@);
                        }
                        if eq {
                            assert(elems.take(i + 1)[i as int] == element@);
                        }
                    }
                    found = found || eq;
                    i += 1;
                }
                assert(elems.take(set@.len() as int) =~= elems);
                if !found {
                    let ghost before = set@;
                    set.push(element);
                    let stored = JsonValue::Array(set);
                    proof {
                        assert(stored@->Array_0 =~= before.map_values(|x: JsonValue| x@).push(element@));
                    }
                    self.write_value(key.as_str(), stored);
                }
                OperationResult::SetAddOk
            }

    /// A transaction: its steps in order, a read giving the key's value and a
    /// write giving `true`.
    fn execute_transaction(&mut self, ops: Vec<TransactionOp>) -> (r: OperationResult)
        requires
            old(self).well_formed(),
        ensures
            final(self).well_formed(),
            final(self).dim() == old(self).dim(),
            final(self).client_id() == old(self).client_id(),
            final(self).collection() == old(self).collection(),
            (final(self).contents(), outcome_view(r)) == kv_step(old(self).contents(), old(self).dim(), OperationType::Transaction { ops }),
    {
                let ghost c0 = self.contents();
                let ghost steps = ops@;
                let mut results: Vec<Option<JsonValue>> = Vec::new();
                let mut i: usize = 0;
                while i < ops.len()
                    invariant
                        i <= ops@.len(),
                        steps == ops@,
                        self.well_formed(),
                        self.dim() == old(self).dim(),
                        self.client_id() == old(self).client_id(),
                        self.collection() == old(self).collection(),
                        c0 == old(self).contents(),
                        (self.contents(), results@.map_values(|x: Option<JsonValue>| opt_view(x)))
                            == txn_steps(c0, self.dim(), steps.take(i as int)),
                    decreases ops@.len() - i,
                {
                    assert(steps.take(i + 1).drop_last() =~= steps.take(i as int));
                    let ghost before = results@;
                    match &ops[i] {
                        TransactionOp::Read { key } => {
                            let value = self.read_value(key.as_str());
                            results.push(value);
                        },
                        TransactionOp::Write { key, value } => {
                            self.write_value(key.as_str(), crate::json::json_clone(value));
                            results.push(Some(JsonValue::Bool(true)));
                        },
                    }
                    assert(results@.map_values(|x: Option<JsonValue>| opt_view(x))
                        =~= before.map_values(|x: Option<JsonValue>| opt_view(x)).push(opt_view(results@.last())));
                    i += 1;
                }
                assert(steps.take(ops@.len() as int) =~= steps);
                OperationResult::TransactionOk { results }
            }

    /// Runs one operation against the store.
    pub fn execute(&mut self, op: OperationType) -> (r: Result<OperationResult, RTDBError>)
        requires
            old(self).well_formed(),
            kv_defined(old(self).contents(), op),
        ensures
            final(self).well_formed(),
            final(self).dim() == old(self).dim(),
            final(self).client_id() == old(self).client_id(),
            final(self).collection() == old(self).collection(),
            r matches Ok(res) && (final(self).contents(), outcome_view(res)) == kv_step(old(self).contents(), old(self).dim(), op),
    {
        let res = match op {
            OperationType::Read { key } => self.execute_read(key),
            OperationType::Write { key, value } => self.execute_write(key, value),
            OperationType::Cas { key, old: expected, new: replacement } => self.execute_cas(key, expected, replacement),
            OperationType::Increment { key, delta } => self.execute_increment(key, delta),
            OperationType::Append { key, value } => self.execute_append(key, value),
            OperationType::SetAdd { key, element } => self.execute_set_add(key, element),
            OperationType::Transaction { ops } => self.execute_transaction(ops),
        };
        Ok(res)
    }

    /// Whether the client can serve operations: its store always can.
    pub fn is_healthy(&self) -> (r: bool)
        ensures
            r,
    {
        true
    }
}

/// A read after a write of the same key gives the written value, whatever
/// was stored before.
pub proof fn lemma_direct_read_after_write(c: Map<u64, StoredView>, dim: nat, key: String, value: JsonValue)
    ensures
        ({
            let (c1, _) = kv_step(c, dim, OperationType::Write { key, value });
            kv_step(c1, dim, OperationType::Read { key }).1 == Outcome::ReadOk(Some(value@))
        }),
{
    reveal_strlit("value");
}

/// A compare-and-swap succeeds exactly when the key holds the expected
/// value (or is unset and `null` is expected), and then a read gives the
/// new value; otherwise nothing changes.
pub proof fn lemma_cas(c: Map<u64, StoredView>, dim: nat, key: String, old: JsonValue, new: JsonValue)
    ensures
        ({
            let (c1, out) = kv_step(c, dim, OperationType::Cas { key, old, new });
            let expected = match read_of(c, key@) {
                Some(x) => x == old@,
                None => old@ == Json::Null,
            };
            &&& out == Outcome::CasOk(expected)
            &&& expected ==> read_of(c1, key@) == Some(new@)
            &&& !expected ==> c1 == c
        }),
{
    reveal_strlit("value");
}

/// Adding an element to a set twice leaves it as adding it once.
pub proof fn lemma_set_add_idempotent(c: Map<u64, StoredView>, dim: nat, key: String, element: JsonValue)
    ensures
        ({
            let op = OperationType::SetAdd { key, element };
            let (c1, _) = kv_step(c, dim, op);
            kv_step(c1, dim, op).0 == c1
        }),
{
    reveal_strlit("value");
    let set = elements_of(read_of(c, key@));
    if !set.contains(element@) {
        let c1 = kv_write(c, dim, key@, Json::Array(set.push(element@)));
        assert(read_of(c1, key@) == Some(Json::Array(set.push(element@))));
        assert(set.push(element@)[set.len() as int] == element@);
        assert(set.push(element@).contains(element@));
    }
}


/// A write-only client that stores whole batches of key-value pairs, each
/// as the one-component zero vector an ultra-fast client writes.
pub struct HighThroughputWriteClient {
    collection_name: String,
    writer: UltraFastJepsenClient,
}

impl HighThroughputWriteClient {
    /// The store is well formed.
    pub closed spec fn well_formed(&self) -> bool {
        self.writer.well_formed()
    }

    /// The values stored, by key identifier.
    pub closed spec fn contents(&self) -> Map<u64, StoredView> {
        self.writer.contents()
    }

    /// The name of the client's collection.
    pub closed spec fn collection(&self) -> Seq<char> {
        self.collection_name@
    }

    /// A client `id` with an empty store, in collection `ht_write_<id>`.
    pub fn new(id: usize) -> (r: Self)
        ensures
            r.well_formed(),
            r.contents() == Map::<u64, StoredView>::empty(),
            r.collection() == "ht_write_"@ + decimal(id as nat),
    {
        let mut name = "ht_write_".to_owned();
        push_decimal(&mut name, id as u64);
        HighThroughputWriteClient { collection_name: name, writer: UltraFastJepsenClient::new(id) }
    }

    /// Stores each pair of the batch in order.
    pub fn write_batch(&mut self, batch: Vec<(String, JsonValue)>) -> (r: Result<(), RTDBError>)
        requires
            old(self).well_formed(),
        ensures
            final(self).well_formed(),
            r is Ok,
            final(self).contents() == writes(old(self).contents(), batch@),
            final(self).collection() == old(self).collection(),
    {
        self.writer.write_batch(batch)
    }
}


} // verus!
