//! In-process Jepsen clients that batch their writes: writes wait in a
//! buffer and are stored a batch at a time, each key's value kept as the
//! `"value"` field of the payload of a zero vector, as the direct client
//! keeps it.

use vstd::prelude::*;
use crate::json::{Json, JsonValue, json_clone};
use crate::types::RTDBError;
use crate::text::{decimal, push_decimal};
use crate::jepsen::model::{OperationType, OperationResult};
use crate::jepsen::store::{HighPerformanceStore, StoredView, read_of};
use crate::jepsen::direct::{
    OptimizedClientConfig, Outcome, outcome_view, opt_view, kv_write, store_read, store_write,
};

verus! {

/// A buffered write as a key and a value.
pub open spec fn write_view(w: (String, JsonValue)) -> (Seq<char>, Json) {
    (w.0@, w.1@)
}

/// Buffered writes as keys and values.
pub open spec fn writes_view(ws: Seq<(String, JsonValue)>) -> Seq<(Seq<char>, Json)> {
    ws.map_values(|w: (String, JsonValue)| write_view(w))
}

/// The contents after the writes, in order.
pub open spec fn kv_writes(c: Map<u64, StoredView>, dim: nat, ws: Seq<(Seq<char>, Json)>) -> Map<u64, StoredView>
    decreases ws.len(),
{
    if ws.len() == 0 {
        c
    } else {
        kv_write(kv_writes(c, dim, ws.drop_last()), dim, ws.last().0, ws.last().1)
    }
}

/// A buffer of writes that hands them out a batch at a time, in the order
/// they arrived.
pub struct WriteBatcher {
    pending: Vec<(String, JsonValue)>,
    batch_size: usize,
}

impl WriteBatcher {
    /// The writes waiting, oldest first.
    pub closed spec fn pending_writes(&self) -> Seq<(Seq<char>, Json)> {
        writes_view(self.pending@)
    }

    /// The number of writes that fills a batch.
    pub closed spec fn batch_limit(&self) -> usize {
        self.batch_size
    }

    /// An empty buffer whose batches hold `batch_size` writes.
    pub fn new(batch_size: usize) -> (r: Self)
        ensures
            r.pending_writes() == Seq::<(Seq<char>, Json)>::empty(),
            r.batch_limit() == batch_size,
    {
        let r = WriteBatcher { pending: Vec::new(), batch_size };
        assert(r.pending_writes() =~= Seq::<(Seq<char>, Json)>::empty());
        r
    }

    /// Adds a write; when that fills the batch, the whole batch is handed
    /// out and the buffer is emptied.
    pub fn push(&mut self, key: String, value: JsonValue) -> (r: Option<Vec<(String, JsonValue)>>)
        ensures
            final(self).batch_limit() == old(self).batch_limit(),
            ({
                let all = old(self).pending_writes().push((key@, value@));
                if all.len() >= old(self).batch_limit() {
                    &&& r matches Some(b) && writes_view(b@) == all
                    &&& final(self).pending_writes() == Seq::<(Seq<char>, Json)>::empty()
                } else {
                    &&& r is None
                    &&& final(self).pending_writes() == all
                }
            }),
    {
        let ghost before = self.pending@;
        self.pending.push((key, value));
        assert(writes_view(self.pending@) =~= writes_view(before).push((key@, value@)));
        if self.pending.len() >= self.batch_size {
            let mut batch: Vec<(String, JsonValue)> = Vec::new();
            std::mem::swap(&mut batch, &mut self.pending);
            assert(self.pending_writes() =~= Seq::<(Seq<char>, Json)>::empty());
            Some(batch)
        } else {
            None
        }
    }

    /// Hands out whatever is waiting, if anything (as the batching timer
    /// does when it fires).
    pub fn take(&mut self) -> (r: Option<Vec<(String, JsonValue)>>)
        ensures
            final(self).batch_limit() == old(self).batch_limit(),
            final(self).pending_writes() == Seq::<(Seq<char>, Json)>::empty(),
            old(self).pending_writes().len() == 0 ==> r is None,
            old(self).pending_writes().len() > 0 ==> (r matches Some(b) && writes_view(b@) == old(self).pending_writes()),
    {
        if self.pending.len() == 0 {
            assert(self.pending_writes() =~= Seq::<(Seq<char>, Json)>::empty());
            None
        } else {
            let mut batch: Vec<(String, JsonValue)> = Vec::new();
            std::mem::swap(&mut batch, &mut self.pending);
            assert(self.pending_writes() =~= Seq::<(Seq<char>, Json)>::empty());
            Some(batch)
        }
    }
}

/// Stores a batch of writes in order, each as a zero vector of `dim`
/// components.
fn store_writes(store: &mut HighPerformanceStore, dim: usize, batch: &Vec<(String, JsonValue)>)
    requires
        old(store).well_formed(),
    ensures
        final(store).well_formed(),
        final(store).contents() == kv_writes(old(store).contents(), dim as nat, writes_view(batch@)),
{
    let ghost c0 = store.contents();
    let ghost ws = writes_view(batch@);
    let mut i: usize = 0;
    while i < batch.len()
        invariant
            i <= batch@.len(),
            ws == writes_view(batch@),
            c0 == old(store).contents(),
            store.well_formed(),
            store.contents() == kv_writes(c0, dim as nat, ws.take(i as int)),
        decreases batch@.len() - i,
    {
        assert(ws.take(i + 1).drop_last() =~= ws.take(i as int));
        assert(ws.take(i + 1).last() == write_view(batch@[i as int]));
        store_write(store, dim, batch[i].0.as_str(), json_clone(&batch[i].1));
        i += 1;
    }
    assert(ws.take(batch@.len() as int) =~= ws);
}

/// A read after a write of the same key sees the write, whatever writes
/// came before it and whether or not its batch has been stored.
pub proof fn lemma_batched_read_your_write(c: Map<u64, StoredView>, dim: nat, ws: Seq<(Seq<char>, Json)>, key: Seq<char>, value: Json)
    ensures
        read_of(kv_writes(c, dim, ws.push((key, value))), key) == Some(value),
{
    reveal_strlit("value");
    assert(ws.push((key, value)).drop_last() =~= ws);
}

/// A client whose writes wait in a buffer until a batch fills, and whose
/// reads first store whatever is waiting.
pub struct SyncBatchedDirectJepsenClient {
    id: usize,
    collection_name: String,
    vector_dim: usize,
    store: HighPerformanceStore,
    write_buffer: WriteBatcher,
}

impl SyncBatchedDirectJepsenClient {
    /// The store is well formed.
    pub closed spec fn well_formed(&self) -> bool {
        self.store.well_formed()
    }

    /// What is stored, by key identifier.
    pub closed spec fn contents(&self) -> Map<u64, StoredView> {
        self.store.contents()
    }

    /// The writes waiting in the buffer, oldest first.
    pub closed spec fn pending(&self) -> Seq<(Seq<char>, Json)> {
        self.write_buffer.pending_writes()
    }

    /// What the client's reads see: the contents with the waiting writes
    /// applied.
    pub open spec fn visible(&self) -> Map<u64, StoredView> {
        kv_writes(self.contents(), self.dim(), self.pending())
    }

    /// The dimension of the stored vectors.
    pub closed spec fn dim(&self) -> nat {
        self.vector_dim as nat
    }

    /// The number of writes that fills a batch.
    pub closed spec fn batch_limit(&self) -> usize {
        self.write_buffer.batch_limit()
    }

    /// The client's number.
    pub closed spec fn client_id(&self) -> usize {
        self.id
    }

    /// The name of the client's collection.
    pub closed spec fn collection(&self) -> Seq<char> {
        self.collection_name@
    }

    /// A client `id` with an empty store of `vector_dim`-dimensional
    /// vectors, batching `batch_size` writes, in collection
    /// `jepsen_sync_<id>`.
    pub fn new(id: usize, vector_dim: usize, batch_size: usize) -> (r: Self)
        ensures
            r.well_formed(),
            r.contents() == Map::<u64, StoredView>::empty(),
            r.pending() == Seq::<(Seq<char>, Json)>::empty(),
            r.dim() == vector_dim,
            r.batch_limit() == batch_size,
            r.client_id() == id,
            r.collection() == "jepsen_sync_"@ + decimal(id as nat),
    {
        let mut name = "jepsen_sync_".to_owned();
        push_decimal(&mut name, id as u64);
        SyncBatchedDirectJepsenClient {
            id,
            collection_name: name,
            vector_dim,
            store: HighPerformanceStore::new(),
            write_buffer: WriteBatcher::new(batch_size),
        }
    }

    /// The client's number.
    pub fn id(&self) -> (r: usize)
        ensures
            r == self.client_id(),
    {
        self.id
    }

    /// Buffers a write; when that fills the batch, the batch is stored and
    /// the write acknowledged, else `None` is given.
    fn buffer_write(&mut self, key: String, value: JsonValue) -> (r: Result<Option<OperationResult>, RTDBError>)
        requires
            old(self).well_formed(),
        ensures
            final(self).well_formed(),
            final(self).dim() == old(self).dim(),
            final(self).batch_limit() == old(self).batch_limit(),
            final(self).client_id() == old(self).client_id(),
            final(self).collection() == old(self).collection(),
            ({
                let all = old(self).pending().push((key@, value@));
                if all.len() >= old(self).batch_limit() {
                    &&& r matches Ok(Some(res)) && res is WriteOk
                    &&& final(self).pending() == Seq::<(Seq<char>, Json)>::empty()
                    &&& final(self).contents() == kv_writes(old(self).contents(), old(self).dim(), all)
                } else {
                    &&& r matches Ok(None)
                    &&& final(self).pending() == all
                    &&& final(self).contents() == old(self).contents()
                }
            }),
    {
        match self.write_buffer.push(key, value) {
            Some(batch) => {
                store_writes(&mut self.store, self.vector_dim, &batch);
                Ok(Some(OperationResult::WriteOk))
            },
            None => Ok(None),
        }
    }

    /// Stores the waiting writes, in order.
    fn flush_buffer(&mut self) -> (r: Result<(), RTDBError>)
        requires
            old(self).well_formed(),
        ensures
            final(self).well_formed(),
            r is Ok,
            final(self).contents() == old(self).visible(),
            final(self).pending() == Seq::<(Seq<char>, Json)>::empty(),
            final(self).dim() == old(self).dim(),
            final(self).batch_limit() == old(self).batch_limit(),
            final(self).client_id() == old(self).client_id(),
            final(self).collection() == old(self).collection(),
    {
        match self.write_buffer.take() {
            Some(batch) => {
                store_writes(&mut self.store, self.vector_dim, &batch);
            },
            None => {},
        }
        Ok(())
    }

    /// A write: buffered, and acknowledged at once.
    fn execute_batched_write(&mut self, key: String, value: JsonValue) -> (r: Result<OperationResult, RTDBError>)
        requires
            old(self).well_formed(),
        ensures
            final(self).well_formed(),
            r matches Ok(res) && res is WriteOk,
            final(self).visible() == kv_write(old(self).visible(), old(self).dim(), key@, value@),
            old(self).pending().len() + 1 >= old(self).batch_limit() ==> final(self).pending() == Seq::<(Seq<char>, Json)>::empty(),
            old(self).pending().len() + 1 < old(self).batch_limit() ==> final(self).pending() == old(self).pending().push((key@, value@)),
            final(self).dim() == old(self).dim(),
            final(self).batch_limit() == old(self).batch_limit(),
            final(self).client_id() == old(self).client_id(),
            final(self).collection() == old(self).collection(),
    {
        let ghost all = self.pending().push((key@, value@));
        let res = self.buffer_write(key, value)?;
        assert(all.drop_last() =~= old(self).pending());
        match res {
            Some(r) => Ok(r),
            None => Ok(OperationResult::WriteOk),
        }
    }

    /// A read: the waiting writes are stored first, then the key's value is
    /// read.
    fn execute_read(&mut self, key: String) -> (r: Result<OperationResult, RTDBError>)
        requires
            old(self).well_formed(),
        ensures
            final(self).well_formed(),
            r matches Ok(res) && outcome_view(res) == Outcome::ReadOk(read_of(old(self).visible(), key@)),
            final(self).contents() == old(self).visible(),
            final(self).pending() == Seq::<(Seq<char>, Json)>::empty(),
            final(self).dim() == old(self).dim(),
            final(self).batch_limit() == old(self).batch_limit(),
            final(self).client_id() == old(self).client_id(),
            final(self).collection() == old(self).collection(),
    {
        self.flush_buffer()?;
        let value = store_read(&self.store, key.as_str());
        Ok(OperationResult::ReadOk { value })
    }

    /// Stores every waiting write.
    pub fn flush(&mut self) -> (r: Result<(), RTDBError>)
        requires
            old(self).well_formed(),
        ensures
            final(self).well_formed(),
            r is Ok,
            final(self).contents() == old(self).visible(),
            final(self).pending() == Seq::<(Seq<char>, Json)>::empty(),
            final(self).dim() == old(self).dim(),
            final(self).batch_limit() == old(self).batch_limit(),
            final(self).client_id() == old(self).client_id(),
            final(self).collection() == old(self).collection(),
    {
        self.flush_buffer()
    }

    /// Runs a read or a write; other operations are refused.
    pub fn execute(&mut self, op: OperationType) -> (r: Result<OperationResult, RTDBError>)
        requires
            old(self).well_formed(),
        ensures
            final(self).well_formed(),
            final(self).dim() == old(self).dim(),
            final(self).batch_limit() == old(self).batch_limit(),
            final(self).client_id() == old(self).client_id(),
            final(self).collection() == old(self).collection(),
            match op {
                OperationType::Read { key } => {
                    &&& r matches Ok(res) && outcome_view(res) == Outcome::ReadOk(read_of(old(self).visible(), key@))
                    &&& final(self).contents() == old(self).visible()
                    &&& final(self).pending() == Seq::<(Seq<char>, Json)>::empty()
                },
                OperationType::Write { key, value } => {
                    &&& r matches Ok(res) && res is WriteOk
                    &&& final(self).visible() == kv_write(old(self).visible(), old(self).dim(), key@, value@)
                },
                _ => {
                    &&& r matches Err(RTDBError::Query(m)) && m@ == "Not supported"@
                    &&& final(self).contents() == old(self).contents()
                    &&& final(self).pending() == old(self).pending()
                },
            },
    {
        match op {
            OperationType::Read { key } => self.execute_read(key),
            OperationType::Write { key, value } => self.execute_batched_write(key, value),
            _ => Err(RTDBError::Query("Not supported".to_owned())),
        }
    }

    /// Whether the client can serve operations: its store always can.
    pub fn is_healthy(&self) -> (r: bool)
        ensures
            r,
    {
        true
    }
}


/// A write through a batcher as a lone writer sees it: the write joins the
/// buffer and is stored with its batch, at once when it fills the batch,
/// else at the next tick of the batching timer, which the writer awaits.
fn write_through(store: &mut HighPerformanceStore, batcher: &mut WriteBatcher, dim: usize, key: String, value: JsonValue)
    requires
        old(store).well_formed(),
        old(batcher).pending_writes().len() == 0,
    ensures
        final(store).well_formed(),
        final(store).contents() == kv_write(old(store).contents(), dim as nat, key@, value@),
        final(batcher).pending_writes().len() == 0,
        final(batcher).batch_limit() == old(batcher).batch_limit(),
{
    let ghost c0 = store.contents();
    let ghost w = (key@, value@);
    let batch = match batcher.push(key, value) {
        Some(b) => b,
        None => match batcher.take() {
            Some(b) => b,
            None => Vec::new(),
        },
    };
    assert(writes_view(batch@) =~= seq![w]);
    store_writes(store, dim, &batch);
    assert(seq![w].drop_last() =~= Seq::<(Seq<char>, Json)>::empty());
    assert(kv_writes(c0, dim as nat, seq![w].drop_last()) == c0);
    assert(kv_writes(c0, dim as nat, seq![w]) == kv_write(c0, dim as nat, w.0, w.1));
}

/// A client whose writes go through a batching buffer of a hundred
/// writes, acknowledged once their batch is stored.
pub struct BatchedDirectJepsenClient {
    id: usize,
    collection_name: String,
    vector_dim: usize,
    store: HighPerformanceStore,
    write_buffer: WriteBatcher,
}

impl BatchedDirectJepsenClient {
    /// The store is well formed and no acknowledged write is left waiting.
    pub closed spec fn well_formed(&self) -> bool {
        &&& self.store.well_formed()
        &&& self.write_buffer.pending_writes().len() == 0
    }

    /// What is stored, by key identifier.
    pub closed spec fn contents(&self) -> Map<u64, StoredView> {
        self.store.contents()
    }

    /// The dimension of the stored vectors.
    pub closed spec fn dim(&self) -> nat {
        self.vector_dim as nat
    }

    /// The number of writes that fills a batch.
    pub closed spec fn batch_limit(&self) -> usize {
        self.write_buffer.batch_limit()
    }

    /// The client's number.
    pub closed spec fn client_id(&self) -> usize {
        self.id
    }

    /// The name of the client's collection.
    pub closed spec fn collection(&self) -> Seq<char> {
        self.collection_name@
    }

    /// A client `id` with an empty store of `vector_dim`-dimensional
    /// vectors, in collection `jepsen_batched_<id>`.
    pub fn new(id: usize, vector_dim: usize) -> (r: Self)
        ensures
            r.well_formed(),
            r.contents() == Map::<u64, StoredView>::empty(),
            r.dim() == vector_dim,
            r.batch_limit() == 100,
            r.client_id() == id,
            r.collection() == "jepsen_batched_"@ + decimal(id as nat),
    {
        let mut name = "jepsen_batched_".to_owned();
        push_decimal(&mut name, id as u64);
        BatchedDirectJepsenClient {
            id,
            collection_name: name,
            vector_dim,
            store: HighPerformanceStore::new(),
            write_buffer: WriteBatcher::new(100),
        }
    }

    /// The client's number.
    pub fn id(&self) -> (r: usize)
        ensures
            r == self.client_id(),
    {
        self.id
    }

    /// A write, acknowledged once its batch is stored.
    fn execute_batched_write(&mut self, key: String, value: JsonValue) -> (r: Result<OperationResult, RTDBError>)
        requires
            old(self).well_formed(),
        ensures
            final(self).well_formed(),
            r matches Ok(res) && res is WriteOk,
            final(self).contents() == kv_write(old(self).contents(), old(self).dim(), key@, value@),
            final(self).dim() == old(self).dim(),
            final(self).batch_limit() == old(self).batch_limit(),
            final(self).client_id() == old(self).client_id(),
            final(self).collection() == old(self).collection(),
    {
        write_through(&mut self.store, &mut self.write_buffer, self.vector_dim, key, value);
        Ok(OperationResult::WriteOk)
    }

    /// Stores every write handed in before: a marker write of `null` under
    /// `__flush__` goes through the buffer and is awaited.
    pub fn flush(&mut self) -> (r: Result<(), RTDBError>)
        requires
            old(self).well_formed(),
        ensures
            final(self).well_formed(),
            r is Ok,
            final(self).contents() == kv_write(old(self).contents(), old(self).dim(), "__flush__"@, Json::Null),
            final(self).dim() == old(self).dim(),
            final(self).batch_limit() == old(self).batch_limit(),
            final(self).client_id() == old(self).client_id(),
            final(self).collection() == old(self).collection(),
    {
        self.execute_batched_write("__flush__".to_owned(), JsonValue::Null)?;
        Ok(())
    }

    /// Runs a read (of the stored value) or a write; other operations are
    /// refused.
    pub fn execute(&mut self, op: OperationType) -> (r: Result<OperationResult, RTDBError>)
        requires
            old(self).well_formed(),
        ensures
            final(self).well_formed(),
            final(self).dim() == old(self).dim(),
            final(self).batch_limit() == old(self).batch_limit(),
            final(self).client_id() == old(self).client_id(),
            final(self).collection() == old(self).collection(),
            match op {
                OperationType::Read { key } => {
                    &&& r matches Ok(res) && outcome_view(res) == Outcome::ReadOk(read_of(old(self).contents(), key@))
                    &&& final(self).contents() == old(self).contents()
                },
                OperationType::Write { key, value } => {
                    &&& r matches Ok(res) && res is WriteOk
                    &&& final(self).contents() == kv_write(old(self).contents(), old(self).dim(), key@, value@)
                },
                _ => {
                    &&& r matches Err(RTDBError::Query(m)) && m@ == "Operation not supported"@
                    &&& final(self).contents() == old(self).contents()
                },
            },
    {
        match op {
            OperationType::Read { key } => {
                let value = store_read(&self.store, key.as_str());
                Ok(OperationResult::ReadOk { value })
            },
            OperationType::Write { key, value } => self.execute_batched_write(key, value),
            _ => Err(RTDBError::Query("Operation not supported".to_owned())),
        }
    }

    /// Whether the client can serve operations: its store always can.
    pub fn is_healthy(&self) -> (r: bool)
        ensures
            r,
    {
        true
    }
}

/// A client whose writes go through a batching buffer of the configured
/// size, each stored as a one-component zero vector.
pub struct OptimizedDirectJepsenClient {
    id: usize,
    collection_name: String,
    config: OptimizedClientConfig,
    store: HighPerformanceStore,
    write_buffer: WriteBatcher,
}

impl OptimizedDirectJepsenClient {
    /// The store is well formed and no acknowledged write is left waiting.
    pub closed spec fn well_formed(&self) -> bool {
        &&& self.store.well_formed()
        &&& self.write_buffer.pending_writes().len() == 0
    }

    /// What is stored, by key identifier.
    pub closed spec fn contents(&self) -> Map<u64, StoredView> {
        self.store.contents()
    }

    /// The client's configuration.
    pub closed spec fn configuration(&self) -> OptimizedClientConfig {
        self.config
    }

    /// The number of writes that fills a batch.
    pub closed spec fn batch_limit(&self) -> usize {
        self.write_buffer.batch_limit()
    }

    /// The client's number.
    pub closed spec fn client_id(&self) -> usize {
        self.id
    }

    /// The name of the client's collection.
    pub closed spec fn collection(&self) -> Seq<char> {
        self.collection_name@
    }

    /// A client `id` with an empty store, batching as `config` says, in
    /// collection `jepsen_opt_<id>`.
    pub fn with_config(id: usize, config: OptimizedClientConfig) -> (r: Self)
        ensures
            r.well_formed(),
            r.contents() == Map::<u64, StoredView>::empty(),
            r.configuration() == config,
            r.batch_limit() == config.batch_size,
            r.client_id() == id,
            r.collection() == "jepsen_opt_"@ + decimal(id as nat),
    {
        let mut name = "jepsen_opt_".to_owned();
        push_decimal(&mut name, id as u64);
        let batch_size = config.batch_size;
        OptimizedDirectJepsenClient {
            id,
            collection_name: name,
            config,
            store: HighPerformanceStore::new(),
            write_buffer: WriteBatcher::new(batch_size),
        }
    }

    /// A client with the default configuration.
    pub fn new(id: usize) -> (r: Self)
        ensures
            r.well_formed(),
            r.contents() == Map::<u64, StoredView>::empty(),
            r.batch_limit() == 100,
            r.configuration().vector_dim == 1,
            r.configuration().flush_interval_ms == 10,
            r.client_id() == id,
            r.collection() == "jepsen_opt_"@ + decimal(id as nat),
    {
        Self::with_config(id, OptimizedClientConfig::default())
    }

    /// The client's number.
    pub fn id(&self) -> (r: usize)
        ensures
            r == self.client_id(),
    {
        self.id
    }

    /// A write, acknowledged once its batch is stored.
    fn execute_buffered_write(&mut self, key: String, value: JsonValue) -> (r: Result<OperationResult, RTDBError>)
        requires
            old(self).well_formed(),
        ensures
            final(self).well_formed(),
            r matches Ok(res) && res is WriteOk,
            final(self).contents() == kv_write(old(self).contents(), 1, key@, value@),
            final(self).configuration() == old(self).configuration(),
            final(self).batch_limit() == old(self).batch_limit(),
            final(self).client_id() == old(self).client_id(),
            final(self).collection() == old(self).collection(),
    {
        write_through(&mut self.store, &mut self.write_buffer, 1, key, value);
        Ok(OperationResult::WriteOk)
    }

    /// Stores every write handed in before: a marker write of `null` under
    /// `__flush__` goes through the buffer and is awaited.
    pub fn flush(&mut self) -> (r: Result<(), RTDBError>)
        requires
            old(self).well_formed(),
        ensures
            final(self).well_formed(),
            r is Ok,
            final(self).contents() == kv_write(old(self).contents(), 1, "__flush__"@, Json::Null),
            final(self).configuration() == old(self).configuration(),
            final(self).batch_limit() == old(self).batch_limit(),
            final(self).client_id() == old(self).client_id(),
            final(self).collection() == old(self).collection(),
    {
        self.execute_buffered_write("__flush__".to_owned(), JsonValue::Null)?;
        Ok(())
    }

    /// Runs a read (of the stored value) or a write; other operations are
    /// refused.
    pub fn execute(&mut self, op: OperationType) -> (r: Result<OperationResult, RTDBError>)
        requires
            old(self).well_formed(),
        ensures
            final(self).well_formed(),
            final(self).configuration() == old(self).configuration(),
            final(self).batch_limit() == old(self).batch_limit(),
            final(self).client_id() == old(self).client_id(),
            final(self).collection() == old(self).collection(),
            match op {
                OperationType::Read { key } => {
                    &&& r matches Ok(res) && outcome_view(res) == Outcome::ReadOk(read_of(old(self).contents(), key@))
                    &&& final(self).contents() == old(self).contents()
                },
                OperationType::Write { key, value } => {
                    &&& r matches Ok(res) && res is WriteOk
                    &&& final(self).contents() == kv_write(old(self).contents(), 1, key@, value@)
                },
                _ => {
                    &&& r matches Err(RTDBError::Query(m)) && m@ == "Operation not optimized yet"@
                    &&& final(self).contents() == old(self).contents()
                },
            },
    {
        match op {
            OperationType::Read { key } => {
                let value = store_read(&self.store, key.as_str());
                Ok(OperationResult::ReadOk { value })
            },
            OperationType::Write { key, value } => self.execute_buffered_write(key, value),
            _ => Err(RTDBError::Query("Operation not optimized yet".to_owned())),
        }
    }

    /// Whether the client can serve operations: its store always can.
    pub fn is_healthy(&self) -> (r: bool)
        ensures
            r,
    {
        true
    }
}

} // verus!
