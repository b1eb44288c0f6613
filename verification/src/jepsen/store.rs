//! An in-memory vector store for consistency tests, and the key-value
//! client built on it.
//!
//! Vectors live in an append-only slot list; a concurrent map from
//! dashmap finds each identifier's slot.

use vstd::prelude::*;
use vstd::std_specs::hash::*;
use std::collections::hash_map::DefaultHasher;
use std::hash::Hasher;
use dashmap::DashMap;
use crate::json::{Json, JsonValue, json_clone};
use crate::types::{RTDBError, Vector, fields_view, payload_view, payload_clone};

verus! {

/// dashmap's concurrent hash map, opaque here.
#[verifier::external_type_specification]
#[verifier::external_body]
#[verifier::reject_recursive_types(K)]
#[verifier::reject_recursive_types(V)]
#[verifier::reject_recursive_types(S)]
pub struct ExDashMap<K, V, S>(DashMap<K, V, S>);

/// The slot each identifier maps to.
pub uninterp spec fn slot_map(m: DashMap<u64, usize>) -> Map<u64, usize>;

/// No identifier mapped.
pub open spec fn no_slots() -> Map<u64, usize> {
    Map::empty()
}

/// An empty map (dashmap's `DashMap::with_capacity`).
#[verifier::external_body]
fn new_slot_map(capacity: usize) -> (r: DashMap<u64, usize>)
    ensures
        slot_map(r) == no_slots(),
{
    DashMap::with_capacity(capacity)
}

/// Maps `id` to `slot`, returning the slot it had (dashmap's
/// `DashMap::insert`).
#[verifier::external_body]
fn slot_insert(m: &mut DashMap<u64, usize>, id: u64, slot: usize) -> (r: Option<usize>)
    ensures
        slot_map(*final(m)) == slot_map(*old(m)).insert(id, slot),
        r == (if slot_map(*old(m)).contains_key(id) { Some(slot_map(*old(m))[id]) } else { None }),
{
    m.insert(id, slot)
}

/// The slot of `id`, if mapped (dashmap's `DashMap::get`, the guard
/// released at once).
#[verifier::external_body]
fn slot_get(m: &DashMap<u64, usize>, id: u64) -> (r: Option<usize>)
    ensures
        r == (if slot_map(*m).contains_key(id) { Some(slot_map(*m)[id]) } else { None }),
{
    match m.get(&id) {
        Some(entry) => Some(*entry.value()),
        None => None,
    }
}

/// Unmaps `id`, returning its entry (dashmap's `DashMap::remove`).
#[verifier::external_body]
fn slot_remove(m: &mut DashMap<u64, usize>, id: u64) -> (r: Option<(u64, usize)>)
    ensures
        slot_map(*final(m)) == slot_map(*old(m)).remove(id),
        r == (if slot_map(*old(m)).contains_key(id) { Some((id, slot_map(*old(m))[id])) } else { None }),
{
    m.remove(&id)
}

/// Number of mapped identifiers (dashmap's `DashMap::len`).
#[verifier::external_body]
fn slot_count(m: &DashMap<u64, usize>) -> (r: usize)
    ensures
        r == slot_map(*m).len(),
{
    m.len()
}

/// Whether nothing is mapped (dashmap's `DashMap::is_empty`).
#[verifier::external_body]
fn slot_map_is_empty(m: &DashMap<u64, usize>) -> (r: bool)
    ensures
        r == (slot_map(*m).len() == 0),
{
    m.is_empty()
}

/// Unmaps everything (dashmap's `DashMap::clear`).
#[verifier::external_body]
fn slot_clear(m: &mut DashMap<u64, usize>)
    ensures
        slot_map(*final(m)) == no_slots(),
{
    m.clear()
}

/// A stored vector: component bits and optional metadata.
#[derive(Debug)]
pub struct StoredVector {
    pub data: Vec<u32>,
    pub payload: Option<Vec<(String, JsonValue)>>,
}

/// The mathematical form of a stored vector.
pub type StoredView = (Seq<u32>, Option<Seq<(Seq<char>, Json)>>);

/// A vector read back from the store.
#[derive(Debug)]
pub struct RetrievedVector {
    pub id: u64,
    pub vector: Vec<u32>,
    pub payload: Option<Vec<(String, JsonValue)>>,
}

/// An in-memory store of vectors by identifier.
pub struct HighPerformanceStore {
    index: DashMap<u64, usize>,
    slots: Vec<StoredVector>,
    next_id: u64,
}

impl HighPerformanceStore {
    /// Every mapped slot exists, and finitely many identifiers are mapped.
    pub closed spec fn well_formed(&self) -> bool {
        &&& slot_map(self.index).dom().finite()
        &&& forall|id: u64| #[trigger] slot_map(self.index).contains_key(id) ==> slot_map(self.index)[id] < self.slots@.len()
    }

    /// The stored vectors by identifier.
    pub closed spec fn contents(&self) -> Map<u64, StoredView> {
        Map::new(
            |id: u64| slot_map(self.index).contains_key(id),
            |id: u64| {
                let s = self.slots@[slot_map(self.index)[id] as int];
                (s.data@, payload_view(s.payload))
            },
        )
    }

    /// The next identifier `next_id` hands out.
    pub closed spec fn next(&self) -> u64 {
        self.next_id
    }

    /// An empty store whose identifiers start at 1.
    pub fn new() -> (r: Self)
        ensures
            r.well_formed(),
            r.contents() == Map::<u64, StoredView>::empty(),
            r.next() == 1,
    {
        let r = HighPerformanceStore { index: new_slot_map(10000), slots: Vec::new(), next_id: 1 };
        assert(r.contents() =~= Map::<u64, StoredView>::empty());
        r
    }

    /// Stores `vector` under `id`, replacing what was there.
    pub fn put(&mut self, id: u64, vector: Vector) -> (r: Result<(), RTDBError>)
        requires
            old(self).well_formed(),
        ensures
            final(self).well_formed(),
            r is Ok,
            final(self).contents() == old(self).contents().insert(id, (vector.data@, payload_view(vector.payload))),
            final(self).next() == old(self).next(),
    {
        let ghost before = self.contents();
        let slot = self.slots.len();
        self.slots.push(StoredVector { data: vector.data, payload: vector.payload });
        let _ = slot_insert(&mut self.index, id, slot);
        proof {
            assert(forall|k: u64| #[trigger] slot_map(self.index).contains_key(k) && k != id
                ==> self.slots@[slot_map(self.index)[k] as int] == old(self).slots@[slot_map(self.index)[k] as int]);
            assert(self.contents() =~= before.insert(id, (vector.data@, payload_view(vector.payload))));
        }
        Ok(())
    }

    /// Stores each vector under its identifier, in order.
    pub fn put_batch(&mut self, vectors: Vec<(u64, Vector)>) -> (r: Result<(), RTDBError>)
        requires
            old(self).well_formed(),
        ensures
            final(self).well_formed(),
            r is Ok,
            final(self).contents() == puts(old(self).contents(), vectors@),
            final(self).next() == old(self).next(),
    {
        let ghost c0 = self.contents();
        let ghost vs = vectors@;
        let mut rest = vectors;
        let mut done: Vec<(u64, Vector)> = Vec::new();
        let len = rest.len();
        let mut i: usize = 0;
        while i < len
            invariant
                len == vs.len(),
                i <= len,
                rest@ == vs.skip(i as int),
                self.well_formed(),
                self.contents() == puts(c0, vs.take(i as int)),
                self.next() == old(self).next(),
            decreases len - i,
        {
            let (id, vector) = rest.remove(0);
            assert(vs[i as int] == (id, vector));
            assert(rest@ =~= vs.skip(i + 1));
            assert(vs.take(i + 1).drop_last() =~= vs.take(i as int));
            let _ = self.put(id, vector);
            i += 1;
        }
        assert(vs.take(len as int) =~= vs);
        Ok(())
    }

    /// The vector stored under `id`, if any.
    pub fn get(&self, id: u64) -> (r: Option<RetrievedVector>)
        requires
            self.well_formed(),
        ensures
            match r {
                Some(v) => self.contents().contains_key(id) && v.id == id
                    && (v.vector@, payload_view(v.payload)) == self.contents()[id],
                None => !self.contents().contains_key(id),
            },
    {
        match slot_get(&self.index, id) {
            Some(slot) => {
                let s = &self.slots[slot];
                let vector = s.data.clone();
                assert(vector@ =~= s.data@);
                Some(RetrievedVector { id, vector, payload: payload_clone(&s.payload) })
            },
            None => None,
        }
    }

    /// Removes the vector stored under `id`, if any.
    pub fn delete(&mut self, id: u64) -> (r: Result<(), RTDBError>)
        requires
            old(self).well_formed(),
        ensures
            final(self).well_formed(),
            r is Ok,
            final(self).contents() == old(self).contents().remove(id),
            final(self).next() == old(self).next(),
    {
        let ghost before = self.contents();
        let _ = slot_remove(&mut self.index, id);
        assert(self.contents() =~= before.remove(id));
        Ok(())
    }

    /// Number of stored vectors.
    pub fn len(&self) -> (r: usize)
        requires
            self.well_formed(),
        ensures
            r == self.contents().len(),
    {
        assert(self.contents().dom() =~= slot_map(self.index).dom());
        slot_count(&self.index)
    }

    /// Whether nothing is stored.
    pub fn is_empty(&self) -> (r: bool)
        requires
            self.well_formed(),
        ensures
            r == (self.contents().len() == 0),
    {
        assert(self.contents().dom() =~= slot_map(self.index).dom());
        slot_map_is_empty(&self.index)
    }

    /// Hands out the next identifier (wrapping after `u64::MAX`).
    pub fn next_id(&mut self) -> (r: u64)
        ensures
            r == old(self).next(),
            final(self).next() == old(self).next().wrapping_add(1),
            final(self).contents() == old(self).contents(),
            final(self).well_formed() == old(self).well_formed(),
    {
        let r = self.next_id;
        self.next_id = self.next_id.wrapping_add(1);
        r
    }

    /// Removes every vector.
    pub fn clear(&mut self)
        ensures
            final(self).well_formed(),
            final(self).contents() == Map::<u64, StoredView>::empty(),
            final(self).next() == old(self).next(),
    {
        slot_clear(&mut self.index);
        self.slots = Vec::new();
        assert(self.contents() =~= Map::<u64, StoredView>::empty());
    }
}

/// The contents after storing each of `vs` in order.
pub open spec fn puts(c: Map<u64, StoredView>, vs: Seq<(u64, Vector)>) -> Map<u64, StoredView>
    decreases vs.len(),
{
    if vs.len() == 0 {
        c
    } else {
        puts(c, vs.drop_last()).insert(vs.last().0, (vs.last().1.data@, payload_view(vs.last().1.payload)))
    }
}

/// The identifier a key is stored under: std's default hasher over the
/// key's UTF-8 bytes followed by the `0xff` terminator that `str`'s
/// `Hash` writes.
pub open spec fn key_id(key: Seq<char>) -> u64 {
    DefaultHasher::spec_finish(seq![vstd::utf8::encode_utf8(key), seq![0xffu8]])
}

/// The identifier a key is stored under.
pub(crate) fn key_to_id(key: &str) -> (r: u64)
    ensures
        r == key_id(key@),
{
    let mut hasher = DefaultHasher::new();
    let bytes = key.as_bytes();
    hasher.write(bytes);
    let terminator: [u8; 1] = [0xffu8];
    let t = terminator.as_slice();
    assert(t@ =~= seq![0xffu8]);
    hasher.write(t);
    let r = hasher.finish();
    assert(bytes@ == vstd::utf8::encode_utf8(key@));
    assert(hasher@ =~= seq![vstd::utf8::encode_utf8(key@), seq![0xffu8]]);
    r
}

/// The payload a written value is kept in: `{"value": v}`.
pub open spec fn value_payload(v: Json) -> Option<Seq<(Seq<char>, Json)>> {
    Some(seq![("value"@, v)])
}

/// The first field named `name`.
pub open spec fn field_of(fields: Seq<(Seq<char>, Json)>, name: Seq<char>) -> Option<Json>
    decreases fields.len(),
{
    if fields.len() == 0 {
        None
    } else if fields[0].0 == name {
        Some(fields[0].1)
    } else {
        field_of(fields.drop_first(), name)
    }
}

/// What a read of `key` returns given the store's contents: the `"value"`
/// field of the vector stored under the key's identifier.
pub open spec fn read_of(contents: Map<u64, StoredView>, key: Seq<char>) -> Option<Json> {
    if contents.contains_key(key_id(key)) {
        match contents[key_id(key)].1 {
            Some(fields) => field_of(fields, "value"@),
            None => None,
        }
    } else {
        None
    }
}

/// The `"value"` field of a payload, copied.
pub(crate) fn value_field(fields: &Vec<(String, JsonValue)>) -> (r: Option<JsonValue>)
    ensures
        match r {
            Some(v) => field_of(fields_view(fields@), "value"@) == Some(v@),
            None => field_of(fields_view(fields@), "value"@) is None,
        },
{
    let ghost fv = fields_view(fields@);
    let name = "value".to_owned();
    let mut i: usize = 0;
    assert(fv.skip(0) =~= fv);
    while i < fields.len()
        invariant
            i <= fields@.len(),
            fv == fields_view(fields@),
            name@ == "value"@,
            field_of(fv, "value"@) == field_of(fv.skip(i as int), "value"@),
        decreases fields@.len() - i,
    {
        assert(fv.skip(i as int).drop_first() =~= fv.skip(i + 1));
        if fields[i].0 == name {
            assert(fv.skip(i as int)[0] == (fields@[i as int].0@, fields@[i as int].1@));
            return Some(json_clone(&fields[i].1));
        }
        i += 1;
    }
    None
}

/// A key-value client over its own in-memory store.
pub struct UltraFastJepsenClient {
    id: usize,
    store: HighPerformanceStore,
}

impl UltraFastJepsenClient {
    /// The store is well formed.
    pub closed spec fn well_formed(&self) -> bool {
        self.store.well_formed()
    }

    /// The store's contents.
    pub closed spec fn contents(&self) -> Map<u64, StoredView> {
        self.store.contents()
    }

    /// The client's number.
    pub closed spec fn client_id(&self) -> usize {
        self.id
    }

    /// A client with an empty store.
    pub fn new(id: usize) -> (r: Self)
        ensures
            r.well_formed(),
            r.contents() == Map::<u64, StoredView>::empty(),
            r.client_id() == id,
    {
        UltraFastJepsenClient { id, store: HighPerformanceStore::new() }
    }

    /// Stores `value` under `key`, as a one-component zero vector whose
    /// payload is `{"value": value}`.
    pub fn write(&mut self, key: String, value: JsonValue) -> (r: Result<(), RTDBError>)
        requires
            old(self).well_formed(),
        ensures
            final(self).well_formed(),
            r is Ok,
            final(self).contents() == old(self).contents().insert(key_id(key@), (seq![0u32], value_payload(value@))),
            final(self).client_id() == old(self).client_id(),
    {
        let id = key_to_id(key.as_str());
        let ghost v = value@;
        let vector = Vector { data: vec![0u32], payload: Some(vec![("value".to_owned(), value)]) };
        proof {
            assert(fields_view(vector.payload->0@) =~= seq![("value"@, v)]);
            assert(vector.data@ =~= seq![0u32]);
        }
        self.store.put(id, vector)
    }

    /// The value last written under `key` (or under a key with the same
    /// identifier), if any.
    pub fn read(&self, key: String) -> (r: Option<JsonValue>)
        requires
            self.well_formed(),
        ensures
            match r {
                Some(v) => read_of(self.contents(), key@) == Some(v@),
                None => read_of(self.contents(), key@) is None,
            },
    {
        let id = key_to_id(key.as_str());
        match self.store.get(id) {
            Some(v) => match &v.payload {
                Some(fields) => value_field(fields),
                None => None,
            },
            None => None,
        }
    }

    /// Writes each pair in order.
    pub fn write_batch(&mut self, batch: Vec<(String, JsonValue)>) -> (r: Result<(), RTDBError>)
        requires
            old(self).well_formed(),
        ensures
            final(self).well_formed(),
            r is Ok,
            final(self).contents() == writes(old(self).contents(), batch@),
            final(self).client_id() == old(self).client_id(),
    {
        let ghost c0 = self.contents();
        let ghost bs = batch@;
        let mut rest = batch;
        let len = rest.len();
        let mut i: usize = 0;
        while i < len
            invariant
                len == bs.len(),
                i <= len,
                rest@ == bs.skip(i as int),
                self.well_formed(),
                self.contents() == writes(c0, bs.take(i as int)),
                self.client_id() == old(self).client_id(),
            decreases len - i,
        {
            let (key, value) = rest.remove(0);
            assert(bs[i as int] == (key, value));
            assert(rest@ =~= bs.skip(i + 1));
            assert(bs.take(i + 1).drop_last() =~= bs.take(i as int));
            let _ = self.write(key, value);
            i += 1;
        }
        assert(bs.take(len as int) =~= bs);
        Ok(())
    }

    /// The client's number.
    pub fn id(&self) -> (r: usize)
        ensures
            r == self.client_id(),
    {
        self.id
    }

    /// The number of stored vectors, and zero.
    pub fn stats(&self) -> (r: (usize, usize))
        requires
            self.well_formed(),
        ensures
            r == (self.contents().len() as usize, 0usize),
    {
        (self.store.len(), 0)
    }
}

/// The contents after writing each pair of `bs` in order.
pub open spec fn writes(c: Map<u64, StoredView>, bs: Seq<(String, JsonValue)>) -> Map<u64, StoredView>
    decreases bs.len(),
{
    if bs.len() == 0 {
        c
    } else {
        writes(c, bs.drop_last()).insert(key_id(bs.last().0@), (seq![0u32], value_payload(bs.last().1@)))
    }
}

/// A read of a key returns what the last write to it stored.
pub proof fn lemma_read_after_write(c: Map<u64, StoredView>, key: Seq<char>, v: Json)
    ensures
        read_of(c.insert(key_id(key), (seq![0u32], value_payload(v))), key) == Some(v),
{
    let fields = seq![("value"@, v)];
    assert(fields[0].0 == "value"@);
}

/// A write leaves reads of keys with another identifier as they were.
pub proof fn lemma_write_leaves_other_keys(c: Map<u64, StoredView>, key: Seq<char>, other: Seq<char>, v: Json)
    requires
        key_id(key) != key_id(other),
    ensures
        read_of(c.insert(key_id(key), (seq![0u32], value_payload(v))), other) == read_of(c, other),
{
}

/// A fixed set of clients, each with its own store.
pub struct UltraFastClientPool {
    clients: Vec<UltraFastJepsenClient>,
}

impl UltraFastClientPool {
    /// The clients' numbers, in order.
    pub closed spec fn client_ids(&self) -> Seq<usize> {
        self.clients@.map_values(|c: UltraFastJepsenClient| c.client_id())
    }

    /// Clients numbered `0..num_clients`, each with an empty store.
    pub fn new(num_clients: usize) -> (r: Self)
        ensures
            r.client_ids() == Seq::new(num_clients as nat, |i: int| i as usize),
    {
        let mut clients: Vec<UltraFastJepsenClient> = Vec::new();
        let mut i: usize = 0;
        while i < num_clients
            invariant
                i <= num_clients,
                clients@.len() == i,
                forall|j: int| 0 <= j < i ==> (#[trigger] clients@[j]).client_id() == j,
            decreases num_clients - i,
        {
            clients.push(UltraFastJepsenClient::new(i));
            i += 1;
        }
        let r = UltraFastClientPool { clients };
        assert(r.client_ids() =~= Seq::new(num_clients as nat, |i: int| i as usize));
        r
    }

    /// The client at `id` modulo the pool's size. The pool must not be
    /// empty.
    pub fn get(&self, id: usize) -> (r: Option<&UltraFastJepsenClient>)
        requires
            self.client_ids().len() > 0,
        ensures
            r matches Some(c) && c.client_id() == self.client_ids()[(id % self.client_ids().len() as usize) as int],
    {
        let i = id % self.clients.len();
        assert(self.client_ids()[i as int] == self.clients@[i as int].client_id());
        Some(&self.clients[i])
    }

    /// All clients.
    pub fn all(&self) -> (r: &Vec<UltraFastJepsenClient>)
        ensures
            r@.map_values(|c: UltraFastJepsenClient| c.client_id()) == self.client_ids(),
    {
        &self.clients
    }
}

} // verus!
