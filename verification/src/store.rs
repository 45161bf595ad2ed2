//! The durable record store: the id counter cell and the ordered byte map,
//! owned together and kept consistent with a mathematical map of records.
use vstd::prelude::*;

use crate::backend::{btree_contents, cell_value, fresh_backend, open_backend, ByteMap, CounterCell};
use crate::codec::{encode_product, encoded_len, lemma_product_bytes_len, product_bytes, try_decode_product, MAX_RECORD_BYTES};
use crate::types::{Product, ProductModel};

verus! {

/// What must hold of every record living in the store under key `id`.
pub open spec fn record_ok(m: ProductModel, id: u64) -> bool {
    &&& m.id == id
    &&& m.price > 0
    &&& m.seller.len() > 0
    &&& encoded_len(m) <= MAX_RECORD_BYTES as int
}

/// The contents of a store that holds nothing.
pub open spec fn no_products() -> Map<u64, ProductModel> {
    Map::empty()
}

/// The registry's durable state: the monotonic id counter in one region of
/// the pool and the serialized records in another, constructed once at
/// process start and passed into every operation.
pub struct Store {
    counter: CounterCell,
    records: ByteMap,
    model: Ghost<Map<u64, ProductModel>>,
}

impl Store {
    /// The records the store holds, as a mathematical map.
    pub closed spec fn products(self) -> Map<u64, ProductModel> {
        self.model@
    }

    /// The persisted counter: the last id issued, or zero at first boot.
    pub closed spec fn counter_value(self) -> u64 {
        cell_value(&self.counter)
    }

    /// Every stored byte string is the serialization of its record, every
    /// record sits under its own id, holds a positive price and a non-empty
    /// seller, and fits the serialization ceiling.
    pub closed spec fn wf(self) -> bool {
        &&& btree_contents(&self.records).dom() == self.model@.dom()
        &&& forall|id: u64|
            self.model@.dom().contains(id) ==> btree_contents(&self.records)[id] == product_bytes(
                #[trigger] self.model@[id],
            )
        &&& forall|id: u64|
            self.model@.dom().contains(id) ==> record_ok(#[trigger] self.model@[id], id)
        &&& forall|id: u64| #[trigger]
            self.model@.dom().contains(id) ==> id <= cell_value(&self.counter)
    }

    /// The serialized bytes stored under an id.
    pub closed spec fn record_bytes(self, id: u64) -> Seq<u8> {
        btree_contents(&self.records)[id]
    }

    /// Two well-formed stores holding the same records hold, entry for
    /// entry, the same serialized bytes.
    pub proof fn lemma_same_products_same_bytes(self, other: Store, id: u64)
        requires
            self.wf(),
            other.wf(),
            self.products() == other.products(),
            self.products().dom().contains(id),
        ensures
            self.record_bytes(id) == other.record_bytes(id),
    {
        assert(btree_contents(&self.records)[id] == product_bytes(self.model@[id]));
        assert(btree_contents(&other.records)[id] == product_bytes(other.model@[id]));
    }

    /// Every record a well-formed store holds is keyed by its own id,
    /// priced above zero, owned by a named seller, within the ceiling, and
    /// its id never exceeds the counter — so it was issued, not guessed.
    pub proof fn lemma_record_ok(self, id: u64)
        requires
            self.wf(),
            self.products().dom().contains(id),
        ensures
            record_ok(self.products()[id], id),
            id <= self.counter_value(),
    {
    }

    /// Opens a fresh in-memory store: a new pool, a counter region holding
    /// zero, and an empty record region. Nothing outlives the process; the
    /// durable medium is `Store::open`'s.
    pub fn new() -> (s: Store)
        ensures
            s.wf(),
            s.products() == no_products(),
            s.counter_value() == 0,
    {
        let backend = fresh_backend();
        let s = Store { counter: backend.0, records: backend.1, model: Ghost(Map::empty()) };
        proof {
            assert(btree_contents(&s.records).dom() =~= s.model@.dom());
        }
        s
    }

    /// Opens the store over the process's durable medium: whatever counter
    /// and records a previous incarnation persisted come back (a fresh
    /// medium starts at zero and empty). `validate_entries` decides, with
    /// an exact contract, whether what was read back may enter the store;
    /// `None` is the unrecoverable initialization failure at boot.
    pub fn open() -> (r: Option<Store>)
        ensures
            r matches Some(s) ==> s.wf(),
    {
        let backend = open_backend();
        let counter = backend.0;
        let records = backend.1;
        let counter_val = counter.get();
        let entries = records.entries();
        match validate_entries(counter_val, &entries) {
            None => None,
            Some(g) => {
                proof {
                    assert forall|k: u64|
                        btree_contents(&records).dom().contains(k) implies g@.dom().contains(
                        k,
                    ) by {
                        let i = choose|i: int| 0 <= i < entries@.len() && entries@[i].0 == k;
                        assert(0 <= i < entries@.len() && entries@[i].0 == k);
                    }
                    assert forall|k: u64| g@.dom().contains(k) implies btree_contents(
                        &records,
                    ).dom().contains(k) by {
                        let j = choose|j: int| 0 <= j < entries@.len() && entries@[j].0 == k;
                        assert(btree_contents(&records).dom().contains(entries@[j].0));
                    }
                    assert(btree_contents(&records).dom() =~= g@.dom());
                    assert forall|k: u64| g@.dom().contains(k) implies btree_contents(&records)[k]
                        == product_bytes(g@[k]) && record_ok(g@[k], k) && k <= cell_value(
                        &counter,
                    ) by {
                        let j = choose|j: int| 0 <= j < entries@.len() && entries@[j].0 == k;
                        assert(entries@[j].1@ == btree_contents(&records)[entries@[j].0]);
                        assert(entries@[j].1@ == product_bytes(g@[entries@[j].0]));
                        assert(record_ok(g@[entries@[j].0], entries@[j].0));
                    }
                }
                Some(Store { counter, records, model: g })
            },
        }
    }

    /// The ids of every record the store holds, in ascending order.
    #[verifier::loop_isolation(false)]
    pub fn product_ids(&self) -> (r: Vec<u64>)
        requires
            self.wf(),
        ensures
            forall|i: int| 0 <= i < r@.len() ==> self.products().dom().contains(#[trigger] r@[i]),
            forall|k: u64| #[trigger]
                self.products().dom().contains(k) ==> exists|i: int| 0 <= i < r@.len() && r@[i]
                    == k,
            forall|i: int, j: int| 0 <= i < j < r@.len() ==> r@[i] < r@[j],
    {
        let entries = self.records.entries();
        let mut ids: Vec<u64> = Vec::new();
        let mut idx: usize = 0;
        while idx < entries.len()
            invariant
                0 <= idx <= entries@.len(),
                ids@.len() == idx,
                forall|i: int| 0 <= i < idx ==> ids@[i] == entries@[i].0,
            decreases entries@.len() - idx,
        {
            ids.push(entries[idx].0);
            idx = idx + 1;
        }
        proof {
            assert forall|k: u64| self.products().dom().contains(k) implies exists|i: int|
                0 <= i < ids@.len() && ids@[i] == k by {
                let i = choose|i: int| 0 <= i < entries@.len() && entries@[i].0 == k;
                assert(0 <= i < ids@.len() && ids@[i] == k);
            }
        }
        ids
    }

    /// Reads the persisted counter: the last id issued so far.
    pub fn current_counter(&self) -> (r: u64)
        ensures
            r == self.counter_value(),
    {
        self.counter.get()
    }

    /// Issues the next id: persists the incremented counter and returns
    /// that incremented value, so the first id issued is 1. Ids are handed
    /// out exactly once and never reused.
    pub fn next_id(&mut self) -> (id: u64)
        requires
            old(self).wf(),
            old(self).counter_value() < u64::MAX,
        ensures
            final(self).wf(),
            id == old(self).counter_value() + 1,
            final(self).counter_value() == id,
            final(self).products() == old(self).products(),
    {
        let cur = self.counter.get();
        let id = cur + 1;
        self.counter.set(id);
        id
    }
}

/// Whether one persisted entry may enter the store at boot: its bytes
/// serialize a record keyed by the entry's own key, well formed, and with
/// an id the counter already issued.
pub open spec fn entry_acceptable(counter: u64, key: u64, bytes: Seq<u8>) -> bool {
    exists|m: ProductModel|
        bytes == #[trigger] product_bytes(m) && record_ok(m, key) && key <= counter
}

/// Decides, for the counter value and entry list read back at boot,
/// whether the medium may be accepted: `Some` exactly when every entry is
/// acceptable and the keys come strictly ascending, as the record map
/// yields them; the returned map then holds, under each entry's key, the
/// record its bytes serialize.
#[verifier::loop_isolation(false)]
#[verifier::rlimit(100)]
pub fn validate_entries(counter_val: u64, entries: &Vec<(u64, Vec<u8>)>) -> (r: Option<
    Ghost<Map<u64, ProductModel>>,
>)
    ensures
        r is Some <==> ((forall|i: int|
            0 <= i < entries@.len() ==> entry_acceptable(
                counter_val,
                (#[trigger] entries@[i]).0,
                entries@[i].1@,
            )) && (forall|i: int, j: int|
            0 <= i < j < entries@.len() ==> (#[trigger] entries@[i]).0 < (#[trigger] entries@[j]).0)),
        r matches Some(g) ==> (forall|k: u64|
            #[trigger] g@.dom().contains(k) <==> exists|j: int|
                0 <= j < entries@.len() && (#[trigger] entries@[j]).0 == k),
        r matches Some(g) ==> (forall|j: int|
            0 <= j < entries@.len() ==> (#[trigger] entries@[j]).1@ == product_bytes(
                g@[entries@[j].0],
            )),
        r matches Some(g) ==> (forall|j: int|
            0 <= j < entries@.len() ==> record_ok(g@[(#[trigger] entries@[j]).0], entries@[j].0)
                && entries@[j].0 <= counter_val),
{
    let ghost mut model: Map<u64, ProductModel> = Map::empty();
    let mut idx: usize = 0;
    while idx < entries.len()
        invariant
            0 <= idx <= entries@.len(),
            forall|i: int|
                0 <= i < idx ==> entry_acceptable(
                    counter_val,
                    (#[trigger] entries@[i]).0,
                    entries@[i].1@,
                ),
            forall|k: u64| #[trigger] model.dom().contains(k) <==> exists|j: int|
                0 <= j < idx && entries@[j].0 == k,
            forall|j: int|
                0 <= j < idx ==> (#[trigger] entries@[j]).1@ == product_bytes(
                    model[entries@[j].0],
                ),
            forall|j: int|
                0 <= j < idx ==> record_ok(model[(#[trigger] entries@[j]).0], entries@[j].0)
                    && entries@[j].0 <= counter_val,
            forall|i: int, j: int|
                0 <= i < j < idx ==> (#[trigger] entries@[i]).0 < (#[trigger] entries@[j]).0,
        decreases entries@.len() - idx,
    {
        let key = entries[idx].0;
        if idx > 0 && entries[idx - 1].0 >= key {
            return None;
        }
        let p = match try_decode_product(&entries[idx].1) {
            None => {
                proof {
                    if entry_acceptable(counter_val, key, entries@[idx as int].1@) {
                        let m = choose|m: ProductModel|
                            entries@[idx as int].1@ == #[trigger] product_bytes(m) && record_ok(
                                m,
                                key,
                            ) && key <= counter_val;
                        assert(false);
                    }
                }
                return None;
            },
            Some(p) => p,
        };
        if p.id != key || p.price == 0 || p.seller.as_str().is_empty() || entries[idx].1.len()
            > MAX_RECORD_BYTES || key > counter_val {
            proof {
                if entry_acceptable(counter_val, key, entries@[idx as int].1@) {
                    let m = choose|m: ProductModel|
                        entries@[idx as int].1@ == #[trigger] product_bytes(m) && record_ok(
                            m,
                            key,
                        ) && key <= counter_val;
                    assert(p@ == m);
                    lemma_product_bytes_len(m);
                    assert(false);
                }
            }
            return None;
        }
        proof {
            lemma_product_bytes_len(p@);
            assert(entries@[idx as int].1@ == product_bytes(p@) && record_ok(p@, key) && key
                <= counter_val);
            model = model.insert(key, p@);
            assert(0 <= idx < idx + 1 && entries@[idx as int].0 == key);
        }
        idx = idx + 1;
    }
    Some(Ghost(model))
}

/// Serializes the record and upserts it under its id. The caller has
/// already sized the record against the serialization ceiling.
pub fn do_insert(store: &mut Store, product: &Product)
    requires
        old(store).wf(),
        record_ok(product@, product@.id),
        product@.id <= old(store).counter_value(),
    ensures
        final(store).wf(),
        final(store).products() == old(store).products().insert(product@.id, product@),
        final(store).counter_value() == old(store).counter_value(),
{
    let bytes = encode_product(product);
    store.records.insert(product.id, bytes);
    proof {
        store.model@ = store.model@.insert(product@.id, product@);
        assert(btree_contents(&store.records).dom() =~= store.model@.dom());
    }
}

/// Point lookup: decodes and returns the record stored under the id.
pub fn _get_product(store: &Store, product_id: &u64) -> (r: Option<Product>)
    requires
        store.wf(),
    ensures
        r is Some <==> store.products().dom().contains(*product_id),
        r matches Some(p) ==> p@ == store.products()[*product_id],
{
    match store.records.get(*product_id) {
        None => None,
        Some(bytes) => match try_decode_product(&bytes) {
            Some(p) => Some(p),
            None => {
                proof {
                    assert(bytes@ == product_bytes(store.products()[*product_id]));
                    assert(false);
                }
                None
            },
        },
    }
}

/// Deletes the record under the id, returning it if it was there.
pub fn remove_record(store: &mut Store, product_id: u64) -> (r: Option<Product>)
    requires
        old(store).wf(),
    ensures
        final(store).wf(),
        final(store).products() == old(store).products().remove(product_id),
        final(store).counter_value() == old(store).counter_value(),
        r is Some <==> old(store).products().dom().contains(product_id),
        r matches Some(p) ==> p@ == old(store).products()[product_id],
{
    match store.records.remove(product_id) {
        None => {
            proof {
                store.model@ = store.model@.remove(product_id);
                assert(btree_contents(&store.records).dom() =~= store.model@.dom());
            }
            None
        },
        Some(bytes) => {
            proof {
                assert(bytes@ == product_bytes(old(store).products()[product_id]));
            }
            match try_decode_product(&bytes) {
                Some(p) => {
                    proof {
                        store.model@ = store.model@.remove(product_id);
                        assert(btree_contents(&store.records).dom() =~= store.model@.dom());
                    }
                    Some(p)
                },
                None => {
                    proof {
                        assert(false);
                    }
                    None
                },
            }
        },
    }
}

} // verus!
