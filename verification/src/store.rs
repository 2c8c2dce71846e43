use vstd::prelude::*;

use ic_stable_structures::memory_manager::{MemoryId, MemoryManager, VirtualMemory};
use ic_stable_structures::{Cell, DefaultMemoryImpl, StableBTreeMap};

use crate::codec::{fits, spec_encode, wf_v};
use crate::transaction::TransactionV;

verus! {

/// The durable backing of the service: a persistent identifier counter and a
/// persistent map from identifier to encoded record, each in its own region
/// of one stable memory.
///
/// The inner types come from `ic_stable_structures`; their memory parameter is
/// an alias over types Verus cannot read, so the whole struct is opaque and
/// everything known of it is said through `store_entries` and `store_counter`.
#[verifier::external_body]
pub struct StableStore {
    counter: Cell<u64, VirtualMemory<DefaultMemoryImpl>>,
    records: StableBTreeMap<u64, Vec<u8>, VirtualMemory<DefaultMemoryImpl>>,
}

/// What the record map holds: each stored key and its bytes.
pub uninterp spec fn store_entries(s: StableStore) -> Map<u64, Seq<u8>>;

/// What the identifier counter holds.
pub uninterp spec fn store_counter(s: StableStore) -> u64;

/// The bytes encode a well-formed record carrying the given identifier, and
/// fit the fixed slot.
pub open spec fn is_record(b: Seq<u8>, id: u64) -> bool {
    exists|t: TransactionV| wf_v(t) && fits(t) && t.id == id && b == spec_encode(t)
}

/// The store's invariant: every stored entry is the bounded encoding of a
/// record keyed by its own identifier, and every stored identifier was issued,
/// that is, lies below the counter.
pub open spec fn inv(s: StableStore) -> bool {
    forall|id: u64| #[trigger]
        store_entries(s).dom().contains(id) ==> is_record(store_entries(s)[id], id)
            && id < store_counter(s)
}

/// Opens the store over the default memory: the canister's stable memory on
/// the IC, a fresh heap-backed memory elsewhere.  Relies on
/// `MemoryManager::init`, `Cell::init` and `StableBTreeMap::init` of
/// `ic_stable_structures`: each checks a magic number in its region and
/// continues from what an earlier run of the same structure persisted there,
/// or begins with a counter of 0 and an empty map where the region holds
/// nothing yet.  Of the contents only the store invariant is claimed: it
/// holds of an empty region, every operation of this library preserves it,
/// and so it holds of any memory that only this library has written.
#[verifier::external_body]
pub fn store_init() -> (r: StableStore)
    ensures
        inv(r),
{
    let mm = MemoryManager::init(DefaultMemoryImpl::default());
    StableStore {
        counter: Cell::init(mm.get(MemoryId::new(0)), 0),
        records: StableBTreeMap::init(mm.get(MemoryId::new(1))),
    }
}

/// Relies on `StableBTreeMap::get`: returns a copy of the value stored at the
/// key, or nothing when the key is absent; the map is unchanged.
#[verifier::external_body]
pub(crate) fn map_get(s: &StableStore, id: u64) -> (r: Option<Vec<u8>>)
    ensures
        match r {
            Some(v) => store_entries(*s).dom().contains(id) && v@ == store_entries(*s)[id],
            None => !store_entries(*s).dom().contains(id),
        },
{
    s.records.get(&id)
}

/// Relies on `StableBTreeMap::insert`: stores the value at the key and returns
/// the value previously there; no other key changes.  A failure of the
/// underlying memory is fatal, as the store's persistence contract demands.
#[verifier::external_body]
pub(crate) fn map_insert(s: &mut StableStore, id: u64, v: Vec<u8>) -> (prev: Option<Vec<u8>>)
    ensures
        store_entries(*final(s)) == store_entries(*old(s)).insert(id, v@),
        store_counter(*final(s)) == store_counter(*old(s)),
        match prev {
            Some(p) => store_entries(*old(s)).dom().contains(id) && p@ == store_entries(*old(s))[id],
            None => !store_entries(*old(s)).dom().contains(id),
        },
{
    s.records.insert(id, v)
}

/// Relies on `StableBTreeMap::remove`: deletes the key and returns what was
/// stored there, or nothing when the key is absent; no other key changes.
#[verifier::external_body]
pub(crate) fn map_remove(s: &mut StableStore, id: u64) -> (r: Option<Vec<u8>>)
    ensures
        store_entries(*final(s)) == store_entries(*old(s)).remove(id),
        store_counter(*final(s)) == store_counter(*old(s)),
        match r {
            Some(v) => store_entries(*old(s)).dom().contains(id) && v@ == store_entries(*old(s))[id],
            None => !store_entries(*old(s)).dom().contains(id),
        },
{
    s.records.remove(&id)
}

/// Relies on `Cell::get`: returns the value the counter cell holds.
#[verifier::external_body]
pub(crate) fn counter_get(s: &StableStore) -> (r: u64)
    ensures
        r == store_counter(*s),
{
    *s.counter.get()
}

/// Relies on `Cell::set`: persists the new counter value; the record map is
/// untouched.  A failure of the underlying memory is fatal, as the store's
/// persistence contract demands.
#[verifier::external_body]
pub(crate) fn counter_set(s: &mut StableStore, v: u64)
    ensures
        store_counter(*final(s)) == v,
        store_entries(*final(s)) == store_entries(*old(s)),
{
    s.counter.set(v);
}

/// The number of identifiers issued so far, which is also the next
/// identifier to be issued.
pub fn issued_count(s: &StableStore) -> (r: u64)
    ensures
        r == store_counter(*s),
{
    counter_get(s)
}

/// Mints the next identifier: returns the current counter value and persists
/// its successor, so no two calls ever return the same identifier.
pub fn next_id(s: &mut StableStore) -> (id: u64)
    requires
        store_counter(*old(s)) < u64::MAX,
    ensures
        id == store_counter(*old(s)),
        store_counter(*final(s)) == store_counter(*old(s)) + 1,
        store_entries(*final(s)) == store_entries(*old(s)),
{
    let id = counter_get(s);
    counter_set(s, id + 1);
    id
}

} // verus!
