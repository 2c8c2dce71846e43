use vstd::prelude::*;

use crate::codec::{
    decode_transaction, encode_transaction, fits, lemma_encode_injective, spec_encode, wf_v,
};
use crate::store::{
    inv, is_record, map_get, map_insert, map_remove, next_id, store_counter, store_entries,
    StableStore,
};
use crate::text::{decimal_message, spec_decimal};
use crate::transaction::{Error, Transaction, TransactionPayload, TransactionV};

verus! {

/// The record encoded in the bytes, where the bytes are an encoding.
pub open spec fn record_of(b: Seq<u8>) -> TransactionV {
    choose|t: TransactionV| wf_v(t) && b == spec_encode(t)
}

/// The abstract content of the store: each stored identifier mapped to the
/// record its bytes encode.
pub open spec fn abs(s: StableStore) -> Map<u64, TransactionV> {
    Map::new(
        |id: u64| store_entries(s).dom().contains(id),
        |id: u64| record_of(store_entries(s)[id]),
    )
}

/// A record that fits the slot has string fields that fit their prefixes.
pub proof fn lemma_fits_wf(t: TransactionV)
    requires
        fits(t),
    ensures
        wf_v(t),
{
}

/// Reading back an encoding yields the record that was encoded.
pub proof fn lemma_record_of_encode(t: TransactionV)
    requires
        wf_v(t),
    ensures
        record_of(spec_encode(t)) == t,
{
    assert(wf_v(t) && spec_encode(t) == spec_encode(t));
    let t2 = record_of(spec_encode(t));
    assert(wf_v(t2) && spec_encode(t) == spec_encode(t2));
    lemma_encode_injective(t2, t);
}

/// What the abstract map holds at a stored identifier.
pub proof fn lemma_abs_at(s: StableStore, id: u64)
    requires
        inv(s),
        store_entries(s).dom().contains(id),
    ensures
        abs(s).dom().contains(id),
        abs(s)[id] == record_of(store_entries(s)[id]),
        wf_v(abs(s)[id]),
        fits(abs(s)[id]),
        abs(s)[id].id == id,
        store_entries(s)[id] == spec_encode(abs(s)[id]),
{
    assert(is_record(store_entries(s)[id], id));
    let t0 = choose|t: TransactionV|
        wf_v(t) && fits(t) && t.id == id && store_entries(s)[id] == spec_encode(t);
    lemma_record_of_encode(t0);
}

/// The record a create builds: the given fields, with status `"Pending"`.
pub open spec fn created_tx(id: u64, phone: Seq<char>, amount: u32, now: u64) -> TransactionV {
    TransactionV { id, phone_number: phone, amount, created_at: now, status: "Pending"@ }
}

/// The given record with its status replaced and every other field kept.
pub open spec fn updated_tx(t: TransactionV, status: Seq<char>) -> TransactionV {
    TransactionV {
        id: t.id,
        phone_number: t.phone_number,
        amount: t.amount,
        created_at: t.created_at,
        status,
    }
}

/// What a lookup returns on the abstract map.
pub open spec fn read_abs(m: Map<u64, TransactionV>, id: u64) -> Option<TransactionV> {
    if m.dom().contains(id) {
        Some(m[id])
    } else {
        None
    }
}

/// How a create changes the abstract state: it returns the record built from
/// the counter and the inputs, stores it under the new identifier, and
/// advances the counter by one.
pub open spec fn create_step(
    pre: Map<u64, TransactionV>,
    pre_c: u64,
    phone: Seq<char>,
    amount: u32,
    now: u64,
    post: Map<u64, TransactionV>,
    post_c: u64,
    t: TransactionV,
) -> bool {
    &&& t == created_tx(pre_c, phone, amount, now)
    &&& post == pre.insert(pre_c, t)
    &&& post_c == pre_c + 1
}

/// How a status update changes the abstract state: on a stored identifier it
/// replaces only the status and returns the updated record; on an absent one
/// it changes nothing and returns nothing.
pub open spec fn update_step(
    pre: Map<u64, TransactionV>,
    id: u64,
    status: Seq<char>,
    post: Map<u64, TransactionV>,
    r: Option<TransactionV>,
) -> bool {
    if pre.dom().contains(id) {
        &&& r == Some(updated_tx(pre[id], status))
        &&& post == pre.insert(id, updated_tx(pre[id], status))
    } else {
        &&& r is None
        &&& post == pre
    }
}

/// How a delete changes the abstract state: on a stored identifier it removes
/// and returns the record; on an absent one it changes nothing and returns
/// nothing.
pub open spec fn delete_step(
    pre: Map<u64, TransactionV>,
    id: u64,
    post: Map<u64, TransactionV>,
    r: Option<TransactionV>,
) -> bool {
    if pre.dom().contains(id) {
        &&& r == Some(pre[id])
        &&& post == pre.remove(id)
    } else {
        &&& r is None
        &&& post == pre
    }
}

/// The message a failed read carries.
pub open spec fn read_missing_msg(id: u64) -> Seq<char> {
    "Transaction with id="@ + spec_decimal(id) + " not found"@
}

/// The message a failed status update carries.
pub open spec fn update_missing_msg(id: u64) -> Seq<char> {
    "Cannot update transaction with id="@ + spec_decimal(id) + ". Not found."@
}

/// The message a failed delete carries.
pub open spec fn delete_missing_msg(id: u64) -> Seq<char> {
    "Cannot delete transaction with id="@ + spec_decimal(id) + ". Not found."@
}

/// Stores the record under its own identifier, overwriting any previous
/// record there.  The identifier must have been issued already, so that every
/// stored key stays below the counter.
pub fn do_insert(s: &mut StableStore, t: &Transaction)
    requires
        inv(*old(s)),
        fits(t@),
        t@.id < store_counter(*old(s)),
    ensures
        inv(*final(s)),
        store_counter(*final(s)) == store_counter(*old(s)),
        store_entries(*final(s)) == store_entries(*old(s)).insert(t@.id, spec_encode(t@)),
        abs(*final(s)) == abs(*old(s)).insert(t@.id, t@),
{
    proof {
        lemma_fits_wf(t@);
    }
    let b = match encode_transaction(t) {
        Some(b) => b,
        None => {
            proof {
                assert(false);
            }
            Vec::new()
        },
    };
    map_insert(s, t.id, b);
    proof {
        lemma_record_of_encode(t@);
        assert forall|k: u64| #[trigger]
            store_entries(*s).dom().contains(k) implies is_record(store_entries(*s)[k], k) && k
            < store_counter(*s) by {
            if k == t@.id {
                assert(wf_v(t@) && fits(t@) && t@.id == k && store_entries(*s)[k] == spec_encode(
                    t@,
                ));
            } else {
                assert(store_entries(*old(s)).dom().contains(k));
            }
        }
        assert(abs(*s) =~= abs(*old(s)).insert(t@.id, t@));
    }
}

/// Looks a record up by identifier, returning a copy or nothing.
pub fn _get_transaction(s: &StableStore, id: &u64) -> (r: Option<Transaction>)
    requires
        inv(*s),
    ensures
        match r {
            Some(t) => read_abs(abs(*s), *id) == Some(t@) && t@.id == *id,
            None => read_abs(abs(*s), *id) is None,
        },
{
    match map_get(s, *id) {
        Some(b) => {
            proof {
                lemma_abs_at(*s, *id);
                let tv = abs(*s)[*id];
                assert(wf_v(tv) && b@ == spec_encode(tv));
            }
            match decode_transaction(b.as_slice()) {
                Some(t) => {
                    proof {
                        lemma_record_of_encode(t@);
                    }
                    Some(t)
                },
                None => {
                    proof {
                        assert(false);
                    }
                    None
                },
            }
        },
        None => None,
    }
}

/// Mints a fresh identifier, builds the record with status `"Pending"` and
/// the given creation time, persists it, and returns it.  Always succeeds.
pub fn create_transaction(s: &mut StableStore, payload: TransactionPayload, now: u64) -> (r:
    Option<Transaction>)
    requires
        inv(*old(s)),
        store_counter(*old(s)) < u64::MAX,
        fits(created_tx(store_counter(*old(s)), payload.phone_number@, payload.amount, now)),
    ensures
        inv(*final(s)),
        r is Some,
        create_step(
            abs(*old(s)),
            store_counter(*old(s)),
            payload.phone_number@,
            payload.amount,
            now,
            abs(*final(s)),
            store_counter(*final(s)),
            r.unwrap()@,
        ),
        store_entries(*final(s)) == store_entries(*old(s)).insert(
            store_counter(*old(s)),
            spec_encode(r.unwrap()@),
        ),
{
    let id = next_id(s);
    let t = Transaction {
        id,
        phone_number: payload.phone_number,
        amount: payload.amount,
        created_at: now,
        status: "Pending".to_owned(),
    };
    proof {
        assert(t@ =~= created_tx(id, payload.phone_number@, payload.amount, now));
    }
    do_insert(s, &t);
    Some(t)
}

/// Looks a record up by identifier; a missing identifier is reported as
/// `NotFound` with a message naming it.
pub fn get_transaction(s: &StableStore, id: u64) -> (r: Result<Transaction, Error>)
    requires
        inv(*s),
    ensures
        match r {
            Ok(t) => read_abs(abs(*s), id) == Some(t@) && t@.id == id,
            Err(e) => read_abs(abs(*s), id) is None && e@ == read_missing_msg(id),
        },
{
    match _get_transaction(s, &id) {
        Some(t) => Ok(t),
        None => Err(
            Error::NotFound { msg: decimal_message("Transaction with id=", id, " not found") },
        ),
    }
}

/// Replaces the status of the record stored under the identifier, leaving its
/// other fields as they were, and returns the updated record; a missing
/// identifier is reported as `NotFound` and changes nothing.
pub fn update_transaction_status(s: &mut StableStore, id: u64, status: String) -> (r: Result<
    Transaction,
    Error,
>)
    requires
        inv(*old(s)),
        read_abs(abs(*old(s)), id) matches Some(t) ==> fits(updated_tx(t, status@)),
    ensures
        inv(*final(s)),
        store_counter(*final(s)) == store_counter(*old(s)),
        update_step(
            abs(*old(s)),
            id,
            status@,
            abs(*final(s)),
            match r { Ok(t) => Some(t@), Err(_) => None },
        ),
        r matches Ok(t) ==> t@.id == id,
        r matches Err(e) ==> e@ == update_missing_msg(id) && store_entries(*final(s))
            == store_entries(*old(s)),
{
    match _get_transaction(s, &id) {
        Some(t0) => {
            proof {
                lemma_abs_at(*old(s), id);
            }
            let t = Transaction {
                id: t0.id,
                phone_number: t0.phone_number,
                amount: t0.amount,
                created_at: t0.created_at,
                status,
            };
            proof {
                assert(t@ =~= updated_tx(abs(*old(s))[id], status@));
            }
            do_insert(s, &t);
            Ok(t)
        },
        None => Err(
            Error::NotFound {
                msg: decimal_message("Cannot update transaction with id=", id, ". Not found."),
            },
        ),
    }
}

/// Removes the record stored under the identifier and returns it; a missing
/// identifier is reported as `NotFound` and changes nothing.
pub fn delete_transaction(s: &mut StableStore, id: u64) -> (r: Result<Transaction, Error>)
    requires
        inv(*old(s)),
    ensures
        inv(*final(s)),
        store_counter(*final(s)) == store_counter(*old(s)),
        delete_step(
            abs(*old(s)),
            id,
            abs(*final(s)),
            match r { Ok(t) => Some(t@), Err(_) => None },
        ),
        r matches Ok(t) ==> t@.id == id && store_entries(*final(s)) == store_entries(
            *old(s),
        ).remove(id),
        r matches Err(e) ==> e@ == delete_missing_msg(id) && store_entries(*final(s))
            == store_entries(*old(s)),
{
    match map_remove(s, id) {
        Some(b) => {
            proof {
                lemma_abs_at(*old(s), id);
                let tv = abs(*old(s))[id];
                assert(wf_v(tv) && b@ == spec_encode(tv));
            }
            match decode_transaction(b.as_slice()) {
                Some(t) => {
                    proof {
                        lemma_encode_injective(t@, abs(*old(s))[id]);
                        assert forall|k: u64| #[trigger]
                            store_entries(*s).dom().contains(k) implies is_record(
                            store_entries(*s)[k],
                            k,
                        ) && k < store_counter(*s) by {
                            assert(store_entries(*old(s)).dom().contains(k));
                        }
                        assert(abs(*s) =~= abs(*old(s)).remove(id));
                    }
                    Ok(t)
                },
                None => {
                    proof {
                        assert(false);
                    }
                    Err(Error::NotFound { msg: String::new() })
                },
            }
        },
        None => {
            proof {
                assert(abs(*s) =~= abs(*old(s)));
            }
            Err(
                Error::NotFound {
                    msg: decimal_message("Cannot delete transaction with id=", id, ". Not found."),
                },
            )
        },
    }
}

} // verus!
