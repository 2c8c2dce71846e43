use vstd::prelude::*;

use crate::service::{
    abs, create_step, delete_step, read_abs, update_step,
};
use crate::store::{inv, store_counter, StableStore};
use crate::transaction::TransactionV;

verus! {

/// Along a chain of counter values that each step raises by one, later values
/// exceed earlier ones by the number of steps between them.
proof fn lemma_counter_chain(cs: Seq<u64>, i: int, j: int)
    requires
        0 <= i <= j < cs.len(),
        forall|k: int| 0 <= k < cs.len() - 1 ==> cs[k + 1] == #[trigger] cs[k] + 1,
    ensures
        cs[j] == cs[i] + j - i,
    decreases j - i,
{
    if i < j {
        lemma_counter_chain(cs, i, j - 1);
    }
}

/// Law: across any sequence of creates, the returned identifiers are strictly
/// increasing, and so all distinct.
pub proof fn lemma_create_ids_strictly_increase(
    ms: Seq<Map<u64, TransactionV>>,
    cs: Seq<u64>,
    phones: Seq<Seq<char>>,
    amounts: Seq<u32>,
    nows: Seq<u64>,
    ts: Seq<TransactionV>,
)
    requires
        ms.len() == ts.len() + 1,
        cs.len() == ts.len() + 1,
        phones.len() == ts.len(),
        amounts.len() == ts.len(),
        nows.len() == ts.len(),
        forall|i: int| 0 <= i < ts.len() ==> create_step(
            ms[i],
            cs[i],
            phones[i],
            amounts[i],
            nows[i],
            ms[i + 1],
            cs[i + 1],
            ts[i],
        ),
    ensures
        forall|i: int, j: int| 0 <= i < j < ts.len() ==> ts[i].id < ts[j].id,
{
    assert forall|i: int, j: int| 0 <= i < j < ts.len() implies ts[i].id < ts[j].id by {
        assert(create_step(ms[i], cs[i], phones[i], amounts[i], nows[i], ms[i + 1], cs[i + 1], ts[i]));
        assert(create_step(ms[j], cs[j], phones[j], amounts[j], nows[j], ms[j + 1], cs[j + 1], ts[j]));
        assert forall|k: int| 0 <= k < cs.len() - 1 implies cs[k + 1] == #[trigger] cs[k] + 1 by {
            assert(create_step(ms[k], cs[k], phones[k], amounts[k], nows[k], ms[k + 1], cs[k + 1], ts[k]));
        }
        lemma_counter_chain(cs, i, j);
    }
}

/// Any one service operation, seen on the abstract state: a create, a status
/// update, a delete, or a read, which changes nothing.
pub open spec fn service_step(
    pre_m: Map<u64, TransactionV>,
    pre_c: u64,
    post_m: Map<u64, TransactionV>,
    post_c: u64,
) -> bool {
    ||| exists|phone: Seq<char>, amount: u32, now: u64, t: TransactionV|
        create_step(pre_m, pre_c, phone, amount, now, post_m, post_c, t)
    ||| (post_c == pre_c && exists|id: u64, status: Seq<char>, r: Option<TransactionV>|
        update_step(pre_m, id, status, post_m, r))
    ||| (post_c == pre_c && exists|id: u64, r: Option<TransactionV>|
        delete_step(pre_m, id, post_m, r))
    ||| (post_c == pre_c && post_m == pre_m)
}

/// No service operation lowers the counter.
pub proof fn lemma_step_counter_monotone(
    pre_m: Map<u64, TransactionV>,
    pre_c: u64,
    post_m: Map<u64, TransactionV>,
    post_c: u64,
)
    requires
        service_step(pre_m, pre_c, post_m, post_c),
    ensures
        post_c >= pre_c,
{
}

/// Along any run of service operations, the counter never falls.
proof fn lemma_counter_monotone_chain(ms: Seq<Map<u64, TransactionV>>, cs: Seq<u64>, a: int, b: int)
    requires
        ms.len() == cs.len(),
        forall|k: int| 0 <= k < cs.len() - 1 ==> service_step(
            ms[k],
            #[trigger] cs[k],
            ms[k + 1],
            cs[k + 1],
        ),
        0 <= a <= b < cs.len(),
    ensures
        cs[b] >= cs[a],
    decreases b - a,
{
    if a < b {
        lemma_counter_monotone_chain(ms, cs, a, b - 1);
        lemma_step_counter_monotone(ms[b - 1], cs[b - 1], ms[b], cs[b]);
    }
}

/// Law: across any run of service operations, an identifier returned by an
/// earlier create is strictly below one returned by a later create: no
/// identifier is ever reissued, not even after its record is deleted.
pub proof fn lemma_ids_never_reused(
    ms: Seq<Map<u64, TransactionV>>,
    cs: Seq<u64>,
    i: int,
    j: int,
    phone1: Seq<char>,
    amount1: u32,
    now1: u64,
    t1: TransactionV,
    phone2: Seq<char>,
    amount2: u32,
    now2: u64,
    t2: TransactionV,
)
    requires
        ms.len() == cs.len(),
        forall|k: int| 0 <= k < cs.len() - 1 ==> service_step(
            ms[k],
            #[trigger] cs[k],
            ms[k + 1],
            cs[k + 1],
        ),
        0 <= i,
        i + 1 <= j,
        j + 1 < cs.len(),
        create_step(ms[i], cs[i], phone1, amount1, now1, ms[i + 1], cs[i + 1], t1),
        create_step(ms[j], cs[j], phone2, amount2, now2, ms[j + 1], cs[j + 1], t2),
    ensures
        t1.id < t2.id,
{
    lemma_counter_monotone_chain(ms, cs, i + 1, j);
}

/// Law: a create followed at once by a read of the new identifier returns the
/// very record the create returned.
pub proof fn lemma_create_then_read(
    pre: Map<u64, TransactionV>,
    pre_c: u64,
    phone: Seq<char>,
    amount: u32,
    now: u64,
    post: Map<u64, TransactionV>,
    post_c: u64,
    t: TransactionV,
)
    requires
        create_step(pre, pre_c, phone, amount, now, post, post_c, t),
    ensures
        read_abs(post, t.id) == Some(t),
{
}

/// Every stored identifier lies below the counter: it was issued earlier.
pub open spec fn ids_below(m: Map<u64, TransactionV>, c: u64) -> bool {
    forall|k: u64| #[trigger] m.dom().contains(k) ==> k < c
}

/// The store's invariant keeps every stored identifier below the counter.
pub proof fn lemma_inv_ids_below(s: StableStore)
    requires
        inv(s),
    ensures
        ids_below(abs(s), store_counter(s)),
{
}

/// Law: reading an identifier the counter has never issued returns nothing.
pub proof fn lemma_read_unissued(m: Map<u64, TransactionV>, c: u64, id: u64)
    requires
        ids_below(m, c),
        id >= c,
    ensures
        read_abs(m, id) is None,
{
}

/// Law: a status update rewrites only the status field of the addressed
/// record; every other field, and every other record, is unchanged.
pub proof fn lemma_update_changes_only_status(
    pre: Map<u64, TransactionV>,
    id: u64,
    status: Seq<char>,
    post: Map<u64, TransactionV>,
    t: TransactionV,
)
    requires
        update_step(pre, id, status, post, Some(t)),
    ensures
        t.id == pre[id].id,
        t.phone_number == pre[id].phone_number,
        t.amount == pre[id].amount,
        t.created_at == pre[id].created_at,
        t.status == status,
        post.dom() == pre.dom(),
        forall|k: u64| #[trigger] pre.dom().contains(k) && k != id ==> post[k] == pre[k],
{
    assert(post.dom() =~= pre.dom());
}

/// Law: after a delete of an identifier, a read of it returns nothing.
pub proof fn lemma_delete_then_read(
    pre: Map<u64, TransactionV>,
    id: u64,
    post: Map<u64, TransactionV>,
    r: Option<TransactionV>,
)
    requires
        delete_step(pre, id, post, r),
    ensures
        read_abs(post, id) is None,
{
}

/// Law: a delete of an absent identifier reports nothing removed and leaves
/// the store exactly as it was.
pub proof fn lemma_delete_absent(
    pre: Map<u64, TransactionV>,
    id: u64,
    post: Map<u64, TransactionV>,
    r: Option<TransactionV>,
)
    requires
        delete_step(pre, id, post, r),
        !pre.dom().contains(id),
    ensures
        r is None,
        post == pre,
{
}

} // verus!
