use vstd::prelude::*;
use vstd::bytes::{
    lemma_auto_spec_u32_to_from_le_bytes, lemma_auto_spec_u64_to_from_le_bytes,
    spec_u32_to_le_bytes, spec_u64_to_le_bytes, u32_from_le_bytes, u32_to_le_bytes,
    u64_from_le_bytes, u64_to_le_bytes,
};
use vstd::slice::{slice_subrange, slice_to_vec};
use vstd::utf8::{encode_utf8, encode_utf8_decode_utf8, encode_utf8_valid_utf8};

use crate::text::string_from_utf8;
use crate::transaction::{Transaction, TransactionV};

verus! {

/// Every record must encode into this many bytes or fewer: the fixed size of
/// one slot of the durable map.
pub const MAX_ENCODED_LEN: usize = 512;

/// The UTF-8 bytes of the record's phone number.
pub open spec fn phone_bytes(t: TransactionV) -> Seq<u8> {
    encode_utf8(t.phone_number)
}

/// The UTF-8 bytes of the record's status.
pub open spec fn status_bytes(t: TransactionV) -> Seq<u8> {
    encode_utf8(t.status)
}

/// Both string fields fit their 32-bit length prefix.
pub open spec fn wf_v(t: TransactionV) -> bool {
    &&& phone_bytes(t).len() <= u32::MAX
    &&& status_bytes(t).len() <= u32::MAX
}

/// The record's encoding fits the fixed 512-byte slot.
pub open spec fn fits(t: TransactionV) -> bool {
    28 + phone_bytes(t).len() + status_bytes(t).len() <= MAX_ENCODED_LEN
}

/// The reversible encoding of a record: the three numeric fields in
/// little-endian order, then each string as a 32-bit byte length followed by
/// its UTF-8 bytes.
pub open spec fn spec_encode(t: TransactionV) -> Seq<u8> {
    spec_u64_to_le_bytes(t.id) + spec_u32_to_le_bytes(t.amount) + spec_u64_to_le_bytes(
        t.created_at,
    ) + spec_u32_to_le_bytes(phone_bytes(t).len() as u32) + phone_bytes(t) + spec_u32_to_le_bytes(
        status_bytes(t).len() as u32,
    ) + status_bytes(t)
}

/// The bytes are the encoding of some record.
pub open spec fn is_encoding(b: Seq<u8>) -> bool {
    exists|t: TransactionV| wf_v(t) && b == spec_encode(t)
}

/// Where each field sits inside an encoding.
pub proof fn lemma_encode_parts(t: TransactionV)
    requires
        wf_v(t),
    ensures
        spec_encode(t).len() == 28 + phone_bytes(t).len() + status_bytes(t).len(),
        spec_encode(t).subrange(0, 8) == spec_u64_to_le_bytes(t.id),
        spec_encode(t).subrange(8, 12) == spec_u32_to_le_bytes(t.amount),
        spec_encode(t).subrange(12, 20) == spec_u64_to_le_bytes(t.created_at),
        spec_encode(t).subrange(20, 24) == spec_u32_to_le_bytes(phone_bytes(t).len() as u32),
        spec_encode(t).subrange(24, 24 + phone_bytes(t).len() as int) == phone_bytes(t),
        spec_encode(t).subrange(
            24 + phone_bytes(t).len() as int,
            28 + phone_bytes(t).len() as int,
        ) == spec_u32_to_le_bytes(status_bytes(t).len() as u32),
        spec_encode(t).subrange(
            28 + phone_bytes(t).len() as int,
            spec_encode(t).len() as int,
        ) == status_bytes(t),
{
    lemma_auto_spec_u64_to_from_le_bytes();
    lemma_auto_spec_u32_to_from_le_bytes();
    let pl = phone_bytes(t).len() as int;
    let e = spec_encode(t);
    assert(e.subrange(0, 8) =~= spec_u64_to_le_bytes(t.id));
    assert(e.subrange(8, 12) =~= spec_u32_to_le_bytes(t.amount));
    assert(e.subrange(12, 20) =~= spec_u64_to_le_bytes(t.created_at));
    assert(e.subrange(20, 24) =~= spec_u32_to_le_bytes(phone_bytes(t).len() as u32));
    assert(e.subrange(24, 24 + pl) =~= phone_bytes(t));
    assert(e.subrange(24 + pl, 28 + pl) =~= spec_u32_to_le_bytes(status_bytes(t).len() as u32));
    assert(e.subrange(28 + pl, e.len() as int) =~= status_bytes(t));
}

/// The encoding is reversible: no two records share an encoding.
pub proof fn lemma_encode_injective(a: TransactionV, b: TransactionV)
    requires
        wf_v(a),
        wf_v(b),
        spec_encode(a) == spec_encode(b),
    ensures
        a == b,
{
    lemma_auto_spec_u64_to_from_le_bytes();
    lemma_auto_spec_u32_to_from_le_bytes();
    lemma_encode_parts(a);
    lemma_encode_parts(b);
    assert(phone_bytes(a).len() == phone_bytes(b).len()) by {
        assert(spec_encode(a).subrange(20, 24) == spec_encode(b).subrange(20, 24));
    }
    assert(phone_bytes(a) == phone_bytes(b));
    assert(status_bytes(a) == status_bytes(b));
    encode_utf8_decode_utf8(a.phone_number);
    encode_utf8_decode_utf8(b.phone_number);
    encode_utf8_decode_utf8(a.status);
    encode_utf8_decode_utf8(b.status);
    assert(a =~= b);
}

/// Encodes a record, or reports that it exceeds the fixed slot size.
pub fn encode_transaction(t: &Transaction) -> (r: Option<Vec<u8>>)
    ensures
        r is Some <==> fits(t@),
        r matches Some(b) ==> b@ == spec_encode(t@) && b@.len() <= MAX_ENCODED_LEN && wf_v(t@),
{
    let pb: &[u8] = t.phone_number.as_str().as_bytes();
    let sb: &[u8] = t.status.as_str().as_bytes();
    if pb.len() > 484 || sb.len() > 484 - pb.len() {
        return None;
    }
    let mut out: Vec<u8> = Vec::new();
    let mut idb = u64_to_le_bytes(t.id);
    out.append(&mut idb);
    let mut ab = u32_to_le_bytes(t.amount);
    out.append(&mut ab);
    let mut cb = u64_to_le_bytes(t.created_at);
    out.append(&mut cb);
    let mut plb = u32_to_le_bytes(pb.len() as u32);
    out.append(&mut plb);
    out.extend_from_slice(pb);
    let mut slb = u32_to_le_bytes(sb.len() as u32);
    out.append(&mut slb);
    out.extend_from_slice(sb);
    proof {
        assert(out@ =~= spec_encode(t@));
    }
    Some(out)
}

/// Decodes a record from bytes: succeeds exactly on the encodings that
/// `spec_encode` describes, and returns the one record encoded there.
pub fn decode_transaction(b: &[u8]) -> (r: Option<Transaction>)
    ensures
        r is Some <==> is_encoding(b@),
        r matches Some(t) ==> wf_v(t@) && b@ == spec_encode(t@),
{
    proof {
        lemma_auto_spec_u64_to_from_le_bytes();
        lemma_auto_spec_u32_to_from_le_bytes();
    }
    let n = b.len();
    if n < 28 {
        proof {
            assert(!is_encoding(b@)) by {
                if is_encoding(b@) {
                    let t = choose|t: TransactionV| wf_v(t) && b@ == spec_encode(t);
                    lemma_encode_parts(t);
                }
            }
        }
        return None;
    }
    let id = u64_from_le_bytes(slice_subrange(b, 0, 8));
    let amount = u32_from_le_bytes(slice_subrange(b, 8, 12));
    let created_at = u64_from_le_bytes(slice_subrange(b, 12, 20));
    let plen = u32_from_le_bytes(slice_subrange(b, 20, 24)) as usize;
    if plen > n - 28 {
        proof {
            assert(!is_encoding(b@)) by {
                if is_encoding(b@) {
                    let t = choose|t: TransactionV| wf_v(t) && b@ == spec_encode(t);
                    lemma_encode_parts(t);
                    assert(b@.subrange(20, 24) == spec_u32_to_le_bytes(
                        phone_bytes(t).len() as u32,
                    ));
                }
            }
        }
        return None;
    }
    let phone_b = slice_to_vec(slice_subrange(b, 24, 24 + plen));
    let slen = u32_from_le_bytes(slice_subrange(b, 24 + plen, 28 + plen)) as usize;
    if slen != n - 28 - plen {
        proof {
            assert(!is_encoding(b@)) by {
                if is_encoding(b@) {
                    let t = choose|t: TransactionV| wf_v(t) && b@ == spec_encode(t);
                    lemma_encode_parts(t);
                    assert(b@.subrange(20, 24) == spec_u32_to_le_bytes(
                        phone_bytes(t).len() as u32,
                    ));
                    assert(b@.subrange(24 + plen as int, 28 + plen as int)
                        == spec_u32_to_le_bytes(status_bytes(t).len() as u32));
                }
            }
        }
        return None;
    }
    let status_b = slice_to_vec(slice_subrange(b, 28 + plen, n));
    let ghost gplen = plen as int;
    let phone = match string_from_utf8(phone_b) {
        Some(s) => s,
        None => {
            proof {
                assert(!is_encoding(b@)) by {
                    if is_encoding(b@) {
                        let t = choose|t: TransactionV| wf_v(t) && b@ == spec_encode(t);
                        lemma_encode_parts(t);
                        assert(b@.subrange(20, 24) == spec_u32_to_le_bytes(
                            phone_bytes(t).len() as u32,
                        ));
                        assert(b@.subrange(24, 24 + gplen) == phone_bytes(t));
                        encode_utf8_valid_utf8(t.phone_number);
                    }
                }
            }
            return None;
        },
    };
    let status = match string_from_utf8(status_b) {
        Some(s) => s,
        None => {
            proof {
                assert(!is_encoding(b@)) by {
                    if is_encoding(b@) {
                        let t = choose|t: TransactionV| wf_v(t) && b@ == spec_encode(t);
                        lemma_encode_parts(t);
                        assert(b@.subrange(20, 24) == spec_u32_to_le_bytes(
                            phone_bytes(t).len() as u32,
                        ));
                        assert(b@.subrange(28 + gplen, b@.len() as int) == status_bytes(t));
                        encode_utf8_valid_utf8(t.status);
                    }
                }
            }
            return None;
        },
    };
    let t = Transaction { id, phone_number: phone, amount, created_at, status };
    proof {
        assert(phone_bytes(t@) == b@.subrange(24, 24 + gplen));
        assert(status_bytes(t@) == b@.subrange(28 + gplen, b@.len() as int));
        assert(wf_v(t@));
        assert(b@ =~= spec_encode(t@));
        assert(is_encoding(b@));
    }
    Some(t)
}

} // verus!
