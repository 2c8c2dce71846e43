use vstd::prelude::*;
use vstd::utf8::{
    encode_utf8, encode_utf8_decode_utf8, encode_utf8_valid_utf8, is_ascii_chars,
    is_ascii_chars_encode_utf8, valid_utf8,
};

verus! {

/// The decimal digits of `n`, most significant first, as characters.
pub open spec fn spec_decimal(n: u64) -> Seq<char>
    decreases n,
{
    if n < 10 {
        seq![((48 + n) as u8) as char]
    } else {
        spec_decimal((n / 10) as u64).push(((48 + n % 10) as u8) as char)
    }
}

/// The decimal digits of `n`, most significant first, as ASCII bytes.
pub open spec fn spec_decimal_bytes(n: u64) -> Seq<u8>
    decreases n,
{
    if n < 10 {
        seq![(48 + n) as u8]
    } else {
        spec_decimal_bytes((n / 10) as u64).push((48 + n % 10) as u8)
    }
}

/// UTF-8 encoding distributes over concatenation of character sequences.
pub proof fn lemma_encode_utf8_concat(a: Seq<char>, b: Seq<char>)
    ensures
        encode_utf8(a + b) == encode_utf8(a) + encode_utf8(b),
    decreases a.len(),
{
    if a.len() == 0 {
        assert(a + b =~= b);
        assert(encode_utf8(a) + encode_utf8(b) =~= encode_utf8(b));
    } else {
        assert((a + b).drop_first() =~= a.drop_first() + b);
        assert((a + b)[0] == a[0]);
        lemma_encode_utf8_concat(a.drop_first(), b);
        assert(encode_utf8(a + b) =~= encode_utf8(a) + encode_utf8(b));
    }
}

/// The decimal digit characters of `n` are ASCII and encode to its digit bytes.
pub proof fn lemma_decimal_encode(n: u64)
    ensures
        is_ascii_chars(spec_decimal(n)),
        encode_utf8(spec_decimal(n)) == spec_decimal_bytes(n),
        spec_decimal(n).len() > 0,
    decreases n,
{
    if n < 10 {
        let c = ((48 + n) as u8) as char;
        assert(is_ascii_chars(spec_decimal(n)));
        is_ascii_chars_encode_utf8(spec_decimal(n));
        assert(encode_utf8(spec_decimal(n)) =~= spec_decimal_bytes(n));
    } else {
        lemma_decimal_encode((n / 10) as u64);
        let head = spec_decimal((n / 10) as u64);
        let c = ((48 + n % 10) as u8) as char;
        assert(spec_decimal(n) =~= head + seq![c]);
        assert(is_ascii_chars(seq![c]));
        vstd::utf8::is_ascii_chars_concat(spec_decimal(n), head, seq![c]);
        lemma_encode_utf8_concat(head, seq![c]);
        is_ascii_chars_encode_utf8(seq![c]);
        assert(encode_utf8(seq![c]) =~= seq![(48 + n % 10) as u8]);
        assert(encode_utf8(spec_decimal(n)) =~= spec_decimal_bytes(n));
    }
}

/// Appends the decimal digits of `n` to `out`.
fn push_decimal(n: u64, out: &mut Vec<u8>)
    ensures
        final(out)@ == old(out)@ + spec_decimal_bytes(n),
    decreases n,
{
    if n < 10 {
        out.push((48 + n) as u8);
        assert(out@ =~= old(out)@ + spec_decimal_bytes(n));
    } else {
        push_decimal(n / 10, out);
        out.push(48 + (n % 10) as u8);
        assert(out@ =~= old(out)@ + spec_decimal_bytes(n));
    }
}

/// Relies on `String::from_utf8`: it returns `Ok` exactly when the bytes are
/// valid UTF-8, and the returned string is the one whose UTF-8 bytes are the
/// input.
#[verifier::external_body]
pub(crate) fn string_from_utf8(bytes: Vec<u8>) -> (r: Option<String>)
    ensures
        r is Some <==> valid_utf8(bytes@),
        r matches Some(s) ==> encode_utf8(s@) == bytes@,
{
    String::from_utf8(bytes).ok()
}

/// Builds the string `prefix`, then the decimal digits of `id`, then `suffix`.
pub fn decimal_message(prefix: &str, id: u64, suffix: &str) -> (r: String)
    ensures
        r@ == prefix@ + spec_decimal(id) + suffix@,
{
    let ghost msg: Seq<char> = prefix@ + spec_decimal(id) + suffix@;
    let mut bytes: Vec<u8> = Vec::new();
    bytes.extend_from_slice(prefix.as_bytes());
    push_decimal(id, &mut bytes);
    bytes.extend_from_slice(suffix.as_bytes());
    proof {
        lemma_decimal_encode(id);
        lemma_encode_utf8_concat(prefix@, spec_decimal(id));
        lemma_encode_utf8_concat(prefix@ + spec_decimal(id), suffix@);
        assert((prefix@ + spec_decimal(id)) + suffix@ =~= msg);
        assert(bytes@ =~= encode_utf8(msg));
        encode_utf8_valid_utf8(msg);
    }
    let r = string_from_utf8(bytes);
    proof {
        encode_utf8_decode_utf8(msg);
        encode_utf8_decode_utf8(r.unwrap()@);
    }
    match r {
        Some(s) => s,
        None => {
            proof {
                assert(false);
            }
            String::new()
        },
    }
}

} // verus!
