//! The fingerprint that keeps a transaction from being imported twice.
use vstd::prelude::*;
use vstd::bytes::{spec_u64_to_le_bytes, u64_to_le_bytes};
use vstd::utf8::{encode_utf8, encode_utf8_decode_utf8};
use vstd::string::StringSliceAdditionalSpecFns;
use sha2::Digest;

verus! {

/// Lower-case hex rendering of the SHA-256 digest of `data`, as the `sha2` crate computes it.
pub uninterp spec fn sha256_hex_of(data: Seq<u8>) -> Seq<char>;

/// Relies on `sha2::Sha256::digest` and the lower-hex rendering of its output: the text
/// depends on the bytes alone.
#[verifier::external_body]
fn sha256_hex(data: &[u8]) -> (r: String)
    ensures
        r@ == sha256_hex_of(data@),
{
    format!("{:x}", sha2::Sha256::digest(data))
}

/// Eight little-endian bytes of a signed integer (two's complement).
pub open spec fn le_i64(v: i64) -> Seq<u8> {
    spec_u64_to_le_bytes(#[verifier::truncate] (v as u64))
}

/// The bytes that are digested: date, payee, amount and, when present, balance.
pub open spec fn hash_input(date: Seq<char>, payee: Seq<char>, amount: i64, balance: Option<i64>) -> Seq<u8> {
    encode_utf8(date) + encode_utf8(payee) + le_i64(amount) + match balance {
        Some(b) => le_i64(b),
        None => Seq::empty(),
    }
}

/// The import hash of a row with these fields.
pub open spec fn import_hash_of(date: Seq<char>, payee: Seq<char>, amount: i64, balance: Option<i64>) -> Seq<char> {
    sha256_hex_of(hash_input(date, payee, amount, balance))
}

fn append_bytes(out: &mut Vec<u8>, b: &[u8])
    ensures
        final(out)@ == old(out)@ + b@,
{
    let ghost start = out@;
    let mut i: usize = 0;
    while i < b.len()
        invariant
            i <= b@.len(),
            out@ == start + b@.subrange(0, i as int),
        decreases b@.len() - i,
    {
        out.push(b[i]);
        i = i + 1;
        assert(out@ =~= start + b@.subrange(0, i as int));
    }
    assert(b@.subrange(0, i as int) =~= b@);
}

/// The bytes that the import hash of a row digests.
pub fn import_hash_input(date: &str, payee: &str, amount: i64, balance: Option<i64>) -> (r: Vec<u8>)
    ensures
        r@ == hash_input(date@, payee@, amount, balance),
{
    let mut out: Vec<u8> = Vec::new();
    append_bytes(&mut out, date.as_bytes());
    append_bytes(&mut out, payee.as_bytes());
    let a = u64_to_le_bytes(amount as u64);
    append_bytes(&mut out, a.as_slice());
    if let Some(b) = balance {
        let bb = u64_to_le_bytes(b as u64);
        append_bytes(&mut out, bb.as_slice());
    }
    assert(out@ =~= hash_input(date@, payee@, amount, balance));
    out
}

/// Hex SHA-256 fingerprint of a row's date, payee, amount and balance.
pub fn generate_import_hash(date: &str, payee: &str, amount: i64, balance: Option<i64>) -> (r: String)
    ensures
        r@ == import_hash_of(date@, payee@, amount, balance),
{
    let data = import_hash_input(date, payee, amount, balance);
    sha256_hex(data.as_slice())
}

/// Hashing is deterministic: rows with the same date, payee, amount and balance get the
/// same import hash, whichever decoding or delimiter produced them.
pub proof fn lemma_import_hash_deterministic(
    date1: Seq<char>,
    payee1: Seq<char>,
    amount1: i64,
    balance1: Option<i64>,
    date2: Seq<char>,
    payee2: Seq<char>,
    amount2: i64,
    balance2: Option<i64>,
)
    requires
        date1 == date2,
        payee1 == payee2,
        amount1 == amount2,
        balance1 == balance2,
    ensures
        import_hash_of(date1, payee1, amount1, balance1) == import_hash_of(
            date2,
            payee2,
            amount2,
            balance2,
        ),
{
}

proof fn lemma_le_i64_injective(x: i64, y: i64)
    requires
        le_i64(x) == le_i64(y),
    ensures
        x == y,
{
    vstd::bytes::lemma_auto_spec_u64_to_from_le_bytes();
    let a = #[verifier::truncate] (x as u64);
    let b = #[verifier::truncate] (y as u64);
    assert(a == b);
    assert(#[verifier::truncate] (x as u64) == #[verifier::truncate] (y as u64) ==> x == y)
        by (bit_vector);
}

/// Distinct rows feed distinct bytes to the digest: when the two date texts, and the two
/// payee texts, have UTF-8 encodings of equal length, and both rows have a balance or both
/// lack one, equal digest inputs mean that all four fields agree.
pub proof fn lemma_hash_input_distinct(
    date1: Seq<char>,
    payee1: Seq<char>,
    amount1: i64,
    balance1: Option<i64>,
    date2: Seq<char>,
    payee2: Seq<char>,
    amount2: i64,
    balance2: Option<i64>,
)
    requires
        encode_utf8(date1).len() == encode_utf8(date2).len(),
        encode_utf8(payee1).len() == encode_utf8(payee2).len(),
        balance1 is Some == balance2 is Some,
        hash_input(date1, payee1, amount1, balance1) == hash_input(date2, payee2, amount2, balance2),
    ensures
        date1 == date2,
        payee1 == payee2,
        amount1 == amount2,
        balance1 == balance2,
{
    vstd::bytes::lemma_auto_spec_u64_to_from_le_bytes();
    let x = hash_input(date1, payee1, amount1, balance1);
    let e1 = encode_utf8(date1);
    let e2 = encode_utf8(date2);
    let q1 = encode_utf8(payee1);
    let q2 = encode_utf8(payee2);
    let n = e1.len() as int;
    let m = q1.len() as int;
    let t1 = match balance1 {
        Some(b) => le_i64(b),
        None => Seq::<u8>::empty(),
    };
    let t2 = match balance2 {
        Some(b) => le_i64(b),
        None => Seq::<u8>::empty(),
    };
    assert(x =~= e1 + q1 + le_i64(amount1) + t1);
    assert(x =~= e2 + q2 + le_i64(amount2) + t2);
    assert(x.subrange(0, n) =~= e1);
    assert(x.subrange(0, n) =~= e2);
    assert(x.subrange(n, n + m) =~= q1);
    assert(x.subrange(n, n + m) =~= q2);
    assert(x.subrange(n + m, n + m + 8) =~= le_i64(amount1));
    assert(x.subrange(n + m, n + m + 8) =~= le_i64(amount2));
    encode_utf8_decode_utf8(date1);
    encode_utf8_decode_utf8(date2);
    encode_utf8_decode_utf8(payee1);
    encode_utf8_decode_utf8(payee2);
    lemma_le_i64_injective(amount1, amount2);
    if balance1 is Some {
        let b1 = balance1->0;
        let b2 = balance2->0;
        assert(x.subrange(n + m + 8, n + m + 16) =~= le_i64(b1));
        assert(x.subrange(n + m + 8, n + m + 16) =~= le_i64(b2));
        lemma_le_i64_injective(b1, b2);
    }
}

} // verus!
