//! Order-preserving (memcomparable) encoding of nullable 64-bit values and
//! of 32-bit column indices.

use vstd::prelude::*;
use crate::keyspace::be32;

verus! {

/// A nullable value of a column.
pub type Datum = Option<i64>;

/// Big-endian bytes of a 64-bit value.
pub open spec fn be64(n: u64) -> Seq<u8> {
    be32((n / 4294967296) as u32) + be32((n % 4294967296) as u32)
}

/// The value of four big-endian bytes.
pub open spec fn from_be32(s: Seq<u8>) -> int {
    s[0] * 16777216 + s[1] * 65536 + s[2] * 256 + s[3]
}

/// The value of eight big-endian bytes.
pub open spec fn from_be64(s: Seq<u8>) -> int {
    from_be32(s.subrange(0, 4)) * 4294967296 + from_be32(s.subrange(4, 8))
}

/// A signed value with its sign bit flipped, so that unsigned order is signed
/// order.
pub open spec fn flip_i64(v: i64) -> u64 {
    (v as int + 9223372036854775808) as u64
}

pub open spec fn flip_i32(v: i32) -> u32 {
    (v as int + 2147483648) as u32
}

/// Encoding of a datum: `0` for null, else `1` and the flipped value in
/// big-endian order.
pub open spec fn datum_bytes(d: Datum) -> Seq<u8> {
    match d {
        None => seq![0u8],
        Some(v) => seq![1u8] + be64(flip_i64(v)),
    }
}

/// Encoding of a column index: the flipped value in big-endian order.
pub open spec fn index_bytes(i: i32) -> Seq<u8> {
    be32(flip_i32(i))
}

/// The datum that bytes encode, or `None` where they encode none.
pub open spec fn datum_of_bytes(b: Seq<u8>) -> Option<Datum> {
    if b.len() == 1 && b[0] == 0 {
        Some(None)
    } else if b.len() == 9 && b[0] == 1 {
        Some(Some((from_be64(b.subrange(1, 9)) - 9223372036854775808) as i64))
    } else {
        None
    }
}

/// Relies on `memcomparable::to_vec` on `Option<i64>`: `serialize_none` writes
/// byte 0; `serialize_some` writes byte 1 and then `serialize_i64`, which
/// writes `v ^ (1 << 63)` with `put_u64` (big-endian). It never fails.
#[verifier::external_body]
fn memcmp_datum(d: Datum) -> (r: Option<Vec<u8>>)
    ensures
        r is Some,
        r matches Some(b) ==> b@ == datum_bytes(d),
{
    memcomparable::to_vec(&d).ok()
}

/// Relies on `memcomparable::to_vec` on `i32`: `serialize_i32` writes
/// `v ^ (1 << 31)` with `put_u32` (big-endian). It never fails.
#[verifier::external_body]
fn memcmp_i32(v: i32) -> (r: Option<Vec<u8>>)
    ensures
        r is Some,
        r matches Some(b) ==> b@ == index_bytes(v),
{
    memcomparable::to_vec(&v).ok()
}

/// Relies on `memcomparable::from_slice::<Option<i64>>`: tag byte 0 gives
/// null, 1 a value read with `get_u64` and flipped back, any other tag an
/// error; input left over is an error. `get_u64` panics on fewer than eight
/// bytes, which `requires` rules out.
#[verifier::external_body]
fn memcmp_datum_from(b: &[u8]) -> (r: Option<Datum>)
    requires
        b@.len() >= 1,
        b@[0] == 1 ==> b@.len() >= 9,
    ensures
        r == datum_of_bytes(b@),
{
    memcomparable::from_slice::<Option<i64>>(b).ok()
}

/// The encoding of a datum.
pub fn serialize_datum(d: Datum) -> (r: Vec<u8>)
    ensures
        r@ == datum_bytes(d),
{
    match memcmp_datum(d) {
        Some(b) => b,
        None => Vec::new(),
    }
}

/// The encoding of a column index.
pub fn serialize_cell_idx(i: i32) -> (r: Vec<u8>)
    ensures
        r@ == index_bytes(i),
{
    match memcmp_i32(i) {
        Some(b) => b,
        None => Vec::new(),
    }
}

/// The datum that `b` encodes; `None` where `b` is no encoding of one.
pub fn deserialize_datum(b: &[u8]) -> (r: Option<Datum>)
    ensures
        r == datum_of_bytes(b@),
{
    if b.len() == 0 || (b[0] == 1 && b.len() < 9) {
        return None;
    }
    memcmp_datum_from(b)
}

proof fn lemma_be32_roundtrip(n: u32)
    ensures
        from_be32(be32(n)) == n,
        be32(n).len() == 4,
{
    assert(n == (n / 16777216) * 16777216 + ((n / 65536) % 256) * 65536 + ((n / 256) % 256) * 256 + n % 256) by (nonlinear_arith);
}

/// Decoding the encoding of a datum gives the datum back.
pub proof fn lemma_datum_roundtrip(d: Datum)
    ensures
        datum_of_bytes(datum_bytes(d)) == Some(d),
{
    if let Some(v) = d {
        let u = flip_i64(v);
        let hi = (u / 4294967296) as u32;
        let lo = (u % 4294967296) as u32;
        lemma_be32_roundtrip(hi);
        lemma_be32_roundtrip(lo);
        let b = datum_bytes(d);
        assert(b.subrange(1, 9).subrange(0, 4) =~= be32(hi));
        assert(b.subrange(1, 9).subrange(4, 8) =~= be32(lo));
        assert(u == hi * 4294967296 + lo) by (nonlinear_arith)
            requires hi == u / 4294967296, lo == u % 4294967296;
    }
}

/// Distinct datums have distinct encodings.
pub proof fn lemma_datum_bytes_injective(a: Datum, b: Datum)
    requires
        datum_bytes(a) == datum_bytes(b),
    ensures
        a == b,
{
    lemma_datum_roundtrip(a);
    lemma_datum_roundtrip(b);
}

} // verus!
