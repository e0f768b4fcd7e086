//! The bincode encoding of the benchmark payloads.
//!
//! With the options of `bincode::serialize` and `bincode::deserialize` an
//! integer is written as its little-endian bytes, a byte sequence as its
//! length (a little-endian `u64`) followed by its bytes, and a struct as its
//! fields one after the other.
use vstd::prelude::*;

verus! {

#[verifier::external_type_specification]
#[verifier::external_body]
pub struct ExBincodeErrorKind(bincode::ErrorKind);

/// The number whose little-endian bytes are `s`.
pub open spec fn le_value(s: Seq<u8>) -> nat
    decreases s.len(),
{
    if s.len() == 0 {
        0
    } else {
        s[0] as nat + 256 * le_value(s.drop_first())
    }
}

/// The `n` little-endian bytes of `v`, truncated to `n` bytes.
pub open spec fn le_bytes(v: nat, n: nat) -> Seq<u8>
    decreases n,
{
    if n == 0 {
        seq![]
    } else {
        seq![(v % 256) as u8] + le_bytes(v / 256, (n - 1) as nat)
    }
}

/// `256` to the power `n`.
pub open spec fn pow256(n: nat) -> nat
    decreases n,
{
    if n == 0 {
        1
    } else {
        256 * pow256((n - 1) as nat)
    }
}

/// The encoding of a byte sequence: its length on eight bytes, then its bytes.
pub open spec fn encode_byte_seq(d: Seq<u8>) -> Seq<u8> {
    le_bytes(d.len(), 8) + d
}

/// The byte sequence encoded at the start of `s`, and the number of bytes its
/// encoding takes; `None` where `s` is too short for it.
pub open spec fn parse_byte_seq(s: Seq<u8>) -> Option<(Seq<u8>, nat)> {
    if s.len() >= 8 && le_value(s.take(8)) + 8 <= s.len() {
        Some((s.subrange(8, le_value(s.take(8)) + 8int), le_value(s.take(8)) + 8))
    } else {
        None
    }
}

/// `bincode::serialize` on a `u64`: always succeeds, with its eight
/// little-endian bytes.
#[verifier::external_body]
pub(crate) fn bincode_serialize_u64(v: u64) -> (res: Result<Vec<u8>, Box<bincode::ErrorKind>>)
    ensures
        res is Ok,
        res matches Ok(b) ==> b@ == le_bytes(v as nat, 8),
{
    bincode::serialize(&v)
}

/// `bincode::serialize` on a `u128`: always succeeds, with its sixteen
/// little-endian bytes.
#[verifier::external_body]
pub(crate) fn bincode_serialize_u128(v: u128) -> (res: Result<Vec<u8>, Box<bincode::ErrorKind>>)
    ensures
        res is Ok,
        res matches Ok(b) ==> b@ == le_bytes(v as nat, 16),
{
    bincode::serialize(&v)
}

/// `bincode::serialize` on a byte slice: always succeeds, with the length of
/// the slice on eight little-endian bytes followed by its bytes.
#[verifier::external_body]
pub(crate) fn bincode_serialize_bytes(d: &[u8]) -> (res: Result<Vec<u8>, Box<bincode::ErrorKind>>)
    ensures
        res is Ok,
        res matches Ok(b) ==> b@ == encode_byte_seq(d@),
{
    bincode::serialize(d)
}

/// `bincode::deserialize` into a `u64`: reads the first eight bytes as a
/// little-endian number; fails exactly where there are fewer. Bytes after
/// them are left unread.
#[verifier::external_body]
pub(crate) fn bincode_deserialize_u64(s: &[u8]) -> (res: Result<u64, Box<bincode::ErrorKind>>)
    ensures
        res is Ok <==> s@.len() >= 8,
        res matches Ok(v) ==> v as nat == le_value(s@.take(8)),
{
    bincode::deserialize::<u64>(s)
}

/// `bincode::deserialize` into a `u128`: reads the first sixteen bytes as a
/// little-endian number; fails exactly where there are fewer. Bytes after
/// them are left unread.
#[verifier::external_body]
pub(crate) fn bincode_deserialize_u128(s: &[u8]) -> (res: Result<u128, Box<bincode::ErrorKind>>)
    ensures
        res is Ok <==> s@.len() >= 16,
        res matches Ok(v) ==> v as nat == le_value(s@.take(16)),
{
    bincode::deserialize::<u128>(s)
}

/// `bincode::deserialize` into a `Vec<u8>`: reads a length on eight
/// little-endian bytes, then that many bytes; fails exactly where the input is
/// too short for either. Bytes after them are left unread.
#[verifier::external_body]
pub(crate) fn bincode_deserialize_bytes(s: &[u8]) -> (res: Result<Vec<u8>, Box<bincode::ErrorKind>>)
    ensures
        res is Ok <==> parse_byte_seq(s@) is Some,
        res matches Ok(d) ==> parse_byte_seq(s@) matches Some((p, _)) && d@ == p,
{
    bincode::deserialize::<Vec<u8>>(s)
}

/// Little-endian bytes are read back as the number they were written from.
pub proof fn lemma_le_roundtrip(v: nat, n: nat)
    requires
        v < pow256(n),
    ensures
        le_bytes(v, n).len() == n,
        le_value(le_bytes(v, n)) == v,
    decreases n,
{
    if n > 0 {
        lemma_le_roundtrip(v / 256, (n - 1) as nat);
        let b = le_bytes(v, n);
        assert(b.drop_first() =~= le_bytes(v / 256, (n - 1) as nat));
    }
}

/// The powers of 256 that bound `u64` and `u128`.
pub proof fn lemma_pow256_values()
    ensures
        pow256(8) == 0x1_0000_0000_0000_0000,
        pow256(16) == 0x1_0000_0000_0000_0000_0000_0000_0000_0000,
{
    reveal_with_fuel(pow256, 17);
}

/// A little-endian reading of `n` bytes is less than `256` to the power `n`.
pub proof fn lemma_le_value_bound(s: Seq<u8>)
    ensures
        le_value(s) < pow256(s.len()),
    decreases s.len(),
{
    if s.len() > 0 {
        let r = s.drop_first();
        lemma_le_value_bound(r);
        let a = s[0] as nat;
        let v = le_value(r);
        let p = pow256(r.len());
        assert(a + 256 * v < 256 * p) by (nonlinear_arith)
            requires
                a < 256,
                v < p,
        ;
    }
}

} // verus!
