//! The payloads that the benchmark nodes exchange, and their wire encoding.
use vstd::prelude::*;
use vstd::slice::slice_subrange;
use crate::encoding::{
    bincode_deserialize_bytes, bincode_deserialize_u128, bincode_deserialize_u64,
    bincode_serialize_bytes, bincode_serialize_u128, bincode_serialize_u64, encode_byte_seq, le_bytes,
    le_value, parse_byte_seq, lemma_le_roundtrip, lemma_le_value_bound, lemma_pow256_values,
};

verus! {

/// The payload of the throughput tests.
#[derive(Clone, Debug)]
pub struct ThrData {
    pub data: Vec<u8>,
}

/// A payload stamped with the time it was sent, in microseconds.
#[derive(Clone, Debug)]
pub struct LatData {
    pub data: Vec<u8>,
    pub ts: u128,
}

/// A timestamp, in microseconds since the Unix epoch, or a measured latency.
#[derive(Clone, Copy, Debug, PartialEq, Eq, Structural)]
pub struct Latency {
    pub ts: u128,
}

/// The payload of the serialization benchmark.
#[derive(Clone, Copy, Debug, PartialEq, Eq, Structural)]
pub struct CriterionData {
    pub d: u64,
}

/// Why a payload could not be turned into bytes or back.
#[derive(Clone, Copy, Debug, PartialEq, Eq, Structural)]
pub enum DataError {
    SerializationError,
    DeseralizationError,
}

/// The encoding of a `ThrData` holding `data`.
pub open spec fn thr_data_bytes(data: Seq<u8>) -> Seq<u8> {
    encode_byte_seq(data)
}

/// The payload of the `ThrData` encoded at the start of `s`.
pub open spec fn parse_thr_data(s: Seq<u8>) -> Option<Seq<u8>> {
    match parse_byte_seq(s) {
        Some((d, _)) => Some(d),
        None => None,
    }
}

/// The encoding of a `LatData` holding `data` and `ts`.
pub open spec fn lat_data_bytes(data: Seq<u8>, ts: u128) -> Seq<u8> {
    encode_byte_seq(data) + le_bytes(ts as nat, 16)
}

/// The payload and timestamp of the `LatData` encoded at the start of `s`.
pub open spec fn parse_lat_data(s: Seq<u8>) -> Option<(Seq<u8>, u128)> {
    match parse_byte_seq(s) {
        Some((d, n)) => if s.len() >= n + 16 {
            Some((d, le_value(s.subrange(n as int, n + 16int)) as u128))
        } else {
            None
        },
        None => None,
    }
}

/// The encoding of a `Latency` holding `ts`.
pub open spec fn latency_bytes(ts: u128) -> Seq<u8> {
    le_bytes(ts as nat, 16)
}

/// The timestamp of the `Latency` encoded at the start of `s`.
pub open spec fn parse_latency(s: Seq<u8>) -> Option<u128> {
    if s.len() >= 16 {
        Some(le_value(s.take(16)) as u128)
    } else {
        None
    }
}

/// The encoding of a `CriterionData` holding `d`.
pub open spec fn criterion_data_bytes(d: u64) -> Seq<u8> {
    le_bytes(d as nat, 8)
}

/// The value of the `CriterionData` encoded at the start of `s`.
pub open spec fn parse_criterion_data(s: Seq<u8>) -> Option<u64> {
    if s.len() >= 8 {
        Some(le_value(s.take(8)) as u64)
    } else {
        None
    }
}

impl ThrData {
    /// The bincode encoding of the payload.
    pub fn try_serialize(&self) -> (res: Result<Vec<u8>, DataError>)
        ensures
            res is Ok,
            res matches Ok(b) ==> b@ == thr_data_bytes(self.data@),
    {
        match bincode_serialize_bytes(self.data.as_slice()) {
            Ok(b) => Ok(b),
            Err(_) => Err(DataError::SerializationError),
        }
    }

    /// Decodes a payload from its bincode encoding; bytes after it are
    /// ignored.
    pub fn try_deserialize(bytes: &[u8]) -> (res: Result<ThrData, DataError>)
        ensures
            match res {
                Ok(v) => parse_thr_data(bytes@) == Some(v.data@),
                Err(e) => parse_thr_data(bytes@) is None && e == DataError::DeseralizationError,
            },
    {
        match bincode_deserialize_bytes(bytes) {
            Ok(data) => Ok(ThrData { data }),
            Err(_) => Err(DataError::DeseralizationError),
        }
    }
}

impl LatData {
    /// The bincode encoding of the payload and its timestamp.
    pub fn try_serialize(&self) -> (res: Result<Vec<u8>, DataError>)
        ensures
            res is Ok,
            res matches Ok(b) ==> b@ == lat_data_bytes(self.data@, self.ts),
    {
        let mut out = match bincode_serialize_bytes(self.data.as_slice()) {
            Ok(b) => b,
            Err(_) => {
                return Err(DataError::SerializationError);
            },
        };
        let mut ts = match bincode_serialize_u128(self.ts) {
            Ok(b) => b,
            Err(_) => {
                return Err(DataError::SerializationError);
            },
        };
        out.append(&mut ts);
        Ok(out)
    }

    /// Decodes a payload and its timestamp from their bincode encoding; bytes
    /// after them are ignored.
    pub fn try_deserialize(bytes: &[u8]) -> (res: Result<LatData, DataError>)
        ensures
            match res {
                Ok(v) => parse_lat_data(bytes@) == Some((v.data@, v.ts)),
                Err(e) => parse_lat_data(bytes@) is None && e == DataError::DeseralizationError,
            },
    {
        let data = match bincode_deserialize_bytes(bytes) {
            Ok(d) => d,
            Err(_) => {
                return Err(DataError::DeseralizationError);
            },
        };
        let total = bytes.len();
        assert(data@.len() + 8 <= total);
        let used = 8 + data.len();
        let rest = slice_subrange(bytes, used, total);
        match bincode_deserialize_u128(rest) {
            Ok(ts) => {
                assert(rest@.take(16) =~= bytes@.subrange(used as int, used + 16));
                Ok(LatData { data, ts })
            },
            Err(_) => Err(DataError::DeseralizationError),
        }
    }
}

impl Latency {
    /// The bincode encoding of the timestamp.
    pub fn try_serialize(&self) -> (res: Result<Vec<u8>, DataError>)
        ensures
            res is Ok,
            res matches Ok(b) ==> b@ == latency_bytes(self.ts),
    {
        match bincode_serialize_u128(self.ts) {
            Ok(b) => Ok(b),
            Err(_) => Err(DataError::SerializationError),
        }
    }

    /// Decodes a timestamp from its bincode encoding; bytes after it are
    /// ignored.
    pub fn try_deserialize(bytes: &[u8]) -> (res: Result<Latency, DataError>)
        ensures
            match res {
                Ok(v) => parse_latency(bytes@) == Some(v.ts),
                Err(e) => parse_latency(bytes@) is None && e == DataError::DeseralizationError,
            },
    {
        match bincode_deserialize_u128(bytes) {
            Ok(ts) => Ok(Latency { ts }),
            Err(_) => Err(DataError::DeseralizationError),
        }
    }
}

impl CriterionData {
    /// The bincode encoding of the value.
    pub fn try_serialize(&self) -> (res: Result<Vec<u8>, DataError>)
        ensures
            res is Ok,
            res matches Ok(b) ==> b@ == criterion_data_bytes(self.d),
    {
        match bincode_serialize_u64(self.d) {
            Ok(b) => Ok(b),
            Err(_) => Err(DataError::SerializationError),
        }
    }

    /// Decodes a value from its bincode encoding; bytes after it are ignored.
    pub fn try_deserialize(bytes: &[u8]) -> (res: Result<CriterionData, DataError>)
        ensures
            match res {
                Ok(v) => parse_criterion_data(bytes@) == Some(v.d),
                Err(e) => parse_criterion_data(bytes@) is None && e == DataError::DeseralizationError,
            },
    {
        match bincode_deserialize_u64(bytes) {
            Ok(d) => Ok(CriterionData { d }),
            Err(_) => Err(DataError::DeseralizationError),
        }
    }
}

/// The payload of a throughput test of `size` bytes: the byte at position
/// `i` is `i % 10`.
pub fn throughput_payload(size: usize) -> (data: Vec<u8>)
    ensures
        data@.len() == size,
        forall|i: int| 0 <= i < size ==> #[trigger] data@[i] == i % 10,
{
    let mut data: Vec<u8> = Vec::new();
    let mut i: usize = 0;
    while i < size
        invariant
            i <= size,
            data@.len() == i,
            forall|j: int| 0 <= j < i ==> #[trigger] data@[j] == j % 10,
        decreases size - i,
    {
        data.push((i % 10) as u8);
        i = i + 1;
    }
    data
}

proof fn lemma_byte_seq_roundtrip(data: Seq<u8>, rest: Seq<u8>)
    requires
        data.len() <= u64::MAX,
    ensures
        parse_byte_seq(encode_byte_seq(data) + rest) == Some((data, data.len() + 8)),
{
    lemma_pow256_values();
    lemma_le_roundtrip(data.len(), 8);
    let s = encode_byte_seq(data) + rest;
    assert(s.take(8) =~= le_bytes(data.len(), 8));
    assert(s.subrange(8, data.len() + 8int) =~= data);
}

/// A `ThrData` is read back from its encoding, whatever follows it.
pub proof fn law_thr_data_roundtrip(data: Seq<u8>, rest: Seq<u8>)
    requires
        data.len() <= u64::MAX,
    ensures
        parse_thr_data(thr_data_bytes(data) + rest) == Some(data),
{
    lemma_byte_seq_roundtrip(data, rest);
}

/// A `LatData` is read back from its encoding, whatever follows it.
pub proof fn law_lat_data_roundtrip(data: Seq<u8>, ts: u128, rest: Seq<u8>)
    requires
        data.len() <= u64::MAX,
    ensures
        parse_lat_data(lat_data_bytes(data, ts) + rest) == Some((data, ts)),
{
    lemma_pow256_values();
    lemma_le_roundtrip(ts as nat, 16);
    lemma_le_roundtrip(data.len(), 8);
    let s = lat_data_bytes(data, ts) + rest;
    assert(s =~= encode_byte_seq(data) + (le_bytes(ts as nat, 16) + rest));
    lemma_byte_seq_roundtrip(data, le_bytes(ts as nat, 16) + rest);
    let n = data.len() + 8;
    assert(s.subrange(n as int, n + 16int) =~= le_bytes(ts as nat, 16));
}

/// A `Latency` is read back from its encoding, whatever follows it.
pub proof fn law_latency_roundtrip(ts: u128, rest: Seq<u8>)
    ensures
        parse_latency(latency_bytes(ts) + rest) == Some(ts),
{
    lemma_pow256_values();
    lemma_le_roundtrip(ts as nat, 16);
    assert((latency_bytes(ts) + rest).take(16) =~= le_bytes(ts as nat, 16));
}

/// A `CriterionData` is read back from its encoding, whatever follows it.
pub proof fn law_criterion_data_roundtrip(d: u64, rest: Seq<u8>)
    ensures
        parse_criterion_data(criterion_data_bytes(d) + rest) == Some(d),
{
    lemma_pow256_values();
    lemma_le_roundtrip(d as nat, 8);
    assert((criterion_data_bytes(d) + rest).take(8) =~= le_bytes(d as nat, 8));
}

/// A `Latency` is written as the sixteen little-endian bytes of its
/// timestamp, as bincode writes a `u128`.
pub proof fn law_latency_encoding_is_little_endian(ts: u128)
    ensures
        latency_bytes(ts).len() == 16,
        le_value(latency_bytes(ts)) == ts,
{
    lemma_pow256_values();
    lemma_le_roundtrip(ts as nat, 16);
}

/// A `Latency` is read as the little-endian value of the first sixteen bytes,
/// and can be read exactly from sixteen bytes or more.
pub proof fn law_latency_decoding_is_little_endian(s: Seq<u8>)
    ensures
        parse_latency(s) is Some <==> s.len() >= 16,
        parse_latency(s) matches Some(t) ==> t as nat == le_value(s.take(16)),
{
    if s.len() >= 16 {
        lemma_pow256_values();
        lemma_le_value_bound(s.take(16));
    }
}

/// A `CriterionData` is written as the eight little-endian bytes of its
/// value, as bincode writes a `u64`.
pub proof fn law_criterion_data_encoding_is_little_endian(d: u64)
    ensures
        criterion_data_bytes(d).len() == 8,
        le_value(criterion_data_bytes(d)) == d,
{
    lemma_pow256_values();
    lemma_le_roundtrip(d as nat, 8);
}

/// A `CriterionData` is read as the little-endian value of the first eight
/// bytes, and can be read exactly from eight bytes or more.
pub proof fn law_criterion_data_decoding_is_little_endian(s: Seq<u8>)
    ensures
        parse_criterion_data(s) is Some <==> s.len() >= 8,
        parse_criterion_data(s) matches Some(d) ==> d as nat == le_value(s.take(8)),
{
    if s.len() >= 8 {
        lemma_pow256_values();
        lemma_le_value_bound(s.take(8));
    }
}

/// A `ThrData` is written as the length of its payload on eight little-endian
/// bytes, then the payload itself.
pub proof fn law_thr_data_encoding_is_length_then_bytes(data: Seq<u8>)
    requires
        data.len() <= u64::MAX,
    ensures
        thr_data_bytes(data).len() == data.len() + 8,
        le_value(thr_data_bytes(data).take(8)) == data.len(),
        thr_data_bytes(data).skip(8) == data,
{
    lemma_pow256_values();
    lemma_le_roundtrip(data.len(), 8);
    assert(thr_data_bytes(data).take(8) =~= le_bytes(data.len(), 8));
    assert(thr_data_bytes(data).skip(8) =~= data);
}

/// A `LatData` is written as the length of its payload on eight
/// little-endian bytes, the payload, then the sixteen little-endian bytes of
/// its timestamp.
pub proof fn law_lat_data_encoding_is_length_bytes_then_stamp(data: Seq<u8>, ts: u128)
    requires
        data.len() <= u64::MAX,
    ensures
        lat_data_bytes(data, ts).len() == data.len() + 24,
        le_value(lat_data_bytes(data, ts).take(8)) == data.len(),
        lat_data_bytes(data, ts).subrange(8, data.len() + 8int) == data,
        le_value(lat_data_bytes(data, ts).skip(data.len() + 8int)) == ts,
{
    lemma_pow256_values();
    lemma_le_roundtrip(data.len(), 8);
    lemma_le_roundtrip(ts as nat, 16);
    let b = lat_data_bytes(data, ts);
    assert(b.take(8) =~= le_bytes(data.len(), 8));
    assert(b.subrange(8, data.len() + 8int) =~= data);
    assert(b.skip(data.len() + 8int) =~= le_bytes(ts as nat, 16));
}

} // verus!
