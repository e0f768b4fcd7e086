use zenoh_flow_perf::data::{throughput_payload, DataError};
use zenoh_flow_perf::{get_epoch_us, CriterionData, LatData, Latency, ThrData};

#[test]
fn thr_data_encoding_is_length_then_bytes() {
    let d = ThrData { data: vec![7, 8, 9] };
    let bytes = d.try_serialize().unwrap();
    assert_eq!(bytes, vec![3, 0, 0, 0, 0, 0, 0, 0, 7, 8, 9]);
    let back = ThrData::try_deserialize(&bytes).unwrap();
    assert_eq!(back.data, vec![7, 8, 9]);
}

#[test]
fn lat_data_encoding_roundtrip() {
    let d = LatData { data: vec![1, 2], ts: 0x0102_0304_0506_0708_090a_0b0c_0d0e_0f10 };
    let bytes = d.try_serialize().unwrap();
    assert_eq!(bytes.len(), 8 + 2 + 16);
    assert_eq!(&bytes[..10], &[2, 0, 0, 0, 0, 0, 0, 0, 1, 2]);
    assert_eq!(bytes[10], 0x10);
    assert_eq!(bytes[25], 0x01);
    let back = LatData::try_deserialize(&bytes).unwrap();
    assert_eq!(back.data, vec![1, 2]);
    assert_eq!(back.ts, d.ts);
}

#[test]
fn latency_encoding_roundtrip_with_trailing_bytes() {
    let l = Latency { ts: 1_665_000_000_000_000 };
    let mut bytes = l.try_serialize().unwrap();
    assert_eq!(bytes.len(), 16);
    bytes.extend_from_slice(&[0xff, 0xee]);
    assert_eq!(Latency::try_deserialize(&bytes), Ok(l));
}

#[test]
fn criterion_data_encoding() {
    let c = CriterionData { d: 0x1122 };
    let bytes = c.try_serialize().unwrap();
    assert_eq!(bytes, vec![0x22, 0x11, 0, 0, 0, 0, 0, 0]);
    assert_eq!(CriterionData::try_deserialize(&bytes), Ok(c));
}

#[test]
fn short_inputs_fail_to_deserialize() {
    assert_eq!(Latency::try_deserialize(&[0; 15]), Err(DataError::DeseralizationError));
    assert_eq!(CriterionData::try_deserialize(&[0; 7]).err(), Some(DataError::DeseralizationError));
    assert_eq!(ThrData::try_deserialize(&[5, 0, 0, 0, 0, 0, 0, 0, 1]).err(), Some(DataError::DeseralizationError));
    let mut lat = vec![1, 0, 0, 0, 0, 0, 0, 0, 9];
    lat.extend_from_slice(&[0; 15]);
    assert_eq!(LatData::try_deserialize(&lat).err(), Some(DataError::DeseralizationError));
}

#[test]
fn throughput_payload_cycles_through_digits() {
    let p = throughput_payload(23);
    assert_eq!(p.len(), 23);
    assert_eq!(&p[..12], &[0, 1, 2, 3, 4, 5, 6, 7, 8, 9, 0, 1]);
    assert_eq!(p[22], 2);
    assert!(throughput_payload(0).is_empty());
}

#[test]
fn epoch_time_is_recent() {
    let t = get_epoch_us().unwrap();
    // later than 2020-01-01
    assert!(t > 1_577_836_800_000_000);
    let u = get_epoch_us().unwrap();
    assert!(u >= t);
}
