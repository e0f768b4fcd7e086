use zenoh_flow_perf::capture::{IpAddress, TCPEndpoint};
use zenoh_flow_perf::stats::{
    analyze_zenoh_tcp, session_statistics, stream_overhead, FramePayload, SizedTransportMessage,
    TransportBody, ZenohBody,
};

fn frame(messages: Vec<ZenohBody>, size: usize) -> SizedTransportMessage {
    SizedTransportMessage(TransportBody::Frame(FramePayload::Messages(messages)), size)
}

fn sample_session() -> Vec<SizedTransportMessage> {
    vec![
        SizedTransportMessage(TransportBody::InitSyn, 30),
        SizedTransportMessage(TransportBody::InitAck, 40),
        SizedTransportMessage(TransportBody::OpenSyn, 20),
        SizedTransportMessage(TransportBody::OpenAck, 10),
        frame(
            vec![
                ZenohBody::Declare,
                ZenohBody::Data { payload_len: 8 },
                ZenohBody::Data { payload_len: 16 },
            ],
            60,
        ),
        SizedTransportMessage(TransportBody::Frame(FramePayload::Fragment), 100),
        frame(
            vec![
                ZenohBody::Query { body_payload_len: Some(5) },
                ZenohBody::Query { body_payload_len: None },
                ZenohBody::Unit,
                ZenohBody::Pull,
                ZenohBody::LinkStateList,
            ],
            50,
        ),
        SizedTransportMessage(TransportBody::KeepAlive, 2),
        SizedTransportMessage(TransportBody::Join, 12),
        SizedTransportMessage(TransportBody::Close, 3),
    ]
}

#[test]
fn session_statistics_counts_transport_messages() {
    let st = session_statistics(&sample_session()).unwrap();
    let t = &st.transport;
    assert_eq!(t.total_frames, 3);
    assert_eq!(t.total_initsyn, 1);
    assert_eq!(t.total_initack, 1);
    assert_eq!(t.total_opensyn, 1);
    assert_eq!(t.total_openack, 1);
    assert_eq!(t.total_join, 1);
    assert_eq!(t.total_close, 1);
    assert_eq!(t.total_keepalive, 1);
    assert_eq!(t.total_tx_msgs, 10);
    assert_eq!(t.total_bytes, 327);
    assert_eq!(t.total_frames_bytes, 0);
}

#[test]
fn session_statistics_counts_zenoh_messages() {
    let st = session_statistics(&sample_session()).unwrap();
    let z = &st.zenoh;
    assert_eq!(z.total_data, 2);
    assert_eq!(z.total_data_payload, 24);
    assert_eq!(z.total_query, 2);
    assert_eq!(z.total_query_paylaod, 5);
    assert_eq!(z.total_unit, 1);
    assert_eq!(z.total_pull, 1);
    assert_eq!(z.total_declare, 1);
    assert_eq!(z.total_linkstate, 1);
    assert_eq!(z.total_data_bytes, 0);
}

#[test]
fn session_statistics_overhead_is_what_is_not_payload() {
    let st = session_statistics(&sample_session()).unwrap();
    assert_eq!(st.overhead, 327 - 24 - 5);
    assert_eq!(st.overhead + st.zenoh.total_data_payload + st.zenoh.total_query_paylaod, st.transport.total_bytes);
}

#[test]
fn session_statistics_of_empty_session() {
    let st = session_statistics(&Vec::new()).unwrap();
    assert_eq!(st.transport.total_tx_msgs, 0);
    assert_eq!(st.transport.total_bytes, 0);
    assert_eq!(st.overhead, 0);
}

#[test]
fn session_statistics_rejects_payload_beyond_bytes() {
    let msgs = vec![frame(vec![ZenohBody::Data { payload_len: 100 }], 10)];
    assert!(session_statistics(&msgs).is_none());
}

#[test]
fn session_statistics_rejects_overflowing_sizes() {
    let msgs = vec![
        SizedTransportMessage(TransportBody::KeepAlive, usize::MAX),
        SizedTransportMessage(TransportBody::KeepAlive, 1),
    ];
    assert!(session_statistics(&msgs).is_none());
}

#[test]
fn statistics_are_additive_over_captures() {
    let a = sample_session();
    let b = vec![frame(vec![ZenohBody::Data { payload_len: 3 }], 9)];
    let mut ab = a.clone();
    ab.extend(b.clone());
    let sa = session_statistics(&a).unwrap();
    let sb = session_statistics(&b).unwrap();
    let sab = session_statistics(&ab).unwrap();
    assert_eq!(sab.transport.total_frames, sa.transport.total_frames + sb.transport.total_frames);
    assert_eq!(sab.transport.total_bytes, sa.transport.total_bytes + sb.transport.total_bytes);
    assert_eq!(sab.zenoh.total_data, sa.zenoh.total_data + sb.zenoh.total_data);
    assert_eq!(sab.zenoh.total_data_payload, sa.zenoh.total_data_payload + sb.zenoh.total_data_payload);
}

#[test]
fn analyze_zenoh_tcp_keeps_each_session_with_its_key() {
    let a = TCPEndpoint { addr: IpAddress::V4(0x7f000001), port: 40000 };
    let b = TCPEndpoint { addr: IpAddress::V4(0x7f000001), port: 7447 };
    let sessions = vec![((a, b), sample_session()), ((b, a), vec![SizedTransportMessage(TransportBody::Close, 4)])];
    let out = analyze_zenoh_tcp(&sessions).unwrap();
    assert_eq!(out.len(), 2);
    assert_eq!(out[0].0, (a, b));
    assert_eq!(out[0].1, session_statistics(&sample_session()).unwrap());
    assert_eq!(out[1].0, (b, a));
    assert_eq!(out[1].1.transport.total_close, 1);
}

#[test]
fn analyze_zenoh_tcp_fails_on_undefined_session() {
    let a = TCPEndpoint { addr: IpAddress::V4(1), port: 7447 };
    let sessions = vec![((a, a), vec![frame(vec![ZenohBody::Data { payload_len: 5 }], 1)])];
    assert!(analyze_zenoh_tcp(&sessions).is_none());
}

#[test]
fn stream_overhead_counts_length_prefixes() {
    let st = session_statistics(&sample_session()).unwrap();
    assert_eq!(stream_overhead(347, &st), Some(347 - 29));
    assert_eq!(stream_overhead(10, &st), None);
}
