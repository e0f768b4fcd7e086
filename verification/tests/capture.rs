use zenoh_flow_perf::capture::{Capture, IpAddress, TCPEndpoint};

fn ep(last: u32, port: u16) -> TCPEndpoint {
    TCPEndpoint { addr: IpAddress::V4(0x0a000000 + last), port }
}

fn session<'a>(keys: &'a [(TCPEndpoint, TCPEndpoint)], streams: &'a [Vec<u8>], key: (TCPEndpoint, TCPEndpoint)) -> Option<&'a Vec<u8>> {
    keys.iter().position(|k| *k == key).map(|i| &streams[i])
}

#[test]
fn zenoh_segments_are_appended_per_session() {
    let client = ep(1, 51000);
    let router = ep(2, 7447);
    let mut c = Capture::new();
    // 20 bytes of IPv4 header (ihl 5), 20 of TCP header, 4 of payload.
    c.record_tcp_segment(client, router, 5, 44, Some(&[1, 2, 3, 4, 0, 0]));
    c.record_tcp_segment(router, client, 5, 42, Some(&[9, 9]));
    c.record_tcp_segment(client, router, 5, 41, Some(&[5]));
    let (keys, streams) = c.into_sessions();
    assert_eq!(keys.len(), 2);
    assert_eq!(session(&keys, &streams, (client, router)), Some(&vec![1, 2, 3, 4, 5]));
    assert_eq!(session(&keys, &streams, (router, client)), Some(&vec![9, 9]));
}

#[test]
fn ip_options_shorten_the_payload() {
    let client = ep(1, 51000);
    let router = ep(2, 7447);
    let mut c = Capture::new();
    // ihl 6: 24 bytes of IPv4 header.
    c.record_tcp_segment(client, router, 6, 47, Some(&[1, 2, 3, 4]));
    let (_, streams) = c.into_sessions();
    assert_eq!(streams, vec![vec![1, 2, 3]]);
}

#[test]
fn other_ports_and_empty_payloads_are_ignored() {
    let mut c = Capture::new();
    c.record_tcp_segment(ep(1, 80), ep(2, 443), 5, 44, Some(&[1, 2, 3, 4]));
    c.record_tcp_segment(ep(1, 7447), ep(2, 443), 5, 40, Some(&[1, 2, 3, 4]));
    c.record_tcp_segment(ep(1, 7447), ep(2, 443), 5, 44, None);
    let (keys, streams) = c.into_sessions();
    assert!(keys.is_empty());
    assert!(streams.is_empty());
}

#[test]
fn ipv6_endpoints_are_told_apart() {
    let a = TCPEndpoint { addr: IpAddress::V6(1), port: 7447 };
    let b = TCPEndpoint { addr: IpAddress::V6(2), port: 7447 };
    let mut c = Capture::new();
    c.record_tcp_segment(a, b, 5, 41, Some(&[1]));
    c.record_tcp_segment(b, a, 5, 41, Some(&[2]));
    let (keys, _) = c.into_sessions();
    assert_eq!(keys.len(), 2);
}

#[test]
fn scouting_datagrams_are_kept_and_summed() {
    let mut c = Capture::new();
    c.record_udp_datagram(7446, Some(vec![1, 2, 3]));
    c.record_udp_datagram(7447, Some(vec![4]));
    c.record_udp_datagram(7446, None);
    c.record_udp_datagram(7446, Some(vec![5, 6]));
    assert_eq!(c.scouting_messages(), 2);
    assert_eq!(c.scouting_bytes(), Some(5));
}

#[test]
fn empty_capture() {
    let c = Capture::new();
    assert_eq!(c.scouting_messages(), 0);
    assert_eq!(c.scouting_bytes(), Some(0));
}
