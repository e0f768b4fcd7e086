//! Reassembly of the Zenoh traffic found in a packet capture: the payloads of
//! the TCP segments of each Zenoh session, in capture order, and the UDP
//! scouting datagrams.
use vstd::prelude::*;
use vstd::slice::slice_subrange;
use vstd::slice::slice_to_vec;
use crate::framing::byte_views;

verus! {

/// TCP port of Zenoh unicast sessions.
pub const ZENOH_UNICAST_PORT: u16 = 7447;

/// UDP port of Zenoh multicast scouting.
pub const ZENOH_MULTICAST_PORT: u16 = 7446;

/// Unit of the IPv4 header length field, in bytes.
pub const IP_HDR_BLOCK_LEN: usize = 4;

/// Length of a TCP header without options.
pub const TCP_HDR_LEN: usize = 20;

/// An IP address, by its numeric value.
#[derive(Clone, Copy, Debug, PartialEq, Eq, Structural, Hash)]
pub enum IpAddress {
    V4(u32),
    V6(u128),
}

/// One end of a TCP connection.
#[derive(Clone, Copy, Debug, PartialEq, Eq, Structural, Hash)]
pub struct TCPEndpoint {
    pub addr: IpAddress,
    pub port: u16,
}

/// A session is told apart by its source and its destination.
pub type SessionKey = (TCPEndpoint, TCPEndpoint);

/// No key occurs twice in `keys`.
pub open spec fn unique_keys<K>(keys: Seq<K>) -> bool {
    forall|i: int, j: int| 0 <= i < keys.len() && 0 <= j < keys.len() && i != j ==> keys[i] != keys[j]
}

/// The map that pairs each of `keys` with the value at the same position.
pub open spec fn pairs_map<K, V>(keys: Seq<K>, vals: Seq<V>) -> Map<K, V>
    decreases keys.len(),
{
    if keys.len() == 0 || vals.len() == 0 {
        Map::empty()
    } else {
        pairs_map(keys.drop_last(), vals.drop_last()).insert(keys.last(), vals.last())
    }
}

proof fn lemma_pairs_map_get<K, V>(keys: Seq<K>, vals: Seq<V>, i: int)
    requires
        keys.len() == vals.len(),
        unique_keys(keys),
        0 <= i < keys.len(),
    ensures
        pairs_map(keys, vals).contains_key(keys[i]),
        pairs_map(keys, vals)[keys[i]] == vals[i],
    decreases keys.len(),
{
    if i < keys.len() - 1 {
        lemma_pairs_map_get(keys.drop_last(), vals.drop_last(), i);
    }
}

proof fn lemma_pairs_map_absent<K, V>(keys: Seq<K>, vals: Seq<V>, k: K)
    requires
        keys.len() == vals.len(),
        forall|i: int| 0 <= i < keys.len() ==> keys[i] != k,
    ensures
        !pairs_map(keys, vals).contains_key(k),
    decreases keys.len(),
{
    if keys.len() > 0 {
        lemma_pairs_map_absent(keys.drop_last(), vals.drop_last(), k);
    }
}

proof fn lemma_pairs_map_update<K, V>(keys: Seq<K>, vals: Seq<V>, i: int, v: V)
    requires
        keys.len() == vals.len(),
        unique_keys(keys),
        0 <= i < keys.len(),
    ensures
        pairs_map(keys, vals.update(i, v)) == pairs_map(keys, vals).insert(keys[i], v),
    decreases keys.len(),
{
    let n = keys.len() - 1;
    if i == n {
        assert(vals.update(i, v).drop_last() =~= vals.drop_last());
        lemma_pairs_map_absent(keys.drop_last(), vals.drop_last(), keys[i]);
        assert(pairs_map(keys, vals.update(i, v)) =~= pairs_map(keys, vals).insert(keys[i], v));
    } else {
        assert(vals.update(i, v).drop_last() =~= vals.drop_last().update(i, v));
        lemma_pairs_map_update(keys.drop_last(), vals.drop_last(), i, v);
        assert(keys.last() != keys[i]);
        assert(pairs_map(keys, vals.update(i, v)) =~= pairs_map(keys, vals).insert(keys[i], v));
    }
}

/// The traffic gathered so far: for each Zenoh TCP session the bytes of its
/// stream, and the scouting datagrams.
///
/// The sessions are held as a list of keys and a list of streams at the same
/// positions, no key twice. A key is a pair of endpoints whose addresses may
/// be IPv6, so no integer type holds it, and vstd gives `HashMap` its model
/// for integer keys only; the lookup is a linear search.
pub struct Capture {
    keys: Vec<SessionKey>,
    streams: Vec<Vec<u8>>,
    scouting: Vec<Vec<u8>>,
}

/// Whether a segment can be recorded: whether its headers leave room for its
/// payload and the payload they announce is there, where it is Zenoh traffic.
pub fn is_segment_well_formed(
    src: TCPEndpoint,
    dst: TCPEndpoint,
    ihl: u8,
    total_len: u16,
    tcp_data: Option<&[u8]>,
) -> (b: bool)
    ensures
        b == segment_well_formed(
            src,
            dst,
            ihl,
            total_len,
            match tcp_data {
                Some(d) => Some(d@),
                None => None,
            },
        ),
{
    if src.port == ZENOH_UNICAST_PORT || dst.port == ZENOH_UNICAST_PORT {
        let headers: usize = (ihl as usize) * IP_HDR_BLOCK_LEN + TCP_HDR_LEN;
        if headers > total_len as usize {
            return false;
        }
        match tcp_data {
            Some(d) => total_len as usize - headers <= d.len(),
            None => true,
        }
    } else {
        true
    }
}

/// The segment belongs to a Zenoh unicast session.
pub open spec fn is_zenoh_segment(src: TCPEndpoint, dst: TCPEndpoint) -> bool {
    src.port == ZENOH_UNICAST_PORT || dst.port == ZENOH_UNICAST_PORT
}

/// Number of payload bytes in a segment whose IPv4 header is `ihl` words long
/// and whose datagram is `total_len` bytes long.
pub open spec fn segment_payload_len(ihl: u8, total_len: u16) -> int {
    total_len - ihl * IP_HDR_BLOCK_LEN - TCP_HDR_LEN
}

/// The headers of a Zenoh segment leave room for its payload, and the payload
/// that they announce is there.
pub open spec fn segment_well_formed(
    src: TCPEndpoint,
    dst: TCPEndpoint,
    ihl: u8,
    total_len: u16,
    tcp_data: Option<Seq<u8>>,
) -> bool {
    is_zenoh_segment(src, dst) ==> {
        &&& segment_payload_len(ihl, total_len) >= 0
        &&& (tcp_data matches Some(d) ==> segment_payload_len(ihl, total_len) <= d.len())
    }
}

/// The payload that a segment adds to its session: none unless the segment
/// is Zenoh traffic and carries raw bytes.
pub open spec fn segment_payload(
    src: TCPEndpoint,
    dst: TCPEndpoint,
    ihl: u8,
    total_len: u16,
    tcp_data: Option<Seq<u8>>,
) -> Seq<u8> {
    if is_zenoh_segment(src, dst) {
        match tcp_data {
            Some(d) => d.take(segment_payload_len(ihl, total_len)),
            None => seq![],
        }
    } else {
        seq![]
    }
}

/// The stream of `key` after `payload` was appended to it.
pub open spec fn append_to_session(
    sessions: Map<SessionKey, Seq<u8>>,
    key: SessionKey,
    payload: Seq<u8>,
) -> Map<SessionKey, Seq<u8>> {
    if payload.len() == 0 {
        sessions
    } else if sessions.contains_key(key) {
        sessions.insert(key, sessions[key] + payload)
    } else {
        sessions.insert(key, payload)
    }
}

/// Sum of the lengths of `s`.
pub open spec fn total_len(s: Seq<Seq<u8>>) -> nat
    decreases s.len(),
{
    if s.len() == 0 {
        0
    } else {
        total_len(s.drop_last()) + s.last().len()
    }
}

impl Capture {
    /// The internal invariant: one stream per distinct key, none empty.
    #[verifier::type_invariant]
    closed spec fn wf(self) -> bool {
        &&& self.keys@.len() == self.streams@.len()
        &&& unique_keys(self.keys@)
        &&& forall|i: int| 0 <= i < self.streams@.len() ==> #[trigger] self.streams@[i]@.len() > 0
    }

    /// The stream of each Zenoh session.
    pub closed spec fn sessions(&self) -> Map<SessionKey, Seq<u8>> {
        pairs_map(self.keys@, byte_views(self.streams@))
    }

    /// The scouting datagrams, in capture order.
    pub closed spec fn scouting(&self) -> Seq<Seq<u8>> {
        byte_views(self.scouting@)
    }

    /// A capture that holds nothing yet.
    pub fn new() -> (c: Self)
        ensures
            c.sessions() == Map::<SessionKey, Seq<u8>>::empty(),
            c.scouting() == Seq::<Seq<u8>>::empty(),
    {
        let c = Capture { keys: Vec::new(), streams: Vec::new(), scouting: Vec::new() };
        assert(c.sessions() =~= Map::<SessionKey, Seq<u8>>::empty());
        assert(c.scouting() =~= Seq::<Seq<u8>>::empty());
        c
    }

    fn find(keys: &Vec<SessionKey>, key: SessionKey) -> (res: Option<usize>)
        ensures
            match res {
                Some(i) => i < keys@.len() && keys@[i as int] == key,
                None => forall|i: int| 0 <= i < keys@.len() ==> keys@[i] != key,
            },
    {
        let mut i: usize = 0;
        while i < keys.len()
            invariant
                i <= keys@.len(),
                forall|j: int| 0 <= j < i ==> keys@[j] != key,
            decreases keys@.len() - i,
        {
            let k = keys[i];
            if k.0 == key.0 && k.1 == key.1 {
                return Some(i);
            }
            i = i + 1;
        }
        None
    }

    /// Records a TCP segment from `src` to `dst`: `ihl` and `total_len` are the
    /// header length and total length fields of its IPv4 header, `tcp_data` its
    /// raw TCP payload where the segment carries one. A segment of a Zenoh
    /// session adds its payload to the stream of its session, which it starts
    /// where there is none yet; every other segment is ignored.
    pub fn record_tcp_segment(
        &mut self,
        src: TCPEndpoint,
        dst: TCPEndpoint,
        ihl: u8,
        total_len: u16,
        tcp_data: Option<&[u8]>,
    )
        requires
            segment_well_formed(
                src,
                dst,
                ihl,
                total_len,
                match tcp_data {
                    Some(d) => Some(d@),
                    None => None,
                },
            ),
        ensures
            final(self).scouting() == old(self).scouting(),
            final(self).sessions() == append_to_session(
                old(self).sessions(),
                (src, dst),
                segment_payload(
                    src,
                    dst,
                    ihl,
                    total_len,
                    match tcp_data {
                        Some(d) => Some(d@),
                        None => None,
                    },
                ),
            ),
    {
        if src.port == ZENOH_UNICAST_PORT || dst.port == ZENOH_UNICAST_PORT {
            let data_len: usize = total_len as usize - (ihl as usize) * IP_HDR_BLOCK_LEN
                - TCP_HDR_LEN;
            match tcp_data {
                Some(data) => {
                    let payload = slice_subrange(data, 0, data_len);
                    assert(payload@ == data@.take(data_len as int));
                    if payload.len() > 0 {
                        let bytes = slice_to_vec(payload);
                        let mut taken = Capture::new();
                        std::mem::swap(self, &mut taken);
                        proof {
                            use_type_invariant(&taken);
                        }
                        let Capture { keys, streams, scouting } = taken;
                        let (keys, streams) = Self::append_payload(keys, streams, (src, dst), bytes);
                        *self = Capture { keys, streams, scouting };
                    }
                },
                None => {},
            }
        }
    }

    /// Appends `bytes` to the stream of `key`, or starts that stream.
    fn append_payload(
        keys: Vec<SessionKey>,
        streams: Vec<Vec<u8>>,
        key: SessionKey,
        bytes: Vec<u8>,
    ) -> (res: (Vec<SessionKey>, Vec<Vec<u8>>))
        requires
            keys@.len() == streams@.len(),
            unique_keys(keys@),
            forall|i: int| 0 <= i < streams@.len() ==> #[trigger] streams@[i]@.len() > 0,
            bytes@.len() > 0,
        ensures
            res.0@.len() == res.1@.len(),
            unique_keys(res.0@),
            forall|i: int| 0 <= i < res.1@.len() ==> #[trigger] res.1@[i]@.len() > 0,
            pairs_map(res.0@, byte_views(res.1@)) == append_to_session(
                pairs_map(keys@, byte_views(streams@)),
                key,
                bytes@,
            ),
    {
        let mut keys = keys;
        let mut streams = streams;
        let mut bytes = bytes;
        let ghost payload = bytes@;
        match Self::find(&keys, key) {
            Some(i) => {
                proof {
                    lemma_pairs_map_get(keys@, byte_views(streams@), i as int);
                }
                let ghost old_streams = streams@;
                let mut stream: Vec<u8> = Vec::new();
                streams.set_and_swap(i, &mut stream);
                stream.append(&mut bytes);
                streams.set(i, stream);
                proof {
                    assert(byte_views(streams@) =~= byte_views(old_streams).update(
                        i as int,
                        old_streams[i as int]@ + payload,
                    ));
                    lemma_pairs_map_update(
                        keys@,
                        byte_views(old_streams),
                        i as int,
                        old_streams[i as int]@ + payload,
                    );
                    assert forall|j: int| 0 <= j < streams@.len() implies #[trigger] streams@[j]@.len() > 0 by {
                        if j != i {
                            assert(streams@[j] == old_streams[j]);
                        }
                    }
                }
            },
            None => {
                proof {
                    lemma_pairs_map_absent(keys@, byte_views(streams@), key);
                }
                let ghost old_keys = keys@;
                let ghost old_streams = streams@;
                keys.push(key);
                streams.push(bytes);
                proof {
                    assert(keys@.drop_last() =~= old_keys);
                    assert(byte_views(streams@).drop_last() =~= byte_views(old_streams));
                    assert forall|a: int, b: int| 0 <= a < keys@.len() && 0 <= b < keys@.len() && a != b implies keys@[a] != keys@[b] by {
                        if a < old_keys.len() && b < old_keys.len() {
                            assert(keys@[a] == old_keys[a]);
                            assert(keys@[b] == old_keys[b]);
                        }
                    }
                    assert forall|j: int| 0 <= j < streams@.len() implies #[trigger] streams@[j]@.len() > 0 by {
                        if j < old_streams.len() {
                            assert(streams@[j] == old_streams[j]);
                        }
                    }
                }
            },
        }
        (keys, streams)
    }

    /// Records a UDP datagram sent to `dst_port`, with `udp_data` its raw
    /// payload where it carries one: scouting datagrams are kept, all others
    /// ignored.
    pub fn record_udp_datagram(&mut self, dst_port: u16, udp_data: Option<Vec<u8>>)
        ensures
            final(self).sessions() == old(self).sessions(),
            final(self).scouting() == (match udp_data {
                Some(d) => if dst_port == ZENOH_MULTICAST_PORT {
                    old(self).scouting().push(d@)
                } else {
                    old(self).scouting()
                },
                None => old(self).scouting(),
            }),
    {
        if dst_port == ZENOH_MULTICAST_PORT {
            match udp_data {
                Some(d) => {
                    let mut taken = Capture::new();
                    std::mem::swap(self, &mut taken);
                    proof {
                        use_type_invariant(&taken);
                    }
                    let Capture { keys, streams, mut scouting } = taken;
                    let ghost old_scouting = scouting@;
                    scouting.push(d);
                    assert(byte_views(scouting@) =~= byte_views(old_scouting).push(d@));
                    *self = Capture { keys, streams, scouting };
                },
                None => {},
            }
        }
    }

    /// Number of scouting datagrams.
    pub fn scouting_messages(&self) -> (n: usize)
        ensures
            n == self.scouting().len(),
    {
        self.scouting.len()
    }

    /// Total number of bytes of the scouting datagrams; `None` where it exceeds
    /// `usize::MAX`.
    pub fn scouting_bytes(&self) -> (res: Option<usize>)
        ensures
            match res {
                Some(n) => n == total_len(self.scouting()),
                None => total_len(self.scouting()) > usize::MAX,
            },
    {
        let ghost s = self.scouting();
        let mut total: usize = 0;
        let mut i: usize = 0;
        assert(s.take(0) =~= Seq::<Seq<u8>>::empty());
        while i < self.scouting.len()
            invariant
                s == self.scouting(),
                i <= s.len(),
                total == total_len(s.take(i as int)),
            decreases s.len() - i,
        {
            assert(s.take(i + 1).drop_last() =~= s.take(i as int));
            match total.checked_add(self.scouting[i].len()) {
                Some(t) => {
                    total = t;
                },
                None => {
                    proof {
                        lemma_total_len_prefix(s, i + 1);
                    }
                    return None;
                },
            }
            i = i + 1;
        }
        assert(s.take(i as int) =~= s);
        Some(total)
    }

    /// Gives up the capture for its sessions: their keys, none twice, and the
    /// stream of the session at the same position.
    pub fn into_sessions(self) -> (res: (Vec<SessionKey>, Vec<Vec<u8>>))
        ensures
            res.0@.len() == res.1@.len(),
            unique_keys(res.0@),
            pairs_map(res.0@, byte_views(res.1@)) == self.sessions(),
    {
        proof {
            use_type_invariant(&self);
        }
        let Capture { keys, streams, scouting: _ } = self;
        (keys, streams)
    }
}

/// The sessions of a capture that started empty and recorded, in order, the
/// payloads of `segments`, each with the key of its session.
pub open spec fn replay(segments: Seq<(SessionKey, Seq<u8>)>) -> Map<SessionKey, Seq<u8>>
    decreases segments.len(),
{
    if segments.len() == 0 {
        Map::empty()
    } else {
        append_to_session(replay(segments.drop_last()), segments.last().0, segments.last().1)
    }
}

/// The payloads of the segments of `segments` that belong to session `key`,
/// one after the other in capture order.
pub open spec fn payloads_of(segments: Seq<(SessionKey, Seq<u8>)>, key: SessionKey) -> Seq<u8>
    decreases segments.len(),
{
    if segments.len() == 0 {
        seq![]
    } else if segments.last().0 == key {
        payloads_of(segments.drop_last(), key) + segments.last().1
    } else {
        payloads_of(segments.drop_last(), key)
    }
}

/// Reassembly keeps every byte in its place: a session is known exactly when
/// one of its segments carried bytes, and its stream is the concatenation, in
/// capture order, of the payloads of its segments.
pub proof fn law_stream_is_concatenation_of_payloads(segments: Seq<(SessionKey, Seq<u8>)>, key: SessionKey)
    ensures
        replay(segments).contains_key(key) == (payloads_of(segments, key).len() > 0),
        replay(segments).contains_key(key) ==> replay(segments)[key] == payloads_of(segments, key),
    decreases segments.len(),
{
    if segments.len() > 0 {
        let prev = segments.drop_last();
        law_stream_is_concatenation_of_payloads(prev, key);
        let (k, p) = segments.last();
        if k == key {
            if p.len() == 0 {
                assert(payloads_of(prev, key) + p =~= payloads_of(prev, key));
            } else if !replay(prev).contains_key(key) {
                assert(payloads_of(prev, key) =~= Seq::<u8>::empty());
                assert(payloads_of(prev, key) + p =~= p);
            }
        }
    }
}

proof fn lemma_total_len_prefix(s: Seq<Seq<u8>>, i: int)
    requires
        0 <= i <= s.len(),
    ensures
        total_len(s.take(i)) <= total_len(s),
    decreases s.len(),
{
    if i < s.len() {
        assert(s.drop_last().take(i) =~= s.take(i));
        lemma_total_len_prefix(s.drop_last(), i);
    } else {
        assert(s.take(i) =~= s);
    }
}

} // verus!
