//! Statistics of a Zenoh session, computed from the transport messages that
//! were decoded from its reassembled TCP stream.
use vstd::prelude::*;
use crate::capture::SessionKey;

verus! {

/// A Zenoh message carried inside a frame, reduced to what the statistics
/// read of it.
#[derive(Clone, Copy, Debug, PartialEq, Eq, Structural)]
pub enum ZenohBody {
    /// A data message and the length of its payload.
    Data { payload_len: usize },
    Unit,
    Pull,
    /// A query and the payload length of its body, if it has one.
    Query { body_payload_len: Option<usize> },
    Declare,
    LinkStateList,
}

/// What a frame carries: a fragment of a larger message, or whole messages.
#[derive(Clone, Debug)]
pub enum FramePayload {
    Fragment,
    Messages(Vec<ZenohBody>),
}

/// The body of a transport message.
#[derive(Clone, Debug)]
pub enum TransportBody {
    Frame(FramePayload),
    InitSyn,
    InitAck,
    OpenSyn,
    OpenAck,
    Join,
    Close,
    KeepAlive,
}

/// A decoded transport message and the number of bytes it took on the wire.
#[derive(Clone, Debug)]
pub struct SizedTransportMessage(pub TransportBody, pub usize);

/// Counters of the Zenoh messages of a session.
#[derive(Clone, Copy, Debug, PartialEq, Eq, Structural)]
pub struct ZenohStatistics {
    pub total_data_payload: usize,
    pub total_query_paylaod: usize,
    pub total_data: usize,
    pub total_data_bytes: usize,
    pub total_unit: usize,
    pub total_unit_bytes: usize,
    pub total_pull: usize,
    pub total_pull_bytes: usize,
    pub total_query: usize,
    pub total_query_bytes: usize,
    pub total_declare: usize,
    pub total_declare_bytes: usize,
    pub total_linkstate: usize,
    pub total_linkstate_bytes: usize,
}

/// Counters of the transport messages of a session.
#[derive(Clone, Copy, Debug, PartialEq, Eq, Structural)]
pub struct TransportStatistics {
    pub total_frames: usize,
    pub total_frames_bytes: usize,
    pub total_initsyn: usize,
    pub total_initsyn_bytes: usize,
    pub total_initack: usize,
    pub total_initack_bytes: usize,
    pub total_opensyn: usize,
    pub total_opensyn_bytes: usize,
    pub total_openack: usize,
    pub total_openack_bytes: usize,
    pub total_join: usize,
    pub total_join_bytes: usize,
    pub total_close: usize,
    pub total_close_bytes: usize,
    pub total_keepalive: usize,
    pub total_keepalive_bytes: usize,
    pub total_tx_msgs: usize,
    pub total_bytes: usize,
}

/// The statistics of one session; `overhead` is the number of bytes that were
/// not payload of data messages or of query bodies.
#[derive(Clone, Copy, Debug, PartialEq, Eq, Structural)]
pub struct SessionStatistics {
    pub zenoh: ZenohStatistics,
    pub transport: TransportStatistics,
    pub overhead: usize,
}

/// The kinds of transport messages that the statistics tell apart.
#[derive(Clone, Copy, Debug, PartialEq, Eq, Structural)]
pub enum TransportKind {
    Frame,
    InitSyn,
    InitAck,
    OpenSyn,
    OpenAck,
    Join,
    Close,
    KeepAlive,
}

/// The kinds of Zenoh messages that the statistics tell apart.
#[derive(Clone, Copy, Debug, PartialEq, Eq, Structural)]
pub enum ZenohKind {
    Data,
    Unit,
    Pull,
    Query,
    Declare,
    LinkStateList,
}

pub open spec fn transport_kind(b: TransportBody) -> TransportKind {
    match b {
        TransportBody::Frame(_) => TransportKind::Frame,
        TransportBody::InitSyn => TransportKind::InitSyn,
        TransportBody::InitAck => TransportKind::InitAck,
        TransportBody::OpenSyn => TransportKind::OpenSyn,
        TransportBody::OpenAck => TransportKind::OpenAck,
        TransportBody::Join => TransportKind::Join,
        TransportBody::Close => TransportKind::Close,
        TransportBody::KeepAlive => TransportKind::KeepAlive,
    }
}

pub open spec fn zenoh_kind(z: ZenohBody) -> ZenohKind {
    match z {
        ZenohBody::Data { .. } => ZenohKind::Data,
        ZenohBody::Unit => ZenohKind::Unit,
        ZenohBody::Pull => ZenohKind::Pull,
        ZenohBody::Query { .. } => ZenohKind::Query,
        ZenohBody::Declare => ZenohKind::Declare,
        ZenohBody::LinkStateList => ZenohKind::LinkStateList,
    }
}

/// Number of transport messages of kind `k` in `m`.
pub open spec fn count_transport(m: Seq<SizedTransportMessage>, k: TransportKind) -> nat
    decreases m.len(),
{
    if m.len() == 0 {
        0
    } else {
        count_transport(m.drop_last(), k) + if transport_kind(m.last().0) == k {
            1nat
        } else {
            0nat
        }
    }
}

/// Sum of the wire sizes of the messages of `m`.
pub open spec fn total_size(m: Seq<SizedTransportMessage>) -> nat
    decreases m.len(),
{
    if m.len() == 0 {
        0
    } else {
        total_size(m.drop_last()) + (m.last().1 as nat)
    }
}

/// The Zenoh messages carried whole by a transport message.
pub open spec fn carried_messages(b: TransportBody) -> Seq<ZenohBody> {
    match b {
        TransportBody::Frame(FramePayload::Messages(v)) => v@,
        _ => seq![],
    }
}

/// The Zenoh messages carried whole by the frames of `m`, in order.
pub open spec fn zenoh_messages(m: Seq<SizedTransportMessage>) -> Seq<ZenohBody>
    decreases m.len(),
{
    if m.len() == 0 {
        seq![]
    } else {
        zenoh_messages(m.drop_last()) + carried_messages(m.last().0)
    }
}

/// Number of Zenoh messages of kind `k` in `z`.
pub open spec fn count_zenoh(z: Seq<ZenohBody>, k: ZenohKind) -> nat
    decreases z.len(),
{
    if z.len() == 0 {
        0
    } else {
        count_zenoh(z.drop_last(), k) + if zenoh_kind(z.last()) == k {
            1nat
        } else {
            0nat
        }
    }
}

pub open spec fn data_payload_of(x: ZenohBody) -> nat {
    match x {
        ZenohBody::Data { payload_len } => payload_len as nat,
        _ => 0,
    }
}

pub open spec fn query_payload_of(x: ZenohBody) -> nat {
    match x {
        ZenohBody::Query { body_payload_len: Some(l) } => l as nat,
        _ => 0,
    }
}

/// Sum of the payload lengths of the data messages of `z`.
pub open spec fn data_payload(z: Seq<ZenohBody>) -> nat
    decreases z.len(),
{
    if z.len() == 0 {
        0
    } else {
        data_payload(z.drop_last()) + data_payload_of(z.last())
    }
}

/// Sum of the payload lengths of the query bodies of `z`.
pub open spec fn query_payload(z: Seq<ZenohBody>) -> nat
    decreases z.len(),
{
    if z.len() == 0 {
        0
    } else {
        query_payload(z.drop_last()) + query_payload_of(z.last())
    }
}

/// The sums of a session fit in a `usize` and its payload does not exceed
/// its bytes, so that its statistics can be computed.
pub open spec fn statistics_defined(m: Seq<SizedTransportMessage>) -> bool {
    &&& total_size(m) <= usize::MAX
    &&& data_payload(zenoh_messages(m)) <= usize::MAX
    &&& query_payload(zenoh_messages(m)) <= usize::MAX
    &&& data_payload(zenoh_messages(m)) + query_payload(zenoh_messages(m)) <= total_size(m)
}

/// The Zenoh-level counters of the Zenoh messages `z`; the per-kind byte
/// counters are not measured and stay zero.
pub open spec fn spec_zenoh_statistics(z: Seq<ZenohBody>) -> ZenohStatistics {
    ZenohStatistics {
        total_data_payload: data_payload(z) as usize,
        total_query_paylaod: query_payload(z) as usize,
        total_data: count_zenoh(z, ZenohKind::Data) as usize,
        total_data_bytes: 0,
        total_unit: count_zenoh(z, ZenohKind::Unit) as usize,
        total_unit_bytes: 0,
        total_pull: count_zenoh(z, ZenohKind::Pull) as usize,
        total_pull_bytes: 0,
        total_query: count_zenoh(z, ZenohKind::Query) as usize,
        total_query_bytes: 0,
        total_declare: count_zenoh(z, ZenohKind::Declare) as usize,
        total_declare_bytes: 0,
        total_linkstate: count_zenoh(z, ZenohKind::LinkStateList) as usize,
        total_linkstate_bytes: 0,
    }
}

/// The transport-level counters of the transport messages `m`; the per-kind
/// byte counters are not measured and stay zero.
pub open spec fn spec_transport_statistics(m: Seq<SizedTransportMessage>) -> TransportStatistics {
    TransportStatistics {
        total_frames: count_transport(m, TransportKind::Frame) as usize,
        total_frames_bytes: 0,
        total_initsyn: count_transport(m, TransportKind::InitSyn) as usize,
        total_initsyn_bytes: 0,
        total_initack: count_transport(m, TransportKind::InitAck) as usize,
        total_initack_bytes: 0,
        total_opensyn: count_transport(m, TransportKind::OpenSyn) as usize,
        total_opensyn_bytes: 0,
        total_openack: count_transport(m, TransportKind::OpenAck) as usize,
        total_openack_bytes: 0,
        total_join: count_transport(m, TransportKind::Join) as usize,
        total_join_bytes: 0,
        total_close: count_transport(m, TransportKind::Close) as usize,
        total_close_bytes: 0,
        total_keepalive: count_transport(m, TransportKind::KeepAlive) as usize,
        total_keepalive_bytes: 0,
        total_tx_msgs: m.len() as usize,
        total_bytes: total_size(m) as usize,
    }
}

/// The statistics of the session whose transport messages are `m`.
pub open spec fn spec_session_statistics(m: Seq<SizedTransportMessage>) -> SessionStatistics {
    let z = zenoh_messages(m);
    SessionStatistics {
        zenoh: spec_zenoh_statistics(z),
        transport: spec_transport_statistics(m),
        overhead: (total_size(m) - data_payload(z) - query_payload(z)) as usize,
    }
}

proof fn lemma_count_transport_le(m: Seq<SizedTransportMessage>, k: TransportKind)
    ensures
        count_transport(m, k) <= m.len(),
    decreases m.len(),
{
    if m.len() > 0 {
        lemma_count_transport_le(m.drop_last(), k);
    }
}

proof fn lemma_count_zenoh_le(z: Seq<ZenohBody>, k: ZenohKind)
    ensures
        count_zenoh(z, k) <= z.len(),
    decreases z.len(),
{
    if z.len() > 0 {
        lemma_count_zenoh_le(z.drop_last(), k);
    }
}

proof fn lemma_total_size_prefix(m: Seq<SizedTransportMessage>, i: int)
    requires
        0 <= i <= m.len(),
    ensures
        total_size(m.take(i)) <= total_size(m),
    decreases m.len(),
{
    if i < m.len() {
        assert(m.drop_last().take(i) =~= m.take(i));
        lemma_total_size_prefix(m.drop_last(), i);
    } else {
        assert(m.take(i) =~= m);
    }
}

proof fn lemma_data_payload_prefix(z: Seq<ZenohBody>, i: int)
    requires
        0 <= i <= z.len(),
    ensures
        data_payload(z.take(i)) <= data_payload(z),
    decreases z.len(),
{
    if i < z.len() {
        assert(z.drop_last().take(i) =~= z.take(i));
        lemma_data_payload_prefix(z.drop_last(), i);
    } else {
        assert(z.take(i) =~= z);
    }
}

proof fn lemma_query_payload_prefix(z: Seq<ZenohBody>, i: int)
    requires
        0 <= i <= z.len(),
    ensures
        query_payload(z.take(i)) <= query_payload(z),
    decreases z.len(),
{
    if i < z.len() {
        assert(z.drop_last().take(i) =~= z.take(i));
        lemma_query_payload_prefix(z.drop_last(), i);
    } else {
        assert(z.take(i) =~= z);
    }
}

/// The transport-level pass: counts the transport messages by kind, sums
/// their sizes and gathers the Zenoh messages that their frames carry. `None`
/// where the sum of the sizes exceeds `usize::MAX`.
fn transport_pass(msgs: &Vec<SizedTransportMessage>) -> (res: Option<(TransportStatistics, Vec<ZenohBody>)>)
    ensures
        match res {
            Some((st, zmsgs)) => {
                &&& total_size(msgs@) <= usize::MAX
                &&& st == spec_transport_statistics(msgs@)
                &&& zmsgs@ == zenoh_messages(msgs@)
            },
            None => total_size(msgs@) > usize::MAX,
        },
{
    let ghost m = msgs@;
    let mut total_bytes: usize = 0;
    let mut frames: usize = 0;
    let mut initsyn: usize = 0;
    let mut initack: usize = 0;
    let mut opensyn: usize = 0;
    let mut openack: usize = 0;
    let mut join: usize = 0;
    let mut close: usize = 0;
    let mut keepalive: usize = 0;
    let mut zmsgs: Vec<ZenohBody> = Vec::new();
    let mut i: usize = 0;
    assert(m.take(0) =~= Seq::<SizedTransportMessage>::empty());
    while i < msgs.len()
        invariant
            m == msgs@,
            i <= m.len(),
            total_bytes == total_size(m.take(i as int)),
            zmsgs@ == zenoh_messages(m.take(i as int)),
            frames == count_transport(m.take(i as int), TransportKind::Frame),
            initsyn == count_transport(m.take(i as int), TransportKind::InitSyn),
            initack == count_transport(m.take(i as int), TransportKind::InitAck),
            opensyn == count_transport(m.take(i as int), TransportKind::OpenSyn),
            openack == count_transport(m.take(i as int), TransportKind::OpenAck),
            join == count_transport(m.take(i as int), TransportKind::Join),
            close == count_transport(m.take(i as int), TransportKind::Close),
            keepalive == count_transport(m.take(i as int), TransportKind::KeepAlive),
        decreases m.len() - i,
    {
        let ghost t = m.take(i as int);
        let ghost t1 = m.take(i + 1);
        assert(t1.drop_last() =~= t);
        assert(t1.last() == m[i as int]);
        proof {
            lemma_count_transport_le(t, TransportKind::Frame);
            lemma_count_transport_le(t, TransportKind::InitSyn);
            lemma_count_transport_le(t, TransportKind::InitAck);
            lemma_count_transport_le(t, TransportKind::OpenSyn);
            lemma_count_transport_le(t, TransportKind::OpenAck);
            lemma_count_transport_le(t, TransportKind::Join);
            lemma_count_transport_le(t, TransportKind::Close);
            lemma_count_transport_le(t, TransportKind::KeepAlive);
        }
        let msg = &msgs[i];
        match total_bytes.checked_add(msg.1) {
            Some(b) => {
                total_bytes = b;
            },
            None => {
                proof {
                    lemma_total_size_prefix(m, i + 1);
                }
                return None;
            },
        }
        match &msg.0 {
            TransportBody::Frame(payload) => {
                frames = frames + 1;
                match payload {
                    FramePayload::Messages(messages) => {
                        let ghost before = zmsgs@;
                        let mut j: usize = 0;
                        while j < messages.len()
                            invariant
                                j <= messages@.len(),
                                zmsgs@ == before + messages@.take(j as int),
                            decreases messages@.len() - j,
                        {
                            zmsgs.push(messages[j]);
                            assert(messages@.take(j + 1) =~= messages@.take(j as int).push(
                                messages@[j as int],
                            ));
                            assert(zmsgs@ =~= before + messages@.take(j + 1));
                            j = j + 1;
                        }
                        assert(messages@.take(j as int) =~= messages@);
                    },
                    FramePayload::Fragment => {
                        assert(zmsgs@ =~= zmsgs@ + Seq::<ZenohBody>::empty());
                    },
                }
            },
            TransportBody::InitSyn => {
                initsyn = initsyn + 1;
                assert(zmsgs@ =~= zmsgs@ + Seq::<ZenohBody>::empty());
            },
            TransportBody::InitAck => {
                initack = initack + 1;
                assert(zmsgs@ =~= zmsgs@ + Seq::<ZenohBody>::empty());
            },
            TransportBody::OpenSyn => {
                opensyn = opensyn + 1;
                assert(zmsgs@ =~= zmsgs@ + Seq::<ZenohBody>::empty());
            },
            TransportBody::OpenAck => {
                openack = openack + 1;
                assert(zmsgs@ =~= zmsgs@ + Seq::<ZenohBody>::empty());
            },
            TransportBody::Join => {
                join = join + 1;
                assert(zmsgs@ =~= zmsgs@ + Seq::<ZenohBody>::empty());
            },
            TransportBody::Close => {
                close = close + 1;
                assert(zmsgs@ =~= zmsgs@ + Seq::<ZenohBody>::empty());
            },
            TransportBody::KeepAlive => {
                keepalive = keepalive + 1;
                assert(zmsgs@ =~= zmsgs@ + Seq::<ZenohBody>::empty());
            },
        }
        i = i + 1;
    }
    assert(m.take(i as int) =~= m);
    let st = TransportStatistics {
        total_frames: frames,
        total_frames_bytes: 0,
        total_initsyn: initsyn,
        total_initsyn_bytes: 0,
        total_initack: initack,
        total_initack_bytes: 0,
        total_opensyn: opensyn,
        total_opensyn_bytes: 0,
        total_openack: openack,
        total_openack_bytes: 0,
        total_join: join,
        total_join_bytes: 0,
        total_close: close,
        total_close_bytes: 0,
        total_keepalive: keepalive,
        total_keepalive_bytes: 0,
        total_tx_msgs: i,
        total_bytes,
    };
    Some((st, zmsgs))
}

/// The Zenoh-level pass: counts the Zenoh messages by kind and sums the
/// payloads of data messages and of query bodies. `None` where a sum exceeds
/// `usize::MAX`.
fn zenoh_pass(zmsgs: &Vec<ZenohBody>) -> (res: Option<ZenohStatistics>)
    ensures
        match res {
            Some(st) => {
                &&& data_payload(zmsgs@) <= usize::MAX
                &&& query_payload(zmsgs@) <= usize::MAX
                &&& st == spec_zenoh_statistics(zmsgs@)
            },
            None => data_payload(zmsgs@) > usize::MAX || query_payload(zmsgs@) > usize::MAX,
        },
{
    let ghost z = zmsgs@;
    let mut total_payload: usize = 0;
    let mut total_query_payload: usize = 0;
    let mut total_data: usize = 0;
    let mut total_unit: usize = 0;
    let mut total_pull: usize = 0;
    let mut total_query: usize = 0;
    let mut total_declare: usize = 0;
    let mut total_linkstate: usize = 0;
    let mut j: usize = 0;
    assert(z.take(0) =~= Seq::<ZenohBody>::empty());
    while j < zmsgs.len()
        invariant
            z == zmsgs@,
            j <= z.len(),
            total_payload == data_payload(z.take(j as int)),
            total_query_payload == query_payload(z.take(j as int)),
            total_data == count_zenoh(z.take(j as int), ZenohKind::Data),
            total_unit == count_zenoh(z.take(j as int), ZenohKind::Unit),
            total_pull == count_zenoh(z.take(j as int), ZenohKind::Pull),
            total_query == count_zenoh(z.take(j as int), ZenohKind::Query),
            total_declare == count_zenoh(z.take(j as int), ZenohKind::Declare),
            total_linkstate == count_zenoh(z.take(j as int), ZenohKind::LinkStateList),
        decreases z.len() - j,
    {
        let ghost t = z.take(j as int);
        let ghost t1 = z.take(j + 1);
        assert(t1.drop_last() =~= t);
        assert(t1.last() == z[j as int]);
        proof {
            lemma_count_zenoh_le(t, ZenohKind::Data);
            lemma_count_zenoh_le(t, ZenohKind::Unit);
            lemma_count_zenoh_le(t, ZenohKind::Pull);
            lemma_count_zenoh_le(t, ZenohKind::Query);
            lemma_count_zenoh_le(t, ZenohKind::Declare);
            lemma_count_zenoh_le(t, ZenohKind::LinkStateList);
        }
        match zmsgs[j] {
            ZenohBody::Data { payload_len } => {
                total_data = total_data + 1;
                match total_payload.checked_add(payload_len) {
                    Some(p) => {
                        total_payload = p;
                    },
                    None => {
                        proof {
                            lemma_data_payload_prefix(z, j + 1);
                        }
                        return None;
                    },
                }
            },
            ZenohBody::Unit => {
                total_unit = total_unit + 1;
            },
            ZenohBody::Pull => {
                total_pull = total_pull + 1;
            },
            ZenohBody::Query { body_payload_len } => {
                total_query = total_query + 1;
                match body_payload_len {
                    Some(len) => {
                        match total_query_payload.checked_add(len) {
                            Some(p) => {
                                total_query_payload = p;
                            },
                            None => {
                                proof {
                                    lemma_query_payload_prefix(z, j + 1);
                                }
                                return None;
                            },
                        }
                    },
                    None => {},
                }
            },
            ZenohBody::Declare => {
                total_declare = total_declare + 1;
            },
            ZenohBody::LinkStateList => {
                total_linkstate = total_linkstate + 1;
            },
        }
        j = j + 1;
    }
    assert(z.take(j as int) =~= z);
    Some(
        ZenohStatistics {
            total_data_payload: total_payload,
            total_query_paylaod: total_query_payload,
            total_data,
            total_data_bytes: 0,
            total_unit,
            total_unit_bytes: 0,
            total_pull,
            total_pull_bytes: 0,
            total_query,
            total_query_bytes: 0,
            total_declare,
            total_declare_bytes: 0,
            total_linkstate,
            total_linkstate_bytes: 0,
        },
    )
}

/// Computes the statistics of a session from its decoded transport messages:
/// every transport message is counted by kind and its size added to the total,
/// the Zenoh messages that frames carry whole are counted by kind, and the
/// payloads of data messages and query bodies are summed; the overhead is what
/// remains of the total. `None` exactly where a sum exceeds `usize::MAX` or
/// the payloads exceed the total.
pub fn session_statistics(msgs: &Vec<SizedTransportMessage>) -> (res: Option<SessionStatistics>)
    ensures
        res == (if statistics_defined(msgs@) {
            Some(spec_session_statistics(msgs@))
        } else {
            None
        }),
{
    let (transport, zmsgs) = match transport_pass(msgs) {
        Some(r) => r,
        None => {
            return None;
        },
    };
    let zenoh = match zenoh_pass(&zmsgs) {
        Some(z) => z,
        None => {
            return None;
        },
    };
    let total_bytes = transport.total_bytes;
    if zenoh.total_data_payload > total_bytes || zenoh.total_query_paylaod > total_bytes
        - zenoh.total_data_payload {
        return None;
    }
    let overhead = total_bytes - zenoh.total_data_payload - zenoh.total_query_paylaod;
    Some(SessionStatistics { zenoh, transport, overhead })
}

/// Computes the statistics of every session, each from its decoded transport
/// messages, and keeps each with its key. `None` exactly where the statistics
/// of some session are not defined.
pub fn analyze_zenoh_tcp(sessions: &Vec<(SessionKey, Vec<SizedTransportMessage>)>) -> (res: Option<
    Vec<(SessionKey, SessionStatistics)>,
>)
    ensures
        res is Some <==> forall|i: int|
            0 <= i < sessions@.len() ==> statistics_defined(#[trigger] sessions@[i].1@),
        res matches Some(r) ==> {
            &&& r@.len() == sessions@.len()
            &&& forall|i: int|
                0 <= i < r@.len() ==> (#[trigger] r@[i]).0 == sessions@[i].0 && r@[i].1
                    == spec_session_statistics(sessions@[i].1@)
        },
{
    let mut out: Vec<(SessionKey, SessionStatistics)> = Vec::new();
    let mut i: usize = 0;
    while i < sessions.len()
        invariant
            i <= sessions@.len(),
            out@.len() == i,
            forall|j: int| 0 <= j < i ==> statistics_defined(#[trigger] sessions@[j].1@),
            forall|j: int|
                0 <= j < i ==> (#[trigger] out@[j]).0 == sessions@[j].0 && out@[j].1
                    == spec_session_statistics(sessions@[j].1@),
        decreases sessions@.len() - i,
    {
        let entry = &sessions[i];
        match session_statistics(&entry.1) {
            Some(st) => {
                out.push((entry.0, st));
            },
            None => {
                return None;
            },
        }
        i = i + 1;
    }
    Some(out)
}

/// The overhead of a session measured against the raw length of its stream,
/// length prefixes included: what remains of `stream_len` bytes after the
/// payloads of data messages and query bodies. `None` where the payloads
/// exceed the stream.
pub fn stream_overhead(stream_len: usize, stats: &SessionStatistics) -> (res: Option<usize>)
    ensures
        match res {
            Some(o) => o == stream_len - stats.zenoh.total_data_payload
                - stats.zenoh.total_query_paylaod,
            None => stats.zenoh.total_data_payload + stats.zenoh.total_query_paylaod > stream_len,
        },
{
    if stats.zenoh.total_data_payload > stream_len || stats.zenoh.total_query_paylaod > stream_len
        - stats.zenoh.total_data_payload {
        None
    } else {
        Some(stream_len - stats.zenoh.total_data_payload - stats.zenoh.total_query_paylaod)
    }
}

proof fn lemma_transport_kinds_partition(m: Seq<SizedTransportMessage>)
    ensures
        count_transport(m, TransportKind::Frame) + count_transport(m, TransportKind::InitSyn)
            + count_transport(m, TransportKind::InitAck) + count_transport(m, TransportKind::OpenSyn)
            + count_transport(m, TransportKind::OpenAck) + count_transport(m, TransportKind::Join)
            + count_transport(m, TransportKind::Close) + count_transport(m, TransportKind::KeepAlive)
            == m.len(),
    decreases m.len(),
{
    if m.len() > 0 {
        lemma_transport_kinds_partition(m.drop_last());
    }
}

proof fn lemma_zenoh_kinds_partition(z: Seq<ZenohBody>)
    ensures
        count_zenoh(z, ZenohKind::Data) + count_zenoh(z, ZenohKind::Unit) + count_zenoh(
            z,
            ZenohKind::Pull,
        ) + count_zenoh(z, ZenohKind::Query) + count_zenoh(z, ZenohKind::Declare) + count_zenoh(
            z,
            ZenohKind::LinkStateList,
        ) == z.len(),
    decreases z.len(),
{
    if z.len() > 0 {
        lemma_zenoh_kinds_partition(z.drop_last());
    }
}

/// Every message of a session is counted once: the transport counters add up
/// to the number of transport messages, the Zenoh counters to the number of
/// Zenoh messages that its frames carry, and the overhead and the two
/// payload totals add up to the total number of bytes.
pub proof fn law_statistics_account_for_every_message(m: Seq<SizedTransportMessage>)
    requires
        statistics_defined(m),
        m.len() <= usize::MAX,
        zenoh_messages(m).len() <= usize::MAX,
    ensures
        ({
            let st = spec_session_statistics(m);
            &&& st.transport.total_frames + st.transport.total_initsyn + st.transport.total_initack
                + st.transport.total_opensyn + st.transport.total_openack + st.transport.total_join
                + st.transport.total_close + st.transport.total_keepalive
                == st.transport.total_tx_msgs
            &&& st.zenoh.total_data + st.zenoh.total_unit + st.zenoh.total_pull + st.zenoh.total_query
                + st.zenoh.total_declare + st.zenoh.total_linkstate == zenoh_messages(m).len()
            &&& st.overhead + st.zenoh.total_data_payload + st.zenoh.total_query_paylaod
                == st.transport.total_bytes
        }),
{
    let z = zenoh_messages(m);
    lemma_transport_kinds_partition(m);
    lemma_zenoh_kinds_partition(z);
    lemma_count_transport_le(m, TransportKind::Frame);
    lemma_count_transport_le(m, TransportKind::InitSyn);
    lemma_count_transport_le(m, TransportKind::InitAck);
    lemma_count_transport_le(m, TransportKind::OpenSyn);
    lemma_count_transport_le(m, TransportKind::OpenAck);
    lemma_count_transport_le(m, TransportKind::Join);
    lemma_count_transport_le(m, TransportKind::Close);
    lemma_count_transport_le(m, TransportKind::KeepAlive);
    lemma_count_zenoh_le(z, ZenohKind::Data);
    lemma_count_zenoh_le(z, ZenohKind::Unit);
    lemma_count_zenoh_le(z, ZenohKind::Pull);
    lemma_count_zenoh_le(z, ZenohKind::Query);
    lemma_count_zenoh_le(z, ZenohKind::Declare);
    lemma_count_zenoh_le(z, ZenohKind::LinkStateList);
}

proof fn lemma_zenoh_sums_additive(x: Seq<ZenohBody>, y: Seq<ZenohBody>)
    ensures
        forall|k: ZenohKind| #[trigger] count_zenoh(x + y, k) == count_zenoh(x, k) + count_zenoh(y, k),
        data_payload(x + y) == data_payload(x) + data_payload(y),
        query_payload(x + y) == query_payload(x) + query_payload(y),
    decreases y.len(),
{
    if y.len() == 0 {
        assert(x + y =~= x);
        assert forall|k: ZenohKind| #[trigger] count_zenoh(x + y, k) == count_zenoh(x, k) + count_zenoh(y, k) by {
        }
    } else {
        lemma_zenoh_sums_additive(x, y.drop_last());
        assert((x + y).drop_last() =~= x + y.drop_last());
        assert((x + y).last() == y.last());
        assert forall|k: ZenohKind| #[trigger] count_zenoh(x + y, k) == count_zenoh(x, k) + count_zenoh(y, k) by {
            assert(count_zenoh(x + y.drop_last(), k) == count_zenoh(x, k) + count_zenoh(y.drop_last(), k));
        }
    }
}

proof fn lemma_transport_sums_additive(a: Seq<SizedTransportMessage>, b: Seq<SizedTransportMessage>)
    ensures
        forall|k: TransportKind| #[trigger] count_transport(a + b, k) == count_transport(a, k) + count_transport(b, k),
        total_size(a + b) == total_size(a) + total_size(b),
        zenoh_messages(a + b) == zenoh_messages(a) + zenoh_messages(b),
    decreases b.len(),
{
    if b.len() == 0 {
        assert(a + b =~= a);
        assert(zenoh_messages(a) + zenoh_messages(b) =~= zenoh_messages(a));
        assert forall|k: TransportKind| #[trigger] count_transport(a + b, k) == count_transport(a, k) + count_transport(b, k) by {
        }
    } else {
        lemma_transport_sums_additive(a, b.drop_last());
        assert((a + b).drop_last() =~= a + b.drop_last());
        assert((a + b).last() == b.last());
        assert(zenoh_messages(a + b) =~= zenoh_messages(a) + zenoh_messages(b));
        assert forall|k: TransportKind| #[trigger] count_transport(a + b, k) == count_transport(a, k) + count_transport(b, k) by {
            assert(count_transport(a + b.drop_last(), k) == count_transport(a, k) + count_transport(b.drop_last(), k));
        }
    }
}

/// The statistics of two captures of a session taken one after the other are
/// the sums of their statistics: counters, byte totals, payloads and the
/// carried Zenoh messages all add up over concatenation.
pub proof fn law_statistics_are_additive(a: Seq<SizedTransportMessage>, b: Seq<SizedTransportMessage>)
    ensures
        forall|k: TransportKind| #[trigger] count_transport(a + b, k) == count_transport(a, k) + count_transport(b, k),
        total_size(a + b) == total_size(a) + total_size(b),
        zenoh_messages(a + b) == zenoh_messages(a) + zenoh_messages(b),
        forall|k: ZenohKind| #[trigger] count_zenoh(zenoh_messages(a + b), k) == count_zenoh(zenoh_messages(a), k) + count_zenoh(zenoh_messages(b), k),
        data_payload(zenoh_messages(a + b)) == data_payload(zenoh_messages(a)) + data_payload(zenoh_messages(b)),
        query_payload(zenoh_messages(a + b)) == query_payload(zenoh_messages(a)) + query_payload(zenoh_messages(b)),
{
    lemma_transport_sums_additive(a, b);
    lemma_zenoh_sums_additive(zenoh_messages(a), zenoh_messages(b));
}

proof fn lemma_count_transport_filter(
    m: Seq<SizedTransportMessage>,
    k: TransportKind,
    pred: spec_fn(SizedTransportMessage) -> bool,
)
    requires
        forall|x: SizedTransportMessage| #[trigger] pred(x) == (transport_kind(x.0) == k),
    ensures
        count_transport(m, k) == m.filter(pred).len(),
    decreases m.len(),
{
    reveal(Seq::filter);
    if m.len() > 0 {
        lemma_count_transport_filter(m.drop_last(), k, pred);
    }
}

proof fn lemma_count_zenoh_filter(z: Seq<ZenohBody>, k: ZenohKind, pred: spec_fn(ZenohBody) -> bool)
    requires
        forall|x: ZenohBody| #[trigger] pred(x) == (zenoh_kind(x) == k),
    ensures
        count_zenoh(z, k) == z.filter(pred).len(),
    decreases z.len(),
{
    reveal(Seq::filter);
    if z.len() > 0 {
        lemma_count_zenoh_filter(z.drop_last(), k, pred);
    }
}

/// Each transport counter counts the messages of its own kind: the number of
/// frames is the number of messages whose body is a frame, the number of
/// InitSyn messages the number whose body is an InitSyn, and so on for every
/// kind; the number of transmitted messages is the number of messages.
pub proof fn law_transport_counters_count_their_kind(m: Seq<SizedTransportMessage>)
    requires
        m.len() <= usize::MAX,
    ensures
        ({
            let st = spec_session_statistics(m).transport;
            &&& st.total_frames == m.filter(|x: SizedTransportMessage| x.0 is Frame).len()
            &&& st.total_initsyn == m.filter(|x: SizedTransportMessage| x.0 is InitSyn).len()
            &&& st.total_initack == m.filter(|x: SizedTransportMessage| x.0 is InitAck).len()
            &&& st.total_opensyn == m.filter(|x: SizedTransportMessage| x.0 is OpenSyn).len()
            &&& st.total_openack == m.filter(|x: SizedTransportMessage| x.0 is OpenAck).len()
            &&& st.total_join == m.filter(|x: SizedTransportMessage| x.0 is Join).len()
            &&& st.total_close == m.filter(|x: SizedTransportMessage| x.0 is Close).len()
            &&& st.total_keepalive == m.filter(|x: SizedTransportMessage| x.0 is KeepAlive).len()
            &&& st.total_tx_msgs == m.len()
        }),
{
    lemma_count_transport_le(m, TransportKind::Frame);
    lemma_count_transport_le(m, TransportKind::InitSyn);
    lemma_count_transport_le(m, TransportKind::InitAck);
    lemma_count_transport_le(m, TransportKind::OpenSyn);
    lemma_count_transport_le(m, TransportKind::OpenAck);
    lemma_count_transport_le(m, TransportKind::Join);
    lemma_count_transport_le(m, TransportKind::Close);
    lemma_count_transport_le(m, TransportKind::KeepAlive);
    lemma_count_transport_filter(m, TransportKind::Frame, |x: SizedTransportMessage| x.0 is Frame);
    lemma_count_transport_filter(m, TransportKind::InitSyn, |x: SizedTransportMessage| x.0 is InitSyn);
    lemma_count_transport_filter(m, TransportKind::InitAck, |x: SizedTransportMessage| x.0 is InitAck);
    lemma_count_transport_filter(m, TransportKind::OpenSyn, |x: SizedTransportMessage| x.0 is OpenSyn);
    lemma_count_transport_filter(m, TransportKind::OpenAck, |x: SizedTransportMessage| x.0 is OpenAck);
    lemma_count_transport_filter(m, TransportKind::Join, |x: SizedTransportMessage| x.0 is Join);
    lemma_count_transport_filter(m, TransportKind::Close, |x: SizedTransportMessage| x.0 is Close);
    lemma_count_transport_filter(m, TransportKind::KeepAlive, |x: SizedTransportMessage| x.0 is KeepAlive);
}

/// Each Zenoh counter counts the carried Zenoh messages of its own kind: the
/// number of data messages is the number of carried messages that are data,
/// the number of unit messages the number that are units, and so on for
/// every kind.
pub proof fn law_zenoh_counters_count_their_kind(m: Seq<SizedTransportMessage>)
    requires
        zenoh_messages(m).len() <= usize::MAX,
    ensures
        ({
            let st = spec_session_statistics(m).zenoh;
            let z = zenoh_messages(m);
            &&& st.total_data == z.filter(|x: ZenohBody| x is Data).len()
            &&& st.total_unit == z.filter(|x: ZenohBody| x is Unit).len()
            &&& st.total_pull == z.filter(|x: ZenohBody| x is Pull).len()
            &&& st.total_query == z.filter(|x: ZenohBody| x is Query).len()
            &&& st.total_declare == z.filter(|x: ZenohBody| x is Declare).len()
            &&& st.total_linkstate == z.filter(|x: ZenohBody| x is LinkStateList).len()
        }),
{
    let z = zenoh_messages(m);
    lemma_count_zenoh_le(z, ZenohKind::Data);
    lemma_count_zenoh_le(z, ZenohKind::Unit);
    lemma_count_zenoh_le(z, ZenohKind::Pull);
    lemma_count_zenoh_le(z, ZenohKind::Query);
    lemma_count_zenoh_le(z, ZenohKind::Declare);
    lemma_count_zenoh_le(z, ZenohKind::LinkStateList);
    lemma_count_zenoh_filter(z, ZenohKind::Data, |x: ZenohBody| x is Data);
    lemma_count_zenoh_filter(z, ZenohKind::Unit, |x: ZenohBody| x is Unit);
    lemma_count_zenoh_filter(z, ZenohKind::Pull, |x: ZenohBody| x is Pull);
    lemma_count_zenoh_filter(z, ZenohKind::Query, |x: ZenohBody| x is Query);
    lemma_count_zenoh_filter(z, ZenohKind::Declare, |x: ZenohBody| x is Declare);
    lemma_count_zenoh_filter(z, ZenohKind::LinkStateList, |x: ZenohBody| x is LinkStateList);
}

proof fn lemma_payloads_without_kind(z: Seq<ZenohBody>)
    ensures
        (forall|i: int| 0 <= i < z.len() ==> !(#[trigger] z[i] is Data)) ==> data_payload(z) == 0,
        (forall|i: int| 0 <= i < z.len() ==> !(#[trigger] z[i] is Query)) ==> query_payload(z) == 0,
    decreases z.len(),
{
    if z.len() > 0 {
        lemma_payloads_without_kind(z.drop_last());
        assert(z.last() == z[z.len() - 1]);
        assert forall|i: int| 0 <= i < z.drop_last().len() implies z.drop_last()[i] == z[i] by {}
    }
}

/// The data payload is the payload of data messages and the query payload
/// that of query bodies: a session that carries no data message has no data
/// payload, and one that carries no query has no query payload.
pub proof fn law_payloads_belong_to_their_kind(m: Seq<SizedTransportMessage>)
    requires
        statistics_defined(m),
    ensures
        ({
            let st = spec_session_statistics(m).zenoh;
            let z = zenoh_messages(m);
            &&& (forall|i: int| 0 <= i < z.len() ==> !(#[trigger] z[i] is Data)) ==> st.total_data_payload == 0
            &&& (forall|i: int| 0 <= i < z.len() ==> !(#[trigger] z[i] is Query)) ==> st.total_query_paylaod == 0
            &&& st.total_data_payload + st.total_query_paylaod + spec_session_statistics(m).overhead
                == total_size(m)
        }),
{
    lemma_payloads_without_kind(zenoh_messages(m));
}

} // verus!
