//! The decisions of the benchmark nodes: their settings, the key expressions
//! and locators they use, when a ping source waits, and what a fan-in
//! operator forwards.
use vstd::prelude::*;
use vstd::string::StringExecFns;
use rand::rngs::ThreadRng;
use rand::Rng;
use crate::config::{
    bool_setting, has_bool_setting, has_u64_setting, setting_bool, setting_u64, u64_setting,
    ConfigValue,
};
use crate::data::Latency;
use crate::report::{decimal, decimal_string};

verus! {

#[verifier::external_type_specification]
#[verifier::external_body]
pub struct ExThreadRng(ThreadRng);

/// The port name of the latency nodes.
pub const LAT_PORT: &'static str = "Data";

/// The port name of the throughput nodes.
pub const THR_PORT: &'static str = "Data";

/// The key expression on which pong sinks answer ping sources.
pub const PONG_KEY_EXPR: &'static str = "test/latency/zf/pong";

/// The key expression of the pongs in the nodes of the earlier node API.
pub const LEGACY_PONG_KEY_EXPR: &'static str = "/test/latency/zf/pong";

/// The name of a scenario: whether its nodes run in several runtimes.
pub open spec fn scenario_name(multi: bool) -> Seq<char> {
    if multi {
        "multi"@
    } else {
        "single"@
    }
}

/// The layer that the printing operator reports.
pub open spec fn operator_layer_name(multi: bool) -> Seq<char> {
    if multi {
        "zf-src-op-multi"@
    } else {
        "zf-src-op"@
    }
}

/// Writes the name of a scenario.
pub fn scenario(multi: bool) -> (s: String)
    ensures
        s@ == scenario_name(multi),
{
    if multi {
        "multi".to_owned()
    } else {
        "single".to_owned()
    }
}

/// The settings of a latency sink.
pub struct LatSinkSettings {
    pub pipeline: u64,
    pub messages: u64,
}

/// Reads the settings of a latency sink: `pipeline` and `msgs`, both 1 by
/// default.
pub fn lat_sink_settings(conf: &Option<ConfigValue>) -> (s: LatSinkSettings)
    requires
        has_u64_setting(*conf, "pipeline"@),
        has_u64_setting(*conf, "msgs"@),
    ensures
        s.pipeline == setting_u64(*conf, "pipeline"@, 1),
        s.messages == setting_u64(*conf, "msgs"@, 1),
{
    let pipeline = u64_setting(conf, "pipeline", 1);
    let messages = u64_setting(conf, "msgs", 1);
    LatSinkSettings { pipeline, messages }
}

/// The settings of a pong sink, or of the printing operator.
pub struct PongSinkSettings {
    pub pipeline: u64,
    pub msgs: u64,
    pub layer: String,
}

/// Reads the settings of a pong sink: `pipeline` and `msgs`, both 1 by
/// default, and the scenario named after `multi`, false by default.
pub fn pong_sink_settings(conf: &Option<ConfigValue>) -> (s: PongSinkSettings)
    requires
        has_u64_setting(*conf, "pipeline"@),
        has_u64_setting(*conf, "msgs"@),
        has_bool_setting(*conf, "multi"@),
    ensures
        s.pipeline == setting_u64(*conf, "pipeline"@, 1),
        s.msgs == setting_u64(*conf, "msgs"@, 1),
        s.layer@ == scenario_name(setting_bool(*conf, "multi"@, false)),
{
    let pipeline = u64_setting(conf, "pipeline", 1);
    let msgs = u64_setting(conf, "msgs", 1);
    let multi = bool_setting(conf, "multi", false);
    PongSinkSettings { pipeline, msgs, layer: scenario(multi) }
}

/// Reads the settings of the printing operator: as those of a pong sink, but
/// with its own layer names.
pub fn noop_print_settings(conf: &Option<ConfigValue>) -> (s: PongSinkSettings)
    requires
        has_u64_setting(*conf, "pipeline"@),
        has_u64_setting(*conf, "msgs"@),
        has_bool_setting(*conf, "multi"@),
    ensures
        s.pipeline == setting_u64(*conf, "pipeline"@, 1),
        s.msgs == setting_u64(*conf, "msgs"@, 1),
        s.layer@ == operator_layer_name(setting_bool(*conf, "multi"@, false)),
{
    let pipeline = u64_setting(conf, "pipeline", 1);
    let msgs = u64_setting(conf, "msgs", 1);
    let multi = bool_setting(conf, "multi", false);
    let layer = if multi {
        "zf-src-op-multi".to_owned()
    } else {
        "zf-src-op".to_owned()
    };
    PongSinkSettings { pipeline, msgs, layer }
}

/// Reads the payload size of a throughput node: `payload_size`, 8 by
/// default.
pub fn payload_size_setting(conf: &Option<ConfigValue>) -> (n: usize)
    requires
        has_u64_setting(*conf, "payload_size"@),
    ensures
        n == setting_u64(*conf, "payload_size"@, 8) as usize,
{
    u64_setting(conf, "payload_size", 8) as usize
}

/// The settings of a throughput sink.
pub struct ThrSinkSettings {
    pub payload_size: usize,
    pub scenario: String,
}

/// Reads the settings of a throughput sink: `payload_size`, 8 by default,
/// and the scenario named after `multi`, false by default.
pub fn thr_sink_settings(conf: &Option<ConfigValue>) -> (s: ThrSinkSettings)
    requires
        has_u64_setting(*conf, "payload_size"@),
        has_bool_setting(*conf, "multi"@),
    ensures
        s.payload_size == setting_u64(*conf, "payload_size"@, 8) as usize,
        s.scenario@ == scenario_name(setting_bool(*conf, "multi"@, false)),
{
    let payload_size = payload_size_setting(conf);
    let multi = bool_setting(conf, "multi", false);
    ThrSinkSettings { payload_size, scenario: scenario(multi) }
}

/// The settings of a pong sink of the scalability tests.
pub struct ScalPongSinkSettings {
    pub nodes: u64,
    pub msgs: u64,
    pub node_id: u64,
    pub mode: u64,
    /// Whether the sink measures the latency itself, rather than reporting
    /// the one that an operator upstream measured.
    pub diff: bool,
    pub layer: String,
}

/// Reads the settings of a scalability pong sink: `nodes` and `msgs`, 1 by
/// default, `id`, 0 by default, `mode`, 1 (fan-in) by default, and `multi`,
/// false by default. The sink measures the latency itself in every mode but
/// fan-in.
pub fn scal_pong_sink_settings(conf: &Option<ConfigValue>) -> (s: ScalPongSinkSettings)
    requires
        has_u64_setting(*conf, "nodes"@),
        has_u64_setting(*conf, "msgs"@),
        has_u64_setting(*conf, "id"@),
        has_u64_setting(*conf, "mode"@),
        has_bool_setting(*conf, "multi"@),
    ensures
        s.nodes == setting_u64(*conf, "nodes"@, 1),
        s.msgs == setting_u64(*conf, "msgs"@, 1),
        s.node_id == setting_u64(*conf, "id"@, 0),
        s.mode == setting_u64(*conf, "mode"@, 1),
        s.diff == (s.mode != 1),
        s.layer@ == scenario_name(setting_bool(*conf, "multi"@, false)),
{
    let nodes = u64_setting(conf, "nodes", 1);
    let msgs = u64_setting(conf, "msgs", 1);
    let node_id = u64_setting(conf, "id", 0);
    let mode = u64_setting(conf, "mode", 1);
    let multi = bool_setting(conf, "multi", false);
    ScalPongSinkSettings { nodes, msgs, node_id, mode, diff: mode != 1, layer: scenario(multi) }
}

/// The settings of a ping source of the scalability tests.
pub struct ScalPingSourceSettings {
    pub nodes: u64,
    pub mode: u64,
}

/// Reads the settings of a scalability ping source: `nodes`, 1 by default,
/// and `mode`, 1 (fan-in) by default.
pub fn scal_ping_source_settings(conf: &Option<ConfigValue>) -> (s: ScalPingSourceSettings)
    requires
        has_u64_setting(*conf, "nodes"@),
        has_u64_setting(*conf, "mode"@),
    ensures
        s.nodes == setting_u64(*conf, "nodes"@, 1),
        s.mode == setting_u64(*conf, "mode"@, 1),
{
    let nodes = u64_setting(conf, "nodes", 1);
    let mode = u64_setting(conf, "mode", 1);
    ScalPingSourceSettings { nodes, mode }
}

/// The key expression of node `id` under `base`.
pub open spec fn node_key(base: Seq<char>, id: nat) -> Seq<char> {
    base + seq!['/'] + decimal(id)
}

/// Writes the key expression of node `id` under `base`.
pub fn node_key_expr(base: &str, id: u64) -> (k: String)
    ensures
        k@ == node_key(base@, id as nat),
{
    let mut k = base.to_owned();
    proof {
        reveal_strlit("/");
    }
    k.append("/");
    let d = decimal_string(id as u128);
    k.append(d.as_str());
    k
}

/// The key expressions on which a scalability ping source waits for pongs:
/// in fan-out mode (2) one per node, `0` to `nodes - 1`; in every other mode
/// the one of node `0`.
pub fn subscription_key_exprs(base: &str, nodes: u64, mode: u64) -> (keys: Vec<String>)
    ensures
        mode == 2 ==> keys@.len() == nodes && forall|i: int|
            0 <= i < nodes ==> #[trigger] keys@[i]@ == node_key(base@, i as nat),
        mode != 2 ==> keys@.len() == 1 && keys@[0]@ == node_key(base@, 0),
{
    let mut keys: Vec<String> = Vec::new();
    if mode == 2 {
        let mut i: u64 = 0;
        while i < nodes
            invariant
                i <= nodes,
                keys@.len() == i,
                forall|j: int| 0 <= j < i ==> #[trigger] keys@[j]@ == node_key(base@, j as nat),
            decreases nodes - i,
        {
            keys.push(node_key_expr(base, i));
            i = i + 1;
        }
    } else {
        keys.push(node_key_expr(base, 0));
    }
    keys
}

/// The locator on which a node listens on the loopback interface.
pub open spec fn tcp_locator_spec(port: nat) -> Seq<char> {
    "tcp/127.0.0.1:"@ + decimal(port)
}

/// Writes the locator on which a node listens on `port` of the loopback
/// interface.
pub fn tcp_locator(port: u64) -> (l: String)
    ensures
        l@ == tcp_locator_spec(port as nat),
{
    let mut l = "tcp/127.0.0.1:".to_owned();
    let d = decimal_string(port as u128);
    l.append(d.as_str());
    l
}

/// `rand::thread_rng`: the random number generator of the thread.
#[verifier::external_body]
fn thread_rng() -> ThreadRng {
    rand::thread_rng()
}

/// `Rng::gen_range` on the range `lo..hi`: a random number from `lo` up to,
/// not including, `hi`. The range must not be empty, where `gen_range`
/// panics.
#[verifier::external_body]
fn random_u16_in_range(rng: &mut ThreadRng, lo: u16, hi: u16) -> (p: u16)
    requires
        lo < hi,
    ensures
        lo <= p < hi,
{
    rng.gen_range(lo..hi)
}

/// A locator on a random port from 8000 up to 65000 of the loopback
/// interface, as the scalability pong sinks of the earlier node API listen
/// on.
pub fn random_tcp_locator() -> (l: String)
    ensures
        exists|p: nat| 8000 <= p < 65000 && l@ == tcp_locator_spec(p),
{
    let mut rng = thread_rng();
    let port = random_u16_in_range(&mut rng, 8000, 65000);
    let l = tcp_locator(port as u64);
    assert(8000 <= port as nat && (port as nat) < 65000 && l@ == tcp_locator_spec(port as nat));
    l
}

/// When a ping source sends: the first ping goes out at once, every later
/// one after the pongs of the previous one came back.
pub struct PingSchedule {
    pub first: bool,
}

impl PingSchedule {
    /// A schedule before the first ping.
    pub fn new() -> (s: Self)
        ensures
            s.first,
    {
        PingSchedule { first: true }
    }

    /// Starts an iteration of the source: whether it must wait for the pongs
    /// of the previous ping before it sends.
    pub fn await_pongs(&mut self) -> (wait: bool)
        ensures
            wait == !old(self).first,
            !final(self).first,
    {
        if !self.first {
            true
        } else {
            self.first = false;
            false
        }
    }
}

/// What the fan-in operator forwards once it has a message from each of its
/// inputs: the latency of the message of its last input, received at `now`.
pub fn fan_in_latency(received: &Vec<Latency>, now: u128) -> (l: Latency)
    requires
        received@.len() > 0,
        received@.last().ts <= now,
    ensures
        l.ts == now - received@.last().ts,
{
    let last = received[received.len() - 1];
    Latency { ts: now - last.ts }
}

} // verus!
