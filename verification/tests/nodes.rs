use zenoh_flow_perf::config::{bool_setting, dict_merge, text_list_setting, u64_setting, ConfigValue};
use zenoh_flow_perf::data::Latency;
use zenoh_flow_perf::nodes::{
    fan_in_latency, lat_sink_settings, node_key_expr, noop_print_settings, payload_size_setting,
    pong_sink_settings, random_tcp_locator, scal_ping_source_settings, scal_pong_sink_settings,
    subscription_key_exprs, tcp_locator, thr_sink_settings, PingSchedule, LEGACY_PONG_KEY_EXPR,
    PONG_KEY_EXPR,
};

fn num(n: u64) -> ConfigValue {
    ConfigValue::Number(Some(n), n.to_string())
}

fn object(entries: Vec<(&str, ConfigValue)>) -> ConfigValue {
    ConfigValue::Object(entries.into_iter().map(|(k, v)| (k.to_string(), v)).collect())
}

fn texts(v: &ConfigValue) -> Vec<(String, String)> {
    match v {
        ConfigValue::Object(m) => m
            .iter()
            .map(|(k, v)| match v {
                ConfigValue::Text(s) => (k.clone(), s.clone()),
                ConfigValue::Number(_, t) => (k.clone(), format!("#{t}")),
                _ => (k.clone(), "?".to_string()),
            })
            .collect(),
        _ => vec![],
    }
}

#[test]
fn settings_default_without_configuration() {
    assert_eq!(u64_setting(&None, "pipeline", 1), 1);
    assert!(!bool_setting(&None, "multi", false));
    let s = lat_sink_settings(&None);
    assert_eq!((s.pipeline, s.messages), (1, 1));
    let p = pong_sink_settings(&None);
    assert_eq!((p.pipeline, p.msgs, p.layer.as_str()), (1, 1, "single"));
    let t = thr_sink_settings(&None);
    assert_eq!((t.payload_size, t.scenario.as_str()), (8, "single"));
    assert_eq!(payload_size_setting(&None), 8);
    let sp = scal_pong_sink_settings(&None);
    assert_eq!((sp.nodes, sp.msgs, sp.node_id, sp.mode, sp.diff), (1, 1, 0, 1, false));
    let sq = scal_ping_source_settings(&None);
    assert_eq!((sq.nodes, sq.mode), (1, 1));
}

#[test]
fn settings_read_from_configuration() {
    let conf = Some(object(vec![
        ("interval", ConfigValue::Number(None, "0.5".to_string())),
        ("pipeline", num(4)),
        ("msgs", num(1000)),
        ("multi", ConfigValue::Bool(true)),
        ("payload_size", num(1024)),
        ("nodes", num(8)),
        ("id", num(3)),
        ("mode", num(2)),
    ]));
    let s = lat_sink_settings(&conf);
    assert_eq!((s.pipeline, s.messages), (4, 1000));
    let p = pong_sink_settings(&conf);
    assert_eq!(p.layer, "multi");
    assert_eq!(noop_print_settings(&conf).layer, "zf-src-op-multi");
    assert_eq!(noop_print_settings(&None).layer, "zf-src-op");
    let t = thr_sink_settings(&conf);
    assert_eq!((t.payload_size, t.scenario.as_str()), (1024, "multi"));
    let sp = scal_pong_sink_settings(&conf);
    assert_eq!((sp.nodes, sp.msgs, sp.node_id, sp.mode, sp.diff), (8, 1000, 3, 2, true));
    let sq = scal_ping_source_settings(&conf);
    assert_eq!((sq.nodes, sq.mode), (8, 2));
}

#[test]
fn first_entry_of_a_key_wins() {
    let conf = Some(object(vec![("msgs", num(5)), ("msgs", num(6))]));
    assert_eq!(u64_setting(&conf, "msgs", 1), 5);
}

#[test]
fn port_ids_are_read_in_order() {
    let conf = object(vec![(
        "port_ids",
        ConfigValue::Array(vec![ConfigValue::Text("in-0".to_string()), ConfigValue::Text("in-1".to_string())]),
    )]);
    assert_eq!(text_list_setting(&conf, "port_ids"), vec!["in-0".to_string(), "in-1".to_string()]);
}

#[test]
fn dict_merge_sets_and_adds_fields() {
    let base = object(vec![("interval", ConfigValue::Number(None, "0.1".to_string())), ("id", ConfigValue::Text("a".to_string()))]);
    let fields = vec![("id".to_string(), "7".to_string()), ("name".to_string(), "sink".to_string())];
    let merged = dict_merge(base, &fields);
    assert_eq!(
        texts(&merged),
        vec![
            ("interval".to_string(), "#0.1".to_string()),
            ("id".to_string(), "7".to_string()),
            ("name".to_string(), "sink".to_string()),
        ]
    );
}

#[test]
fn dict_merge_leaves_non_objects() {
    let merged = dict_merge(ConfigValue::Bool(true), &vec![("a".to_string(), "b".to_string())]);
    assert!(matches!(merged, ConfigValue::Bool(true)));
    let merged = dict_merge(ConfigValue::Null, &Vec::new());
    assert!(matches!(merged, ConfigValue::Null));
}

#[test]
fn key_expressions() {
    assert_eq!(PONG_KEY_EXPR, "test/latency/zf/pong");
    assert_eq!(node_key_expr(PONG_KEY_EXPR, 12), "test/latency/zf/pong/12");
    assert_eq!(node_key_expr(LEGACY_PONG_KEY_EXPR, 0), "/test/latency/zf/pong/0");
    assert_eq!(
        subscription_key_exprs(PONG_KEY_EXPR, 3, 2),
        vec!["test/latency/zf/pong/0", "test/latency/zf/pong/1", "test/latency/zf/pong/2"]
    );
    assert_eq!(subscription_key_exprs(PONG_KEY_EXPR, 3, 1), vec!["test/latency/zf/pong/0"]);
    assert!(subscription_key_exprs(PONG_KEY_EXPR, 0, 2).is_empty());
}

#[test]
fn locators() {
    assert_eq!(tcp_locator(7447), "tcp/127.0.0.1:7447");
    for _ in 0..20 {
        let l = random_tcp_locator();
        let port: u64 = l.strip_prefix("tcp/127.0.0.1:").unwrap().parse().unwrap();
        assert!((8000..65000).contains(&port));
    }
}

#[test]
fn ping_schedule_waits_after_the_first_ping() {
    let mut s = PingSchedule::new();
    assert!(!s.await_pongs());
    assert!(s.await_pongs());
    assert!(s.await_pongs());
}

#[test]
fn fan_in_forwards_latency_of_last_input() {
    let received = vec![Latency { ts: 100 }, Latency { ts: 250 }];
    assert_eq!(fan_in_latency(&received, 1000), Latency { ts: 750 });
}

#[test]
fn dict_merge_last_field_wins_and_others_stay() {
    let base = object(vec![("a", ConfigValue::Text("1".to_string())), ("b", num(2))]);
    let fields = vec![
        ("a".to_string(), "x".to_string()),
        ("c".to_string(), "y".to_string()),
        ("a".to_string(), "z".to_string()),
    ];
    let merged = dict_merge(base, &fields);
    assert_eq!(
        texts(&merged),
        vec![
            ("a".to_string(), "z".to_string()),
            ("b".to_string(), "#2".to_string()),
            ("c".to_string(), "y".to_string()),
        ]
    );
}

#[test]
fn dict_merge_twice_is_merge_once() {
    let base = object(vec![("a", ConfigValue::Text("1".to_string())), ("b", num(2))]);
    let fields = vec![
        ("a".to_string(), "x".to_string()),
        ("c".to_string(), "y".to_string()),
        ("a".to_string(), "z".to_string()),
    ];
    let once = dict_merge(base, &fields);
    let once_texts = texts(&once);
    let twice = dict_merge(once, &fields);
    assert_eq!(texts(&twice), once_texts);
}
