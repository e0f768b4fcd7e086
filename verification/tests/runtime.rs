use zenoh_flow_perf::runtime::{record_file_name, startup_order, Descriptor, NodeKind};

#[test]
fn record_file_is_named_after_the_flow() {
    assert_eq!(record_file_name("lat-static"), "lat-static-record.yaml");
}

#[test]
fn nodes_start_from_sinks_to_sources() {
    assert_eq!(startup_order(), vec![NodeKind::Sink, NodeKind::Operator, NodeKind::Connector, NodeKind::Source]);
}

#[test]
fn descriptor_kinds() {
    let c = Descriptor::Composed("a.yaml".to_string());
    let f = Descriptor::Flatten("b.yaml".to_string());
    assert!(c.needs_flattening());
    assert!(!f.needs_flattening());
    assert_eq!(c.path(), "a.yaml");
    assert_eq!(f.path(), "b.yaml");
}
