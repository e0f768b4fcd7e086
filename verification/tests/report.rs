use zenoh_flow_perf::report::{
    csv_record, decimal_string, elapsed_us, operator_latency_record, reported_latency,
    result_record, scalability_latency_record,
};

#[test]
fn decimal_writing() {
    assert_eq!(decimal_string(0), "0");
    assert_eq!(decimal_string(7), "7");
    assert_eq!(decimal_string(10), "10");
    assert_eq!(decimal_string(1234567890), "1234567890");
    assert_eq!(decimal_string(u128::MAX), u128::MAX.to_string());
}

#[test]
fn csv_record_joins_with_commas() {
    let fields = vec!["a".to_string(), "".to_string(), "c".to_string()];
    assert_eq!(csv_record(&fields), "a,,c");
    assert_eq!(csv_record(&vec!["x".to_string()]), "x");
    assert_eq!(csv_record(&Vec::new()), "");
}

#[test]
fn latency_result_line() {
    assert_eq!(
        result_record("zenoh-flow", "single", "latency", 3, 8, 100, 1234, "us"),
        "zenoh-flow,single,latency,3,8,100,1234,us"
    );
    assert_eq!(result_record("erdos", "single", "latency", 1, 8, 5, 77, "us"), "erdos,single,latency,1,8,5,77,us");
}

#[test]
fn throughput_result_line() {
    assert_eq!(
        result_record("zenoh-flow", "multi", "throughput", 1, 64, 250000, 250000, "msgs"),
        "zenoh-flow,multi,throughput,1,64,250000,250000,msgs"
    );
}

#[test]
fn operator_and_scalability_lines() {
    assert_eq!(operator_latency_record("zf-src-op", 10, 2, 55), "zf-src-op,scenario,latency,pipeline,10,2,55,us");
    assert_eq!(
        scalability_latency_record("single", 10, 4, 99),
        "zenoh-flow,single,latency,zenoh-flow-latency,10,4,99,8,us"
    );
}

#[test]
fn latencies() {
    assert_eq!(elapsed_us(1_000_500, 1_000_000), 500);
    assert_eq!(elapsed_us(5, 5), 0);
    assert_eq!(reported_latency(true, 900, 400), 500);
    assert_eq!(reported_latency(false, 900, 400), 400);
}

#[test]
fn result_record_splits_back_into_its_fields() {
    let line = result_record("zenoh-flow", "single", "latency", 3, 8, 100, 98765, "us");
    let fields: Vec<&str> = line.split(',').collect();
    assert_eq!(fields, vec!["zenoh-flow", "single", "latency", "3", "8", "100", "98765", "us"]);
    assert_eq!(fields[6].parse::<u128>().unwrap(), 98765);
    assert_eq!(fields[3].parse::<u64>().unwrap(), 3);
}
