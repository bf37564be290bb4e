use axonmq::cli::{
    parse_metrics, spb_request, CliError, Get, GetResource, Method, MetricValue, SetArgs,
    SetResource, Spb, SpbCommands,
};

fn strings(v: &[&str]) -> Vec<String> {
    v.iter().map(|s| s.to_string()).collect()
}

#[test]
fn metrics_are_split_at_the_first_equals() {
    let m = parse_metrics(&strings(&["a=1", "b=\"x=y\"", "c=hello", "d=true", "e=\"\""]))
        .ok()
        .unwrap();
    assert_eq!(m.len(), 5);
    assert_eq!(m[0].name, "a");
    assert!(matches!(&m[0].value, MetricValue::Json(s) if s == "1"));
    assert_eq!(m[1].name, "b");
    assert!(matches!(&m[1].value, MetricValue::Text(s) if s == "x=y"));
    assert!(matches!(&m[2].value, MetricValue::Text(s) if s == "hello"));
    assert!(matches!(&m[3].value, MetricValue::Json(s) if s == "true"));
    assert!(matches!(&m[4].value, MetricValue::Text(s) if s.is_empty()));
}

#[test]
fn metric_without_equals_is_refused() {
    match parse_metrics(&strings(&["a=1", "broken", "c"])) {
        Err(CliError::InvalidMetric(bad)) => assert_eq!(bad, "broken"),
        _ => panic!("expected a refusal"),
    }
}

#[test]
fn get_urls() {
    let host = "http://127.0.0.1:1107";
    let r = spb_request(
        Spb {
            command: SpbCommands::Get(Get {
                resource: GetResource::Device {
                    group_id: "g".to_string(),
                    node_id: "n".to_string(),
                    device_id: "d".to_string(),
                },
            }),
        },
        host,
    )
    .ok()
    .unwrap();
    assert!(matches!(r.method, Method::Get));
    assert_eq!(
        r.url,
        "http://127.0.0.1:1107/api/v1/services/sparkplug_b/groups/g/nodes/n/devices/d"
    );
    let r = spb_request(
        Spb { command: SpbCommands::Get(Get { resource: GetResource::Groups }) },
        host,
    )
    .ok()
    .unwrap();
    assert_eq!(r.url, "http://127.0.0.1:1107/api/v1/services/sparkplug_b/groups");
}

#[test]
fn set_request_carries_metrics() {
    let r = spb_request(
        Spb {
            command: SpbCommands::SetMetrics(SetArgs {
                resource: SetResource::Node {
                    group_id: "g".to_string(),
                    node_id: "n".to_string(),
                    metrics: strings(&["t=21.5"]),
                },
            }),
        },
        "h",
    )
    .ok()
    .unwrap();
    assert!(matches!(r.method, Method::Put));
    assert_eq!(r.url, "h/api/v1/services/sparkplug_b/groups/g/nodes/n");
    assert_eq!(r.metrics.len(), 1);
    assert!(matches!(&r.metrics[0].value, MetricValue::Json(s) if s == "21.5"));
}
