use openobserve_ingest::naming::{
    check_querier_route, format_partition_key, format_stream_name, get_severity_value, get_url,
    resolve_stream_name,
};

#[test]
fn test_check_querier_route() {
    assert!(check_querier_route("/api/_search"));
    assert!(check_querier_route("/api/_around"));
    assert!(!check_querier_route("/api/_bulk"));
}

#[test]
fn querier_routes_more() {
    assert!(check_querier_route("/api/org/prometheus/api/v1/label/job/values"));
    assert!(!check_querier_route(""));
}

#[test]
fn partition_keys() {
    assert_eq!(format_partition_key("a b=c-d_e/f!"), "ab=c-d_ef");
    assert_eq!(format_partition_key("ünïcode"), "ünïcode");
    let long = "x".repeat(300);
    assert_eq!(format_partition_key(&long).len(), 101);
    assert_eq!(format_partition_key(""), "");
}

#[test]
fn stream_names() {
    assert_eq!(format_stream_name("my-stream.name"), "my_stream_name");
    assert_eq!(format_stream_name("a--b"), "a_b");
    assert_eq!(format_stream_name("ok_name:1"), "ok_name:1");
    assert_eq!(resolve_stream_name("a-b", true), "a-b");
    assert_eq!(resolve_stream_name("a-b", false), "a_b");
}

#[test]
fn severity_names() {
    assert_eq!(get_severity_value(0), "Unspecified");
    assert_eq!(get_severity_value(9), "Info");
    assert_eq!(get_severity_value(13), "Warn ");
    assert_eq!(get_severity_value(24), "Fatal4");
    assert_eq!(get_severity_value(25), "Unspecified");
    assert_eq!(get_severity_value(-1), "Unspecified");
}

#[test]
fn url_choice() {
    let q = Some(vec!["http://q1".to_string(), "http://q2".to_string()]);
    let i = Some(vec!["http://i1".to_string()]);
    let u = get_url("/api/_search", "", &q, &i, 3);
    assert!(!u.is_error);
    assert_eq!(u.value, "http://q2/api/_search");
    let u = get_url("/api/_bulk", "http://ing", &q, &i, 0);
    assert_eq!(u.value, "http://ing/api/_bulk");
    let u = get_url("/api/_bulk", "", &q, &i, 7);
    assert_eq!(u.value, "http://i1/api/_bulk");
    let u = get_url("/api/_bulk", "", &q, &None, 0);
    assert!(u.is_error);
    assert_eq!(u.value, "No online ingester nodes");
    let u = get_url("/api/_search", "", &Some(vec![]), &i, 0);
    assert!(u.is_error);
    assert_eq!(u.value, "No online querier nodes");
}
