use openobserve_ingest::cache::{FunctionCache, FunctionEvent};
use openobserve_ingest::functions::{StreamOrder, StreamType, Transform};
use openobserve_ingest::ingest::{
    decode_payload, distinct_values, flatten, parse_timestamp, window_bounds, IngestRun,
    MICROS_PER_HOUR,
};
use openobserve_ingest::json::JsonValue;

const NOW: i64 = 1_700_000_000_000_000;
const TS: &str = "_timestamp";

fn obj(fields: Vec<(&str, JsonValue)>) -> JsonValue {
    JsonValue::Object(fields.into_iter().map(|(k, v)| (k.to_string(), v)).collect())
}

fn field_dbg(rec: &[(String, JsonValue)], k: &str) -> Option<String> {
    rec.iter().find(|(n, _)| n == k).map(|(_, v)| format!("{:?}", v))
}

fn num(n: i64) -> JsonValue {
    JsonValue::Number(n.to_string())
}

fn text(s: &str) -> JsonValue {
    JsonValue::Str(s.to_string())
}

#[test]
fn window_formula() {
    assert_eq!(window_bounds(NOW, 5), (NOW + 5 * MICROS_PER_HOUR, NOW - 5 * MICROS_PER_HOUR));
    assert_eq!(window_bounds(0, 0), (0, 0));
}

#[test]
fn timestamp_window() {
    let h = 3;
    let mut run: IngestRun<u32> = IngestRun::new("s", NOW, h);
    let old = NOW - h * MICROS_PER_HOUR - 1_000_000;
    let edge = NOW - h * MICROS_PER_HOUR + 1_000_000;
    assert!(run.stamp(obj(vec![(TS, num(old))]), TS, NOW).is_none());
    assert_eq!(run.status.failed, 1);
    assert!(run.status.error.contains("Too old"));
    let kept = run.stamp(obj(vec![(TS, num(edge))]), TS, NOW).unwrap();
    assert_eq!(run.status.failed, 1);
    assert_eq!(run.min_ts, edge);
    assert_eq!(field_dbg(&kept, TS), Some(format!("{:?}", num(edge))));
    let future = NOW + (h + 10) * MICROS_PER_HOUR;
    assert!(run.stamp(obj(vec![(TS, num(future))]), TS, NOW).is_some());
    assert_eq!(run.min_ts, edge);
}

#[test]
fn future_record_keeps_upper_bound() {
    let mut run: IngestRun<u32> = IngestRun::new("s", NOW, 1);
    let future = NOW + 5 * MICROS_PER_HOUR;
    assert!(run.stamp(obj(vec![(TS, num(future))]), TS, NOW).is_some());
    assert_eq!(run.min_ts, NOW + MICROS_PER_HOUR);
}

#[test]
fn missing_timestamp_is_stamped_now() {
    let mut run: IngestRun<u32> = IngestRun::new("s", NOW, 1);
    let kept = run.stamp(obj(vec![("msg", text("x"))]), TS, NOW).unwrap();
    assert_eq!(field_dbg(&kept, TS), Some(format!("{:?}", num(NOW))));
    assert_eq!(run.min_ts, NOW);
}

#[test]
fn bad_timestamp_fails_record() {
    let mut run: IngestRun<u32> = IngestRun::new("s", NOW, 1);
    assert!(run.stamp(obj(vec![(TS, text("yesterday"))]), TS, NOW).is_none());
    assert_eq!(run.status.failed, 1);
    assert!(!run.status.error.is_empty());
}

#[test]
fn timestamp_forms() {
    assert_eq!(parse_timestamp(&num(42)), Ok(42));
    assert_eq!(parse_timestamp(&text("-7")), Ok(-7));
    assert_eq!(parse_timestamp(&text("1970-01-01T00:00:01Z")), Ok(1_000_000));
    assert!(parse_timestamp(&JsonValue::Number("1.5".to_string())).is_err());
    assert!(parse_timestamp(&JsonValue::Bool(true)).is_err());
}

#[test]
fn single_trigger_per_request() {
    let mut run: IngestRun<u32> = IngestRun::new("s", NOW, 1);
    for i in 1..=6u32 {
        let rec = run.stamp(obj(vec![("n", num(i as i64))]), TS, NOW).unwrap();
        let trig = if i == 1 || i == 5 { Some(i) } else { None };
        run.accept(rec, trig, &vec![]);
    }
    assert_eq!(run.trigger, Some(5));
    assert_eq!(run.status.successful, 6);
}

#[test]
fn partial_failure_accounting() {
    let mut run: IngestRun<u32> = IngestRun::new("s", NOW, 1);
    let mut items = Vec::new();
    for _ in 0..3 {
        items.push(num(1));
    }
    for i in 0..7 {
        items.push(obj(vec![("i", num(i))]));
    }
    for (idx, item) in items.iter().enumerate() {
        let flat = match flatten(item) {
            Some(f) => f,
            None => {
                run.reject_unflattenable();
                continue;
            }
        };
        // the chain drops the first two flattenable records
        let transformed = if idx < 5 { JsonValue::Null } else { JsonValue::Object(flat) };
        if let Some(rec) = run.stamp(transformed, TS, NOW) {
            run.accept(rec, None, &vec![]);
        }
    }
    assert_eq!(run.status.failed, 5);
    assert_eq!(run.status.successful, 5);
    assert_eq!(run.records.len(), 5);
}

#[test]
fn flatten_nested() {
    let item = obj(vec![
        ("a", num(1)),
        ("b", obj(vec![("c", text("x")), ("d", obj(vec![("e", JsonValue::Null)]))])),
        ("f", JsonValue::Array(vec![num(1), num(2)])),
    ]);
    let flat = flatten(&item).unwrap();
    let names: Vec<&str> = flat.iter().map(|(k, _)| k.as_str()).collect();
    assert_eq!(names, vec!["a", "b_c", "b_d_e", "f"]);
    assert_eq!(format!("{:?}", flat[3].1), format!("{:?}", text("[1,2]")));
    assert!(flatten(&text("x")).is_none());
}

#[test]
fn payload_forms() {
    assert_eq!(decode_payload(br#"[{"a":1},{"b":2}]"#).unwrap().len(), 2);
    assert_eq!(decode_payload(br#"{"a":1}"#).unwrap().len(), 1);
    assert!(decode_payload(b"{oops").is_none());
}

#[test]
fn distinct_value_facts() {
    let rec = vec![
        ("host".to_string(), text("h1")),
        ("gone".to_string(), JsonValue::Null),
        ("code".to_string(), num(500)),
    ];
    let fields = vec!["host".to_string(), "gone".to_string(), "absent".to_string(), "code".to_string()];
    let dv = distinct_values(&rec, &fields, "s");
    assert_eq!(dv.len(), 2);
    assert_eq!(dv[0].field_name, "host");
    assert_eq!(dv[0].field_value, "h1");
    assert_eq!(dv[0].stream_name, "s");
    assert_eq!(dv[1].field_name, "code");
    assert_eq!(dv[1].field_value, "500");
}

#[test]
fn register_then_ingest() {
    let mut cache = FunctionCache::new();
    let upper = Transform {
        function: ".msg = upcase(.msg)".to_string(),
        name: "upper".to_string(),
        params: "row".to_string(),
        num_args: 1,
        trans_type: Some(0),
        streams: Some(vec![StreamOrder { stream: "app_logs".to_string(), order: 1, stream_type: StreamType::Logs }]),
    };
    let ev = FunctionEvent::Put {
        key: "/function/org1/upper".to_string(),
        value: upper.to_json().unwrap().into_bytes(),
    };
    cache.apply_event(ev).unwrap();
    let chain = cache.stream_chain(&"org1/logs/app_logs".to_string());
    assert_eq!(chain.len(), 1);
    assert_eq!(chain[0].transform.name, "upper");

    let hours = 5;
    let mut run: IngestRun<u32> = IngestRun::new("app_logs", NOW, hours);
    let records = decode_payload(br#"[{"msg":"hi"}]"#).unwrap();
    for item in &records {
        let mut flat = flatten(item).unwrap();
        // the expression runtime is outside the library: its effect is applied here
        for st in &chain {
            assert_eq!(st.transform.name, "upper");
            for (_, v) in flat.iter_mut() {
                if let JsonValue::Str(s) = v {
                    *s = s.to_uppercase();
                }
            }
        }
        let rec = run.stamp(JsonValue::Object(flat), TS, NOW).unwrap();
        run.accept(rec, None, &vec![]);
    }
    assert_eq!(run.records.len(), 1);
    let rec = &run.records[0];
    assert_eq!(field_dbg(rec, "msg"), Some(format!("{:?}", text("HI"))));
    let ts = match rec.iter().find(|(k, _)| k == TS).map(|(_, v)| v) {
        Some(JsonValue::Number(t)) => t.parse::<i64>().unwrap(),
        _ => panic!("no timestamp"),
    };
    assert!(ts >= NOW - hours * MICROS_PER_HOUR && ts <= NOW + hours * MICROS_PER_HOUR);
}

#[test]
fn discard_messages() {
    let mut run: IngestRun<u32> = IngestRun::new("s", NOW, 3);
    let old = NOW - 3 * MICROS_PER_HOUR - 1_000_000;
    assert!(run.stamp(obj(vec![(TS, num(old))]), TS, NOW).is_none());
    assert_eq!(run.status.error, "Too old data, only last 3 hours data can be ingested. Data discarded.");
    assert!(run.stamp(obj(vec![(TS, JsonValue::Bool(true))]), TS, NOW).is_none());
    assert_eq!(run.status.error, "invalid timestamp value");
    assert!(run.stamp(JsonValue::Null, TS, NOW).is_none());
    assert_eq!(run.status.error, "invalid timestamp value");
    assert_eq!(run.status.failed, 3);
}

#[test]
fn stamp_keeps_other_fields() {
    let mut run: IngestRun<u32> = IngestRun::new("s", NOW, 1);
    let kept = run.stamp(obj(vec![("a", text("x")), (TS, num(NOW - 5)), ("b", num(2))]), TS, NOW).unwrap();
    assert_eq!(kept.len(), 3);
    assert_eq!(field_dbg(&kept, "a"), Some(format!("{:?}", text("x"))));
    assert_eq!(field_dbg(&kept, TS), Some(format!("{:?}", num(NOW - 5))));
    assert_eq!(field_dbg(&kept, "b"), Some(format!("{:?}", num(2))));
}

#[test]
fn distinct_values_on_accept() {
    let mut run: IngestRun<u32> = IngestRun::new("s", NOW, 1);
    let rec = run.stamp(obj(vec![("host", text("h")), ("ok", JsonValue::Bool(true))]), TS, NOW).unwrap();
    run.accept(rec, None, &vec!["ok".to_string(), "host".to_string()]);
    assert_eq!(run.distinct.len(), 2);
    assert_eq!(run.distinct[0].field_value, "true");
    assert_eq!(run.distinct[1].field_value, "h");
}
