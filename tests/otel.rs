use openobserve_ingest::json::JsonValue;
use openobserve_ingest::otel::{
    get_val, get_val_for_attr, get_val_with_type_retained, AnyValue, KeyValue, OtelValue,
};

fn as_str(v: &JsonValue) -> Option<&str> {
    match v {
        JsonValue::Str(s) => Some(s.as_str()),
        _ => None,
    }
}

#[test]
fn test_get_val() {
    let in_str = "Test".to_string();
    let str_val = AnyValue { value: Some(OtelValue::StringValue(in_str.clone())) };
    let resp = get_val(&Some(str_val));
    assert_eq!(as_str(&resp).unwrap(), in_str);

    let in_bool = false;
    let bool_val = AnyValue { value: Some(OtelValue::BoolValue(in_bool)) };
    let resp = get_val(&Some(bool_val));
    assert_eq!(as_str(&resp).unwrap(), in_bool.to_string());

    let in_int = 20;
    let int_val = || AnyValue { value: Some(OtelValue::IntValue(in_int)) };
    let resp = get_val(&Some(int_val()));
    assert_eq!(as_str(&resp).unwrap(), in_int.to_string());

    let in_double: f64 = 20.00;
    let double_val = AnyValue { value: Some(OtelValue::DoubleValue(in_double.to_string())) };
    let resp = get_val(&Some(double_val));
    assert_eq!(as_str(&resp).unwrap(), in_double.to_string());

    let arr_val = AnyValue { value: Some(OtelValue::ArrayValue(vec![int_val()])) };
    let resp = get_val(&Some(arr_val));
    match resp {
        JsonValue::Array(a) => assert!(!a.is_empty()),
        _ => panic!("not an array"),
    }

    let kv_val = AnyValue {
        value: Some(OtelValue::KvlistValue(vec![KeyValue { key: in_str.clone(), value: Some(int_val()) }])),
    };
    let resp = get_val(&Some(kv_val));
    match resp {
        JsonValue::Object(o) => assert!(o.iter().any(|(k, _)| *k == in_str)),
        _ => panic!("not an object"),
    }

    let byte_val = AnyValue { value: Some(OtelValue::BytesValue(vec![8u8])) };
    let resp = get_val(&Some(byte_val));
    match resp {
        JsonValue::Array(a) => {
            assert!(!a.is_empty());
            assert_eq!(format!("{:?}", a[0]), format!("{:?}", JsonValue::Number("8".to_string())));
        }
        _ => panic!("not an array"),
    }
}

#[test]
fn typed_values() {
    let v = get_val_with_type_retained(&Some(AnyValue { value: Some(OtelValue::IntValue(-3)) }));
    assert_eq!(format!("{:?}", v), format!("{:?}", JsonValue::Number("-3".to_string())));
    let v = get_val_with_type_retained(&Some(AnyValue { value: Some(OtelValue::BoolValue(true)) }));
    assert_eq!(format!("{:?}", v), format!("{:?}", JsonValue::Bool(true)));
    let v = get_val_with_type_retained(&None);
    assert!(matches!(v, JsonValue::Null));
    let v = get_val(&Some(AnyValue { value: None }));
    assert!(matches!(v, JsonValue::Null));
}

#[test]
fn duplicate_keys_keep_last() {
    let kv = |k: &str, n: i64| KeyValue { key: k.to_string(), value: Some(AnyValue { value: Some(OtelValue::IntValue(n)) }) };
    let v = get_val(&Some(AnyValue { value: Some(OtelValue::KvlistValue(vec![kv("a", 1), kv("a", 2)])) }));
    match v {
        JsonValue::Object(o) => {
            assert_eq!(o.len(), 1);
            assert_eq!(as_str(&o[0].1), Some("2"));
        }
        _ => panic!("not an object"),
    }
}

#[test]
fn first_attribute_value() {
    let v = get_val_for_attr(JsonValue::Object(vec![("k".to_string(), JsonValue::Str("v".to_string()))]));
    assert_eq!(as_str(&v), Some("v"));
    let v = get_val_for_attr(JsonValue::Object(vec![("k".to_string(), JsonValue::Number("5".to_string()))]));
    assert_eq!(as_str(&v), Some("5"));
    assert!(matches!(get_val_for_attr(JsonValue::Object(vec![])), JsonValue::Null));
}

#[test]
fn nested_values_are_stringified() {
    let int = |n: i64| AnyValue { value: Some(OtelValue::IntValue(n)) };
    let v = get_val_with_type_retained(&Some(AnyValue { value: Some(OtelValue::ArrayValue(vec![int(20)])) }));
    match v {
        JsonValue::Array(a) => assert_eq!(as_str(&a[0]), Some("20")),
        _ => panic!("not an array"),
    }
    let v = get_val(&Some(AnyValue {
        value: Some(OtelValue::KvlistValue(vec![KeyValue { key: "Test".to_string(), value: Some(int(20)) }])),
    }));
    match v {
        JsonValue::Object(o) => {
            assert_eq!(o[0].0, "Test");
            assert_eq!(as_str(&o[0].1), Some("20"));
        }
        _ => panic!("not an object"),
    }
}
