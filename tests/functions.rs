use openobserve_ingest::functions::{
    default_trans_type, FunctionList, StreamOrder, StreamType, Transform, ZoFunction,
};

fn sample(streams: Option<Vec<StreamOrder>>) -> Transform {
    Transform {
        function: "function jsconcat(a,b){return a+b}".to_string(),
        name: "jsconcat".to_string(),
        trans_type: Some(1),
        params: "row".to_string(),
        num_args: 1,
        streams,
    }
}

#[test]
fn test_functions() {
    let trans = Transform {
        function: "function jsconcat(a,b){return a+b}".to_string(),
        name: "jsconcat".to_string(),
        trans_type: Some(1),
        params: "row".to_string(),
        num_args: 1,
        streams: Some(vec![StreamOrder {
            stream: "test".to_string(),
            order: 1,
            stream_type: StreamType::Logs,
        }]),
    };

    let mod_trans = Transform {
        function: "function jsconcat(a,b){return a+b}".to_string(),
        name: "jsconcat".to_string(),
        trans_type: Some(1),
        params: "row".to_string(),
        num_args: 1,
        streams: None,
    };
    assert_eq!(trans, mod_trans);

    let trans_str = trans.to_json().unwrap();
    let trans2 = Transform::from_json(trans_str.as_bytes()).unwrap();
    assert_eq!(format!("{:?}", trans), format!("{:?}", trans2));

    let trans_list = FunctionList {
        list: vec![trans, trans2],
    };
    assert!(!trans_list.list.is_empty());
    let trans_list_str = trans_list.clone().to_json().unwrap();
    let trans_list2 = FunctionList::from_json(trans_list_str.as_bytes()).unwrap();
    assert_eq!(trans_list.list.len(), trans_list2.list.len());
}

#[test]
fn test_zo_function() {
    let f1 = ZoFunction {
        name: "test",
        text: "test",
    };
    let f1_str = f1.to_json().unwrap();
    let (name, text) = ZoFunction::parts_from_json(f1_str.as_bytes()).unwrap();
    let f2 = ZoFunction {
        name: &name,
        text: &text,
    };
    assert_eq!(f1.name, f2.name);
    assert_eq!(format!("{:?}", f1), format!("{:?}", f2));
}

#[test]
fn equality_ignores_bindings() {
    let bound = sample(Some(vec![StreamOrder {
        stream: "a".to_string(),
        order: 3,
        stream_type: StreamType::Traces,
    }]));
    let other = sample(Some(vec![]));
    assert_eq!(bound, sample(None));
    assert_eq!(bound, other);
    let mut renamed = sample(None);
    renamed.name = "other".to_string();
    assert_ne!(bound, renamed);
    let mut reparam = sample(None);
    reparam.params = "a,b".to_string();
    assert_ne!(bound, reparam);
}

#[test]
fn expansion_one_entry_per_target() {
    let t = sample(Some(vec![
        StreamOrder { stream: "s1".to_string(), order: 2, stream_type: StreamType::Logs },
        StreamOrder { stream: "s2".to_string(), order: 5, stream_type: StreamType::Metrics },
        StreamOrder { stream: "s1".to_string(), order: 7, stream_type: StreamType::Traces },
    ]));
    let sts = t.to_stream_transform();
    assert_eq!(sts.len(), 3);
    assert_eq!(sts[0].stream, "s1");
    assert_eq!(sts[0].order, 2);
    assert_eq!(sts[0].stream_type, StreamType::Logs);
    assert_eq!(sts[1].stream, "s2");
    assert_eq!(sts[1].order, 5);
    assert_eq!(sts[1].stream_type, StreamType::Metrics);
    assert_eq!(sts[2].order, 7);
    assert_eq!(sts[2].stream_type, StreamType::Traces);
    for st in &sts {
        assert!(st.transform.streams.is_none());
        assert_eq!(st.transform.name, "jsconcat");
        assert_eq!(st.transform.trans_type, Some(1));
        assert_eq!(st.transform.num_args, 1);
    }
    assert!(sample(None).to_stream_transform().is_empty());
}

#[test]
fn round_trip_keeps_every_field() {
    let t = Transform {
        function: "f(\"x\")\n".to_string(),
        name: "n".to_string(),
        params: "row".to_string(),
        num_args: 255,
        trans_type: None,
        streams: Some(vec![
            StreamOrder { stream: "a".to_string(), order: 0, stream_type: StreamType::EnrichmentTables },
            StreamOrder { stream: "b".to_string(), order: 9, stream_type: StreamType::Filelist },
        ]),
    };
    let text = t.to_json().unwrap();
    let back = Transform::from_json(text.as_bytes()).unwrap();
    assert_eq!(format!("{:?}", t), format!("{:?}", back));
    let v: serde_json::Value = serde_json::from_str(&text).unwrap();
    assert_eq!(v["numArgs"], serde_json::Value::from(255));
    assert_eq!(v["streams"][0]["streamType"], serde_json::Value::from("enrichment_tables"));
    assert!(v["transType"].is_null());
}

#[test]
fn record_defaults() {
    let t = Transform::from_json(br#"{"function":"."}"#).unwrap();
    assert_eq!(t.name, "");
    assert_eq!(t.params, "");
    assert_eq!(t.num_args, 0);
    assert_eq!(t.trans_type, default_trans_type());
    assert_eq!(t.trans_type, Some(0));
    assert!(t.streams.is_none());
    let o = Transform::from_json(br#"{"function":".","streams":[{}]}"#).unwrap();
    let s = &o.streams.unwrap()[0];
    assert_eq!(s.stream, "");
    assert_eq!(s.order, 0);
    assert_eq!(s.stream_type, StreamType::Logs);
}

#[test]
fn malformed_records_are_refused() {
    assert!(Transform::from_json(br#"{"name":"x"}"#).is_none());
    assert!(Transform::from_json(br#"{"function":".","numArgs":256}"#).is_none());
    assert!(Transform::from_json(br#"{"function":".","streams":[{"streamType":"bogus"}]}"#).is_none());
    assert!(Transform::from_json(b"not json").is_none());
    assert!(Transform::from_json(b"[1,2]").is_none());
}

#[test]
fn stream_type_names() {
    assert_eq!(StreamType::Logs.name(), "logs");
    assert_eq!(StreamType::Metadata.name(), "metadata");
    assert_eq!(StreamType::from_name("traces"), Some(StreamType::Traces));
    assert_eq!(StreamType::from_name("trace"), None);
}

#[test]
fn record_key_set() {
    let text = sample(None).to_json().unwrap();
    let v: serde_json::Value = serde_json::from_str(&text).unwrap();
    let keys: Vec<&String> = v.as_object().unwrap().keys().collect();
    let mut keys: Vec<&str> = keys.iter().map(|k| k.as_str()).collect();
    keys.sort();
    assert_eq!(keys, vec!["function", "name", "numArgs", "params", "transType"]);
    let bound = sample(Some(vec![StreamOrder { stream: "s".to_string(), order: 1, stream_type: StreamType::Logs }]));
    let v: serde_json::Value = serde_json::from_str(&bound.to_json().unwrap()).unwrap();
    assert_eq!(v.as_object().unwrap().len(), 6);
    assert_eq!(v["streams"][0].as_object().unwrap().len(), 3);
}

#[test]
fn list_round_trip() {
    let l = FunctionList { list: vec![sample(None), sample(Some(vec![]))] };
    let back = FunctionList::from_json(l.to_json().unwrap().as_bytes()).unwrap();
    assert_eq!(back.list.len(), 2);
    assert_eq!(format!("{:?}", l.list), format!("{:?}", back.list));
    assert!(FunctionList::from_json(br#"{"list":[{"name":"x"}]}"#).is_none());
}
