use openobserve_ingest::cache::{
    function_key, org_prefix, reset_prefixes, split_registry_key, CacheError, FunctionCache,
    FunctionEvent,
};
use openobserve_ingest::functions::{StreamOrder, StreamType, Transform};

fn bound(name: &str, targets: &[(&str, u8, StreamType)]) -> Transform {
    Transform {
        function: ".x = 1".to_string(),
        name: name.to_string(),
        params: "row".to_string(),
        num_args: 1,
        trans_type: Some(0),
        streams: Some(
            targets
                .iter()
                .map(|(s, o, t)| StreamOrder { stream: s.to_string(), order: *o, stream_type: *t })
                .collect(),
        ),
    }
}

fn put(name: &str, t: &Transform) -> FunctionEvent {
    FunctionEvent::Put {
        key: format!("/function/org1/{name}"),
        value: t.to_json().unwrap().into_bytes(),
    }
}

#[test]
fn keys() {
    assert_eq!(function_key("org1", "f"), "/function/org1/f");
    assert_eq!(org_prefix("org1"), "/function/org1/");
    assert_eq!(reset_prefixes(), vec!["/function/".to_string(), "/transform/".to_string()]);
    assert_eq!(
        split_registry_key("/function/org1/f"),
        Ok(("org1/f".to_string(), "org1".to_string()))
    );
    assert_eq!(split_registry_key("/function/noslash"), Err(CacheError::BadKey));
    assert_eq!(split_registry_key("/other/org1/f"), Err(CacheError::BadKey));
}

#[test]
fn upsert_is_idempotent() {
    let mut cache = FunctionCache::new();
    let t = bound("f", &[("s1", 1, StreamType::Logs), ("s2", 2, StreamType::Logs)]);
    assert_eq!(cache.apply_event(put("f", &t)), Ok(()));
    assert_eq!(cache.apply_event(put("f", &t)), Ok(()));
    let k1 = "org1/logs/s1".to_string();
    let k2 = "org1/logs/s2".to_string();
    assert_eq!(cache.stream_chain(&k1).len(), 1);
    assert_eq!(cache.stream_chain(&k2).len(), 1);
    let t3 = bound("f", &[("s1", 9, StreamType::Logs), ("s2", 8, StreamType::Logs)]);
    assert_eq!(cache.apply_event(put("f", &t3)), Ok(()));
    let c1 = cache.stream_chain(&k1);
    assert_eq!(c1.len(), 1);
    assert_eq!(c1[0].order, 9);
    assert_eq!(cache.stream_chain(&k2)[0].order, 8);
    assert!(cache.query_functions.is_empty());
}

#[test]
fn chains_keep_insertion_order() {
    let mut cache = FunctionCache::new();
    let a = bound("a", &[("s", 5, StreamType::Logs)]);
    let b = bound("b", &[("s", 1, StreamType::Logs)]);
    cache.apply_event(put("a", &a)).unwrap();
    cache.apply_event(put("b", &b)).unwrap();
    let chain = cache.stream_chain(&"org1/logs/s".to_string());
    assert_eq!(chain.len(), 2);
    assert_eq!(chain[0].transform.name, "a");
    assert_eq!(chain[1].transform.name, "b");
}

#[test]
fn query_functions_put_and_delete() {
    let mut cache = FunctionCache::new();
    let mut q = bound("q", &[]);
    q.streams = None;
    cache.apply_event(put("q", &q)).unwrap();
    assert_eq!(cache.query_functions.len(), 1);
    assert_eq!(cache.query_functions[0].key, "org1/q");
    cache.apply_event(put("q", &q)).unwrap();
    assert_eq!(cache.query_functions.len(), 1);
    assert_eq!(cache.apply_event(FunctionEvent::Empty), Ok(()));
    assert_eq!(
        cache.apply_event(FunctionEvent::Delete { key: "/function/org1/q".to_string() }),
        Ok(())
    );
    assert!(cache.query_functions.is_empty());
}

#[test]
fn delete_leaves_stream_chains() {
    let mut cache = FunctionCache::new();
    let t = bound("f", &[("s", 1, StreamType::Logs)]);
    cache.apply_event(put("f", &t)).unwrap();
    cache.apply_event(FunctionEvent::Delete { key: "/function/org1/f".to_string() }).unwrap();
    assert_eq!(cache.stream_chain(&"org1/logs/s".to_string()).len(), 1);
}

#[test]
fn bad_events() {
    let mut cache = FunctionCache::new();
    let t = bound("f", &[("s", 1, StreamType::Logs)]);
    let ev = FunctionEvent::Put { key: "/function/noslash".to_string(), value: t.to_json().unwrap().into_bytes() };
    assert_eq!(cache.apply_event(ev), Err(CacheError::BadKey));
    let ev = FunctionEvent::Put { key: "/function/o/f".to_string(), value: b"{}".to_vec() };
    assert_eq!(cache.apply_event(ev), Err(CacheError::BadValue));
    assert_eq!(
        cache.apply_event(FunctionEvent::Delete { key: "elsewhere".to_string() }),
        Err(CacheError::BadKey)
    );
    assert!(cache.stream_functions.is_empty());
}

#[test]
fn bulk_load_appends() {
    let mut cache = FunctionCache::new();
    let t = bound("f", &[("s", 1, StreamType::Metrics)]);
    let mut q = bound("q", &[]);
    q.streams = None;
    let listing = vec![
        ("/function/org1/f".to_string(), t.to_json().unwrap().into_bytes()),
        ("/function/org1/q".to_string(), q.to_json().unwrap().into_bytes()),
    ];
    assert_eq!(cache.load_listing(listing), Ok(()));
    assert_eq!(cache.stream_chain(&"org1/metrics/s".to_string()).len(), 1);
    assert_eq!(cache.query_functions.len(), 1);
    cache.load_entry("/function/org1/f", t.clone()).unwrap();
    assert_eq!(cache.stream_chain(&"org1/metrics/s".to_string()).len(), 2);
}

#[test]
fn listing_errors_name_the_first_bad_entry() {
    let t = bound("f", &[("s", 1, StreamType::Logs)]);
    let good = t.to_json().unwrap().into_bytes();
    let mut cache = FunctionCache::new();
    let listing = vec![
        ("/function/org1/f".to_string(), good.clone()),
        ("/function/org1/g".to_string(), b"{}".to_vec()),
        ("nokey".to_string(), good.clone()),
    ];
    assert_eq!(cache.load_listing(listing), Err(CacheError::BadValue));
    let mut cache = FunctionCache::new();
    let listing = vec![("nokey".to_string(), b"{}".to_vec())];
    assert_eq!(cache.load_listing(listing), Err(CacheError::BadKey));
}
