use toxiproxy_rust::client::ClientError;
use toxiproxy_rust::client::Toxiproxy;
use toxiproxy_rust::proxy::ProxyPack;
use toxiproxy_rust::toxic::ToxicCondition;
use toxiproxy_rust::toxic::ToxicPack;
use toxiproxy_rust::toxic::Toxicity;
use toxiproxy_rust::wire::encode_enabled;
use toxiproxy_rust::wire::encode_toxic;
use toxiproxy_rust::wire::parse_toxic;

fn populate_example(toxiproxy: &mut Toxiproxy) {
    let result = toxiproxy.populate(vec![ProxyPack::new(
        "socket".into(),
        "localhost:2001".into(),
        "localhost:2000".into(),
    )]);

    assert!(result.is_ok());
}

#[test]
fn test_is_running() {
    let toxiproxy = Toxiproxy::new();
    assert!(toxiproxy.is_running());
}

#[test]
fn test_reset() {
    let mut toxiproxy = Toxiproxy::new();
    assert!(toxiproxy.reset().is_ok());
}

#[test]
fn test_populate() {
    let mut toxiproxy = Toxiproxy::new();
    let result = toxiproxy.populate(vec![ProxyPack::new(
        "socket".into(),
        "localhost:2001".into(),
        "localhost:2000".into(),
    )]);

    assert!(result.is_ok());

    assert_eq!(1, result.as_ref().unwrap().len());
    assert_eq!("socket", result.as_ref().unwrap()[0].proxy_pack.name);
}

#[test]
fn test_all() {
    let mut toxiproxy = Toxiproxy::new();
    populate_example(&mut toxiproxy);

    let result = toxiproxy.all();
    assert!(result.is_ok());
    assert_eq!(1, result.as_ref().unwrap().len());
}

#[test]
fn test_version() {
    let toxiproxy = Toxiproxy::new();
    assert!(toxiproxy.version().is_ok());
}

#[test]
fn test_find_and_reset_proxy() {
    let mut toxiproxy = Toxiproxy::new();
    populate_example(&mut toxiproxy);

    let result = toxiproxy.find_and_reset_proxy("socket");
    assert!(result.is_ok());

    assert_eq!("socket", result.as_ref().unwrap().proxy_pack.name);
}

#[test]
fn test_find_and_reset_proxy_invalid() {
    let mut toxiproxy = Toxiproxy::new();
    let result = toxiproxy.find_and_reset_proxy("bad-proxy");
    assert!(result.is_err());
}

#[test]
fn test_proxy_down() {
    let mut toxiproxy = Toxiproxy::new();
    populate_example(&mut toxiproxy);

    let result = toxiproxy.find_and_reset_proxy("socket");
    assert!(result.is_ok());
    assert!(result.as_ref().unwrap().proxy_pack.enabled);

    let proxy = result.unwrap();
    let (toxiproxy, down_result) = proxy.with_down(toxiproxy, |mut c: Toxiproxy| {
        let result = c.find_and_reset_proxy("socket");
        assert!(result.is_ok());
        assert!(!result.as_ref().unwrap().proxy_pack.enabled);
        c
    });
    assert!(down_result.is_ok());

    let mut toxiproxy = toxiproxy;
    let result = toxiproxy.find_and_reset_proxy("socket");
    assert!(result.is_ok());
    assert!(result.as_ref().unwrap().proxy_pack.enabled);
}

#[test]
fn test_proxy_apply_with_latency() {
    let mut toxiproxy = Toxiproxy::new();
    populate_example(&mut toxiproxy);

    let proxy_result = toxiproxy.find_and_reset_proxy("socket");
    assert!(proxy_result.is_ok());
    let proxy = proxy_result.unwrap();

    let proxy_toxics = proxy.toxics(&toxiproxy);
    assert!(proxy_toxics.is_ok());
    assert_eq!(0, proxy_toxics.as_ref().unwrap().len());

    assert!(proxy
        .with_latency(&mut toxiproxy, "downstream".into(), 2000, 0, Toxicity::full())
        .is_ok());

    let (toxiproxy, apply_result) = proxy.apply(toxiproxy, |c: Toxiproxy| {
        let all = c.all();
        assert!(all.is_ok());
        let all_handles = all.unwrap();
        let found = all_handles.iter().find(|p| p.proxy_pack.name == "socket");
        assert!(found.is_some());

        let proxy_toxics = found.as_ref().unwrap().toxics(&c);
        assert!(proxy_toxics.is_ok());
        assert_eq!(1, proxy_toxics.as_ref().unwrap().len());
        c
    });

    assert!(apply_result.is_ok());

    let proxy_toxics = proxy.toxics(&toxiproxy);
    assert!(proxy_toxics.is_ok());
    assert_eq!(0, proxy_toxics.as_ref().unwrap().len());
}

#[test]
fn test_proxy_apply_with_latency_as_separate_calls_for_test() {
    let mut toxiproxy = Toxiproxy::new();
    populate_example(&mut toxiproxy);

    let proxy_result = toxiproxy.find_and_reset_proxy("socket");
    assert!(proxy_result.is_ok());
    let proxy = proxy_result.unwrap();

    let proxy_toxics = proxy.toxics(&toxiproxy);
    assert!(proxy_toxics.is_ok());
    assert_eq!(0, proxy_toxics.as_ref().unwrap().len());

    let _ = proxy.with_latency(&mut toxiproxy, "downstream".into(), 2000, 0, Toxicity::full());

    let all = toxiproxy.all();
    assert!(all.is_ok());
    let all_handles = all.unwrap();
    let found = all_handles.iter().find(|p| p.proxy_pack.name == "socket");
    assert!(found.is_some());

    let proxy_toxics = found.as_ref().unwrap().toxics(&toxiproxy);
    assert!(proxy_toxics.is_ok());
    assert_eq!(1, proxy_toxics.as_ref().unwrap().len());
}

#[test]
fn test_latency_toxic_scenario() {
    let mut toxiproxy = Toxiproxy::new();
    let populated = toxiproxy.populate(vec![ProxyPack::new(
        "socket".into(),
        "localhost:2001".into(),
        "localhost:2000".into(),
    )]);
    assert!(populated.is_ok());

    let proxy = toxiproxy.find_proxy("socket").unwrap();
    assert!(proxy
        .with_latency(&mut toxiproxy, "downstream".into(), 2000, 0, Toxicity::full())
        .is_ok());

    let toxics = proxy.toxics(&toxiproxy).unwrap();
    assert_eq!(1, toxics.len());
    let toxic = &toxics[0];
    assert_eq!("latency_downstream", toxic.name);
    assert_eq!("latency", toxic.kind);
    assert_eq!("downstream", toxic.stream);
    assert_eq!(Toxicity::full(), toxic.toxicity);
    assert_eq!(
        vec![("latency".to_string(), 2000), ("jitter".to_string(), 0)],
        toxic.attributes
    );
    assert!(toxic.condition.is_none());
}

#[test]
fn test_proxy_pack_new_defaults() {
    let pack = ProxyPack::new("socket".into(), "localhost:2001".into(), "localhost:2000".into());
    assert_eq!("socket", pack.name);
    assert_eq!("localhost:2001", pack.listen);
    assert_eq!("localhost:2000", pack.upstream);
    assert!(pack.enabled);
    assert!(pack.toxics.is_empty());
}

#[test]
fn test_populate_replaces_existing_entry() {
    let mut toxiproxy = Toxiproxy::new();
    populate_example(&mut toxiproxy);
    populate_example(&mut toxiproxy);

    let all = toxiproxy.all().unwrap();
    assert_eq!(1, all.len());
    assert_eq!("socket", all[0].proxy_pack.name);
}

#[test]
fn test_enable_disable_roundtrip() {
    let mut toxiproxy = Toxiproxy::new();
    populate_example(&mut toxiproxy);

    let proxy = toxiproxy.find_proxy("socket").unwrap();
    assert!(proxy.disable(&mut toxiproxy).is_ok());
    assert!(!toxiproxy.find_proxy("socket").unwrap().proxy_pack.enabled);
    assert!(proxy.enable(&mut toxiproxy).is_ok());
    assert!(toxiproxy.find_proxy("socket").unwrap().proxy_pack.enabled);
}

#[test]
fn test_delete_removes_proxy() {
    let mut toxiproxy = Toxiproxy::new();
    populate_example(&mut toxiproxy);

    let proxy = toxiproxy.find_proxy("socket").unwrap();
    assert!(proxy.delete(&mut toxiproxy).is_ok());
    let result = toxiproxy.find_proxy("socket");
    assert_eq!(Some(ClientError::ProxyNotFound), result.err());
}

#[test]
fn test_proxy_not_found_error() {
    let mut toxiproxy = Toxiproxy::new();
    populate_example(&mut toxiproxy);
    let proxy = toxiproxy.find_proxy("socket").unwrap();
    assert!(proxy.delete(&mut toxiproxy).is_ok());

    assert_eq!(Some(ClientError::ProxyNotFound), proxy.disable(&mut toxiproxy).err());
    assert_eq!(Some(ClientError::ProxyNotFound), proxy.toxics(&toxiproxy).err());
    assert_eq!(Some(ClientError::ProxyNotFound), proxy.delete_all_toxics(&mut toxiproxy).err());
}

#[test]
fn test_duplicate_toxic_error() {
    let mut toxiproxy = Toxiproxy::new();
    populate_example(&mut toxiproxy);
    let proxy = toxiproxy.find_proxy("socket").unwrap();

    assert!(proxy
        .with_latency(&mut toxiproxy, "downstream".into(), 2000, 0, Toxicity::full())
        .is_ok());
    let second = proxy.with_latency(&mut toxiproxy, "downstream".into(), 500, 0, Toxicity::full());
    assert_eq!(Some(ClientError::DuplicateToxic), second.err());
}

#[test]
fn test_all_toxic_builders_attribute_keys() {
    let mut toxiproxy = Toxiproxy::new();
    populate_example(&mut toxiproxy);
    let proxy = toxiproxy.find_proxy("socket").unwrap();

    assert!(proxy
        .with_bandwidth(&mut toxiproxy, "downstream".into(), 500, Toxicity::full())
        .is_ok());
    assert!(proxy
        .with_slow_close(&mut toxiproxy, "downstream".into(), 500, Toxicity::full())
        .is_ok());
    assert!(proxy
        .with_timeout(&mut toxiproxy, "downstream".into(), 5000, Toxicity::full())
        .is_ok());
    assert!(proxy
        .with_slicer(&mut toxiproxy, "downstream".into(), 1024, 128, 500, Toxicity::full())
        .is_ok());
    assert!(proxy
        .with_limit_data(&mut toxiproxy, "downstream".into(), 2048, Toxicity::full())
        .is_ok());

    let toxics = proxy.toxics(&toxiproxy).unwrap();
    assert_eq!(5, toxics.len());
    assert_eq!("bandwidth_downstream", toxics[0].name);
    assert_eq!(vec![("rate".to_string(), 500)], toxics[0].attributes);
    assert_eq!("slow_close_downstream", toxics[1].name);
    assert_eq!(vec![("delay".to_string(), 500)], toxics[1].attributes);
    assert_eq!("timeout_downstream", toxics[2].name);
    assert_eq!(vec![("timeout".to_string(), 5000)], toxics[2].attributes);
    assert_eq!("slicer_downstream", toxics[3].name);
    assert_eq!(
        vec![
            ("average_size".to_string(), 1024),
            ("size_variation".to_string(), 128),
            ("delay".to_string(), 500),
        ],
        toxics[3].attributes
    );
    assert_eq!("limit_data_downstream", toxics[4].name);
    assert_eq!(vec![("bytes".to_string(), 2048)], toxics[4].attributes);

    assert!(proxy.delete_all_toxics(&mut toxiproxy).is_ok());
    assert_eq!(0, proxy.toxics(&toxiproxy).unwrap().len());
}

#[test]
fn test_reset_clears_toxics_on_all_proxies() {
    let mut toxiproxy = Toxiproxy::new();
    let populated = toxiproxy.populate(vec![
        ProxyPack::new("a".into(), "localhost:2001".into(), "localhost:2000".into()),
        ProxyPack::new("b".into(), "localhost:2003".into(), "localhost:2002".into()),
    ]);
    assert!(populated.is_ok());

    let pa = toxiproxy.find_proxy("a").unwrap();
    let pb = toxiproxy.find_proxy("b").unwrap();
    assert!(pa
        .with_latency(&mut toxiproxy, "downstream".into(), 10, 0, Toxicity::full())
        .is_ok());
    assert!(pb
        .with_bandwidth(&mut toxiproxy, "upstream".into(), 100, Toxicity::full())
        .is_ok());

    assert!(toxiproxy.reset().is_ok());
    assert_eq!(0, pa.toxics(&toxiproxy).unwrap().len());
    assert_eq!(0, pb.toxics(&toxiproxy).unwrap().len());
}

#[test]
fn test_toxicity_bounds() {
    assert_eq!(Some(Toxicity::full()), Toxicity::new(1000));
    assert_eq!(Some(Toxicity::zero()), Toxicity::new(0));
    assert!(Toxicity::new(1001).is_none());
}

#[test]
fn test_encode_enabled_bodies() {
    assert_eq!("{\"enabled\":true}", encode_enabled(true));
    assert_eq!("{\"enabled\":false}", encode_enabled(false));
}

#[test]
fn test_encode_toxic_wire_shape() {
    let toxic = ToxicPack::new(
        "latency".into(),
        "downstream".into(),
        Toxicity::full(),
        vec![("latency".to_string(), 2000), ("jitter".to_string(), 0)],
    );
    let text = encode_toxic(&toxic);
    assert_eq!(
        "{\"name\":\"latency_downstream\",\"type\":\"latency\",\"stream\":\"downstream\",\
         \"toxicity\":1.000,\"attributes\":{\"latency\":2000,\"jitter\":0},\"condition\":null}",
        text
    );
}

#[test]
fn test_encode_toxic_is_valid_json() {
    let condition =
        ToxicCondition::new_http_request_header_matcher("x-api-key".into(), "123".into());
    let toxic = ToxicPack::new_with_condition(
        "latency".into(),
        "upstream".into(),
        Toxicity::new(550).unwrap(),
        vec![("latency".to_string(), 2000), ("jitter".to_string(), 7)],
        Some(condition),
    );
    let text = encode_toxic(&toxic);

    let value: serde_json::Value = serde_json::from_str(&text).expect("encoder must emit JSON");
    assert_eq!("latency_upstream", value["name"]);
    assert_eq!("latency", value["type"]);
    assert_eq!("upstream", value["stream"]);
    assert_eq!(0.55, value["toxicity"].as_f64().unwrap());
    assert_eq!(2000, value["attributes"]["latency"]);
    assert_eq!(7, value["attributes"]["jitter"]);
    assert_eq!("httpRequestHeaderMatcher", value["condition"]["matcherType"]);
    assert_eq!("x-api-key", value["condition"]["matcherParameters"]["headerKey"]);
    assert_eq!("123", value["condition"]["matcherParameters"]["headerValueRegex"]);
}

#[test]
fn test_toxic_wire_round_trip() {
    let condition =
        ToxicCondition::new_http_request_header_matcher("x-api-key".into(), "12.*3".into());
    let toxic = ToxicPack::new_with_condition(
        "slicer".into(),
        "upstream".into(),
        Toxicity::new(250).unwrap(),
        vec![
            ("average_size".to_string(), 1024),
            ("size_variation".to_string(), 128),
            ("delay".to_string(), 500),
        ],
        Some(condition),
    );
    let text = encode_toxic(&toxic);
    let parsed = parse_toxic(&text).expect("an encoded toxic must parse back");
    assert_eq!(toxic, parsed);
}

#[test]
fn test_toxic_wire_round_trip_without_condition() {
    let toxic = ToxicPack::new(
        "limit_data".into(),
        "downstream".into(),
        Toxicity::zero(),
        vec![("bytes".to_string(), 4294967295)],
    );
    let text = encode_toxic(&toxic);
    let parsed = parse_toxic(&text).expect("an encoded toxic must parse back");
    assert_eq!(toxic, parsed);
}

#[test]
fn test_parse_toxic_rejects_malformed_text() {
    assert!(parse_toxic("").is_none());
    assert!(parse_toxic("not json at all").is_none());
    assert!(parse_toxic("{\"name\":\"x\"}").is_none());
    let toxic = ToxicPack::new("timeout".into(), "upstream".into(), Toxicity::full(), vec![(
        "timeout".to_string(),
        5000,
    )]);
    let mut text = encode_toxic(&toxic);
    text.push_str(" ");
    assert!(parse_toxic(&text).is_none());
}

#[test]
fn test_condition_matcher_fields() {
    let condition =
        ToxicCondition::new_http_request_header_matcher("api-key".into(), "123456".into());
    assert_eq!("httpRequestHeaderMatcher", condition.matcher_type);
    assert_eq!("api-key", condition.header_key);
    assert_eq!("123456", condition.header_value_regex);
}

#[test]
fn test_with_down_on_missing_proxy_skips_body() {
    let mut toxiproxy = Toxiproxy::new();
    populate_example(&mut toxiproxy);
    let handle = toxiproxy.find_proxy("socket").unwrap();
    assert!(handle.delete(&mut toxiproxy).is_ok());
    let (_toxiproxy, result) = handle.with_down(toxiproxy, |_c: Toxiproxy| -> Toxiproxy {
        panic!("the body must not run when disabling fails");
    });
    assert_eq!(Some(ClientError::ProxyNotFound), result.err());
}

#[test]
fn test_encode_proxy_is_valid_json() {
    let mut toxiproxy = Toxiproxy::new();
    populate_example(&mut toxiproxy);
    let proxy = toxiproxy.find_proxy("socket").unwrap();
    assert!(proxy
        .with_latency(&mut toxiproxy, "downstream".into(), 2000, 0, Toxicity::full())
        .is_ok());
    let pack = &toxiproxy.find_proxy("socket").unwrap().proxy_pack;

    let text = toxiproxy_rust::wire::encode_proxy(pack);
    let value: serde_json::Value = serde_json::from_str(&text).expect("encoder must emit JSON");
    assert_eq!("socket", value["name"]);
    assert_eq!("localhost:2001", value["listen"]);
    assert_eq!("localhost:2000", value["upstream"]);
    assert_eq!(true, value["enabled"]);
    assert_eq!(1, value["toxics"].as_array().unwrap().len());
    assert_eq!("latency_downstream", value["toxics"][0]["name"]);
}

#[test]
fn test_encode_proxies_bulk_body() {
    let packs = vec![
        ProxyPack::new("a".into(), "localhost:2001".into(), "localhost:2000".into()),
        ProxyPack::new("b".into(), "localhost:2003".into(), "localhost:2002".into()),
    ];
    let text = toxiproxy_rust::wire::encode_proxies(&packs);
    let value: serde_json::Value = serde_json::from_str(&text).expect("encoder must emit JSON");
    let array = value.as_array().unwrap();
    assert_eq!(2, array.len());
    assert_eq!("a", array[0]["name"]);
    assert_eq!("b", array[1]["name"]);
    assert_eq!(0, array[0]["toxics"].as_array().unwrap().len());

    let empty = toxiproxy_rust::wire::encode_proxies(&vec![]);
    assert_eq!("[]", empty);
}

#[test]
fn test_client_error_messages() {
    assert_eq!("proxy not found", ClientError::ProxyNotFound.message());
    assert_eq!("toxic already exists on the proxy", ClientError::DuplicateToxic.message());
}

#[test]
fn test_toxic_wire_round_trip_with_escaped_strings() {
    let condition = ToxicCondition::new_http_request_header_matcher(
        "x-api-key".into(),
        "\\d+\"quoted\"\tand\nmore\u{1}\u{1f}".into(),
    );
    let toxic = ToxicPack::new_with_condition(
        "latency".into(),
        "up\\stream\"".into(),
        Toxicity::full(),
        vec![("late\\ncy".to_string(), 2000)],
        Some(condition),
    );
    let text = encode_toxic(&toxic);
    let parsed = parse_toxic(&text).expect("an encoded toxic must parse back");
    assert_eq!(toxic, parsed);
}

#[test]
fn test_escaped_encoding_is_valid_json() {
    let condition = ToxicCondition::new_http_request_header_matcher(
        "x-api-key".into(),
        "\\d+\"v\"\r\n\t\u{0}\u{1f}end".into(),
    );
    let toxic = ToxicPack::new_with_condition(
        "latency".into(),
        "downstream".into(),
        Toxicity::full(),
        vec![("latency".to_string(), 2000), ("jitter".to_string(), 0)],
        Some(condition),
    );
    let text = encode_toxic(&toxic);
    let value: serde_json::Value = serde_json::from_str(&text).expect("encoder must emit JSON");
    assert_eq!(
        "\\d+\"v\"\r\n\t\u{0}\u{1f}end",
        value["condition"]["matcherParameters"]["headerValueRegex"]
            .as_str()
            .unwrap()
    );
}

#[test]
fn test_escaped_encoding_agrees_with_serde() {
    let raw = "a\\b\"c\nd\te\u{2}";
    let ours = {
        let toxic = ToxicPack::new(
            raw.to_string(),
            "downstream".into(),
            Toxicity::zero(),
            vec![],
        );
        encode_toxic(&toxic)
    };
    let theirs = serde_json::to_string(raw).unwrap();
    assert!(ours.contains(theirs.trim_matches('"')));
}
