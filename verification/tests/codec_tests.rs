use peer_discovery::decode_ping_response;
use peer_discovery::decode_register_response;
use peer_discovery::decode_service_list;
use peer_discovery::encode_address;
use peer_discovery::encode_service_list;
use peer_discovery::Address;
use peer_discovery::ServiceList;

fn strings(items: &[&str]) -> Vec<String> {
    items.iter().map(|s| s.to_string()).collect()
}

#[test]
fn encode_service_list_exact_text() {
    let sl = ServiceList { trusted: strings(&["10.0.0.1"]), untrusted: strings(&[]) };
    assert_eq!(encode_service_list(&sl), "{\"trusted\":[\"10.0.0.1\"],\"untrusted\":[]}");
}

#[test]
fn encode_service_list_escapes_quotes_and_backslashes() {
    let sl = ServiceList { trusted: strings(&["a\"b", "c\\d"]), untrusted: strings(&[""]) };
    assert_eq!(
        encode_service_list(&sl),
        "{\"trusted\":[\"a\\\"b\",\"c\\\\d\"],\"untrusted\":[\"\"]}"
    );
}

#[test]
fn decode_example_peer_set() {
    let got = decode_service_list("{\"trusted\":[\"10.0.0.1\"],\"untrusted\":[]}").unwrap();
    assert_eq!(got.trusted.len(), 1);
    assert_eq!(got.trusted[0], "10.0.0.1");
    assert_eq!(got.untrusted.len(), 0);
}

#[test]
fn decode_service_list_both_lists_filled() {
    let got = decode_service_list("{\"trusted\":[\"a\",\"b\"],\"untrusted\":[\"c\"]}").unwrap();
    assert_eq!(got.trusted, strings(&["a", "b"]));
    assert_eq!(got.untrusted, strings(&["c"]));
}

#[test]
fn decode_service_list_empty_lists() {
    let got = decode_service_list("{\"trusted\":[],\"untrusted\":[]}").unwrap();
    assert!(got.trusted.is_empty());
    assert!(got.untrusted.is_empty());
}

#[test]
fn service_list_round_trip_plain() {
    let sl = ServiceList {
        trusted: strings(&["10.0.0.1", "10.0.0.2"]),
        untrusted: strings(&["192.168.0.9"]),
    };
    let text = encode_service_list(&sl);
    assert_eq!(decode_service_list(&text).unwrap(), sl);
}

#[test]
fn service_list_round_trip_with_escapes() {
    let sl = ServiceList {
        trusted: strings(&["quote\"inside", "back\\slash", ""]),
        untrusted: strings(&["\\\"", "plain"]),
    };
    let text = encode_service_list(&sl);
    assert_eq!(decode_service_list(&text).unwrap(), sl);
}

#[test]
fn decode_service_list_rejects_malformed_bodies() {
    assert!(decode_service_list("").is_none());
    assert!(decode_service_list("{}").is_none());
    assert!(decode_service_list("{\"trusted\":[],\"untrusted\":[]").is_none());
    assert!(decode_service_list("{\"trusted\":[],\"untrusted\":[]}x").is_none());
    assert!(decode_service_list("{\"trusted\":[\"a],\"untrusted\":[]}").is_none());
    assert!(decode_service_list("{\"untrusted\":[],\"trusted\":[]}").is_none());
    assert!(decode_service_list("{\"trusted\":[\"a\\x\"],\"untrusted\":[]}").is_none());
}

#[test]
fn decode_ping_acknowledged() {
    assert!(decode_ping_response("{\"ack\":true}").unwrap().ack);
    assert!(!decode_ping_response("{\"ack\":false}").unwrap().ack);
}

#[test]
fn decode_ping_rejects_malformed_bodies() {
    assert!(decode_ping_response("").is_none());
    assert!(decode_ping_response("{\"ack\":yes}").is_none());
    assert!(decode_ping_response("{\"ack\":true} ").is_none());
}

#[test]
fn decode_register_with_session() {
    let resp = decode_register_response("{\"session\":{\"token\":\"abc-123\"}}").unwrap();
    assert_eq!(resp.session.unwrap().token, "abc-123");
}

#[test]
fn decode_register_without_session() {
    let resp = decode_register_response("{\"session\":null}").unwrap();
    assert!(resp.session.is_none());
}

#[test]
fn decode_register_with_session_field_absent() {
    let resp = decode_register_response("{}").unwrap();
    assert!(resp.session.is_none());
}

#[test]
fn decode_register_rejects_malformed_bodies() {
    assert!(decode_register_response("").is_none());
    assert!(decode_register_response("{\"session\":}").is_none());
    assert!(decode_register_response("{\"session\":{\"token\":\"abc\"}").is_none());
    assert!(decode_register_response("{\"session\":{\"token\":\"abc\"}}}").is_none());
}

#[test]
fn encode_address_exact_text() {
    let a = Address { address: "10.0.0.1".to_string() };
    assert_eq!(encode_address(&a), "{\"address\":\"10.0.0.1\"}");
}

#[test]
fn encode_address_escapes() {
    let a = Address { address: "a\"\\b".to_string() };
    assert_eq!(encode_address(&a), "{\"address\":\"a\\\"\\\\b\"}");
}
