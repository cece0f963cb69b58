use ipaps::addr::IpAddr;
use ipaps::geo::{geolocate_reply, geolocate_request, json_string, read_geo};

const REPLY: &str = r#"{
    "ip": "8.8.8.8", "success": true,
    "country": "United States", "region": "California", "city": "Mountain View",
    "latitude": 37.3860517, "longitude": -122,
    "connection": { "asn": 15169, "org": "Google LLC", "isp": "Google" }
}"#;

#[test]
fn a_full_reply_is_read() {
    let info = geolocate_reply(true, REPLY.as_bytes()).unwrap();
    assert_eq!(info.country, "United States");
    assert_eq!(info.region, "California");
    assert_eq!(info.city, "Mountain View");
    assert_eq!(info.isp, "Google");
    assert_eq!(info.org, "Google LLC");
    assert_eq!(info.latitude.map(f64::from_bits), Some(37.3860517));
    assert_eq!(info.longitude.map(f64::from_bits), Some(-122.0));
}

#[test]
fn missing_and_mistyped_members_are_empty() {
    let body = br#"{"country": 7, "city": null, "connection": "none", "latitude": "37"}"#;
    let info = geolocate_reply(true, body).unwrap();
    assert_eq!(info.country, "");
    assert_eq!(info.region, "");
    assert_eq!(info.city, "");
    assert_eq!(info.isp, "");
    assert_eq!(info.org, "");
    assert_eq!(info.latitude, None);
    assert_eq!(info.longitude, None);
}

#[test]
fn only_success_false_is_a_failure() {
    assert!(geolocate_reply(true, br#"{"success": false, "country": "X"}"#).is_none());
    assert!(geolocate_reply(true, br#"{"success": "false", "country": "X"}"#).is_some());
    assert!(geolocate_reply(true, br#"{"country": "X"}"#).is_some());
    assert!(geolocate_reply(true, br#"[1, 2]"#).is_some());
}

#[test]
fn a_bad_status_or_a_bad_body_gives_nothing() {
    assert!(geolocate_reply(false, REPLY.as_bytes()).is_none());
    assert!(geolocate_reply(true, b"<html></html>").is_none());
    assert!(geolocate_reply(true, b"").is_none());
}

#[test]
fn a_parsed_value_is_read_as_its_text_is() {
    let value: serde_json::Value = serde_json::from_str(REPLY).unwrap();
    assert_eq!(json_string(&value, "city"), "Mountain View");
    assert_eq!(json_string(&value, "success"), "");
    assert_eq!(json_string(&value, "absent"), "");
    assert_eq!(json_string(&serde_json::Value::Null, "city"), "");
    let info = read_geo(&value).unwrap();
    assert_eq!(info.isp, "Google");
}

#[test]
fn a_request_names_the_address_and_triples_the_timeout() {
    let request = geolocate_request(IpAddr::V4(0x08080808), 750).unwrap();
    assert_eq!(request.url, "https://ipwho.is/8.8.8.8");
    assert_eq!(request.timeout_ms, 2250);
    let request = geolocate_request(IpAddr::V4(0x08080808), u64::MAX / 2).unwrap();
    assert_eq!(request.timeout_ms, u64::MAX);
}

#[test]
fn addresses_that_are_not_public_are_not_looked_up() {
    assert!(geolocate_request(IpAddr::V4(0x7f000001), 750).is_none());
    assert!(geolocate_request(IpAddr::V6(1), 750).is_none());
}
