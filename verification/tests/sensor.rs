use apexos::json::JsonValue;
use apexos::sensor::{
    bridge_url, interval_secs, make_sensor_event, millidegrees, now_secs, sensor_event,
};

#[test]
fn bridge_url_carries_the_token() {
    assert_eq!(bridge_url("localhost:8787", ""), "ws://localhost:8787/sensor-bridge");
    assert_eq!(bridge_url("h:1", "abc"), "ws://h:1/sensor-bridge?token=abc");
}

#[test]
fn reading_frames() {
    let f = sensor_event("pi4", "temperature", JsonValue::uint(1), 1700000000);
    assert_eq!(f.get_str("type").unwrap(), "sensor_reading");
    assert_eq!(f.get_str("node_id").unwrap(), "pi4");
    assert_eq!(f.get_str("kind").unwrap(), "temperature");
    assert_eq!(f.get_u64("timestamp"), Some(1700000000));
    assert_eq!(f.get("reading").unwrap().as_u64(), Some(1));
    let g = make_sensor_event("n", "k", JsonValue::Null);
    assert!(g.get_u64("timestamp").unwrap() > 1_500_000_000);
}

#[test]
fn clock_is_past_2017() {
    assert!(now_secs() > 1_500_000_000);
}

#[test]
fn settings_and_raw_readings() {
    assert_eq!(interval_secs(None), 30);
    assert_eq!(interval_secs(Some("5")), 5);
    assert_eq!(interval_secs(Some(" 5")), 30);
    assert_eq!(interval_secs(Some("x")), 30);
    assert_eq!(millidegrees(" 48312\n"), Some(48312));
    assert_eq!(millidegrees("-500"), Some(-500));
    assert_eq!(millidegrees("-9223372036854775808"), Some(i64::MIN));
    assert_eq!(millidegrees("9223372036854775808"), None);
    assert_eq!(millidegrees("-"), None);
    assert_eq!(millidegrees("+-1"), None);
    assert_eq!(millidegrees("abc"), None);
}
