use am02_service::ipc::{command_payload, PayloadError};
use am02_service::protocol::WeatherSnapshot;
use am02_service::text::{str_eq, trim};
use am02_service::weather::{compose_weather, OwmReport};

#[test]
fn trimming_and_equality() {
    assert_eq!(trim("  深圳 \t\n"), "深圳");
    assert_eq!(trim("\u{3000}北京\u{3000}"), "北京");
    assert_eq!(trim("   "), "");
    assert_eq!(trim(""), "");
    assert!(str_eq("南山", "南山"));
    assert!(!str_eq("南山", "南山区"));
}

#[test]
fn ipc_payload_extraction() {
    assert_eq!(command_payload(b"  {\"op\":\"get_state\"}\n junk"), Ok(Some("{\"op\":\"get_state\"}".to_string())));
    assert_eq!(command_payload(b"{\"op\":1}"), Ok(Some("{\"op\":1}".to_string())));
    assert_eq!(command_payload(b""), Ok(None));
    assert_eq!(command_payload(b"  \n{\"op\":1}"), Ok(None));
    assert_eq!(command_payload(&[0xff, 0xfe, b'\n']), Err(PayloadError::NotUtf8));
    // bytes after the newline are not looked at
    assert_eq!(command_payload(&[b'x', b'\n', 0xff]), Ok(Some("x".to_string())));
}

fn report(name: Option<&str>, has_main: bool, description: Option<&str>) -> OwmReport {
    OwmReport { name: name.map(str::to_string), has_main, description: description.map(str::to_string) }
}

#[test]
fn weather_snapshot_assembly() {
    let w: WeatherSnapshot = compose_weather(
        "深圳",
        Some(("深圳市".to_string(), "广东省".to_string())),
        report(Some("Shenzhen"), true, Some("多云")),
        23.5f32.to_bits(),
        "23.5℃".to_string(),
        Some(("东北风".to_string(), 3)),
    )
    .unwrap();
    assert_eq!(w.city, "深圳市");
    assert_eq!(w.province, "广东省");
    assert_eq!(w.weather, "多云");
    assert_eq!(w.temperature_label, "23.5℃");
    assert_eq!(w.wind_direction, "东北风");
    assert_eq!(w.wind_power, 3);

    let w = compose_weather("London", None, report(Some("London"), true, None), 0, "0.0℃".to_string(), None).unwrap();
    assert_eq!(w.city, "London");
    assert_eq!(w.province, "");
    assert_eq!(w.weather, "");
    assert_eq!(w.wind_power, 0);

    let w = compose_weather("51.5,-0.1", None, report(None, true, None), 0, String::new(), None).unwrap();
    assert_eq!(w.city, "51.5,-0.1");

    assert!(compose_weather("x", None, report(None, false, Some("晴")), 0, String::new(), None).is_none());
}

#[test]
fn unicode_white_space_is_trimmed() {
    assert_eq!(trim("\u{a0}\u{2009}\u{85}x y\u{202f}\u{205f}\u{1680}\u{b}\u{c}"), "x y");
    // not White_Space: zero-width space and BOM stay
    assert_eq!(trim("\u{200b}a\u{feff}"), "\u{200b}a\u{feff}");
}
