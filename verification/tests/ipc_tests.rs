use am02_service::ipc::{apply_command, IpcCommand, IpcReply};
use am02_service::power::handle_command;
use am02_service::protocol::Response;
use am02_service::protocol::{DisplayConfig, Language, PowerState, TdpMode, Theme, TimeFormat, WeatherSnapshot};
use am02_service::weather::{CityKey, WeatherState};

fn cmd(op: &str) -> IpcCommand {
    IpcCommand {
        op: op.to_string(),
        lang: None,
        theme: None,
        format: None,
        mode: None,
        tdp_watts_bits: None,
        city: None,
        query: None,
    }
}

struct Shared {
    disp: DisplayConfig,
    power: PowerState,
    weather: WeatherState,
    cities: Vec<CityKey>,
}

fn shared() -> Shared {
    Shared {
        disp: DisplayConfig::default(),
        power: PowerState { mode: TdpMode::AaaGame, tdp_watts_bits: 45.0f32.to_bits() },
        weather: WeatherState::new(None),
        cities: vec![
            CityKey { name: "深圳市".to_string(), aliases: vec!["深圳".to_string()], prio: 90 },
            CityKey { name: "南山区".to_string(), aliases: vec!["南山".to_string()], prio: 90 },
        ],
    }
}

fn apply(s: &mut Shared, c: &IpcCommand) -> am02_service::ipc::IpcOutcome {
    apply_command(c, &mut s.disp, &mut s.power, &mut s.weather, &s.cities)
}

#[test]
fn set_language_theme_format() {
    let mut s = shared();
    let mut c = cmd("set_language");
    c.lang = Some(1);
    let o = apply(&mut s, &c);
    assert!(o.changed && o.reply.is_none() && !o.location_changed);
    assert_eq!(s.disp.language, Language::En);
    // same value again: no change
    assert!(!apply(&mut s, &c).changed);
    c.lang = Some(7);
    assert!(!apply(&mut s, &c).changed);
    assert_eq!(s.disp.language, Language::En);
    c.lang = None;
    assert!(!apply(&mut s, &c).changed);

    let mut c = cmd("set_theme");
    c.theme = Some(1);
    assert!(apply(&mut s, &c).changed);
    assert_eq!(s.disp.theme, Theme::White);

    let mut c = cmd("set_time_format");
    c.format = Some(0);
    assert!(apply(&mut s, &c).changed);
    assert_eq!(s.disp.time_format, TimeFormat::H12);
}

#[test]
fn set_power_mode_rules() {
    let mut s = shared();
    let mut c = cmd("set_power_mode");
    c.mode = Some(2);
    c.tdp_watts_bits = Some(30.0f32.to_bits());
    assert!(apply(&mut s, &c).changed);
    assert_eq!(s.power, PowerState { mode: TdpMode::RetroGame, tdp_watts_bits: 30.0f32.to_bits() });
    assert!(!apply(&mut s, &c).changed);
    // -0.0 == 0.0 as f32: no change
    c.tdp_watts_bits = Some(0.0f32.to_bits());
    assert!(apply(&mut s, &c).changed);
    c.tdp_watts_bits = Some((-0.0f32).to_bits());
    assert!(!apply(&mut s, &c).changed);
    assert_eq!(s.power.tdp_watts_bits, 0.0f32.to_bits());
    // NaN never equals: always a change
    c.tdp_watts_bits = Some(f32::NAN.to_bits());
    assert!(apply(&mut s, &c).changed);
    assert!(apply(&mut s, &c).changed);
    // invalid index or missing field: ignored
    c.mode = Some(4);
    assert!(!apply(&mut s, &c).changed);
    c.mode = None;
    assert!(!apply(&mut s, &c).changed);
    assert_eq!(s.power.mode, TdpMode::RetroGame);
}

#[test]
fn set_location_and_get_state() {
    let mut s = shared();
    let mut c = cmd("set_location");
    c.city = Some("  深圳 ".to_string());
    let o = apply(&mut s, &c);
    assert!(o.changed && o.location_changed);
    assert_eq!(s.weather.location.as_deref(), Some("深圳"));
    assert!(!apply(&mut s, &c).changed);

    let g = apply(&mut s, &cmd("get_state"));
    assert!(!g.changed);
    match g.reply {
        Some(IpcReply::State(st)) => {
            assert_eq!(st.mode, 0);
            assert_eq!(f32::from_bits(st.tdp_watts_bits), 45.0);
            assert_eq!(st.language, 0);
            assert_eq!(st.theme, 0);
            assert_eq!(st.time_format, 1);
            assert_eq!(st.location, "深圳");
        }
        _ => panic!("expected a state reply"),
    }

    s.weather.snapshot.city = "深圳".to_string();
    s.weather.snapshot.wind_power = 4;
    c.city = Some("   ".to_string());
    let o = apply(&mut s, &c);
    assert!(o.changed && o.location_changed);
    assert_eq!(s.weather.location, None);
    assert_eq!(s.weather.snapshot.city, "");
    assert_eq!(s.weather.snapshot.wind_power, 0);
    let _ = WeatherSnapshot::default();
}

#[test]
fn search_city_and_unknown_ops() {
    let mut s = shared();
    let mut c = cmd("search_city");
    c.query = Some("南山".to_string());
    match apply(&mut s, &c).reply {
        Some(IpcReply::Cities(r)) => assert_eq!(r, vec![1]),
        _ => panic!("expected cities"),
    }
    match apply(&mut s, &cmd("search_city")).reply {
        Some(IpcReply::Cities(r)) => assert!(r.is_empty()),
        _ => panic!("expected cities"),
    }
    let o = apply(&mut s, &cmd("reboot"));
    assert!(o.reply.is_none() && !o.changed);
}

fn state_of(s: &mut Shared) -> am02_service::ipc::StateReport {
    match apply(s, &cmd("get_state")).reply {
        Some(IpcReply::State(st)) => st,
        _ => panic!("expected a state reply"),
    }
}

#[test]
fn settings_read_back_through_get_state() {
    let mut s = shared();
    let mut c = cmd("set_theme");
    c.theme = Some(1);
    apply(&mut s, &c);
    let mut c = cmd("set_language");
    c.lang = Some(1);
    apply(&mut s, &c);
    let mut c = cmd("set_time_format");
    c.format = Some(0);
    apply(&mut s, &c);
    let mut c = cmd("set_power_mode");
    c.mode = Some(3);
    c.tdp_watts_bits = Some(18.5f32.to_bits());
    apply(&mut s, &c);
    let st = state_of(&mut s);
    assert_eq!((st.theme, st.language, st.time_format, st.mode), (1, 1, 0, 3));
    assert_eq!(f32::from_bits(st.tdp_watts_bits), 18.5);
}

#[test]
fn screen_and_plugin_share_the_mode_mapping() {
    for i in 0..4u32 {
        let mut s = shared();
        let mut c = cmd("set_power_mode");
        c.mode = Some(i);
        c.tdp_watts_bits = Some(1.0f32.to_bits());
        apply(&mut s, &c);
        let resp = Response { recv_crc32: 0, cmd: 2, sub_cmd: 1, sub_param: i, status: 0 };
        assert_eq!(handle_command(&resp), Some(s.power.mode));
        assert_eq!(s.power.mode.index(), i);
    }
}
