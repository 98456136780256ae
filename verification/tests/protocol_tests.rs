use am02_service::power::handle_command;
use am02_service::protocol::{seal_frame, wind_power_label, write_local_time};
use am02_service::protocol::{
    Cmd, DisplayConfig, FrameEncoder, Language, LocalTime, Response, SystemSnapshot, TdpMode,
    Theme, TimeFormat, WeatherSnapshot, FRAME_LEN, RESP_LEN,
};

/// A 29-byte screen response (touch preset switch): sub_cmd, sub_param.
fn build_response(sub_cmd: u32, sub_param: u32) -> Response {
    let mut buf = [0u8; RESP_LEN];
    buf[4] = Cmd::OnNormalInfo.code();
    buf[20..24].copy_from_slice(&sub_cmd.to_le_bytes());
    buf[24..28].copy_from_slice(&sub_param.to_le_bytes());
    buf[28] = 0;
    Response::parse(&buf)
}

#[test]
fn parse_29b_set_response() {
    let r = build_response(1, 3);
    assert_eq!(r.sub_cmd, 1);
    assert_eq!(r.sub_param, 3);
    assert_eq!(r.cmd, Cmd::OnNormalInfo.code());
}

#[test]
fn four_mode_index_mapping() {
    assert_eq!(TdpMode::from_index(0), Some(TdpMode::AaaGame));
    assert_eq!(TdpMode::from_index(1), Some(TdpMode::ClassicGame));
    assert_eq!(TdpMode::from_index(2), Some(TdpMode::RetroGame));
    assert_eq!(TdpMode::from_index(3), Some(TdpMode::PcOffice));
    assert_eq!(TdpMode::from_index(4), None);
}

#[test]
fn handle_command_updates_power_state() {
    let mut mode = TdpMode::AaaGame;
    let resp = build_response(1, 3); // Set -> Office
    let r = handle_command(&resp);
    assert!(r.is_some());
    mode = r.unwrap();
    assert_eq!(mode, TdpMode::PcOffice);

    let resp2 = build_response(2, 0); // Reset -> AAA
    let r2 = handle_command(&resp2);
    assert!(r2.is_some());
    mode = r2.unwrap();
    assert_eq!(mode, TdpMode::AaaGame);
}

#[test]
fn handle_command_unknown_index_and_ignored_subcommands() {
    assert_eq!(handle_command(&build_response(1, 9)), Some(TdpMode::AaaGame));
    assert_eq!(handle_command(&build_response(3, 1)), None);
    assert_eq!(handle_command(&build_response(0, 0)), None);
}

#[test]
fn response_parse_reads_every_field() {
    let mut buf = [0u8; RESP_LEN];
    buf[0..4].copy_from_slice(&0xdead_beefu32.to_le_bytes());
    buf[4] = 1;
    buf[20..24].copy_from_slice(&0x0102_0304u32.to_le_bytes());
    buf[24..28].copy_from_slice(&7u32.to_le_bytes());
    buf[28] = 0x5a;
    let r = Response::parse(&buf);
    assert_eq!(
        r,
        Response { recv_crc32: 0xdead_beef, cmd: 1, sub_cmd: 0x0102_0304, sub_param: 7, status: 0x5a }
    );
}

#[test]
fn on_connect_frame_layout_and_crc() {
    let mut enc = FrameEncoder::new();
    let frame = enc.on_connect().to_vec();
    assert_eq!(frame.len(), FRAME_LEN);
    assert_eq!(frame[4], 1);
    assert!(frame[5..].iter().all(|&b| b == 0));
    let crc = u32::from_le_bytes([frame[0], frame[1], frame[2], frame[3]]);
    assert_eq!(crc, crc32fast::hash(&frame[4..]));
    // the checksum is really there (not the body handed back)
    assert_ne!(crc, 0);
    // deterministic
    let again = enc.on_connect().to_vec();
    assert_eq!(frame, again);
}

#[test]
fn handshake_accepts_the_echo_of_on_connect() {
    let mut enc = FrameEncoder::new();
    let frame = enc.on_connect().to_vec();
    let sent_crc = u32::from_le_bytes([frame[0], frame[1], frame[2], frame[3]]);
    let mut buf = [0u8; RESP_LEN];
    buf[..5].copy_from_slice(&frame[..5]);
    let r = Response::parse(&buf);
    assert!(r.is_valid_handshake(sent_crc));
    assert!(!r.is_valid_handshake(sent_crc ^ 1));
    let mut bad = buf;
    bad[4] = 2;
    assert!(!Response::parse(&bad).is_valid_handshake(sent_crc));
    let zero = [0u8; RESP_LEN];
    assert!(!Response::parse(&zero).is_valid_handshake(sent_crc));
}

fn sample_snapshot() -> SystemSnapshot {
    SystemSnapshot {
        cpu_usage_bits: 12.5f32.to_bits(),
        cpu_power_bits: 8.25f32.to_bits(),
        cpu_temp: 55,
        cpu_freq: 3300,
        gpu_usage_bits: 40.0f32.to_bits(),
        gpu_power_bits: 5.5f32.to_bits(),
        gpu_temp: 48,
        gpu_freq: 2100,
        ram_used: 9,
        ram_total: 31,
        disk_used: 120,
        disk_total: 931,
        fan_rpm: 2200,
        net_status: 1,
        net_down: 345,
        net_up: -1,
        fps_bits: (60i32 as f32).to_bits(),
        tdp_watts_bits: 45.0f32.to_bits(),
    }
}

fn sample_weather() -> WeatherSnapshot {
    WeatherSnapshot {
        city: "深圳".to_string(),
        weather: "多云".to_string(),
        province: "广东省".to_string(),
        temperature_bits: 23.5f32.to_bits(),
        temperature_label: "23.5℃".to_string(),
        wind_direction: "东北风".to_string(),
        wind_power: 3,
    }
}

#[test]
fn on_normal_info_field_offsets() {
    let mut enc = FrameEncoder::new();
    let snap = sample_snapshot();
    let disp = DisplayConfig { language: Language::En, theme: Theme::White, time_format: TimeFormat::H12 };
    let time = LocalTime { year: 2024, month: 5, day: 17, weekday: 5, hour: 21, minute: 8, second: 59 };
    let w = sample_weather();
    let f = enc.on_normal_info(&snap, &disp, TdpMode::RetroGame, &w, Some(time)).to_vec();
    assert_eq!(f.len(), FRAME_LEN);
    assert_eq!(f[4], 2);
    assert_eq!(u32::from_le_bytes([f[0], f[1], f[2], f[3]]), crc32fast::hash(&f[4..]));
    let u32_at = |o: usize| u32::from_le_bytes([f[o], f[o + 1], f[o + 2], f[o + 3]]);
    let f32_at = |o: usize| f32::from_bits(u32_at(o));
    assert_eq!(f32_at(0x21), 12.5);
    assert_eq!(f32_at(0x25), 8.25);
    assert_eq!(u32_at(0x29) as i32, 55);
    assert_eq!(u32_at(0x2d) as i32, 3300);
    assert_eq!(f32_at(0x31), 40.0);
    assert_eq!(u32_at(0x3d) as i32, 2100);
    assert_eq!(u32_at(0x4d) as i32, 931);
    assert_eq!(u32_at(0x51) as i32, 2200);
    assert_eq!(u32_at(0x55) as i32, 1);
    assert_eq!(u32_at(0x59) as i32, 345);
    assert_eq!(u32_at(0x5d) as i32, -1);
    assert_eq!(u32_at(0x61), 2);
    assert_eq!(u32_at(0x65), 0);
    assert_eq!(f32_at(0x69), 45.0);
    assert_eq!(f32_at(0x6d), 60.0);
    assert_eq!(f[0x79], 1);
    assert_eq!(f[0x7a], 1);
    assert_eq!(u16::from_le_bytes([f[0x7b], f[0x7c]]), 2024);
    assert_eq!(&f[0x7d..0x83], &[5, 17, 5, 21, 8, 59]);
    assert_eq!(f[0x83], 1);
    assert_eq!(f[0x84], 0);
    assert_eq!(&f[0x85..0x85 + 6], "深圳".as_bytes());
    assert!(f[0x85 + 6..0x95].iter().all(|&b| b == 0));
    assert_eq!(&f[0x95..0x95 + 6], "多云".as_bytes());
    assert_eq!(&f[0xa5..0xa5 + 9], "广东省".as_bytes());
    assert_eq!(&f[0xc5..0xc5 + 7], "23.5℃".as_bytes());
    assert_eq!(&f[0xd1..0xd1 + 9], "东北风".as_bytes());
    assert_eq!(&f[0xdd..0xdd + 4], "3级".as_bytes());
    assert!(f[0xdd + 4..].iter().all(|&b| b == 0));
    assert!(f[0x1b..0x21].iter().all(|&b| b == 0));
    assert!(f[5..0x1b].iter().all(|&b| b == 0));
}

#[test]
fn on_normal_info_without_weather_or_time() {
    let mut enc = FrameEncoder::new();
    let snap = SystemSnapshot::default();
    let disp = DisplayConfig::default();
    let w = WeatherSnapshot::default();
    let f = enc.on_normal_info(&snap, &disp, TdpMode::AaaGame, &w, None).to_vec();
    assert_eq!(f[0x79], 0);
    assert_eq!(f[0x7a], 0);
    assert!(f[0x7b..0x83].iter().all(|&b| b == 0));
    assert_eq!(f[0x83], 1);
    assert_eq!(f[0x84], 1); // 24-hour by default
    assert!(f[0x85..].iter().all(|&b| b == 0));
}

#[test]
fn temperature_written_when_nonzero_without_city() {
    let mut enc = FrameEncoder::new();
    let mut w = WeatherSnapshot::default();
    w.temperature_bits = (-0.0f32).to_bits();
    w.temperature_label = "-0.0℃".to_string();
    let f = enc.on_normal_info(&SystemSnapshot::default(), &DisplayConfig::default(), TdpMode::AaaGame, &w, None).to_vec();
    assert!(f[0xc5..0xd1].iter().all(|&b| b == 0));
    w.temperature_bits = 1.5f32.to_bits();
    w.temperature_label = "1.5℃".to_string();
    let f = enc.on_normal_info(&SystemSnapshot::default(), &DisplayConfig::default(), TdpMode::AaaGame, &w, None).to_vec();
    assert_eq!(&f[0xc5..0xc5 + 6], "1.5℃".as_bytes());
}

#[test]
fn long_text_is_cut_to_its_field() {
    let mut enc = FrameEncoder::new();
    let mut w = WeatherSnapshot::default();
    w.city = "ABCDEFGHIJKLMNOPQRSTUVWXYZ".to_string();
    w.wind_power = 12;
    let f = enc.on_normal_info(&SystemSnapshot::default(), &DisplayConfig::default(), TdpMode::AaaGame, &w, None).to_vec();
    assert_eq!(&f[0x85..0x95], b"ABCDEFGHIJKLMNOP");
    assert_eq!(f[0x95], 0);
    // city set: the temperature text is written even though it is empty
    assert_eq!(&f[0xdd..0xdd + 5], "12级".as_bytes());
}

#[test]
fn wind_power_labels() {
    assert_eq!(wind_power_label(0), "0级".as_bytes());
    assert_eq!(wind_power_label(7), "7级".as_bytes());
    assert_eq!(wind_power_label(12), "12级".as_bytes());
    assert_eq!(wind_power_label(255), "255级".as_bytes());
}

#[test]
fn force_strings_and_codes() {
    assert_eq!(TdpMode::AaaGame.as_force_str(), "Force AAA Game");
    assert_eq!(TdpMode::ClassicGame.as_force_str(), "Force Classic Game");
    assert_eq!(TdpMode::RetroGame.as_force_str(), "Force Retro Game");
    assert_eq!(TdpMode::PcOffice.as_force_str(), "Force PC Office");
    assert_eq!(Cmd::OnConnect.code(), 1);
    assert_eq!(Cmd::OnNormalInfo.code(), 2);
    assert_eq!(Cmd::Special.code(), 13);
    for i in 0..4u32 {
        assert_eq!(TdpMode::from_index(i).unwrap().index(), i);
    }
    let d = DisplayConfig::default();
    assert_eq!(d, DisplayConfig { language: Language::Zh, theme: Theme::Black, time_format: TimeFormat::H24 });
}

#[test]
fn seal_frame_prefixes_little_endian_crc() {
    let f = seal_frame(vec![9, 8, 7], 0x0403_0201);
    assert_eq!(f, vec![1, 2, 3, 4, 9, 8, 7]);
}

/// CRC-32 (IEEE), reflected, bit by bit.
fn reference_crc32(data: &[u8]) -> u32 {
    let mut c: u32 = 0xffff_ffff;
    for &b in data {
        c ^= b as u32;
        for _ in 0..8 {
            c = if c & 1 == 1 { (c >> 1) ^ 0xedb8_8320 } else { c >> 1 };
        }
    }
    c ^ 0xffff_ffff
}

#[test]
fn frame_checksum_is_crc32_ieee() {
    assert_eq!(reference_crc32(b"123456789"), 0xcbf4_3926);
    let mut enc = FrameEncoder::new();
    let f = enc.on_connect().to_vec();
    assert_eq!(u32::from_le_bytes([f[0], f[1], f[2], f[3]]), reference_crc32(&f[4..]));
    let f = enc
        .on_normal_info(&sample_snapshot(), &DisplayConfig::default(), TdpMode::PcOffice, &sample_weather(), None)
        .to_vec();
    assert_eq!(u32::from_le_bytes([f[0], f[1], f[2], f[3]]), reference_crc32(&f[4..]));
}

#[test]
fn local_time_fields() {
    let t = LocalTime { year: 2025, month: 3, day: 9, weekday: 0, hour: 23, minute: 5, second: 59 };
    let mut b = vec![0xaa];
    write_local_time(&mut b, Some(t));
    assert_eq!(b, vec![0xaa, 0xe9, 0x07, 3, 9, 0, 23, 5, 59]);
    let mut b = vec![0xaa];
    write_local_time(&mut b, None);
    assert_eq!(b, vec![0xaa, 0, 0, 0, 0, 0, 0, 0, 0]);

    let mut enc = FrameEncoder::new();
    let with = enc
        .on_normal_info(&sample_snapshot(), &DisplayConfig::default(), TdpMode::PcOffice, &sample_weather(), Some(t))
        .to_vec();
    let without = enc
        .on_normal_info(&sample_snapshot(), &DisplayConfig::default(), TdpMode::PcOffice, &sample_weather(), None)
        .to_vec();
    assert_eq!(&with[0x7b..0x83], &[0xe9, 0x07, 3, 9, 0, 23, 5, 59]);
    assert_eq!(&without[0x7b..0x83], &[0u8; 8]);
    for k in 4..FRAME_LEN {
        if !(0x7b..0x83).contains(&k) {
            assert_eq!(with[k], without[k], "byte {k:#x}");
        }
    }
}
