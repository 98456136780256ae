//! AM02 screen protocol: the 253-byte host frame (CRC-32 over bytes 4..253,
//! written little-endian into bytes 0..4) and the 29-byte screen response.

use vstd::prelude::*;

use crate::bytes::{lemma_le_u32_roundtrip, lemma_u32_from_le_roundtrip, le_u16, le_u32, put_i32, put_u16, put_u32, put_zeros, u32_from_le, zeros, get_u32};
use crate::crc::{crc32, crc32_ieee};
use vstd::utf8::encode_utf8;

verus! {

/// Length of a host -> screen frame.
pub const FRAME_LEN: usize = 253;

/// Length of a screen -> host response.
pub const RESP_LEN: usize = 29;

/// Host -> screen command (frame byte 4).
#[derive(Debug, Clone, Copy, PartialEq, Eq, Structural)]
pub enum Cmd {
    OnConnect,
    OnNormalInfo,
    Special,
}

impl Cmd {
    /// The command byte on the wire.
    #[verifier::allow_in_spec]
    pub fn code(&self) -> u8
        returns
            (match self {
                Cmd::OnConnect => 1u8,
                Cmd::OnNormalInfo => 2u8,
                Cmd::Special => 13u8,
            }),
    {
        match self {
            Cmd::OnConnect => 1,
            Cmd::OnNormalInfo => 2,
            Cmd::Special => 13,
        }
    }
}

/// Screen -> host sub-command (response bytes 20..24).
#[derive(Debug, Clone, Copy, PartialEq, Eq, Structural)]
pub enum SubCmd {
    /// Set operation (power / fan mode switch).
    Setting,
    /// Reset.
    Reset,
    /// Compute operation.
    Compute,
}

impl SubCmd {
    /// The sub-command value on the wire.
    #[verifier::allow_in_spec]
    pub fn value(&self) -> u32
        returns
            (match self {
                SubCmd::Setting => 1u32,
                SubCmd::Reset => 2u32,
                SubCmd::Compute => 3u32,
            }),
    {
        match self {
            SubCmd::Setting => 1,
            SubCmd::Reset => 2,
            SubCmd::Compute => 3,
        }
    }
}

/// The four TDP presets.
#[derive(Debug, Clone, Copy, PartialEq, Eq, Structural)]
pub enum TdpMode {
    AaaGame,
    ClassicGame,
    RetroGame,
    PcOffice,
}

/// The mode name written after "Force " for each preset.
pub open spec fn force_str_spec(m: TdpMode) -> Seq<char> {
    match m {
        TdpMode::AaaGame => "Force AAA Game"@,
        TdpMode::ClassicGame => "Force Classic Game"@,
        TdpMode::RetroGame => "Force Retro Game"@,
        TdpMode::PcOffice => "Force PC Office"@,
    }
}

/// The preset with index `i`, if there is one.
pub open spec fn mode_of_index(i: u32) -> Option<TdpMode> {
    if i == 0 {
        Some(TdpMode::AaaGame)
    } else if i == 1 {
        Some(TdpMode::ClassicGame)
    } else if i == 2 {
        Some(TdpMode::RetroGame)
    } else if i == 3 {
        Some(TdpMode::PcOffice)
    } else {
        None
    }
}

impl TdpMode {
    /// The preset index (0 = AAA, 1 = Classic, 2 = Retro, 3 = Office), as written at pack[0x61].
    #[verifier::allow_in_spec]
    pub fn index(&self) -> u32
        returns
            (match self {
                TdpMode::AaaGame => 0u32,
                TdpMode::ClassicGame => 1u32,
                TdpMode::RetroGame => 2u32,
                TdpMode::PcOffice => 3u32,
            }),
    {
        match self {
            TdpMode::AaaGame => 0,
            TdpMode::ClassicGame => 1,
            TdpMode::RetroGame => 2,
            TdpMode::PcOffice => 3,
        }
    }

    /// "Force " followed by the mode name.
    pub fn as_force_str(&self) -> (r: &'static str)
        ensures
            r@ == force_str_spec(*self),
    {
        match self {
            TdpMode::AaaGame => "Force AAA Game",
            TdpMode::ClassicGame => "Force Classic Game",
            TdpMode::RetroGame => "Force Retro Game",
            TdpMode::PcOffice => "Force PC Office",
        }
    }

    /// Index -> preset (0 = AAA, 1 = Classic, 2 = Retro, 3 = Office); any other index is `None`.
    pub fn from_index(i: u32) -> (r: Option<TdpMode>)
        ensures
            r == mode_of_index(i),
            r is Some <==> i < 4,
            r matches Some(m) ==> m.index() == i,
    {
        match i {
            0 => Some(TdpMode::AaaGame),
            1 => Some(TdpMode::ClassicGame),
            2 => Some(TdpMode::RetroGame),
            3 => Some(TdpMode::PcOffice),
            _ => None,
        }
    }
}

/// Every preset is found again from its index, and no other index names a preset.
pub proof fn lemma_mode_index_roundtrip(m: TdpMode, i: u32)
    ensures
        mode_of_index(m.index()) == Some(m),
        mode_of_index(i) matches Some(n) ==> n.index() == i,
        mode_of_index(i) is None <==> i >= 4,
{
}

/// Display language (pack[0x79]).
#[derive(Debug, Clone, Copy, PartialEq, Eq, Structural)]
pub enum Language {
    Zh,
    En,
}

impl Language {
    /// The language byte on the wire.
    #[verifier::allow_in_spec]
    pub fn code(&self) -> u8
        returns
            (match self {
                Language::Zh => 0u8,
                Language::En => 1u8,
            }),
    {
        match self {
            Language::Zh => 0,
            Language::En => 1,
        }
    }
}

/// Display theme (pack[0x7a]).
#[derive(Debug, Clone, Copy, PartialEq, Eq, Structural)]
pub enum Theme {
    Black,
    White,
}

impl Theme {
    /// The theme byte on the wire.
    #[verifier::allow_in_spec]
    pub fn code(&self) -> u8
        returns
            (match self {
                Theme::Black => 0u8,
                Theme::White => 1u8,
            }),
    {
        match self {
            Theme::Black => 0,
            Theme::White => 1,
        }
    }
}

/// Clock format (pack[0x84]): 0 = 12-hour, 1 = 24-hour.
#[derive(Debug, Clone, Copy, PartialEq, Eq, Structural)]
pub enum TimeFormat {
    H12,
    H24,
}

impl TimeFormat {
    /// The clock-format byte on the wire.
    #[verifier::allow_in_spec]
    pub fn code(&self) -> u8
        returns
            (match self {
                TimeFormat::H12 => 0u8,
                TimeFormat::H24 => 1u8,
            }),
    {
        match self {
            TimeFormat::H12 => 0,
            TimeFormat::H24 => 1,
        }
    }
}

/// Power state shared by the main loop and the IPC handler: the preset
/// (written at pack[0x61]) and the current sustained TDP in watts, as the bit
/// pattern of its `f32` value (written at pack[0x69]).
#[derive(Debug, Clone, Copy, PartialEq, Eq, Structural)]
pub struct PowerState {
    pub mode: TdpMode,
    pub tdp_watts_bits: u32,
}

/// Language, theme and clock format of the screen.
#[derive(Debug, Clone, Copy, PartialEq, Eq, Structural)]
pub struct DisplayConfig {
    pub language: Language,
    pub theme: Theme,
    pub time_format: TimeFormat,
}

impl Default for DisplayConfig {
    /// Chinese, black theme, 24-hour clock (the clock page defaults to 24 hours).
    fn default() -> (r: Self)
        ensures
            r == (DisplayConfig {
                language: Language::Zh,
                theme: Theme::Black,
                time_format: TimeFormat::H24,
            }),
    {
        DisplayConfig { language: Language::Zh, theme: Theme::Black, time_format: TimeFormat::H24 }
    }
}


/// System information as it goes on the wire. The readings that are
/// floating point (usages, powers, TDP and the frame rate) are carried as the
/// bit patterns of their `f32` values (`f32::to_bits`), which is exactly what
/// the frame holds.
#[derive(Debug, Clone, Copy, Default, PartialEq, Eq)]
pub struct SystemSnapshot {
    /// CPU usage, %, as `f32` bits.
    pub cpu_usage_bits: u32,
    /// CPU power, W, as `f32` bits.
    pub cpu_power_bits: u32,
    /// CPU temperature, degrees C.
    pub cpu_temp: i32,
    /// CPU frequency, MHz.
    pub cpu_freq: i32,
    /// GPU usage, %, as `f32` bits.
    pub gpu_usage_bits: u32,
    /// GPU power, W, as `f32` bits.
    pub gpu_power_bits: u32,
    /// GPU temperature, degrees C.
    pub gpu_temp: i32,
    /// GPU frequency, MHz.
    pub gpu_freq: i32,
    /// RAM used, GB.
    pub ram_used: i32,
    /// RAM total, GB.
    pub ram_total: i32,
    /// Disk used, GB.
    pub disk_used: i32,
    /// Disk total, GB.
    pub disk_total: i32,
    /// Fan speed, rpm.
    pub fan_rpm: i32,
    /// Network status (0 = offline, 1 = online).
    pub net_status: i32,
    /// Download speed, KB/s.
    pub net_down: i32,
    /// Upload speed, KB/s.
    pub net_up: i32,
    /// In-game frame rate, as the bits of the `f32` value of the integer FPS.
    pub fps_bits: u32,
    /// TDP, W, as `f32` bits.
    pub tdp_watts_bits: u32,
}

/// Weather shown on the screen. `temperature_bits` is the `f32` bit pattern of
/// the temperature in degrees C, and `temperature_label` its one-decimal
/// rendering followed by "℃" (such as "23.5℃").
#[derive(Debug, Clone)]
pub struct WeatherSnapshot {
    /// City name (pack[0x85]).
    pub city: String,
    /// Weather condition (pack[0x95]).
    pub weather: String,
    /// Province / region (pack[0xa5]).
    pub province: String,
    /// Temperature in degrees C, as `f32` bits.
    pub temperature_bits: u32,
    /// Temperature text written at pack[0xc5].
    pub temperature_label: String,
    /// Wind direction (pack[0xd1]).
    pub wind_direction: String,
    /// Wind force on the Beaufort scale (pack[0xdd], written as "N级").
    pub wind_power: u8,
}

/// No weather is shown: empty texts, zero temperature and wind.
pub open spec fn weather_cleared(w: WeatherSnapshot) -> bool {
    &&& w.city@.len() == 0
    &&& w.weather@.len() == 0
    &&& w.province@.len() == 0
    &&& w.temperature_bits == 0
    &&& w.temperature_label@.len() == 0
    &&& w.wind_direction@.len() == 0
    &&& w.wind_power == 0
}

impl Default for WeatherSnapshot {
    /// No weather: empty texts, zero temperature and wind.
    fn default() -> (r: Self)
        ensures
            weather_cleared(r),
    {
        WeatherSnapshot {
            city: String::new(),
            weather: String::new(),
            province: String::new(),
            temperature_bits: 0,
            temperature_label: String::new(),
            wind_direction: String::new(),
            wind_power: 0,
        }
    }
}

/// Local wall-clock time as written into the frame (the fields of a Windows SYSTEMTIME).
#[derive(Debug, Clone, Copy, PartialEq, Eq, Structural)]
pub struct LocalTime {
    pub year: u16,
    pub month: u8,
    pub day: u8,
    /// Day of week, 0 = Sunday.
    pub weekday: u8,
    /// Hour, 0..23.
    pub hour: u8,
    pub minute: u8,
    pub second: u8,
}

/// Whether an `f32` bit pattern is a value unequal to `0.0` (both zeros compare equal to
/// it; every other pattern, NaN included, compares unequal).
pub open spec fn f32_bits_nonzero(bits: u32) -> bool {
    bits & 0x7fff_ffffu32 != 0
}

/// A fixed-width text field: the first `width` bytes of `text`, padded with zeros.
pub open spec fn text_field(text: Seq<u8>, width: nat) -> Seq<u8> {
    let n = if text.len() < width { text.len() } else { width };
    text.take(n as int) + zeros((width - n) as nat)
}

/// Decimal digits (ASCII) of `n`.
pub open spec fn decimal_ascii(n: nat) -> Seq<u8>
    decreases n,
{
    if n < 10 {
        seq![(48 + n) as u8]
    } else {
        decimal_ascii(n / 10) + seq![(48 + n % 10) as u8]
    }
}

/// UTF-8 of "级" (Beaufort grade suffix).
pub open spec fn grade_suffix() -> Seq<u8> {
    seq![0xe7u8, 0xbau8, 0xa7u8]
}

/// The UTF-8 of `format!("{}级", power)`.
pub open spec fn wind_label(power: u8) -> Seq<u8> {
    decimal_ascii(power as nat) + grade_suffix()
}

/// pack[0x21..0x71]: the twenty numeric fields, four little-endian bytes each.
pub open spec fn numeric_block(s: SystemSnapshot, mode: TdpMode) -> Seq<u8> {
    le_u32(s.cpu_usage_bits) + le_u32(s.cpu_power_bits) + le_u32(s.cpu_temp as u32) + le_u32(
        s.cpu_freq as u32,
    ) + le_u32(s.gpu_usage_bits) + le_u32(s.gpu_power_bits) + le_u32(s.gpu_temp as u32) + le_u32(
        s.gpu_freq as u32,
    ) + le_u32(s.ram_used as u32) + le_u32(s.ram_total as u32) + le_u32(s.disk_used as u32)
        + le_u32(s.disk_total as u32) + le_u32(s.fan_rpm as u32) + le_u32(s.net_status as u32)
        + le_u32(s.net_down as u32) + le_u32(s.net_up as u32) + le_u32(mode.index()) + le_u32(0)
        + le_u32(s.tdp_watts_bits) + le_u32(s.fps_bits)
}

/// pack[0x7b..0x83]: year (u16 LE), month, day, weekday, hour, minute, second;
/// all zero when the local time could not be read.
pub open spec fn time_block(t: Option<LocalTime>) -> Seq<u8> {
    match t {
        Some(t) => le_u16(t.year) + seq![t.month, t.day, t.weekday, t.hour, t.minute, t.second],
        None => zeros(8),
    }
}

/// pack[0xc5..0xd1]: the temperature text, written when a city is set or the
/// temperature is not zero.
pub open spec fn temperature_field(w: WeatherSnapshot) -> Seq<u8> {
    if w.city@.len() != 0 || f32_bits_nonzero(w.temperature_bits) {
        text_field(encode_utf8(w.temperature_label@), 12)
    } else {
        zeros(12)
    }
}

/// pack[0xdd..0xf1]: "N级" when there is wind.
pub open spec fn wind_field(power: u8) -> Seq<u8> {
    if power > 0 {
        text_field(wind_label(power), 20)
    } else {
        zeros(20)
    }
}

/// Bytes 4..253 of an OnNormalInfo frame.
pub open spec fn normal_info_body(
    s: SystemSnapshot,
    d: DisplayConfig,
    mode: TdpMode,
    w: WeatherSnapshot,
    t: Option<LocalTime>,
) -> Seq<u8> {
    seq![Cmd::OnNormalInfo.code()] + zeros(22) + le_u16(0) + le_u32(0) + numeric_block(s, mode)
        + zeros(8) + settings_and_time(d, t) + weather_block(w) + zeros(12)
}

/// Bytes 4..253 of an OnConnect frame: the command byte, then zeros.
pub open spec fn connect_body() -> Seq<u8> {
    seq![Cmd::OnConnect.code()] + zeros(248)
}

/// A whole frame: the CRC-32 of the body, little-endian, followed by the body.
pub open spec fn sealed(body: Seq<u8>) -> Seq<u8> {
    le_u32(crc32_ieee(body)) + body
}

/// Appends the fixed-width field holding the bytes of `s`: at most `width`
/// bytes of it, the rest zeros.
pub fn put_str(buf: &mut Vec<u8>, s: &str, width: usize)
    ensures
        final(buf)@ == old(buf)@ + text_field(encode_utf8(s@), width as nat),
{
    let b = s.as_bytes();
    let n = if b.len() < width {
        b.len()
    } else {
        width
    };
    let ghost start = buf@;
    let mut i: usize = 0;
    while i < n
        invariant
            i <= n,
            n <= b@.len(),
            buf@ == start + b@.take(i as int),
        decreases n - i,
    {
        buf.push(b[i]);
        i = i + 1;
        assert(buf@ =~= start + b@.take(i as int));
    }
    put_zeros(buf, width - n);
    assert(final(buf)@ =~= start + text_field(encode_utf8(s@), width as nat));
}

/// The UTF-8 bytes of `format!("{}级", power)`.
pub fn wind_power_label(power: u8) -> (r: Vec<u8>)
    ensures
        r@ == wind_label(power),
{
    let mut v: Vec<u8> = Vec::new();
    if power >= 100 {
        v.push(48 + power / 100);
    }
    if power >= 10 {
        v.push(48 + (power / 10) % 10);
    }
    v.push(48 + power % 10);
    v.push(0xe7);
    v.push(0xba);
    v.push(0xa7);
    proof {
        let p = power as nat;
        reveal_with_fuel(decimal_ascii, 3);
        if p >= 100 {
            assert(decimal_ascii(p / 10) == decimal_ascii(p / 100) + seq![(48 + (p / 10) % 10) as u8]);
        }
        assert(v@ =~= wind_label(power));
    }
    v
}

/// Prefixes `body` with the little-endian bytes of `crc`.
pub fn seal_frame(body: Vec<u8>, crc: u32) -> (frame: Vec<u8>)
    ensures
        frame@ == le_u32(crc) + body@,
{
    let mut frame: Vec<u8> = Vec::new();
    put_u32(&mut frame, crc);
    let mut body = body;
    frame.append(&mut body);
    frame
}

/// CRC-32 over the body, written little-endian in front of it.
fn finalize(body: Vec<u8>) -> (frame: Vec<u8>)
    ensures
        frame@ == sealed(body@),
{
    let crc = crc32(body.as_slice());
    seal_frame(body, crc)
}

/// Encoder of host -> screen frames; holds the last frame built.
pub struct FrameEncoder {
    buf: Vec<u8>,
}

impl View for FrameEncoder {
    type V = Seq<u8>;

    closed spec fn view(&self) -> Seq<u8> {
        self.buf@
    }
}

impl FrameEncoder {
    /// An encoder holding an all-zero frame.
    pub fn new() -> (e: Self)
        ensures
            e@ == zeros(FRAME_LEN as nat),
    {
        let mut buf: Vec<u8> = Vec::new();
        put_zeros(&mut buf, FRAME_LEN);
        assert(buf@ =~= zeros(FRAME_LEN as nat));
        FrameEncoder { buf }
    }

    /// Builds the OnConnect frame: command byte 1, zeros, CRC in front.
    pub fn on_connect(&mut self) -> (frame: &[u8])
        ensures
            frame@ == sealed(connect_body()),
            frame@.len() == FRAME_LEN,
            final(self)@ == frame@,
    {
        let mut body: Vec<u8> = Vec::new();
        body.push(Cmd::OnConnect.code());
        put_zeros(&mut body, 248);
        assert(body@ =~= connect_body());
        self.buf = finalize(body);
        self.buf.as_slice()
    }

    /// Builds the OnNormalInfo frame from the system snapshot, display settings,
    /// power preset, weather and local time (`None`: the time fields stay zero).
    pub fn on_normal_info(
        &mut self,
        snap: &SystemSnapshot,
        disp: &DisplayConfig,
        mode: TdpMode,
        weather: &WeatherSnapshot,
        time: Option<LocalTime>,
    ) -> (frame: &[u8])
        ensures
            frame@ == sealed(normal_info_body(*snap, *disp, mode, *weather, time)),
            frame@.len() == FRAME_LEN,
            final(self)@ == frame@,
    {
        let mut b: Vec<u8> = Vec::new();
        b.push(Cmd::OnNormalInfo.code());
        // uex_cmd / uex_param and the rest of the header stay zero
        put_zeros(&mut b, 22);
        // upgrade fields (normal = 0)
        put_u16(&mut b, 0);
        put_u32(&mut b, 0);
        put_numeric_block(&mut b, snap, mode);
        put_zeros(&mut b, 8);
        put_settings_and_time(&mut b, disp, time);
        put_weather_block(&mut b, weather);
        put_zeros(&mut b, 12);
        assert(b@ =~= normal_info_body(*snap, *disp, mode, *weather, time));
        self.buf = finalize(b);
        self.buf.as_slice()
    }
}

/// pack[0x79..0x85]: language, theme, local time, clock page on, 12/24-hour flag.
pub open spec fn settings_and_time(d: DisplayConfig, t: Option<LocalTime>) -> Seq<u8> {
    seq![d.language.code(), d.theme.code()] + time_block(t) + seq![1u8, d.time_format.code()]
}

/// pack[0x85..0xf1]: the weather text fields.
pub open spec fn weather_block(w: WeatherSnapshot) -> Seq<u8> {
    text_field(encode_utf8(w.city@), 16) + text_field(encode_utf8(w.weather@), 16) + text_field(
        encode_utf8(w.province@),
        32,
    ) + temperature_field(w) + text_field(encode_utf8(w.wind_direction@), 12) + wind_field(
        w.wind_power,
    )
}

fn put_numeric_block(b: &mut Vec<u8>, snap: &SystemSnapshot, mode: TdpMode)
    ensures
        final(b)@ == old(b)@ + numeric_block(*snap, mode),
{
    put_u32(b, snap.cpu_usage_bits);
    put_u32(b, snap.cpu_power_bits);
    put_i32(b, snap.cpu_temp);
    put_i32(b, snap.cpu_freq);
    put_u32(b, snap.gpu_usage_bits);
    put_u32(b, snap.gpu_power_bits);
    put_i32(b, snap.gpu_temp);
    put_i32(b, snap.gpu_freq);
    put_i32(b, snap.ram_used);
    put_i32(b, snap.ram_total);
    put_i32(b, snap.disk_used);
    put_i32(b, snap.disk_total);
    put_i32(b, snap.fan_rpm);
    // network status (0x55)
    put_i32(b, snap.net_status);
    put_i32(b, snap.net_down);
    put_i32(b, snap.net_up);
    // preset index (0x61), which the screen ticks
    put_u32(b, mode.index());
    // 0x65 is not read by the screen
    put_i32(b, 0);
    put_u32(b, snap.tdp_watts_bits);
    // frame rate (0x6d)
    put_u32(b, snap.fps_bits);
    assert(final(b)@ =~= old(b)@ + numeric_block(*snap, mode));
}

fn put_settings_and_time(b: &mut Vec<u8>, disp: &DisplayConfig, time: Option<LocalTime>)
    ensures
        final(b)@ == old(b)@ + settings_and_time(*disp, time),
{
    b.push(disp.language.code());
    b.push(disp.theme.code());
    write_local_time(b, time);
    b.push(1);
    b.push(disp.time_format.code());
    assert(final(b)@ =~= old(b)@ + settings_and_time(*disp, time));
}

/// Appends the local-time fields of pack[0x7b..0x83]: year (u16, little-endian),
/// month, day, weekday (0 = Sunday), hour (0..23, the 12/24-hour choice is a
/// separate flag), minute, second; eight zeros when the local time could not be
/// read.
pub fn write_local_time(b: &mut Vec<u8>, time: Option<LocalTime>)
    ensures
        final(b)@ == old(b)@ + time_block(time),
{
    match time {
        Some(t) => {
            put_u16(b, t.year);
            b.push(t.month);
            b.push(t.day);
            b.push(t.weekday);
            b.push(t.hour);
            b.push(t.minute);
            b.push(t.second);
        },
        None => {
            put_zeros(b, 8);
        },
    }
    assert(final(b)@ =~= old(b)@ + time_block(time));
}

fn put_wind_field(b: &mut Vec<u8>, power: u8)
    ensures
        final(b)@ == old(b)@ + wind_field(power),
{
    if power > 0 {
        let label = wind_power_label(power);
        proof {
            reveal_with_fuel(decimal_ascii, 3);
        }
        assert(label@.len() <= 6);
        let n = label.len();
        let mut i: usize = 0;
        while i < n
            invariant
                i <= n,
                n == label@.len(),
                n <= 6,
                b@ == old(b)@ + label@.take(i as int),
            decreases n - i,
        {
            b.push(label[i]);
            i = i + 1;
            assert(b@ =~= old(b)@ + label@.take(i as int));
        }
        put_zeros(b, 20 - n);
        assert(final(b)@ =~= old(b)@ + wind_field(power));
    } else {
        put_zeros(b, 20);
    }
}

fn put_weather_block(b: &mut Vec<u8>, weather: &WeatherSnapshot)
    ensures
        final(b)@ == old(b)@ + weather_block(*weather),
{
    put_str(b, weather.city.as_str(), 16);
    put_str(b, weather.weather.as_str(), 16);
    put_str(b, weather.province.as_str(), 32);
    if !weather.city.as_str().is_empty() || (weather.temperature_bits & 0x7fff_ffffu32) != 0 {
        put_str(b, weather.temperature_label.as_str(), 12);
    } else {
        put_zeros(b, 12);
    }
    put_str(b, weather.wind_direction.as_str(), 12);
    put_wind_field(b, weather.wind_power);
    assert(final(b)@ =~= old(b)@ + weather_block(*weather));
}

/// The fields of a screen -> host response.
#[derive(Debug, Clone, Copy, PartialEq, Eq, Structural)]
pub struct Response {
    /// Bytes 0..4: echoed CRC.
    pub recv_crc32: u32,
    /// Byte 4: echoed command.
    pub cmd: u8,
    /// Bytes 20..24: screen sub-command.
    pub sub_cmd: u32,
    /// Bytes 24..28: sub-command parameter.
    pub sub_param: u32,
    /// Byte 28: status.
    pub status: u8,
}

/// The response that a 29-byte buffer holds.
pub open spec fn response_of(buf: Seq<u8>) -> Response {
    Response {
        recv_crc32: u32_from_le(buf.subrange(0, 4)),
        cmd: buf[4],
        sub_cmd: u32_from_le(buf.subrange(20, 24)),
        sub_param: u32_from_le(buf.subrange(24, 28)),
        status: buf[28],
    }
}

/// The 29 bytes that carry a response (bytes 5..20 are not read).
pub open spec fn response_bytes(r: Response) -> Seq<u8> {
    le_u32(r.recv_crc32) + seq![r.cmd] + zeros(15) + le_u32(r.sub_cmd) + le_u32(r.sub_param)
        + seq![r.status]
}

impl Response {
    /// Decodes a 29-byte response.
    pub fn parse(buf: &[u8]) -> (r: Self)
        requires
            buf@.len() == RESP_LEN,
        ensures
            r == response_of(buf@),
    {
        Response {
            recv_crc32: get_u32(buf, 0),
            cmd: buf[4],
            sub_cmd: get_u32(buf, 20),
            sub_param: get_u32(buf, 24),
            status: buf[28],
        }
    }

    /// Handshake accepted: the echoed CRC is the one sent and the command is OnConnect.
    pub fn is_valid_handshake(&self, sent_crc: u32) -> (ok: bool)
        ensures
            ok == (self.recv_crc32 == sent_crc && self.cmd == Cmd::OnConnect.code()),
    {
        self.recv_crc32 == sent_crc && self.cmd == Cmd::OnConnect.code()
    }
}

/// Every frame carries, in bytes 0..4 read little-endian, the CRC-32 of bytes
/// 4..253, and the frames the encoder builds are 253 bytes long.
pub proof fn lemma_frame_checksum(body: Seq<u8>)
    ensures
        sealed(body).len() == body.len() + 4,
        sealed(body).skip(4) == body,
        u32_from_le(sealed(body).take(4)) == crc32_ieee(body),
        connect_body().len() + 4 == FRAME_LEN,
{
    let f = sealed(body);
    lemma_le_u32_roundtrip(crc32_ieee(body));
    assert(f.take(4) =~= le_u32(crc32_ieee(body)));
    assert(f.skip(4) =~= body);
}

/// A response that echoes the first five bytes of the OnConnect frame (its CRC
/// and command byte) is accepted as a handshake for the CRC read back from the
/// frame, and a response with any other echoed CRC or command is refused.
pub proof fn lemma_echo_completes_handshake(resp: Seq<u8>)
    requires
        resp.len() == RESP_LEN,
    ensures
        resp.take(5) == sealed(connect_body()).take(5) ==> ({
            let r = response_of(resp);
            &&& r.recv_crc32 == u32_from_le(sealed(connect_body()).take(4))
            &&& r.cmd == Cmd::OnConnect.code()
        }),
        response_of(resp).recv_crc32 == u32_from_le(sealed(connect_body()).take(4))
            && response_of(resp).cmd == Cmd::OnConnect.code() ==> resp.take(5) == sealed(
            connect_body(),
        ).take(5),
{
    let f = sealed(connect_body());
    lemma_frame_checksum(connect_body());
    let crc = crc32_ieee(connect_body());
    lemma_le_u32_roundtrip(crc);
    assert(f.take(4) =~= le_u32(crc));
    assert(f[4] == 1u8);
    if resp.take(5) == f.take(5) {
        assert(resp.subrange(0, 4) =~= f.take(4));
        assert(resp[4] == resp.take(5)[4]);
    }
    if response_of(resp).recv_crc32 == u32_from_le(f.take(4)) && response_of(resp).cmd == 1u8 {
        lemma_u32_from_le_roundtrip(resp.subrange(0, 4));
        assert(resp.subrange(0, 4) =~= le_u32(crc));
        assert(resp.take(5) =~= f.take(5));
    }
}

/// Decoding the bytes of a response gives the response back, and a buffer is
/// determined by its decoded fields outside the unread bytes 5..20.
pub proof fn lemma_response_roundtrip(r: Response)
    ensures
        response_bytes(r).len() == RESP_LEN,
        response_of(response_bytes(r)) == r,
{
    let b = response_bytes(r);
    lemma_le_u32_roundtrip(r.recv_crc32);
    lemma_le_u32_roundtrip(r.sub_cmd);
    lemma_le_u32_roundtrip(r.sub_param);
    assert(b.subrange(0, 4) =~= le_u32(r.recv_crc32));
    assert(b.subrange(20, 24) =~= le_u32(r.sub_cmd));
    assert(b.subrange(24, 28) =~= le_u32(r.sub_param));
}

/// A fixed-width text field is exactly `width` bytes; text that fits is kept
/// whole and followed by zeros (the screen stops at the first zero), longer
/// text is cut to its first `width` bytes.
pub proof fn lemma_text_field(text: Seq<u8>, width: nat)
    ensures
        text_field(text, width).len() == width,
        text.len() <= width ==> text_field(text, width) == text + zeros((width - text.len()) as nat),
        text.len() > width ==> text_field(text, width) == text.take(width as int),
{
    if text.len() <= width {
        assert(text.take(text.len() as int) =~= text);
    } else {
        assert(text_field(text, width) =~= text.take(width as int));
    }
}

proof fn lemma_middle(a: Seq<u8>, m: Seq<u8>, c: Seq<u8>)
    ensures
        (a + m + c).subrange(a.len() as int, (a.len() + m.len()) as int) == m,
{
    assert((a + m + c).subrange(a.len() as int, (a.len() + m.len()) as int) =~= m);
}

/// Field offsets of an OnNormalInfo frame: command byte 2 at 4, the preset
/// index at 0x61, the TDP at 0x69, the frame rate at 0x6d (each four bytes
/// little-endian), language at 0x79, theme at 0x7a, the clock page flag 1 at
/// 0x83, the 12/24-hour flag at 0x84, and the city text from 0x85.
pub proof fn lemma_normal_info_offsets(
    s: SystemSnapshot,
    d: DisplayConfig,
    mode: TdpMode,
    w: WeatherSnapshot,
    t: Option<LocalTime>,
)
    ensures
        ({
            let f = sealed(normal_info_body(s, d, mode, w, t));
            &&& f.len() == FRAME_LEN
            &&& f[4] == Cmd::OnNormalInfo.code()
            &&& f.subrange(0x21, 0x71) == numeric_block(s, mode)
            &&& f.subrange(0x79, 0x85) == settings_and_time(d, t)
            &&& f.subrange(0x85, 0xf1) == weather_block(w)
        }),
{
    let body = normal_info_body(s, d, mode, w, t);
    let f = sealed(body);
    let crc = le_u32(crc32_ieee(body));
    let head = seq![Cmd::OnNormalInfo.code()] + zeros(22) + le_u16(0) + le_u32(0);
    let nb = numeric_block(s, mode);
    let st = settings_and_time(d, t);
    let wb = weather_block(w);
    assert(head.len() == 29);
    assert(nb.len() == 80);
    assert(time_block(t).len() == 8);
    assert(st.len() == 12);
    lemma_text_field(encode_utf8(w.city@), 16);
    lemma_text_field(encode_utf8(w.weather@), 16);
    lemma_text_field(encode_utf8(w.province@), 32);
    lemma_text_field(encode_utf8(w.wind_direction@), 12);
    lemma_text_field(encode_utf8(w.temperature_label@), 12);
    lemma_text_field(wind_label(w.wind_power), 20);
    assert(wb.len() == 108);
    let a1 = crc + head;
    let r1 = zeros(8) + st + wb + zeros(12);
    assert(f =~= a1 + nb + r1);
    lemma_middle(a1, nb, r1);
    let a2 = crc + head + nb + zeros(8);
    let r2 = wb + zeros(12);
    assert(f =~= a2 + st + r2);
    lemma_middle(a2, st, r2);
    let a3 = a2 + st;
    assert(f =~= a3 + wb + zeros(12));
    lemma_middle(a3, wb, zeros(12));
    assert(f[4] == head[0]);
}

/// The preset index, TDP and frame rate sit at 0x61, 0x69 and 0x6d, the
/// clock fields at 0x79..0x85 in this order: language, theme, year (u16),
/// month, day, weekday, hour, minute, second, clock page on, 12/24-hour flag.
pub proof fn lemma_field_positions(s: SystemSnapshot, d: DisplayConfig, mode: TdpMode, t: Option<LocalTime>)
    ensures
        numeric_block(s, mode).subrange(0x61 - 0x21, 0x65 - 0x21) == le_u32(mode.index()),
        numeric_block(s, mode).subrange(0x69 - 0x21, 0x6d - 0x21) == le_u32(s.tdp_watts_bits),
        numeric_block(s, mode).subrange(0x6d - 0x21, 0x71 - 0x21) == le_u32(s.fps_bits),
        numeric_block(s, mode).subrange(0, 4) == le_u32(s.cpu_usage_bits),
        settings_and_time(d, t)[0] == d.language.code(),
        settings_and_time(d, t)[1] == d.theme.code(),
        settings_and_time(d, t).subrange(2, 10) == time_block(t),
        settings_and_time(d, t)[10] == 1,
        settings_and_time(d, t)[11] == d.time_format.code(),
{
    let nb = numeric_block(s, mode);
    assert(nb.subrange(64, 68) =~= le_u32(mode.index()));
    assert(nb.subrange(72, 76) =~= le_u32(s.tdp_watts_bits));
    assert(nb.subrange(76, 80) =~= le_u32(s.fps_bits));
    assert(nb.subrange(0, 4) =~= le_u32(s.cpu_usage_bits));
    let st = settings_and_time(d, t);
    assert(time_block(t).len() == 8);
    assert(st.subrange(2, 10) =~= time_block(t));
}

/// The local time sits at pack[0x7b..0x83] of an OnNormalInfo frame: year
/// (u16, little-endian) at 0x7b, then month, day, weekday, hour, minute and
/// second at 0x7d..0x83; all eight bytes are zero when the local time could not
/// be read; and the time changes no other byte of the frame after the checksum.
pub proof fn lemma_local_time_fields(
    s: SystemSnapshot,
    d: DisplayConfig,
    mode: TdpMode,
    w: WeatherSnapshot,
    t: Option<LocalTime>,
)
    ensures
        ({
            let f = sealed(normal_info_body(s, d, mode, w, t));
            let g = sealed(normal_info_body(s, d, mode, w, None));
            &&& f.len() == FRAME_LEN
            &&& t matches Some(lt) ==> {
                &&& f.subrange(0x7b, 0x7d) == le_u16(lt.year)
                &&& f[0x7d] == lt.month
                &&& f[0x7e] == lt.day
                &&& f[0x7f] == lt.weekday
                &&& f[0x80] == lt.hour
                &&& f[0x81] == lt.minute
                &&& f[0x82] == lt.second
            }
            &&& t is None ==> f.subrange(0x7b, 0x83) == zeros(8)
            &&& forall|k: int|
                4 <= k < FRAME_LEN && !(0x7b <= k < 0x83) ==> #[trigger] f[k] == g[k]
        }),
{
    let f = sealed(normal_info_body(s, d, mode, w, t));
    let g = sealed(normal_info_body(s, d, mode, w, None));
    lemma_normal_info_offsets(s, d, mode, w, t);
    lemma_normal_info_offsets(s, d, mode, w, None);
    lemma_field_positions(s, d, mode, t);
    lemma_field_positions(s, d, mode, None);
    let st = settings_and_time(d, t);
    assert(f.subrange(0x7b, 0x83) =~= st.subrange(2, 10));
    let tb = time_block(t);
    if let Some(lt) = t {
        assert(f.subrange(0x7b, 0x7d) =~= tb.subrange(0, 2));
        assert(tb.subrange(0, 2) =~= le_u16(lt.year));
        assert(f[0x7d] == tb[2]);
        assert(f[0x7e] == tb[3]);
        assert(f[0x7f] == tb[4]);
        assert(f[0x80] == tb[5]);
        assert(f[0x81] == tb[6]);
        assert(f[0x82] == tb[7]);
    }
    let bf = normal_info_body(s, d, mode, w, t);
    let bg = normal_info_body(s, d, mode, w, None);
    let head = seq![Cmd::OnNormalInfo.code()] + zeros(22) + le_u16(0) + le_u32(0) + numeric_block(s, mode) + zeros(8);
    let tail = weather_block(w) + zeros(12);
    assert(bf =~= head + st + tail);
    assert(bg =~= head + settings_and_time(d, None) + tail);
    assert forall|k: int| 4 <= k < FRAME_LEN && !(0x7b <= k < 0x83) implies #[trigger] f[k] == g[k] by {
        assert(f[k] == bf[k - 4]);
        assert(g[k] == bg[k - 4]);
        assert(head.len() == 0x75);
        if k - 4 >= 0x75 && k - 4 < 0x75 + 12 {
            let j = k - 4 - 0x75;
            assert(j < 2 || j >= 10);
            assert(st[j] == settings_and_time(d, None)[j]);
        }
    }
}

#[verifier::rlimit(40)]
proof fn lemma_numeric_fields_0(s: SystemSnapshot, mode: TdpMode)
    ensures
        u32_from_le(numeric_block(s, mode).subrange(0, 4)) == s.cpu_usage_bits,
        u32_from_le(numeric_block(s, mode).subrange(4, 8)) == s.cpu_power_bits,
        u32_from_le(numeric_block(s, mode).subrange(8, 12)) == s.cpu_temp as u32,
        u32_from_le(numeric_block(s, mode).subrange(12, 16)) == s.cpu_freq as u32,
        u32_from_le(numeric_block(s, mode).subrange(16, 20)) == s.gpu_usage_bits,
{
    let nb = numeric_block(s, mode);
    assert(nb.len() == 80);
    assert(nb.subrange(0, 4) =~= le_u32(s.cpu_usage_bits));
    assert(nb.subrange(4, 8) =~= le_u32(s.cpu_power_bits));
    assert(nb.subrange(8, 12) =~= le_u32(s.cpu_temp as u32));
    assert(nb.subrange(12, 16) =~= le_u32(s.cpu_freq as u32));
    assert(nb.subrange(16, 20) =~= le_u32(s.gpu_usage_bits));
    lemma_le_u32_roundtrip(s.cpu_usage_bits);
    lemma_le_u32_roundtrip(s.cpu_power_bits);
    lemma_le_u32_roundtrip(s.cpu_temp as u32);
    lemma_le_u32_roundtrip(s.cpu_freq as u32);
    lemma_le_u32_roundtrip(s.gpu_usage_bits);
}

#[verifier::rlimit(40)]
proof fn lemma_numeric_fields_1(s: SystemSnapshot, mode: TdpMode)
    ensures
        u32_from_le(numeric_block(s, mode).subrange(20, 24)) == s.gpu_power_bits,
        u32_from_le(numeric_block(s, mode).subrange(24, 28)) == s.gpu_temp as u32,
        u32_from_le(numeric_block(s, mode).subrange(28, 32)) == s.gpu_freq as u32,
        u32_from_le(numeric_block(s, mode).subrange(32, 36)) == s.ram_used as u32,
        u32_from_le(numeric_block(s, mode).subrange(36, 40)) == s.ram_total as u32,
{
    let nb = numeric_block(s, mode);
    assert(nb.len() == 80);
    assert(nb.subrange(20, 24) =~= le_u32(s.gpu_power_bits));
    assert(nb.subrange(24, 28) =~= le_u32(s.gpu_temp as u32));
    assert(nb.subrange(28, 32) =~= le_u32(s.gpu_freq as u32));
    assert(nb.subrange(32, 36) =~= le_u32(s.ram_used as u32));
    assert(nb.subrange(36, 40) =~= le_u32(s.ram_total as u32));
    lemma_le_u32_roundtrip(s.gpu_power_bits);
    lemma_le_u32_roundtrip(s.gpu_temp as u32);
    lemma_le_u32_roundtrip(s.gpu_freq as u32);
    lemma_le_u32_roundtrip(s.ram_used as u32);
    lemma_le_u32_roundtrip(s.ram_total as u32);
}

#[verifier::rlimit(40)]
proof fn lemma_numeric_fields_2(s: SystemSnapshot, mode: TdpMode)
    ensures
        u32_from_le(numeric_block(s, mode).subrange(40, 44)) == s.disk_used as u32,
        u32_from_le(numeric_block(s, mode).subrange(44, 48)) == s.disk_total as u32,
        u32_from_le(numeric_block(s, mode).subrange(48, 52)) == s.fan_rpm as u32,
        u32_from_le(numeric_block(s, mode).subrange(52, 56)) == s.net_status as u32,
        u32_from_le(numeric_block(s, mode).subrange(56, 60)) == s.net_down as u32,
{
    let nb = numeric_block(s, mode);
    assert(nb.len() == 80);
    assert(nb.subrange(40, 44) =~= le_u32(s.disk_used as u32));
    assert(nb.subrange(44, 48) =~= le_u32(s.disk_total as u32));
    assert(nb.subrange(48, 52) =~= le_u32(s.fan_rpm as u32));
    assert(nb.subrange(52, 56) =~= le_u32(s.net_status as u32));
    assert(nb.subrange(56, 60) =~= le_u32(s.net_down as u32));
    lemma_le_u32_roundtrip(s.disk_used as u32);
    lemma_le_u32_roundtrip(s.disk_total as u32);
    lemma_le_u32_roundtrip(s.fan_rpm as u32);
    lemma_le_u32_roundtrip(s.net_status as u32);
    lemma_le_u32_roundtrip(s.net_down as u32);
}

#[verifier::rlimit(40)]
proof fn lemma_numeric_fields_3(s: SystemSnapshot, mode: TdpMode)
    ensures
        u32_from_le(numeric_block(s, mode).subrange(60, 64)) == s.net_up as u32,
        u32_from_le(numeric_block(s, mode).subrange(64, 68)) == mode.index(),
        u32_from_le(numeric_block(s, mode).subrange(68, 72)) == 0u32,
        u32_from_le(numeric_block(s, mode).subrange(72, 76)) == s.tdp_watts_bits,
        u32_from_le(numeric_block(s, mode).subrange(76, 80)) == s.fps_bits,
{
    let nb = numeric_block(s, mode);
    assert(nb.len() == 80);
    assert(nb.subrange(60, 64) =~= le_u32(s.net_up as u32));
    assert(nb.subrange(64, 68) =~= le_u32(mode.index()));
    assert(nb.subrange(68, 72) =~= le_u32(0u32));
    assert(nb.subrange(72, 76) =~= le_u32(s.tdp_watts_bits));
    assert(nb.subrange(76, 80) =~= le_u32(s.fps_bits));
    lemma_le_u32_roundtrip(s.net_up as u32);
    lemma_le_u32_roundtrip(mode.index());
    lemma_le_u32_roundtrip(0u32);
    lemma_le_u32_roundtrip(s.tdp_watts_bits);
    lemma_le_u32_roundtrip(s.fps_bits);
}

proof fn lemma_weather_fields(w: WeatherSnapshot)
    ensures
        weather_block(w).subrange(0, 16) == text_field(encode_utf8(w.city@), 16),
        weather_block(w).subrange(16, 32) == text_field(encode_utf8(w.weather@), 16),
        weather_block(w).subrange(32, 64) == text_field(encode_utf8(w.province@), 32),
        weather_block(w).subrange(64, 76) == temperature_field(w),
        weather_block(w).subrange(76, 88) == text_field(encode_utf8(w.wind_direction@), 12),
        weather_block(w).subrange(88, 108) == wind_field(w.wind_power),
{
    lemma_text_field(encode_utf8(w.city@), 16);
    lemma_text_field(encode_utf8(w.weather@), 16);
    lemma_text_field(encode_utf8(w.province@), 32);
    lemma_text_field(encode_utf8(w.wind_direction@), 12);
    lemma_text_field(encode_utf8(w.temperature_label@), 12);
    lemma_text_field(wind_label(w.wind_power), 20);
    let wb = weather_block(w);
    let c1 = text_field(encode_utf8(w.city@), 16);
    let c2 = text_field(encode_utf8(w.weather@), 16);
    let c3 = text_field(encode_utf8(w.province@), 32);
    let c4 = temperature_field(w);
    let c5 = text_field(encode_utf8(w.wind_direction@), 12);
    let c6 = wind_field(w.wind_power);
    assert(wb.subrange(0, 16) =~= c1);
    assert(wb.subrange(16, 32) =~= c2);
    assert(wb.subrange(32, 64) =~= c3);
    assert(wb.subrange(64, 76) =~= c4);
    assert(wb.subrange(76, 88) =~= c5);
    assert(wb.subrange(88, 108) =~= c6);
}

/// Every field of an OnNormalInfo frame sits at its documented offset: the
/// twenty numeric fields read little-endian at 0x21, 0x25, .. 0x6d (CPU usage,
/// CPU power, CPU temperature, CPU frequency, GPU usage, GPU power, GPU
/// temperature, GPU frequency, RAM used, RAM total, disk used, disk total, fan,
/// network status, download, upload, preset index, an unread zero, TDP, frame
/// rate), language at 0x79, theme at 0x7a, the clock page flag 1 at 0x83, the
/// 12/24-hour flag at 0x84, and the text fields city (16 bytes) at 0x85,
/// condition (16) at 0x95, province (32) at 0xa5, temperature (12) at 0xc5,
/// wind direction (12) at 0xd1 and wind force (20) at 0xdd.
pub proof fn lemma_frame_layout(
    s: SystemSnapshot,
    d: DisplayConfig,
    mode: TdpMode,
    w: WeatherSnapshot,
    t: Option<LocalTime>,
)
    ensures
        ({
            let f = sealed(normal_info_body(s, d, mode, w, t));
            &&& f.len() == FRAME_LEN
            &&& f[4] == 2
            &&& u32_from_le(f.subrange(0x21, 0x25)) == s.cpu_usage_bits
            &&& u32_from_le(f.subrange(0x25, 0x29)) == s.cpu_power_bits
            &&& u32_from_le(f.subrange(0x29, 0x2d)) == s.cpu_temp as u32
            &&& u32_from_le(f.subrange(0x2d, 0x31)) == s.cpu_freq as u32
            &&& u32_from_le(f.subrange(0x31, 0x35)) == s.gpu_usage_bits
            &&& u32_from_le(f.subrange(0x35, 0x39)) == s.gpu_power_bits
            &&& u32_from_le(f.subrange(0x39, 0x3d)) == s.gpu_temp as u32
            &&& u32_from_le(f.subrange(0x3d, 0x41)) == s.gpu_freq as u32
            &&& u32_from_le(f.subrange(0x41, 0x45)) == s.ram_used as u32
            &&& u32_from_le(f.subrange(0x45, 0x49)) == s.ram_total as u32
            &&& u32_from_le(f.subrange(0x49, 0x4d)) == s.disk_used as u32
            &&& u32_from_le(f.subrange(0x4d, 0x51)) == s.disk_total as u32
            &&& u32_from_le(f.subrange(0x51, 0x55)) == s.fan_rpm as u32
            &&& u32_from_le(f.subrange(0x55, 0x59)) == s.net_status as u32
            &&& u32_from_le(f.subrange(0x59, 0x5d)) == s.net_down as u32
            &&& u32_from_le(f.subrange(0x5d, 0x61)) == s.net_up as u32
            &&& u32_from_le(f.subrange(0x61, 0x65)) == mode.index()
            &&& u32_from_le(f.subrange(0x65, 0x69)) == 0u32
            &&& u32_from_le(f.subrange(0x69, 0x6d)) == s.tdp_watts_bits
            &&& u32_from_le(f.subrange(0x6d, 0x71)) == s.fps_bits
            &&& f[0x79] == d.language.code()
            &&& f[0x7a] == d.theme.code()
            &&& f[0x83] == 1
            &&& f[0x84] == d.time_format.code()
            &&& f.subrange(0x85, 0x95) == text_field(encode_utf8(w.city@), 16)
            &&& f.subrange(0x95, 0xa5) == text_field(encode_utf8(w.weather@), 16)
            &&& f.subrange(0xa5, 0xc5) == text_field(encode_utf8(w.province@), 32)
            &&& f.subrange(0xc5, 0xd1) == temperature_field(w)
            &&& f.subrange(0xd1, 0xdd) == text_field(encode_utf8(w.wind_direction@), 12)
            &&& f.subrange(0xdd, 0xf1) == wind_field(w.wind_power)
        }),
{
    let f = sealed(normal_info_body(s, d, mode, w, t));
    lemma_normal_info_offsets(s, d, mode, w, t);
    lemma_field_positions(s, d, mode, t);
    lemma_numeric_fields_0(s, mode);
    lemma_numeric_fields_1(s, mode);
    lemma_numeric_fields_2(s, mode);
    lemma_numeric_fields_3(s, mode);
    lemma_weather_fields(w);
    let nb = numeric_block(s, mode);
    let wb = weather_block(w);
    let st = settings_and_time(d, t);
    assert forall|a: int, b: int| 0x21 <= a <= b <= 0x71 implies #[trigger] f.subrange(a, b) == nb.subrange(a - 0x21, b - 0x21) by {
        assert(f.subrange(a, b) =~= f.subrange(0x21, 0x71).subrange(a - 0x21, b - 0x21));
    }
    assert forall|a: int, b: int| 0x85 <= a <= b <= 0xf1 implies #[trigger] f.subrange(a, b) == wb.subrange(a - 0x85, b - 0x85) by {
        assert(f.subrange(a, b) =~= f.subrange(0x85, 0xf1).subrange(a - 0x85, b - 0x85));
    }
    assert(f.subrange(0x21, 0x25) == nb.subrange(0, 4));
    assert(f.subrange(0x25, 0x29) == nb.subrange(4, 8));
    assert(f.subrange(0x29, 0x2d) == nb.subrange(8, 12));
    assert(f.subrange(0x2d, 0x31) == nb.subrange(12, 16));
    assert(f.subrange(0x31, 0x35) == nb.subrange(16, 20));
    assert(f.subrange(0x35, 0x39) == nb.subrange(20, 24));
    assert(f.subrange(0x39, 0x3d) == nb.subrange(24, 28));
    assert(f.subrange(0x3d, 0x41) == nb.subrange(28, 32));
    assert(f.subrange(0x41, 0x45) == nb.subrange(32, 36));
    assert(f.subrange(0x45, 0x49) == nb.subrange(36, 40));
    assert(f.subrange(0x49, 0x4d) == nb.subrange(40, 44));
    assert(f.subrange(0x4d, 0x51) == nb.subrange(44, 48));
    assert(f.subrange(0x51, 0x55) == nb.subrange(48, 52));
    assert(f.subrange(0x55, 0x59) == nb.subrange(52, 56));
    assert(f.subrange(0x59, 0x5d) == nb.subrange(56, 60));
    assert(f.subrange(0x5d, 0x61) == nb.subrange(60, 64));
    assert(f.subrange(0x61, 0x65) == nb.subrange(64, 68));
    assert(f.subrange(0x65, 0x69) == nb.subrange(68, 72));
    assert(f.subrange(0x69, 0x6d) == nb.subrange(72, 76));
    assert(f.subrange(0x6d, 0x71) == nb.subrange(76, 80));
    assert(f.subrange(0x85, 0x95) == wb.subrange(0, 16));
    assert(f.subrange(0x95, 0xa5) == wb.subrange(16, 32));
    assert(f.subrange(0xa5, 0xc5) == wb.subrange(32, 64));
    assert(f.subrange(0xc5, 0xd1) == wb.subrange(64, 76));
    assert(f.subrange(0xd1, 0xdd) == wb.subrange(76, 88));
    assert(f.subrange(0xdd, 0xf1) == wb.subrange(88, 108));
    assert(f[0x79] == f.subrange(0x79, 0x85)[0]);
    assert(f[0x7a] == f.subrange(0x79, 0x85)[1]);
    assert(f[0x83] == f.subrange(0x79, 0x85)[10]);
    assert(f[0x84] == f.subrange(0x79, 0x85)[11]);
}

} // verus!
