//! The IPC commands of the settings plugin (newline-terminated JSON over a Unix
//! socket): how each one changes the shared display, power and weather state,
//! and what is answered.

use vstd::prelude::*;
use vstd::utf8::encode_utf8;

use crate::power::commanded_mode;
use crate::protocol::{weather_cleared, Response, mode_of_index, DisplayConfig, Language, PowerState, TdpMode, Theme, TimeFormat, WeatherSnapshot};
use crate::text::{str_eq, string_from_utf8, trim, trimmed};
use vstd::utf8::{decode_utf8, valid_utf8};
use crate::weather::{is_top, search_cities, CityKey, WeatherState};

verus! {

/// One IPC command. Fields that the JSON leaves out are `None`; `tdp_watts_bits`
/// is the bit pattern of the `f32` wattage.
#[derive(Debug, Clone)]
pub struct IpcCommand {
    pub op: String,
    pub lang: Option<u8>,
    pub theme: Option<u8>,
    pub format: Option<u8>,
    pub mode: Option<u32>,
    pub tdp_watts_bits: Option<u32>,
    pub city: Option<String>,
    pub query: Option<String>,
}

/// The current state reported to `get_state` (codes as on the wire; the
/// location is empty when none is set).
#[derive(Debug, Clone)]
pub struct StateReport {
    pub mode: u32,
    pub tdp_watts_bits: u32,
    pub language: u8,
    pub theme: u8,
    pub time_format: u8,
    pub location: String,
}

/// What a command answers.
#[derive(Debug, Clone)]
pub enum IpcReply {
    /// Answer to `get_state`.
    State(StateReport),
    /// Answer to `search_city`: positions in the region table, best first.
    Cities(Vec<usize>),
}

/// Result of applying a command.
#[derive(Debug, Clone)]
pub struct IpcOutcome {
    /// Written back to the client, if any.
    pub reply: Option<IpcReply>,
    /// A setting changed: the main loop pushes a frame at once.
    pub changed: bool,
    /// The weather location changed: it is saved and the weather fetcher woken.
    pub location_changed: bool,
}

/// Whether an `f32` bit pattern is a NaN.
pub open spec fn f32_bits_nan(a: u32) -> bool {
    (a & 0x7f80_0000u32) == 0x7f80_0000u32 && (a & 0x007f_ffffu32) != 0
}

/// IEEE equality of the `f32` values with bit patterns `a` and `b` (what `==`
/// on `f32` computes): NaN equals nothing, the two zeros are equal, other
/// values are equal when their bits are.
pub open spec fn f32_bits_eq(a: u32, b: u32) -> bool {
    (a == b && !f32_bits_nan(a)) || ((a & 0x7fff_ffffu32) == 0 && (b & 0x7fff_ffffu32) == 0)
}

fn f32_bits_equal(a: u32, b: u32) -> (r: bool)
    ensures
        r == f32_bits_eq(a, b),
{
    let a_nan = (a & 0x7f80_0000u32) == 0x7f80_0000u32 && (a & 0x007f_ffffu32) != 0;
    (a == b && !a_nan) || ((a & 0x7fff_ffffu32) == 0 && (b & 0x7fff_ffffu32) == 0)
}

/// Language code -> language (0 = Chinese, 1 = English).
pub open spec fn language_of(v: Option<u8>) -> Option<Language> {
    match v {
        Some(0u8) => Some(Language::Zh),
        Some(1u8) => Some(Language::En),
        _ => None,
    }
}

/// Theme code -> theme (0 = black, 1 = white).
pub open spec fn theme_of(v: Option<u8>) -> Option<Theme> {
    match v {
        Some(0u8) => Some(Theme::Black),
        Some(1u8) => Some(Theme::White),
        _ => None,
    }
}

/// Clock-format code -> format (0 = 12-hour, 1 = 24-hour).
pub open spec fn time_format_of(v: Option<u8>) -> Option<TimeFormat> {
    match v {
        Some(0u8) => Some(TimeFormat::H12),
        Some(1u8) => Some(TimeFormat::H24),
        _ => None,
    }
}

/// The characters of an optional string.
pub open spec fn opt_chars(o: Option<String>) -> Option<Seq<char>> {
    match o {
        Some(s) => Some(s@),
        None => None,
    }
}

/// The location `set_location` asks for: the trimmed city, or none (weather
/// off) when the city is missing or blank.
pub open spec fn requested_location(city: Option<String>) -> Option<Seq<char>> {
    match city {
        Some(c) => if trimmed(c@).len() == 0 {
            None
        } else {
            Some(trimmed(c@))
        },
        None => None,
    }
}

/// The preset and wattage that `set_power_mode` asks for, when both fields
/// are present and the mode index is valid.
pub open spec fn requested_power(cmd: IpcCommand) -> Option<PowerState> {
    match (cmd.mode, cmd.tdp_watts_bits) {
        (Some(m), Some(w)) => match mode_of_index(m) {
            Some(mode) => Some(PowerState { mode, tdp_watts_bits: w }),
            None => None,
        },
        _ => None,
    }
}

/// Whether a requested power state differs from the current one (preset, or
/// wattage compared as `f32`).
pub open spec fn power_differs(cur: PowerState, req: PowerState) -> bool {
    cur.mode != req.mode || !f32_bits_eq(cur.tdp_watts_bits, req.tdp_watts_bits)
}

/// The query of `search_city` (empty when missing).
pub open spec fn search_query(cmd: IpcCommand) -> Seq<char> {
    match cmd.query {
        Some(q) => q@,
        None => Seq::empty(),
    }
}

/// The names of the operations that the handler knows.
pub open spec fn known_op(op: Seq<char>) -> bool {
    op == "get_state"@ || op == "search_city"@ || op == "set_language"@ || op == "set_theme"@ || op
        == "set_time_format"@ || op == "set_power_mode"@ || op == "set_location"@
}

fn opt_str_eq(a: &Option<String>, b: &Option<String>) -> (r: bool)
    ensures
        r == (opt_chars(*a) == opt_chars(*b)),
{
    match (a, b) {
        (Some(x), Some(y)) => str_eq(x.as_str(), y.as_str()),
        (None, None) => true,
        _ => false,
    }
}

fn requested_location_exec(city: &Option<String>) -> (r: Option<String>)
    ensures
        opt_chars(r) == requested_location(*city),
{
    match city {
        Some(c) => {
            let t = trim(c.as_str());
            if t.is_empty() {
                None
            } else {
                Some(t.to_owned())
            }
        },
        None => None,
    }
}

/// `set_power_mode` with a valid request that differs from the current state
/// (a NaN wattage always differs).
pub open spec fn power_change_requested(op: Seq<char>, cmd: IpcCommand, p: PowerState) -> bool {
    op == "set_power_mode"@ && requested_power(cmd) is Some && power_differs(
        p,
        requested_power(cmd)->0,
    )
}

/// The power state after a command: `set_power_mode` with a valid request that
/// differs from the current state takes the requested preset and wattage.
pub open spec fn power_after(op: Seq<char>, cmd: IpcCommand, p: PowerState) -> PowerState {
    if power_change_requested(op, cmd, p) {
        requested_power(cmd)->0
    } else {
        p
    }
}

/// `reply` reports the given state.
pub open spec fn reports_state(reply: Option<IpcReply>, d: DisplayConfig, p: PowerState, w: WeatherState) -> bool {
    match reply {
        Some(IpcReply::State(st)) => {
            &&& st.mode == p.mode.index()
            &&& st.tdp_watts_bits == p.tdp_watts_bits
            &&& st.language == d.language.code()
            &&& st.theme == d.theme.code()
            &&& st.time_format == d.time_format.code()
            &&& st.location@ == match w.location {
                Some(l) => l@,
                None => Seq::empty(),
            }
        },
        _ => false,
    }
}

/// `reply` lists the search results for `query` in the region table `es`.
pub open spec fn reports_cities(reply: Option<IpcReply>, es: Seq<CityKey>, query: Seq<char>) -> bool {
    match reply {
        Some(IpcReply::Cities(r)) => {
            &&& trimmed(query).len() == 0 ==> r@.len() == 0
            &&& trimmed(query).len() > 0 ==> is_top(es, encode_utf8(trimmed(query)), r@, 10)
        },
        _ => false,
    }
}

/// The display settings after a `set_language` / `set_theme` / `set_time_format`
/// command (an invalid or missing value leaves them as they are).
pub open spec fn display_after(op: Seq<char>, cmd: IpcCommand, d: DisplayConfig) -> DisplayConfig {
    if op == "set_language"@ {
        match language_of(cmd.lang) {
            Some(l) => DisplayConfig { language: l, theme: d.theme, time_format: d.time_format },
            None => d,
        }
    } else if op == "set_theme"@ {
        match theme_of(cmd.theme) {
            Some(t) => DisplayConfig { language: d.language, theme: t, time_format: d.time_format },
            None => d,
        }
    } else if op == "set_time_format"@ {
        match time_format_of(cmd.format) {
            Some(f) => DisplayConfig { language: d.language, theme: d.theme, time_format: f },
            None => d,
        }
    } else {
        d
    }
}

fn set_display(cmd: &IpcCommand, disp: &mut DisplayConfig, which: u8) -> (changed: bool)
    requires
        which < 3,
    ensures
        which == 0 ==> *final(disp) == display_after("set_language"@, *cmd, *old(disp)),
        which == 1 ==> *final(disp) == display_after("set_theme"@, *cmd, *old(disp)),
        which == 2 ==> *final(disp) == display_after("set_time_format"@, *cmd, *old(disp)),
        changed == (*final(disp) != *old(disp)),
{
    proof {
        lemma_ops_distinct();
    }
    if which == 0 {
        let l = match cmd.lang {
            Some(0) => Some(Language::Zh),
            Some(1) => Some(Language::En),
            _ => None,
        };
        if let Some(l) = l {
            if disp.language != l {
                disp.language = l;
                return true;
            }
        }
        false
    } else if which == 1 {
        let t = match cmd.theme {
            Some(0) => Some(Theme::Black),
            Some(1) => Some(Theme::White),
            _ => None,
        };
        if let Some(t) = t {
            if disp.theme != t {
                disp.theme = t;
                return true;
            }
        }
        false
    } else {
        let f = match cmd.format {
            Some(0) => Some(TimeFormat::H12),
            Some(1) => Some(TimeFormat::H24),
            _ => None,
        };
        if let Some(f) = f {
            if disp.time_format != f {
                disp.time_format = f;
                return true;
            }
        }
        false
    }
}

fn set_power(cmd: &IpcCommand, power: &mut PowerState) -> (changed: bool)
    ensures
        *final(power) == power_after("set_power_mode"@, *cmd, *old(power)),
        changed == power_change_requested("set_power_mode"@, *cmd, *old(power)),
{
    match (cmd.mode, cmd.tdp_watts_bits) {
        (Some(m), Some(w)) => match TdpMode::from_index(m) {
            Some(mode) => {
                if power.mode != mode || !f32_bits_equal(power.tdp_watts_bits, w) {
                    power.mode = mode;
                    power.tdp_watts_bits = w;
                    true
                } else {
                    false
                }
            },
            None => false,
        },
        _ => false,
    }
}

fn set_location(cmd: &IpcCommand, weather: &mut WeatherState) -> (changed: bool)
    ensures
        changed == (opt_chars(old(weather).location) != requested_location(cmd.city)),
        changed ==> opt_chars(final(weather).location) == requested_location(cmd.city),
        changed && requested_location(cmd.city) is None ==> weather_cleared(final(weather).snapshot),
        changed && requested_location(cmd.city) is Some ==> final(weather).snapshot == old(weather).snapshot,
        !changed ==> *final(weather) == *old(weather),
{
    let new_loc = requested_location_exec(&cmd.city);
    if !opt_str_eq(&weather.location, &new_loc) {
        let off = new_loc.is_none();
        weather.location = new_loc;
        if off {
            weather.snapshot = WeatherSnapshot::default();
        }
        true
    } else {
        false
    }
}

/// The operation names are distinct.
pub proof fn lemma_ops_distinct()
    ensures
        "get_state"@ != "search_city"@,
        "get_state"@ != "set_language"@,
        "get_state"@ != "set_theme"@,
        "get_state"@ != "set_time_format"@,
        "get_state"@ != "set_power_mode"@,
        "get_state"@ != "set_location"@,
        "search_city"@ != "set_language"@,
        "search_city"@ != "set_theme"@,
        "search_city"@ != "set_time_format"@,
        "search_city"@ != "set_power_mode"@,
        "search_city"@ != "set_location"@,
        "set_language"@ != "set_theme"@,
        "set_language"@ != "set_time_format"@,
        "set_language"@ != "set_power_mode"@,
        "set_language"@ != "set_location"@,
        "set_theme"@ != "set_time_format"@,
        "set_theme"@ != "set_power_mode"@,
        "set_theme"@ != "set_location"@,
        "set_time_format"@ != "set_power_mode"@,
        "set_time_format"@ != "set_location"@,
        "set_power_mode"@ != "set_location"@,
{
    reveal_strlit("get_state");
    reveal_strlit("search_city");
    reveal_strlit("set_language");
    reveal_strlit("set_theme");
    reveal_strlit("set_time_format");
    reveal_strlit("set_power_mode");
    reveal_strlit("set_location");
    assert("get_state"@.len() == 9);
    assert("search_city"@.len() == 11);
    assert("set_language"@.len() == 12);
    assert("set_theme"@.len() == 9);
    assert("set_time_format"@.len() == 15);
    assert("set_power_mode"@.len() == 14);
    assert("set_location"@.len() == 12);
    assert("get_state"@[0] != "set_theme"@[0]);
    assert("set_language"@[5] != "set_location"@[5]);
}

/// Applies one IPC command to the shared state.
///
/// - `get_state` answers the current preset, wattage, language, theme, clock
///   format and location; `search_city` answers the region search for its
///   query. Neither changes anything.
/// - `set_language` / `set_theme` / `set_time_format` take a code 0 or 1; any
///   other or missing value is ignored.
/// - `set_power_mode` needs a valid preset index and a wattage; it applies
///   when either differs from the current state.
/// - `set_location` sets the trimmed city, or turns the weather off (and
///   clears it) for a missing or blank city.
/// - Unknown operations are ignored.
///
/// `changed` is set exactly when a setting actually changed.
pub fn apply_command(
    cmd: &IpcCommand,
    disp: &mut DisplayConfig,
    power: &mut PowerState,
    weather: &mut WeatherState,
    cities: &Vec<CityKey>,
) -> (out: IpcOutcome)
    ensures
        cmd.op@ == "get_state"@ ==> reports_state(out.reply, *old(disp), *old(power), *old(weather)),
        cmd.op@ == "search_city"@ ==> reports_cities(out.reply, cities@, search_query(*cmd)),
        cmd.op@ != "get_state"@ && cmd.op@ != "search_city"@ ==> out.reply is None,
        *final(disp) == display_after(cmd.op@, *cmd, *old(disp)),
        *final(power) == power_after(cmd.op@, *cmd, *old(power)),
        out.location_changed == (cmd.op@ == "set_location"@ && opt_chars(old(weather).location)
            != requested_location(cmd.city)),
        cmd.op@ == "set_location"@ ==> opt_chars(final(weather).location) == requested_location(
            cmd.city,
        ),
        out.location_changed && requested_location(cmd.city) is None ==> weather_cleared(
            final(weather).snapshot,
        ),
        out.location_changed && requested_location(cmd.city) is Some ==> final(weather).snapshot
            == old(weather).snapshot,
        !out.location_changed ==> *final(weather) == *old(weather),
        out.changed == (*final(disp) != *old(disp) || power_change_requested(
            cmd.op@,
            *cmd,
            *old(power),
        ) || out.location_changed),
        !known_op(cmd.op@) ==> !out.changed && out.reply is None && *final(disp) == *old(disp)
            && *final(power) == *old(power) && *final(weather) == *old(weather),
{
    proof {
        reveal_strlit("get_state");
        reveal_strlit("search_city");
        reveal_strlit("set_language");
        reveal_strlit("set_theme");
        reveal_strlit("set_time_format");
        reveal_strlit("set_power_mode");
        reveal_strlit("set_location");
        reveal_strlit("");
        lemma_ops_distinct();
    }
    let op = cmd.op.as_str();
    if str_eq(op, "get_state") {
        let location = match &weather.location {
            Some(l) => l.clone(),
            None => String::new(),
        };
        let st = StateReport {
            mode: power.mode.index(),
            tdp_watts_bits: power.tdp_watts_bits,
            language: disp.language.code(),
            theme: disp.theme.code(),
            time_format: disp.time_format.code(),
            location,
        };
        return IpcOutcome { reply: Some(IpcReply::State(st)), changed: false, location_changed: false };
    }
    if str_eq(op, "search_city") {
        let hits = match &cmd.query {
            Some(q) => search_cities(cities, q.as_str()),
            None => search_cities(cities, ""),
        };
        return IpcOutcome { reply: Some(IpcReply::Cities(hits)), changed: false, location_changed: false };
    }
    let mut changed = false;
    let mut location_changed = false;
    if str_eq(op, "set_language") {
        changed = set_display(cmd, disp, 0);
    } else if str_eq(op, "set_theme") {
        changed = set_display(cmd, disp, 1);
    } else if str_eq(op, "set_time_format") {
        changed = set_display(cmd, disp, 2);
    } else if str_eq(op, "set_power_mode") {
        changed = set_power(cmd, power);
    } else if str_eq(op, "set_location") {
        location_changed = set_location(cmd, weather);
        changed = location_changed;
    }
    IpcOutcome { reply: None, changed, location_changed }
}

/// What a `set_*` command sets is what `get_state` reports afterwards: a valid
/// language, theme or clock-format code is read back as sent; a valid power
/// request is read back with its preset and a wattage equal (as `f32`) to the
/// one sent, whether or not it differed before.
pub proof fn lemma_settings_read_back(cmd: IpcCommand, d: DisplayConfig, p: PowerState)
    ensures
        cmd.op@ == "set_language"@ && cmd.lang is Some && cmd.lang->0 < 2 ==> display_after(
            cmd.op@,
            cmd,
            d,
        ).language.code() == cmd.lang->0,
        cmd.op@ == "set_theme"@ && cmd.theme is Some && cmd.theme->0 < 2 ==> display_after(
            cmd.op@,
            cmd,
            d,
        ).theme.code() == cmd.theme->0,
        cmd.op@ == "set_time_format"@ && cmd.format is Some && cmd.format->0 < 2 ==> display_after(
            cmd.op@,
            cmd,
            d,
        ).time_format.code() == cmd.format->0,
        cmd.op@ == "set_power_mode"@ && requested_power(cmd) is Some && !f32_bits_nan(
            requested_power(cmd)->0.tdp_watts_bits,
        ) ==> power_after(cmd.op@, cmd, p).mode.index() == cmd.mode->0 && f32_bits_eq(
            power_after(cmd.op@, cmd, p).tdp_watts_bits,
            cmd.tdp_watts_bits->0,
        ),
{
    lemma_ops_distinct();
    if cmd.op@ == "set_power_mode"@ && requested_power(cmd) is Some {
        let w = cmd.tdp_watts_bits->0;
        let q = p.tdp_watts_bits;
        assert(f32_bits_eq(w, w) || f32_bits_nan(w));
        assert(f32_bits_eq(q, w) ==> f32_bits_eq(w, q)) by (bit_vector);
    }
}

/// Each `set_*` command changes only its own setting: `set_language` only the
/// language, `set_theme` only the theme, `set_time_format` only the clock
/// format (each to the code sent when it is 0 or 1, else nothing), and no other
/// command changes the display settings; only `set_power_mode` changes the
/// power state.
pub proof fn lemma_commands_change_only_their_setting(cmd: IpcCommand, d: DisplayConfig, p: PowerState)
    ensures
        ({
            let a = display_after(cmd.op@, cmd, d);
            &&& cmd.op@ == "set_language"@ ==> {
                &&& a.theme == d.theme
                &&& a.time_format == d.time_format
                &&& cmd.lang is Some && cmd.lang->0 < 2 ==> a.language.code() == cmd.lang->0
                &&& !(cmd.lang is Some && cmd.lang->0 < 2) ==> a == d
            }
            &&& cmd.op@ == "set_theme"@ ==> {
                &&& a.language == d.language
                &&& a.time_format == d.time_format
                &&& cmd.theme is Some && cmd.theme->0 < 2 ==> a.theme.code() == cmd.theme->0
                &&& !(cmd.theme is Some && cmd.theme->0 < 2) ==> a == d
            }
            &&& cmd.op@ == "set_time_format"@ ==> {
                &&& a.language == d.language
                &&& a.theme == d.theme
                &&& cmd.format is Some && cmd.format->0 < 2 ==> a.time_format.code() == cmd.format->0
                &&& !(cmd.format is Some && cmd.format->0 < 2) ==> a == d
            }
            &&& cmd.op@ != "set_language"@ && cmd.op@ != "set_theme"@ && cmd.op@ != "set_time_format"@
                ==> a == d
            &&& cmd.op@ != "set_power_mode"@ ==> power_after(cmd.op@, cmd, p) == p
        }),
{
    lemma_ops_distinct();
}

/// Why a received command was rejected before JSON decoding.
#[derive(Debug, Clone, Copy, PartialEq, Eq, Structural)]
pub enum PayloadError {
    /// The command is not UTF-8.
    NotUtf8,
}

/// The first command of a received buffer: the bytes before the first
/// newline, decoded as UTF-8 and trimmed. `Ok(None)` when it is blank (nothing
/// to do), `Err(NotUtf8)` when it is not UTF-8.
pub fn command_payload(buf: &[u8]) -> (r: Result<Option<String>, PayloadError>)
    ensures
        ({
            let line = buf@.take(first_newline(buf@));
            &&& !valid_utf8(line) <==> r is Err
            &&& valid_utf8(line) ==> {
                let t = trimmed(decode_utf8(line));
                &&& t.len() == 0 ==> r == Ok::<Option<String>, PayloadError>(None)
                &&& t.len() > 0 ==> (r matches Ok(Some(s)) && s@ == t)
            }
        }),
{
    let mut end: usize = 0;
    while end < buf.len() && buf[end] != 10
        invariant
            end <= buf@.len(),
            forall|k: int| 0 <= k < end ==> buf@[k] != 10,
        decreases buf@.len() - end,
    {
        end = end + 1;
    }
    proof {
        lemma_first_newline(buf@, end as int);
    }
    let mut line: Vec<u8> = Vec::new();
    let mut i: usize = 0;
    while i < end
        invariant
            i <= end <= buf@.len(),
            line@ == buf@.take(i as int),
        decreases end - i,
    {
        line.push(buf[i]);
        assert(line@ =~= buf@.take(i + 1));
        i = i + 1;
    }
    match string_from_utf8(line) {
        None => Err(PayloadError::NotUtf8),
        Some(s) => {
            let t = trim(s.as_str());
            if t.is_empty() {
                Ok(None)
            } else {
                Ok(Some(t.to_owned()))
            }
        },
    }
}

/// Position of the first '\n' in `buf` (its length when there is none).
pub open spec fn first_newline(buf: Seq<u8>) -> int {
    if exists|k: int| 0 <= k < buf.len() && buf[k] == 10 {
        choose|k: int| 0 <= k < buf.len() && buf[k] == 10 && forall|j: int| 0 <= j < k ==> buf[j] != 10
    } else {
        buf.len() as int
    }
}

proof fn lemma_first_newline(buf: Seq<u8>, end: int)
    requires
        0 <= end <= buf.len(),
        forall|k: int| 0 <= k < end ==> buf[k] != 10,
        end < buf.len() ==> buf[end] == 10,
    ensures
        first_newline(buf) == end,
{
    if exists|k: int| 0 <= k < buf.len() && buf[k] == 10 {
        assert(end < buf.len()) by {
            if end == buf.len() {
                let k = choose|k: int| 0 <= k < buf.len() && buf[k] == 10;
                assert(buf[k] != 10);
            }
        }
        let w = choose|k: int| 0 <= k < buf.len() && buf[k] == 10 && forall|j: int| 0 <= j < k ==> buf[j] != 10;
        assert(0 <= end < buf.len() && buf[end] == 10 && forall|j: int| 0 <= j < end ==> buf[j] != 10);
        if w < end {
            assert(buf[w] != 10);
        } else if w > end {
            assert(buf[end] != 10);
        }
    }
}

/// The screen's Set command and the plugin's `set_power_mode` share one index
/// mapping: for the same valid index they select the same preset, whose index
/// is the one sent (so `get_state` reports back what the screen selected).
pub proof fn lemma_single_mode_mapping(resp: Response, cmd: IpcCommand)
    requires
        resp.sub_cmd == 1,
        resp.sub_param < 4,
        cmd.mode == Some(resp.sub_param),
        cmd.tdp_watts_bits is Some,
    ensures
        requested_power(cmd) is Some,
        commanded_mode(resp) == Some(requested_power(cmd)->0.mode),
        requested_power(cmd)->0.mode.index() == resp.sub_param,
{
}

} // verus!
