//! TDP presets and the handling of the screen's preset commands.

use vstd::prelude::*;

use crate::protocol::{mode_of_index, Response, TdpMode};

verus! {

/// Power limits of one preset, in milliwatts.
#[derive(Debug, Clone, Copy, PartialEq, Eq, Structural)]
pub struct TdpLimits {
    pub stapm: u32,
    pub fast: u32,
    pub slow: u32,
}

/// The preset table (capped at 45 W sustained).
pub open spec fn limits_of(mode: TdpMode) -> TdpLimits {
    match mode {
        TdpMode::PcOffice => TdpLimits { stapm: 20_000, fast: 25_000, slow: 15_000 },
        TdpMode::RetroGame => TdpLimits { stapm: 30_000, fast: 35_000, slow: 25_000 },
        TdpMode::ClassicGame => TdpLimits { stapm: 40_000, fast: 45_000, slow: 35_000 },
        TdpMode::AaaGame => TdpLimits { stapm: 45_000, fast: 50_000, slow: 40_000 },
    }
}

/// The limits that `ryzenadj` is given for a preset.
pub fn tdp_limits(mode: TdpMode) -> (l: TdpLimits)
    ensures
        l == limits_of(mode),
{
    match mode {
        TdpMode::PcOffice => TdpLimits { stapm: 20_000, fast: 25_000, slow: 15_000 },
        TdpMode::RetroGame => TdpLimits { stapm: 30_000, fast: 35_000, slow: 25_000 },
        TdpMode::ClassicGame => TdpLimits { stapm: 40_000, fast: 45_000, slow: 35_000 },
        TdpMode::AaaGame => TdpLimits { stapm: 45_000, fast: 50_000, slow: 40_000 },
    }
}

/// In every preset the slow limit is below the sustained (STAPM) limit, which is
/// below the fast limit; the sustained limit never exceeds 45 W; and a lower
/// preset index never has a lower sustained limit.
pub proof fn lemma_limits_ordered(m: TdpMode, n: TdpMode)
    ensures
        limits_of(m).slow < limits_of(m).stapm < limits_of(m).fast,
        limits_of(m).stapm <= 45_000,
        m.index() <= n.index() ==> limits_of(n).stapm <= limits_of(m).stapm,
{
}

/// The preset a screen command asks for: Set (1) switches to the preset with
/// index `sub_param`, falling back to AAA for an unknown index; Reset (2) goes
/// back to AAA; any other sub-command is ignored (`None`).
pub open spec fn commanded_mode(resp: Response) -> Option<TdpMode> {
    if resp.sub_cmd == 1 {
        match mode_of_index(resp.sub_param) {
            Some(m) => Some(m),
            None => Some(TdpMode::AaaGame),
        }
    } else if resp.sub_cmd == 2 {
        Some(TdpMode::AaaGame)
    } else {
        None
    }
}

/// Decides what a screen command does to the power preset; `Some(mode)` means
/// the preset switches to `mode` (and the caller pushes the new frame at once).
pub fn handle_command(resp: &Response) -> (r: Option<TdpMode>)
    ensures
        r == commanded_mode(*resp),
{
    if resp.sub_cmd == 1 {
        match TdpMode::from_index(resp.sub_param) {
            Some(m) => Some(m),
            None => Some(TdpMode::AaaGame),
        }
    } else if resp.sub_cmd == 2 {
        Some(TdpMode::AaaGame)
    } else {
        None
    }
}

} // verus!
