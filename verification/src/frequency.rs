use vstd::prelude::*;

verus! {

/// A unit suffix for a human-friendly frequency or bitrate value, as in
/// "10 MHz" or "1000 kHz". `Bps` names bits per second for bitrates and
/// scales like `Hz`.
#[derive(Clone, Copy, Debug, PartialEq, Eq, Structural)]
pub enum FreqUnit {
    Hz,
    Khz,
    Mhz,
    Bps,
}

/// Hertz (or bits per second) per one unit.
pub open spec fn unit_multiplier(u: FreqUnit) -> int {
    match u {
        FreqUnit::Hz => 1,
        FreqUnit::Khz => 1_000,
        FreqUnit::Mhz => 1_000_000,
        FreqUnit::Bps => 1,
    }
}

impl FreqUnit {
    /// The factor that converts a value in this unit to Hz.
    pub fn multiplier(self) -> (m: u32)
        ensures
            m == unit_multiplier(self),
    {
        match self {
            FreqUnit::Hz => 1,
            FreqUnit::Khz => 1_000,
            FreqUnit::Mhz => 1_000_000,
            FreqUnit::Bps => 1,
        }
    }
}

/// Normalizes a value with a unit suffix to a plain Hz count, or `None`
/// when the product leaves the 32-bit range the solver accepts.
pub fn to_hz(value: u32, unit: FreqUnit) -> (r: Option<u32>)
    ensures
        value * unit_multiplier(unit) <= u32::MAX ==> r == Some(
            (value * unit_multiplier(unit)) as u32,
        ),
        value * unit_multiplier(unit) > u32::MAX ==> r is None,
{
    let m: u32 = unit.multiplier();
    proof {
        assert((value as int) * (m as int) <= 0xffff_ffff * 1_000_000) by (nonlinear_arith)
            requires
                value <= 0xffff_ffff,
                m <= 1_000_000,
        ;
    }
    let wide: u64 = (value as u64) * (m as u64);
    if wide <= 0xffff_ffff {
        Some(wide as u32)
    } else {
        None
    }
}

} // verus!
