//! Battery voltage from the gated 100k/100k divider sampled by the SAADC.
use vstd::prelude::*;

verus! {

/// Full-scale input span of the SAADC (internal 0.6 V reference, gain 1/6), mV.
pub const ADC_FULLSCALE_MV: i32 = 3600;

/// Codes of a 12-bit conversion across the full-scale span.
pub const ADC_COUNTS: i32 = 4096;

/// Divider ratio: equal legs halve the battery voltage.
pub const DIVIDER_NUM: i32 = 2;

/// Settling delay after closing the divider before sampling (ms).
pub const SETTLE_MS: u64 = 2;

/// Lowest plausible LiPo reading (mV).
pub const VALID_MIN_MV: u16 = 2000;

/// Highest plausible LiPo reading (mV).
pub const VALID_MAX_MV: u16 = 5000;

/// Battery read failed.
#[derive(Clone, Copy, Debug, PartialEq, Eq, Structural)]
pub enum Error {
    /// The computed voltage fell outside `VALID_MIN_MV..=VALID_MAX_MV`, most
    /// likely because the divider bottom never closed; carries the value.
    OutOfRange(u16),
}

/// Millivolts at the ADC pin for a sample: negative samples clamp to zero,
/// then `floor(raw * 3600 / 4096)`.
pub open spec fn pin_mv_spec(raw: i16) -> int {
    (if raw < 0 { 0 } else { raw as int }) * ADC_FULLSCALE_MV / ADC_COUNTS as int
}

/// Millivolts of the battery for a sample: twice the pin voltage.
pub open spec fn battery_mv_spec(raw: i16) -> int {
    pin_mv_spec(raw) * DIVIDER_NUM
}

/// Whether a battery voltage is plausible for a LiPo cell.
pub open spec fn plausible(mv: int) -> bool {
    VALID_MIN_MV <= mv <= VALID_MAX_MV
}

/// Millivolts at the ADC pin for one SAADC sample.
pub fn pin_mv(raw: i16) -> (mv: i32)
    ensures
        mv == pin_mv_spec(raw),
        0 <= mv < 28800,
{
    let clamped: i32 = if raw < 0 { 0 } else { raw as i32 };
    let product: i32 = clamped * ADC_FULLSCALE_MV;
    let mv: i32 = product / ADC_COUNTS;
    assert(0 <= mv < 28800) by (nonlinear_arith)
        requires
            0 <= clamped < 32768,
            product == clamped * 3600,
            mv == product / 4096,
    ;
    mv
}

/// Millivolts at the top of the divider (the battery) for one SAADC sample,
/// before any plausibility check.
pub fn divider_input_mv(raw: i16) -> (mv: i32)
    ensures
        mv == battery_mv_spec(raw),
        0 <= mv < 57600,
{
    pin_mv(raw) * DIVIDER_NUM
}

/// Battery voltage in mV for one SAADC sample of the divider node, or the
/// implausible value as an error.
pub fn battery_mv(raw: i16) -> (r: Result<u16, Error>)
    ensures
        plausible(battery_mv_spec(raw)) ==> r == Ok::<u16, Error>(battery_mv_spec(raw) as u16),
        !plausible(battery_mv_spec(raw)) ==> r == Err::<u16, Error>(
            Error::OutOfRange(battery_mv_spec(raw) as u16),
        ),
        0 <= battery_mv_spec(raw) < 57600,
        r is Ok ==> 2000 <= r->Ok_0 <= 5000 && r->Ok_0 == 2 * ((if raw < 0 { 0int } else {
            raw as int
        }) * 3600 / 4096),
        r is Err ==> !(2000 <= r->Err_0->OutOfRange_0 <= 5000) && r->Err_0->OutOfRange_0 == 2 * ((
        if raw < 0 {
            0int
        } else {
            raw as int
        }) * 3600 / 4096),
{
    let v_bat = divider_input_mv(raw) as u16;
    if !(VALID_MIN_MV <= v_bat && v_bat <= VALID_MAX_MV) {
        return Err(Error::OutOfRange(v_bat));
    }
    Ok(v_bat)
}

/// A larger sample never reads as a lower voltage.
pub proof fn lemma_battery_mv_monotonic(a: i16, b: i16)
    requires
        a <= b,
    ensures
        battery_mv_spec(a) <= battery_mv_spec(b),
{
    let ca: int = if a < 0 { 0 } else { a as int };
    let cb: int = if b < 0 { 0 } else { b as int };
    assert(ca * 3600 / 4096 <= cb * 3600 / 4096) by (nonlinear_arith)
        requires
            0 <= ca <= cb,
    ;
}

} // verus!
