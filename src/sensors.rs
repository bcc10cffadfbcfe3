//! The sensor converter: raw analog samples to wheel speeds.
use vstd::prelude::*;
use crate::actuation::{div_trunc, RPM_MAX, SCALE};
use crate::messages::Sensors;

verus! {

/// The analog reading at which a wheel stands still.
pub const ANALOG_ZERO_RPM: i32 = 412;

/// Half the analog range: the swing from standstill to full speed.
pub const ANALOG: i32 = 410;

/// Gearing between motor and wheel, in tenths (10.6 : 1).
pub const GEARING_10: i32 = 106;

/// Full-scale wheel speed, in RPM.
pub open spec fn full_scale_rpm() -> int {
    RPM_MAX / SCALE
}

/// The divisor of the conversion: half the analog range times the gearing.
pub open spec fn analog_divisor() -> int {
    ANALOG * GEARING_10 / 10
}

/// The wheel speed for an analog reading: the affine map sending the
/// standstill reading to zero, rounded toward zero.
pub open spec fn analog_rpm(analog: int) -> int {
    div_trunc(full_scale_rpm() * (analog - ANALOG_ZERO_RPM), analog_divisor())
}

/// The readings for which the conversion stays within 32 bits.
pub open spec fn analog_convertible(analog: int) -> bool {
    i32::MIN <= full_scale_rpm() * (analog - ANALOG_ZERO_RPM) <= i32::MAX
}

/// Computes the wheel RPM from the analog reading.
pub fn analog_to_rpm(analog: i32) -> (r: i32)
    requires
        analog_convertible(analog as int),
    ensures
        r == analog_rpm(analog as int),
{
    proof {
        let a = analog as int;
        assert(-477218 <= a - 412 <= 477218) by (nonlinear_arith)
            requires i32::MIN <= 4500 * (a - 412) <= i32::MAX;
    }
    let full_scale: i32 = RPM_MAX / SCALE;
    let divisor: i32 = ANALOG * GEARING_10 / 10;
    let x: i32 = full_scale * (analog - ANALOG_ZERO_RPM);
    if x >= 0 {
        x / divisor
    } else {
        -((-x) / divisor)
    }
}

/// Every reading of the 16-bit converter can be converted.
pub proof fn lemma_u16_convertible(analog: u16)
    ensures
        analog_convertible(analog as int),
{
    let a = analog as int;
    assert(i32::MIN <= 4500 * (a - 412) <= i32::MAX) by (nonlinear_arith)
        requires 0 <= a <= 65535;
}

/// Builds the sensors message from the four raw readings.
pub fn sensors_from_analog(fl: u16, fr: u16, rl: u16, rr: u16) -> (r: Sensors)
    ensures
        r == (Sensors {
            fl_whl_rpm: analog_rpm(fl as int) as i32,
            fr_whl_rpm: analog_rpm(fr as int) as i32,
            rl_whl_rpm: analog_rpm(rl as int) as i32,
            rr_whl_rpm: analog_rpm(rr as int) as i32,
        }),
{
    proof {
        lemma_u16_convertible(fl);
        lemma_u16_convertible(fr);
        lemma_u16_convertible(rl);
        lemma_u16_convertible(rr);
    }
    Sensors {
        fl_whl_rpm: analog_to_rpm(fl as i32),
        fr_whl_rpm: analog_to_rpm(fr as i32),
        rl_whl_rpm: analog_to_rpm(rl as i32),
        rr_whl_rpm: analog_to_rpm(rr as i32),
    }
}

/// The standstill reading gives zero, and the output is the affine value
/// `full_scale_rpm() * (analog - ANALOG_ZERO_RPM) / analog_divisor()` up to
/// rounding toward zero: less than one unit from it, on the side of zero.
pub proof fn lemma_analog_rpm_affine(analog: int)
    ensures
        analog_rpm(ANALOG_ZERO_RPM as int) == 0,
        ({
            let x = full_scale_rpm() * (analog - ANALOG_ZERO_RPM);
            let d = analog_divisor();
            &&& x >= 0 ==> 0 <= x - d * analog_rpm(analog) < d
            &&& x < 0 ==> 0 <= d * analog_rpm(analog) - x < d
        }),
{
    let x = full_scale_rpm() * (analog - ANALOG_ZERO_RPM);
    let d = analog_divisor();
    assert(d == 4346);
    if x >= 0 {
        assert(0 <= x - d * (x / d) < d) by (nonlinear_arith)
            requires x >= 0, d == 4346;
    } else {
        assert(0 <= (-x) - d * ((-x) / d) < d) by (nonlinear_arith)
            requires x < 0, d == 4346;
    }
}

} // verus!
