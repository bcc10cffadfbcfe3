//! The actuation mapper: range validation and the affine maps from
//! physical units to duty-cycle fractions.
use vstd::prelude::*;
use crate::messages::{Command, Log};

verus! {

/// Physical quantities are carried in hundredths of their unit.
pub const SCALE: i32 = 100;

/// The denominator of every duty-cycle fraction.
pub const DUTY_CYCLE_DENOM: u16 = 1000;

pub const STEERING_DUTY_MIN: i32 = 510;
pub const STEERING_DUTY_ZERO: i32 = 745;
pub const STEERING_DUTY_MAX: i32 = 980;
/// Lowest steering angle, in hundredths of a degree.
pub const STEERING_ANGLE_MIN: i32 = 3500;
/// Highest steering angle, in hundredths of a degree.
pub const STEERING_ANGLE_MAX: i32 = 13500;

pub const MOTOR_DUTY_NUM_MIN: i32 = 100;
pub const MOTOR_DUTY_NUM_ZERO: i32 = 500;
pub const MOTOR_DUTY_NUM_MAX: i32 = 900;
/// Lowest wheel speed, in hundredths of an RPM.
pub const RPM_MIN: i32 = -450000;
/// Highest wheel speed, in hundredths of an RPM.
pub const RPM_MAX: i32 = 450000;

/// Integer division rounding toward zero, as Rust's `/` does.
pub open spec fn div_trunc(a: int, b: int) -> int {
    if a >= 0 {
        a / b
    } else {
        -((-a) / b)
    }
}

pub open spec fn angle_in_range(angle: int) -> bool {
    STEERING_ANGLE_MIN <= angle <= STEERING_ANGLE_MAX
}

pub open spec fn rpm_in_range(rpm: int) -> bool {
    RPM_MIN <= rpm <= RPM_MAX
}

/// The steering duty numerator for an angle of the range: the affine map of
/// the angle range onto the duty range, rounded down.
pub open spec fn angle_duty(angle: int) -> int {
    (STEERING_DUTY_MAX - STEERING_DUTY_MIN) * (angle - STEERING_ANGLE_MIN) / (STEERING_ANGLE_MAX
        - STEERING_ANGLE_MIN) + STEERING_DUTY_MIN
}

/// The motor duty numerator for a wheel speed of the range: the affine map
/// of the symmetric speed range onto the duty range, centred on the
/// zero-speed duty, rounded toward zero.
pub open spec fn rpm_duty(rpm: int) -> int {
    div_trunc((MOTOR_DUTY_NUM_MAX - MOTOR_DUTY_NUM_MIN) * rpm, RPM_MAX - RPM_MIN) + MOTOR_DUTY_NUM_ZERO
}

/// Every field lies in its closed range.
pub open spec fn command_valid(c: Command) -> bool {
    &&& angle_in_range(c.steering as int)
    &&& rpm_in_range(c.fl_whl_rpm as int)
    &&& rpm_in_range(c.fr_whl_rpm as int)
    &&& rpm_in_range(c.rl_whl_rpm as int)
    &&& rpm_in_range(c.rr_whl_rpm as int)
}

/// Duty-cycle numerators, over `DUTY_CYCLE_DENOM`, of the five actuators.
#[derive(Clone, Copy, Debug, PartialEq, Eq, Structural)]
pub struct DutyCycles {
    pub steering: u16,
    pub motor_fl: u16,
    pub motor_fr: u16,
    pub motor_rl: u16,
    pub motor_rr: u16,
}

/// The duty cycles that carry out a valid command.
pub open spec fn command_duties(c: Command) -> DutyCycles {
    DutyCycles {
        steering: angle_duty(c.steering as int) as u16,
        motor_fl: rpm_duty(c.fl_whl_rpm as int) as u16,
        motor_fr: rpm_duty(c.fr_whl_rpm as int) as u16,
        motor_rl: rpm_duty(c.rl_whl_rpm as int) as u16,
        motor_rr: rpm_duty(c.rr_whl_rpm as int) as u16,
    }
}

proof fn lemma_angle_duty_range(angle: int)
    requires
        angle_in_range(angle),
    ensures
        STEERING_DUTY_MIN <= angle_duty(angle) <= STEERING_DUTY_MAX,
{
    let x = 470 * (angle - 3500);
    assert(0 <= x <= 470 * 10000) by (nonlinear_arith)
        requires 0 <= angle - 3500 <= 10000, x == 470 * (angle - 3500);
    assert(0 <= x / 10000 <= 470) by (nonlinear_arith)
        requires 0 <= x <= 470 * 10000;
}

proof fn lemma_rpm_duty_range(rpm: int)
    requires
        rpm_in_range(rpm),
    ensures
        MOTOR_DUTY_NUM_MIN <= rpm_duty(rpm) <= MOTOR_DUTY_NUM_MAX,
{
    let x = 800 * rpm;
    if rpm >= 0 {
        assert(0 <= x <= 800 * 450000) by (nonlinear_arith)
            requires 0 <= rpm <= 450000, x == 800 * rpm;
        assert(0 <= x / 900000 <= 400) by (nonlinear_arith)
            requires 0 <= x <= 800 * 450000;
    } else {
        assert(0 < -x <= 800 * 450000) by (nonlinear_arith)
            requires -450000 <= rpm < 0, x == 800 * rpm;
        assert(0 <= (-x) / 900000 <= 400) by (nonlinear_arith)
            requires 0 < -x <= 800 * 450000;
    }
}

/// Computes the duty cycle that holds the steering at `angle`.
pub fn angle_to_duty(angle: i32) -> (r: u16)
    requires
        angle_in_range(angle as int),
    ensures
        r == angle_duty(angle as int),
        STEERING_DUTY_MIN <= r <= STEERING_DUTY_MAX,
{
    proof {
        lemma_angle_duty_range(angle as int);
        assert(0 <= 470 * (angle - 3500) <= 470 * 10000) by (nonlinear_arith)
            requires 0 <= angle - 3500 <= 10000;
    }
    let delta_duty: i32 = STEERING_DUTY_MAX - STEERING_DUTY_MIN;
    let delta_angle: i32 = STEERING_ANGLE_MAX - STEERING_ANGLE_MIN;
    (delta_duty * (angle - STEERING_ANGLE_MIN) / delta_angle + STEERING_DUTY_MIN) as u16
}

/// Computes the duty cycle that drives a wheel at `rpm`.
pub fn rpm_to_duty(rpm: i32) -> (r: u16)
    requires
        rpm_in_range(rpm as int),
    ensures
        r == rpm_duty(rpm as int),
        MOTOR_DUTY_NUM_MIN <= r <= MOTOR_DUTY_NUM_MAX,
{
    proof {
        lemma_rpm_duty_range(rpm as int);
        assert(-800 * 450000 <= 800 * rpm <= 800 * 450000) by (nonlinear_arith)
            requires -450000 <= rpm <= 450000;
    }
    let delta_duty: i32 = MOTOR_DUTY_NUM_MAX - MOTOR_DUTY_NUM_MIN;
    let delta_rpm: i32 = RPM_MAX - RPM_MIN;
    let x: i32 = delta_duty * rpm;
    let q: i32 = if x >= 0 {
        x / delta_rpm
    } else {
        -((-x) / delta_rpm)
    };
    (q + MOTOR_DUTY_NUM_ZERO) as u16
}

fn in_range(v: i32, lo: i32, hi: i32) -> (r: bool)
    ensures
        r == (lo <= v <= hi),
{
    lo <= v && v <= hi
}

/// Checks that every field of the command lies in its range.
pub fn validate(command: &Command) -> (r: Result<(), Log>)
    ensures
        command_valid(*command) <==> r is Ok,
        r is Err ==> r == Err::<(), Log>(Log::InvalidCommand),
{
    if !in_range(command.steering, STEERING_ANGLE_MIN, STEERING_ANGLE_MAX)
        || !in_range(command.fl_whl_rpm, RPM_MIN, RPM_MAX)
        || !in_range(command.fr_whl_rpm, RPM_MIN, RPM_MAX)
        || !in_range(command.rl_whl_rpm, RPM_MIN, RPM_MAX)
        || !in_range(command.rr_whl_rpm, RPM_MIN, RPM_MAX)
    {
        return Err(Log::InvalidCommand);
    }
    Ok(())
}

/// Carries out the command: sets all five duty cycles when every field is in
/// range, and touches none of them otherwise.
pub fn execute(command: Command, duties: &mut DutyCycles) -> (r: Result<(), Log>)
    ensures
        command_valid(command) ==> r is Ok && *final(duties) == command_duties(command),
        !command_valid(command) ==> r == Err::<(), Log>(Log::InvalidCommand) && *final(duties)
            == *old(duties),
{
    validate(&command)?;
    let steering = angle_to_duty(command.steering);
    let motor_fl = rpm_to_duty(command.fl_whl_rpm);
    let motor_fr = rpm_to_duty(command.fr_whl_rpm);
    let motor_rl = rpm_to_duty(command.rl_whl_rpm);
    let motor_rr = rpm_to_duty(command.rr_whl_rpm);
    *duties = DutyCycles { steering, motor_fl, motor_fr, motor_rl, motor_rr };
    Ok(())
}

/// Over the steering range the duty never decreases as the angle grows, and
/// the ends of the angle range go to the ends of the duty range.
pub proof fn lemma_angle_duty_monotonic(a1: int, a2: int)
    requires
        angle_in_range(a1),
        angle_in_range(a2),
        a1 <= a2,
    ensures
        angle_duty(a1) <= angle_duty(a2),
        angle_duty(STEERING_ANGLE_MIN as int) == STEERING_DUTY_MIN,
        angle_duty(STEERING_ANGLE_MAX as int) == STEERING_DUTY_MAX,
{
    let x1 = 470 * (a1 - 3500);
    let x2 = 470 * (a2 - 3500);
    assert(x1 <= x2) by (nonlinear_arith)
        requires a1 <= a2, x1 == 470 * (a1 - 3500), x2 == 470 * (a2 - 3500);
    assert(x1 / 10000 <= x2 / 10000) by (nonlinear_arith)
        requires x1 <= x2;
}

/// Zero speed goes to the centre duty, and the ends of the speed range to
/// the ends of the motor duty range.
pub proof fn lemma_rpm_duty_points()
    ensures
        rpm_duty(0) == MOTOR_DUTY_NUM_ZERO,
        rpm_duty(RPM_MIN as int) == MOTOR_DUTY_NUM_MIN,
        rpm_duty(RPM_MAX as int) == MOTOR_DUTY_NUM_MAX,
{
}

} // verus!
