use xmaxx::actuation::{
    angle_to_duty, execute, rpm_to_duty, validate, DutyCycles, MOTOR_DUTY_NUM_MAX, MOTOR_DUTY_NUM_MIN,
    MOTOR_DUTY_NUM_ZERO, RPM_MAX, RPM_MIN, STEERING_ANGLE_MAX, STEERING_ANGLE_MIN, STEERING_DUTY_MAX,
    STEERING_DUTY_MIN,
};
use xmaxx::messages::{Command, Log};

#[test]
fn angle_ends_map_to_duty_ends() {
    assert_eq!(angle_to_duty(STEERING_ANGLE_MIN) as i32, STEERING_DUTY_MIN);
    assert_eq!(angle_to_duty(STEERING_ANGLE_MAX) as i32, STEERING_DUTY_MAX);
}

#[test]
fn angle_straight_ahead() {
    // 470 * 5500 / 10000 = 258, plus 510
    assert_eq!(angle_to_duty(9000), 768);
}

#[test]
fn angle_duty_is_monotonic() {
    let mut last = 0u16;
    let mut a = STEERING_ANGLE_MIN;
    while a <= STEERING_ANGLE_MAX {
        let d = angle_to_duty(a);
        assert!(d >= last);
        last = d;
        a += 7;
    }
}

#[test]
fn rpm_points() {
    assert_eq!(rpm_to_duty(0) as i32, MOTOR_DUTY_NUM_ZERO);
    assert_eq!(rpm_to_duty(RPM_MIN) as i32, MOTOR_DUTY_NUM_MIN);
    assert_eq!(rpm_to_duty(RPM_MAX) as i32, MOTOR_DUTY_NUM_MAX);
}

#[test]
fn rpm_rounds_toward_zero() {
    // 800 * 1000 / 900000 = 0.88...
    assert_eq!(rpm_to_duty(1000), 500);
    assert_eq!(rpm_to_duty(-1000), 500);
    // 800 * 225000 / 900000 = 200
    assert_eq!(rpm_to_duty(225000), 700);
    assert_eq!(rpm_to_duty(-225000), 300);
    // 800 * 2000 / 900000 = 1.77...
    assert_eq!(rpm_to_duty(-2000), 499);
}

#[test]
fn validate_bounds_are_inclusive() {
    assert_eq!(validate(&Command::new(3500, -450000, 450000, 0, 0)), Ok(()));
    assert_eq!(validate(&Command::new(13500, 0, 0, -450000, 450000)), Ok(()));
    assert_eq!(validate(&Command::new(3499, 0, 0, 0, 0)), Err(Log::InvalidCommand));
    assert_eq!(validate(&Command::new(13501, 0, 0, 0, 0)), Err(Log::InvalidCommand));
    assert_eq!(validate(&Command::new(9000, 450001, 0, 0, 0)), Err(Log::InvalidCommand));
    assert_eq!(validate(&Command::new(9000, 0, -450001, 0, 0)), Err(Log::InvalidCommand));
    assert_eq!(validate(&Command::new(9000, 0, 0, 450001, 0)), Err(Log::InvalidCommand));
    assert_eq!(validate(&Command::new(9000, 0, 0, 0, -450001)), Err(Log::InvalidCommand));
}

fn idle() -> DutyCycles {
    DutyCycles { steering: 745, motor_fl: 500, motor_fr: 500, motor_rl: 500, motor_rr: 500 }
}

#[test]
fn invalid_steering_touches_no_actuator() {
    // 200 degrees with otherwise valid speeds
    let mut d = idle();
    assert_eq!(execute(Command::new(20000, 1000, 1000, 1000, 1000), &mut d), Err(Log::InvalidCommand));
    assert_eq!(d, idle());
}

#[test]
fn invalid_wheel_touches_no_actuator() {
    let mut d = idle();
    assert_eq!(execute(Command::new(9000, 0, 0, 0, 500000), &mut d), Err(Log::InvalidCommand));
    assert_eq!(d, idle());
}

#[test]
fn valid_command_sets_all_duties() {
    let mut d = idle();
    assert_eq!(execute(Command::new(13500, 450000, -450000, 225000, 0), &mut d), Ok(()));
    assert_eq!(d, DutyCycles { steering: 980, motor_fl: 900, motor_fr: 100, motor_rl: 700, motor_rr: 500 });
}
