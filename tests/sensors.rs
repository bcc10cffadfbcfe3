use xmaxx::messages::Sensors;
use xmaxx::sensors::{analog_to_rpm, sensors_from_analog, ANALOG_ZERO_RPM};

#[test]
fn standstill_reading_is_zero() {
    assert_eq!(analog_to_rpm(ANALOG_ZERO_RPM), 0);
}

#[test]
fn conversion_values() {
    // 4500 * 410 / 4346 = 424.5...
    assert_eq!(analog_to_rpm(822), 424);
    assert_eq!(analog_to_rpm(2), -424);
    // 4500 * 1 / 4346 = 1.03...
    assert_eq!(analog_to_rpm(413), 1);
    assert_eq!(analog_to_rpm(411), -1);
    assert_eq!(analog_to_rpm(0), -426);
    assert_eq!(analog_to_rpm(1023), 632);
}

#[test]
fn conversion_is_affine_up_to_rounding() {
    for a in 0..1024 {
        let x = 4500 * (a - 412);
        let r = analog_to_rpm(a);
        assert!((x - 4346 * r).abs() < 4346);
        assert_eq!(r.signum() * x.signum() >= 0, true);
    }
}

#[test]
fn sensors_message_from_readings() {
    assert_eq!(
        sensors_from_analog(412, 822, 2, 413),
        Sensors { fl_whl_rpm: 0, fr_whl_rpm: 424, rl_whl_rpm: -424, rr_whl_rpm: 1 }
    );
}
