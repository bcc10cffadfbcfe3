use xmaxx::actuation::DutyCycles;
use xmaxx::control::{write_event, Controller, Mode, WheelReadings};
use xmaxx::messages::{Command, Info, Log, Sensors, MAX_FRAME_SIZE};
use xmaxx::safety::panic_message;
use xmaxx::wire::Message;

fn still() -> WheelReadings {
    WheelReadings { fl: 412, fr: 412, rl: 412, rr: 412 }
}

fn frames(infos: &[Info]) -> Vec<u8> {
    let mut out = Vec::new();
    for i in infos {
        out.extend(i.to_frame());
    }
    out
}

fn zero_sensors() -> Info {
    Info::Sensors(Sensors { fl_whl_rpm: 0, fr_whl_rpm: 0, rl_whl_rpm: 0, rr_whl_rpm: 0 })
}

#[test]
fn write_event_appends_frame() {
    let mut buf = [0u8; MAX_FRAME_SIZE];
    let mut out = vec![0xee];
    assert_eq!(write_event(&Info::Log(Log::CommandReceived), &mut buf, &mut out), Ok(()));
    assert_eq!(out, vec![0xee, 0x03, 0x01, 0x06, 0x00]);
}

#[test]
fn tick_without_bytes_reports_no_command_then_sensors() {
    let mut c = Controller::new();
    let out = c.tick(&[], still());
    assert_eq!(out, frames(&[Info::Log(Log::NoCommandReceived), zero_sensors()]));
    assert_eq!(c.mode(), Mode::Running);
}

#[test]
fn tick_with_valid_command_executes_it() {
    let mut c = Controller::new();
    let cmd = Command::new(13500, 450000, 0, -450000, 225000);
    let out = c.tick(&cmd.to_frame(), WheelReadings { fl: 822, fr: 2, rl: 412, rr: 413 });
    let sensors = Info::Sensors(Sensors { fl_whl_rpm: 424, fr_whl_rpm: -424, rl_whl_rpm: 0, rr_whl_rpm: 1 });
    assert_eq!(out, frames(&[Info::Log(Log::CommandReceived), sensors]));
    assert_eq!(c.duties(), DutyCycles { steering: 980, motor_fl: 900, motor_fr: 500, motor_rl: 100, motor_rr: 700 });
    assert_eq!(c.buffered_len(), 0);
}

#[test]
fn tick_with_invalid_command_reports_and_keeps_duties() {
    let mut c = Controller::new();
    let before = c.duties();
    let cmd = Command::new(20000, 0, 0, 0, 0);
    let out = c.tick(&cmd.to_frame(), still());
    assert_eq!(
        out,
        frames(&[Info::Log(Log::CommandReceived), Info::Log(Log::InvalidCommand), zero_sensors()])
    );
    assert_eq!(c.duties(), before);
}

#[test]
fn tick_with_bad_frame_reports_deserialization_error() {
    let mut c = Controller::new();
    let out = c.tick(&[0x02, 0x05, 0x00, 0x07], still());
    assert_eq!(out, frames(&[Info::Log(Log::DeserializationError), zero_sensors()]));
    // the byte after the bad frame starts the next one
    assert_eq!(c.buffered_len(), 1);
}

#[test]
fn tick_with_overflow_reports_it() {
    let mut c = Controller::new();
    let bytes = [0x11u8; MAX_FRAME_SIZE + 3];
    let out = c.tick(&bytes, still());
    assert_eq!(out, frames(&[Info::Log(Log::ReadBufferOverflow), zero_sensors()]));
    // the two bytes after the overflowing one are kept
    assert_eq!(c.buffered_len(), 2);
}

#[test]
fn tick_with_two_frames_executes_the_last() {
    let mut c = Controller::new();
    let first = Command::new(3500, 0, 0, 0, 0);
    let second = Command::new(13500, 450000, 450000, 450000, 450000);
    let mut bytes = first.to_frame();
    bytes.extend(second.to_frame());
    let out = c.tick(&bytes, still());
    assert_eq!(out, frames(&[Info::Log(Log::CommandReceived), zero_sensors()]));
    assert_eq!(c.duties(), DutyCycles { steering: 980, motor_fl: 900, motor_fr: 900, motor_rl: 900, motor_rr: 900 });
}

#[test]
fn safety_handler_keeps_drive_low_forever() {
    let mut c = Controller::new();
    let cmd = Command::new(10000, 1000, 1000, 1000, 1000);
    c.tick(&cmd.to_frame(), still());
    let commanded = c.duties();
    assert_eq!(c.drive_enabled(), (true, true));
    c.fault();
    assert_eq!(c.mode(), Mode::Faulted);
    assert_eq!(c.drive_enabled(), (false, false));
    let mut led = c.led();
    for _ in 0..20 {
        // a valid command arriving changes nothing
        let out = c.tick(&Command::new(9000, 0, 0, 0, 0).to_frame(), still());
        assert_eq!(c.buffered_len(), 0);
        assert_eq!(out, panic_message());
        assert_eq!(out, vec![0x03, 0x01, 0x04, 0x00]);
        assert_eq!(c.drive_enabled(), (false, false));
        assert_eq!(c.mode(), Mode::Faulted);
        assert_eq!(c.duties(), commanded);
        assert_ne!(c.led(), led);
        led = c.led();
    }
}

#[test]
fn safety_step_toggles_indicator() {
    let mut c = Controller::new();
    c.fault();
    assert_eq!(c.led(), false);
    assert_eq!(c.safety_step(), vec![0x03, 0x01, 0x04, 0x00]);
    assert_eq!(c.led(), true);
    c.safety_step();
    assert_eq!(c.led(), false);
}

#[test]
fn write_event_with_small_buffer_fails() {
    let mut buf = [0u8; 3];
    let mut out = vec![0xee];
    assert_eq!(write_event(&Info::Log(Log::CommandReceived), &mut buf, &mut out), Err(Log::SerializationError));
    assert_eq!(out, vec![0xee]);
}
