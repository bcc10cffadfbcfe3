use xmaxx::messages::{Command, Info, Log, Sensors, MAX_FRAME_SIZE};
use xmaxx::wire::{deserialize, serialize, Message};

fn straight() -> Command {
    Command::new(9000, 0, 0, 0, 0)
}

#[test]
fn command_frame_bytes() {
    // 9000 zigzags to 18000: varint d0 8c 01, then four zero fields
    assert_eq!(straight().to_frame(), vec![0x04, 0xd0, 0x8c, 0x01, 0x01, 0x01, 0x01, 0x01, 0x00]);
}

#[test]
fn negative_field_zigzags() {
    let c = Command::new(-1, 1, -2, 2, 0);
    assert_eq!(c.to_frame(), vec![0x05, 0x01, 0x02, 0x03, 0x04, 0x01, 0x00]);
}

#[test]
fn info_log_frame_bytes() {
    assert_eq!(Info::Log(Log::FirmwarePanic).to_frame(), vec![0x03, 0x01, 0x04, 0x00]);
    assert_eq!(Info::Log(Log::SerializationError).to_frame(), vec![0x02, 0x01, 0x01, 0x00]);
}

#[test]
fn info_sensors_frame_bytes() {
    let s = Info::Sensors(Sensors { fl_whl_rpm: 0, fr_whl_rpm: 0, rl_whl_rpm: 0, rr_whl_rpm: 0 });
    assert_eq!(s.to_frame(), vec![0x01, 0x01, 0x01, 0x01, 0x01, 0x01, 0x00]);
}

#[test]
fn command_round_trip() {
    let cases = [
        straight(),
        Command::new(i32::MIN, i32::MAX, -1, 1, 0),
        Command::new(13500, 450000, -450000, 123, -4567),
    ];
    for c in cases {
        let f = c.to_frame();
        assert!(f.len() <= MAX_FRAME_SIZE);
        assert_eq!(f.last(), Some(&0));
        assert!(f[..f.len() - 1].iter().all(|b| *b != 0));
        assert_eq!(Command::from_frame(&f), Ok(c));
    }
}

#[test]
fn largest_command_fills_the_frame_size() {
    let c = Command::new(i32::MIN, i32::MIN, i32::MIN, i32::MIN, i32::MIN);
    assert_eq!(c.to_frame().len(), MAX_FRAME_SIZE);
}

#[test]
fn info_round_trip() {
    let logs = [
        Log::SerializationError,
        Log::DeserializationError,
        Log::ReadBufferOverflow,
        Log::ReadTimeout,
        Log::FirmwarePanic,
        Log::InvalidCommand,
        Log::CommandReceived,
        Log::NoCommandReceived,
    ];
    for l in logs {
        let f = Info::Log(l).to_frame();
        assert_eq!(Info::from_frame(&f), Ok(Info::Log(l)));
    }
    let s = Info::Sensors(Sensors { fl_whl_rpm: -424, fr_whl_rpm: 424, rl_whl_rpm: i32::MAX, rr_whl_rpm: i32::MIN });
    let f = s.to_frame();
    assert!(f.len() <= MAX_FRAME_SIZE);
    assert!(f[..f.len() - 1].iter().all(|b| *b != 0));
    assert_eq!(Info::from_frame(&f), Ok(s));
}

#[test]
fn serialize_into_buffer() {
    let mut buf = [0xaau8; 12];
    assert_eq!(serialize(&straight(), &mut buf), Ok(9));
    assert_eq!(&buf[..9], &[0x04, 0xd0, 0x8c, 0x01, 0x01, 0x01, 0x01, 0x01, 0x00]);
    assert_eq!(&buf[9..], &[0xaa, 0xaa, 0xaa]);
    assert_eq!(deserialize::<Command>(&buf[..9]), Ok(straight()));
}

#[test]
fn serialize_into_small_buffer_fails() {
    let mut buf = [0xaau8; 8];
    assert_eq!(serialize(&straight(), &mut buf), Err(Log::SerializationError));
    assert_eq!(buf, [0xaau8; 8]);
}

#[test]
fn deserialize_garbage_fails() {
    assert_eq!(deserialize::<Command>(&[0x00]), Err(Log::DeserializationError));
    assert_eq!(deserialize::<Command>(&[0x02, 0x05, 0x00]), Err(Log::DeserializationError));
    assert_eq!(deserialize::<Info>(&[0x02, 0x05, 0x00]), Err(Log::DeserializationError));
    // a log tag with a kind past the last one
    assert_eq!(deserialize::<Info>(&[0x03, 0x01, 0x08, 0x00]), Err(Log::DeserializationError));
    // an unknown tag
    assert_eq!(deserialize::<Info>(&[0x03, 0x02, 0x01, 0x00]), Err(Log::DeserializationError));
}

#[test]
fn log_index_round_trip() {
    for i in 0..8u32 {
        let l = Log::from_index(i).unwrap();
        assert_eq!(l.to_index(), i);
    }
    assert_eq!(Log::from_index(8), None);
}
