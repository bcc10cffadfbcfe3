use xmaxx::messages::{Command, Log, MAX_FRAME_SIZE};
use xmaxx::readbuf::ReadBuf;
use xmaxx::reader::{read_byte, read_command};
use xmaxx::wire::Message;

#[test]
fn frame_fed_byte_by_byte_yields_one_command() {
    let c = Command::new(9000, 100, -100, 2500, 0);
    let frame = c.to_frame();
    let mut buf = ReadBuf::<MAX_FRAME_SIZE>::new();
    let mut yielded = Vec::new();
    for (i, b) in frame.iter().enumerate() {
        let out = read_byte(&mut buf, *b);
        if i + 1 < frame.len() {
            assert_eq!(out, None);
            assert_eq!(buf.len(), i + 1);
        } else {
            yielded.push(out);
        }
    }
    assert_eq!(yielded, vec![Some(Ok(c))]);
    assert_eq!(buf.len(), 0);
}

#[test]
fn malformed_frame_resets_buffer() {
    let mut buf = ReadBuf::<MAX_FRAME_SIZE>::new();
    assert_eq!(read_byte(&mut buf, 0x02), None);
    assert_eq!(read_byte(&mut buf, 0x05), None);
    assert_eq!(read_byte(&mut buf, 0x00), Some(Err(Log::DeserializationError)));
    assert_eq!(buf.len(), 0);
    // the next frame is read normally
    let c = Command::new(3500, 0, 0, 0, 0);
    let r = read_command(&mut buf, &c.to_frame());
    assert_eq!(r, Ok(Some(c)));
    assert_eq!(buf.len(), 0);
}

#[test]
fn overflow_after_capacity_without_terminator() {
    let mut buf = ReadBuf::<4>::new();
    let bytes = [1u8, 2, 3, 4, 5];
    let r = read_command(&mut buf, &bytes);
    assert_eq!(r, Err(Log::ReadBufferOverflow));
    assert_eq!(buf.len(), 0);
}

#[test]
fn bytes_after_overflow_start_a_new_frame() {
    let mut buf = ReadBuf::<4>::new();
    let bytes = [1u8, 2, 3, 4, 5, 6];
    let r = read_command(&mut buf, &bytes);
    assert_eq!(r, Err(Log::ReadBufferOverflow));
    // the overflowing byte is dropped, the next one is kept
    assert_eq!(buf.as_slice(), &[6]);
}

#[test]
fn terminator_on_full_buffer_overflows() {
    let mut buf = ReadBuf::<2>::new();
    assert_eq!(read_byte(&mut buf, 1), None);
    assert_eq!(read_byte(&mut buf, 2), None);
    assert_eq!(read_byte(&mut buf, 0), Some(Err(Log::ReadBufferOverflow)));
    assert_eq!(buf.len(), 0);
}

#[test]
fn no_terminator_yields_nothing_and_keeps_partial_frame() {
    let mut buf = ReadBuf::<MAX_FRAME_SIZE>::new();
    let r = read_command(&mut buf, &[0x04, 0xd0, 0x8c]);
    assert_eq!(r, Ok(None));
    assert_eq!(buf.as_slice(), &[0x04, 0xd0, 0x8c]);
    // the rest of the frame arrives on a later tick
    let r = read_command(&mut buf, &[0x01, 0x01, 0x01, 0x01, 0x01, 0x00]);
    assert_eq!(r, Ok(Some(Command::new(9000, 0, 0, 0, 0))));
    assert_eq!(buf.len(), 0);
}

#[test]
fn last_frame_of_a_tick_wins() {
    let a = Command::new(9000, 1, 2, 3, 4);
    let b = Command::new(10000, 5, 6, 7, 8);
    let mut bytes = a.to_frame();
    bytes.extend(b.to_frame());
    let mut buf = ReadBuf::<MAX_FRAME_SIZE>::new();
    let r = read_command(&mut buf, &bytes);
    assert_eq!(r, Ok(Some(b)));
    assert_eq!(buf.len(), 0);
}

#[test]
fn good_frame_after_bad_frame_wins() {
    let b = Command::new(10000, 5, 6, 7, 8);
    let mut bytes = vec![0x02, 0x05, 0x00];
    bytes.extend(b.to_frame());
    let mut buf = ReadBuf::<MAX_FRAME_SIZE>::new();
    assert_eq!(read_command(&mut buf, &bytes), Ok(Some(b)));
}

#[test]
fn bad_frame_after_good_frame_wins() {
    let a = Command::new(9000, 1, 2, 3, 4);
    let mut bytes = a.to_frame();
    bytes.extend([0x02, 0x05, 0x00]);
    let mut buf = ReadBuf::<MAX_FRAME_SIZE>::new();
    assert_eq!(read_command(&mut buf, &bytes), Err(Log::DeserializationError));
    assert_eq!(buf.len(), 0);
}

#[test]
fn empty_input_yields_nothing() {
    let mut buf = ReadBuf::<MAX_FRAME_SIZE>::new();
    assert_eq!(read_command(&mut buf, &[]), Ok(None));
}
