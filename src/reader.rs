//! The command reader: drives the receive buffer and the codec from the
//! incoming byte stream.
use vstd::prelude::*;
use crate::messages::{Command, Log};
use crate::readbuf::ReadBuf;
use crate::wire::{command_decoded, command_frame, lemma_command_frame, Message};

verus! {

/// The byte that ends every frame.
pub const TERMINATOR: u8 = 0;

/// One byte through the reader, from the buffered bytes `buf` of a buffer
/// of capacity `cap`: the bytes buffered afterwards, and the outcome if the
/// byte ended a frame or overflowed the buffer.
pub open spec fn reader_step(buf: Seq<u8>, byte: u8, cap: nat) -> (Seq<u8>, Option<Result<Command, Log>>) {
    if buf.len() >= cap {
        (Seq::empty(), Some(Err(Log::ReadBufferOverflow)))
    } else if byte == TERMINATOR {
        (Seq::empty(), Some(command_decoded(buf.push(byte))))
    } else {
        (buf.push(byte), None)
    }
}

/// The outcome of a frame as the control loop sees it.
pub open spec fn as_read(o: Result<Command, Log>) -> Result<Option<Command>, Log> {
    match o {
        Ok(c) => Ok(Some(c)),
        Err(l) => Err(l),
    }
}

/// All of `bytes` through the reader, one after the other: the bytes
/// buffered afterwards, and the outcome of the last byte that ended a frame
/// or overflowed the buffer (`Ok(None)` when none did). Earlier outcomes of
/// the same run are superseded.
pub open spec fn reader_run(buf: Seq<u8>, bytes: Seq<u8>, cap: nat) -> (Seq<u8>, Result<Option<Command>, Log>)
    decreases bytes.len(),
{
    if bytes.len() == 0 {
        (buf, Ok(None))
    } else {
        let (before, earlier) = reader_run(buf, bytes.drop_last(), cap);
        let (after, o) = reader_step(before, bytes.last(), cap);
        match o {
            Some(res) => (after, as_read(res)),
            None => (after, earlier),
        }
    }
}

/// Feeds one byte to the reader.
///
/// On overflow the buffer is reset and `ReadBufferOverflow` comes out; on
/// the terminator the buffered frame is decoded and the buffer reset,
/// whether decoding succeeded or not.
pub fn read_byte<const N: usize>(read_buf: &mut ReadBuf<N>, byte: u8) -> (r: Option<Result<Command, Log>>)
    requires
        old(read_buf).wf(),
    ensures
        final(read_buf).wf(),
        (final(read_buf)@, r) == reader_step(old(read_buf)@, byte, N as nat),
        forall|c: Command| #![trigger command_frame(c)]
            old(read_buf)@.len() < N && old(read_buf)@.push(byte) == command_frame(c) ==> r == Some(
                Ok::<Command, Log>(c),
            ),
{
    if read_buf.push(byte).is_err() {
        // reset on overflow, or every later byte would fail too
        read_buf.reset();
        return Some(Err(Log::ReadBufferOverflow));
    }
    if byte == TERMINATOR {
        let frame = read_buf.as_slice();
        let decoded = Command::from_frame(frame);
        proof {
            assert forall|c: Command| #![trigger command_frame(c)]
                frame@ == command_frame(c) implies decoded == Ok::<Command, Log>(c) by {
                assert(frame@ == c.frame());
            }
        }
        // reset whatever came of it, or a bad frame would wedge the reader
        read_buf.reset();
        return Some(decoded);
    }
    proof {
        assert forall|c: Command| #![trigger command_frame(c)]
            old(read_buf)@.len() < N && old(read_buf)@.push(byte) == command_frame(c) implies false by {
            lemma_command_frame(c);
            assert(command_frame(c).last() == 0);
        }
    }
    None
}

/// Reads a command from the bytes available this tick.
///
/// Every byte is taken. The outcome is that of the last frame completed or
/// the last overflow during the tick (`Ok(None)` when there was none): when
/// several frames arrive in one tick, the last one wins. Bytes of an
/// unfinished frame stay in the buffer for the next tick. When the input
/// ends with the frame of a command and the reader is empty at the start of
/// that frame, that command comes out and the reader is empty again.
pub fn read_command<const N: usize>(read_buf: &mut ReadBuf<N>, bytes: &[u8]) -> (r: Result<Option<Command>, Log>)
    requires
        old(read_buf).wf(),
    ensures
        final(read_buf).wf(),
        (final(read_buf)@, r) == reader_run(old(read_buf)@, bytes@, N as nat),
        forall|c: Command| #![trigger command_frame(c)]
            ends_with_frame(old(read_buf)@, bytes@, N as nat, c) ==> r == Ok::<Option<Command>, Log>(Some(c))
                && final(read_buf)@.len() == 0,
{
    let mut i: usize = 0;
    let mut out: Result<Option<Command>, Log> = Ok(None);
    assert(bytes@.take(0) =~= Seq::<u8>::empty());
    while i < bytes.len()
        invariant
            read_buf.wf(),
            i <= bytes@.len(),
            (read_buf@, out) == reader_run(old(read_buf)@, bytes@.take(i as int), N as nat),
            forall|c: Command| #![trigger command_frame(c)]
                ends_with_frame(old(read_buf)@, bytes@, N as nat, c) ==> {
                    let k = bytes@.len() - command_frame(c).len();
                    &&& k <= i < bytes@.len() ==> read_buf@ == command_frame(c).take(i - k)
                    &&& i == bytes@.len() ==> out == Ok::<Option<Command>, Log>(Some(c)) && read_buf@.len() == 0
                },
        decreases bytes@.len() - i,
    {
        let ghost before = read_buf@;
        let ghost before_out = out;
        let byte = bytes[i];
        let step = read_byte(read_buf, byte);
        match step {
            Some(res) => {
                out = match res {
                    Ok(c) => Ok(Some(c)),
                    Err(l) => Err(l),
                };
            },
            None => {},
        }
        proof {
            let t = bytes@.take(i + 1);
            assert(t.drop_last() =~= bytes@.take(i as int));
            assert(t.last() == byte);
            assert forall|c: Command| #![trigger command_frame(c)]
                ends_with_frame(old(read_buf)@, bytes@, N as nat, c) implies ({
                    let k = bytes@.len() - command_frame(c).len();
                    &&& k <= i + 1 < bytes@.len() ==> read_buf@ == command_frame(c).take(i + 1 - k)
                    &&& i + 1 == bytes@.len() ==> out == Ok::<Option<Command>, Log>(Some(c)) && read_buf@.len() == 0
                }) by {
                let f = command_frame(c);
                let k = bytes@.len() - f.len();
                lemma_command_frame(c);
                if i + 1 == k {
                    assert(bytes@.take(k) =~= bytes@.take(i + 1));
                    assert(f.take(0) =~= Seq::<u8>::empty());
                } else if k <= i {
                    assert(byte == bytes@.skip(k)[i - k]);
                    assert(before.push(byte) =~= f.take(i + 1 - k));
                    if i + 1 - k == f.len() {
                        assert(f.take(i + 1 - k) =~= f);
                    }
                }
            }
        }
        i = i + 1;
    }
    assert(bytes@.take(i as int) =~= bytes@);
    out
}

/// The input ends with the frame of `c`, the frame fits the buffer, and the
/// reader is empty when the frame starts.
pub open spec fn ends_with_frame(buf: Seq<u8>, bytes: Seq<u8>, cap: nat, c: Command) -> bool {
    let f = command_frame(c);
    &&& f.len() <= cap
    &&& f.len() <= bytes.len()
    &&& bytes.skip(bytes.len() - f.len()) == f
    &&& reader_run(buf, bytes.take(bytes.len() - f.len()), cap).0.len() == 0
}

/// Bytes with no terminator that fit the buffer only accumulate.
pub proof fn lemma_reader_accumulates(buf: Seq<u8>, bytes: Seq<u8>, cap: nat)
    requires
        buf.len() + bytes.len() <= cap,
        forall|i: int| 0 <= i < bytes.len() ==> bytes[i] != TERMINATOR,
    ensures
        reader_run(buf, bytes, cap) == (buf + bytes, Ok::<Option<Command>, Log>(None)),
    decreases bytes.len(),
{
    if bytes.len() == 0 {
        assert(buf + bytes =~= buf);
    } else {
        lemma_reader_accumulates(buf, bytes.drop_last(), cap);
        assert((buf + bytes.drop_last()).push(bytes.last()) =~= buf + bytes);
    }
}

/// Bytes pushed one at a time with no terminator among them: once they
/// exceed the capacity, the next byte reports an overflow and leaves the
/// buffer empty.
pub proof fn lemma_reader_overflow(buf: Seq<u8>, bytes: Seq<u8>, cap: nat)
    requires
        buf.len() <= cap,
        bytes.len() == cap - buf.len() + 1,
        forall|i: int| 0 <= i < cap - buf.len() ==> bytes[i] != TERMINATOR,
    ensures
        reader_run(buf, bytes, cap) == (Seq::<u8>::empty(), Err::<Option<Command>, Log>(Log::ReadBufferOverflow)),
{
    let fill = bytes.drop_last();
    assert forall|i: int| 0 <= i < fill.len() implies fill[i] != TERMINATOR by {
        assert(fill[i] == bytes[i]);
    }
    lemma_reader_accumulates(buf, fill, cap);
}

/// A frame with its only zero at its end, fed to an empty reader that can
/// hold it, leaves the reader empty with the outcome of decoding it,
/// whatever decoding made of it.
pub proof fn lemma_reader_frame(frame: Seq<u8>, cap: nat)
    requires
        0 < frame.len() <= cap,
        frame.last() == TERMINATOR,
        forall|i: int| 0 <= i < frame.len() - 1 ==> frame[i] != TERMINATOR,
    ensures
        reader_run(Seq::empty(), frame, cap) == (Seq::<u8>::empty(), as_read(command_decoded(frame))),
{
    let body = frame.drop_last();
    assert forall|i: int| 0 <= i < body.len() implies body[i] != TERMINATOR by {
        assert(body[i] == frame[i]);
    }
    lemma_reader_accumulates(Seq::empty(), body, cap);
    assert(Seq::<u8>::empty() + body =~= body);
    assert(body.push(frame.last()) =~= frame);
}

} // verus!
