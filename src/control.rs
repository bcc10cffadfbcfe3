//! The control loop: one tick reads the command bytes that arrived,
//! executes the command, converts the wheel sensors and reports, all on a
//! single owner of the vehicle's state.
use vstd::prelude::*;
use crate::actuation::{command_duties, command_valid, execute, DutyCycles};
use crate::messages::{Command, Info, Log, Sensors, MAX_FRAME_SIZE};
use crate::readbuf::ReadBuf;
use crate::reader::{read_command, reader_run};
use crate::sensors::{analog_rpm, sensors_from_analog};
use crate::wire::{info_frame, lemma_info_frame, serialize, Message};

verus! {

/// The frames of the given messages, one after the other.
pub open spec fn frames(infos: Seq<Info>) -> Seq<u8>
    decreases infos.len(),
{
    if infos.len() == 0 {
        Seq::empty()
    } else {
        frames(infos.drop_last()) + info_frame(infos.last())
    }
}

/// Serializes the message through `write_buf` and appends its frame to what
/// goes out; fails, sending nothing, when the frame does not fit the
/// buffer, which never happens with a buffer of `MAX_FRAME_SIZE` bytes.
pub fn write_event(info: &Info, write_buf: &mut [u8], out: &mut Vec<u8>) -> (r: Result<(), Log>)
    ensures
        info_frame(*info).len() <= old(write_buf)@.len() <==> r is Ok,
        old(write_buf)@.len() >= MAX_FRAME_SIZE ==> r is Ok,
        r is Ok ==> final(out)@ == old(out)@ + info_frame(*info),
        r is Err ==> r == Err::<(), Log>(Log::SerializationError) && final(out)@ == old(out)@,
        final(write_buf)@.len() == old(write_buf)@.len(),
{
    proof {
        lemma_info_frame(*info);
    }
    let n = serialize(info, write_buf)?;
    let mut i: usize = 0;
    while i < n
        invariant
            i <= n <= write_buf@.len(),
            write_buf@.take(n as int) == info_frame(*info),
            out@ == old(out)@ + info_frame(*info).take(i as int),
        decreases n - i,
    {
        out.push(write_buf[i]);
        i = i + 1;
        assert(out@ =~= old(out)@ + info_frame(*info).take(i as int));
    }
    assert(info_frame(*info).take(n as int) =~= info_frame(*info));
    Ok(())
}

/// The messages that report what the reader produced this tick: a received
/// command, followed by `InvalidCommand` when it is out of range; that no
/// command arrived; or the reader's error.
pub open spec fn command_events(read: Result<Option<Command>, Log>) -> Seq<Info> {
    match read {
        Ok(Some(c)) => if command_valid(c) {
            seq![Info::Log(Log::CommandReceived)]
        } else {
            seq![Info::Log(Log::CommandReceived), Info::Log(Log::InvalidCommand)]
        },
        Ok(None) => seq![Info::Log(Log::NoCommandReceived)],
        Err(l) => seq![Info::Log(l)],
    }
}

/// The duty cycles after the reader produced `read`: those of a valid
/// command, else the previous ones.
pub open spec fn duties_after(read: Result<Option<Command>, Log>, duties: DutyCycles) -> DutyCycles {
    match read {
        Ok(Some(c)) => if command_valid(c) {
            command_duties(c)
        } else {
            duties
        },
        _ => duties,
    }
}

/// Raw samples of the four wheel-speed sensors.
#[derive(Clone, Copy, Debug, PartialEq, Eq, Structural)]
pub struct WheelReadings {
    pub fl: u16,
    pub fr: u16,
    pub rl: u16,
    pub rr: u16,
}

pub open spec fn sensors_of(a: WheelReadings) -> Sensors {
    Sensors {
        fl_whl_rpm: analog_rpm(a.fl as int) as i32,
        fr_whl_rpm: analog_rpm(a.fr as int) as i32,
        rl_whl_rpm: analog_rpm(a.rl as int) as i32,
        rr_whl_rpm: analog_rpm(a.rr as int) as i32,
    }
}

/// Whether the vehicle runs its control loop or sits in the fault state.
#[derive(Clone, Copy, Debug, PartialEq, Eq, Structural)]
pub enum Mode {
    Running,
    Faulted,
}

/// The one owner of the vehicle's state: receive buffer, commanded duty
/// cycles, the drive-power enable lines, the indicator and the mode.
pub struct Controller {
    pub(crate) read_buf: ReadBuf<MAX_FRAME_SIZE>,
    pub(crate) duties: DutyCycles,
    pub(crate) drive_front: bool,
    pub(crate) drive_rear: bool,
    pub(crate) led: bool,
    pub(crate) mode: Mode,
}

/// The state of a controller as its contracts see it.
pub struct ControllerView {
    pub buffered: Seq<u8>,
    pub duties: DutyCycles,
    pub drive_front: bool,
    pub drive_rear: bool,
    pub led: bool,
    pub mode: Mode,
}

impl View for Controller {
    type V = ControllerView;

    closed spec fn view(&self) -> ControllerView {
        ControllerView {
            buffered: self.read_buf@,
            duties: self.duties,
            drive_front: self.drive_front,
            drive_rear: self.drive_rear,
            led: self.led,
            mode: self.mode,
        }
    }
}

/// The messages that one running tick reports, in order.
pub open spec fn tick_infos(read: Result<Option<Command>, Log>, readings: WheelReadings) -> Seq<Info> {
    command_events(read).push(Info::Sensors(sensors_of(readings)))
}

/// One running tick from state `v` on all the bytes that arrived: the state
/// after it and the bytes it transmits.
pub open spec fn running_tick(v: ControllerView, bytes: Seq<u8>, readings: WheelReadings) -> (ControllerView, Seq<u8>) {
    let (buffered, read) = reader_run(v.buffered, bytes, MAX_FRAME_SIZE as nat);
    (
        ControllerView { buffered, duties: duties_after(read, v.duties), ..v },
        frames(tick_infos(read, readings)),
    )
}

/// The view field by field, for the other modules of the crate.
pub(crate) proof fn lemma_controller_view(c: &Controller)
    ensures
        c@ == (ControllerView {
            buffered: c.read_buf@,
            duties: c.duties,
            drive_front: c.drive_front,
            drive_rear: c.drive_rear,
            led: c.led,
            mode: c.mode,
        }),
        c.wf() == c.read_buf.wf(),
{
}

impl Controller {
    pub closed spec fn wf(&self) -> bool {
        self.read_buf.wf()
    }

    /// A controller with an empty buffer, drive power on, all duty cycles at
    /// zero and the indicator off.
    pub fn new() -> (r: Controller)
        ensures
            r.wf(),
            r@ == (ControllerView {
                buffered: Seq::empty(),
                duties: DutyCycles { steering: 0, motor_fl: 0, motor_fr: 0, motor_rl: 0, motor_rr: 0 },
                drive_front: true,
                drive_rear: true,
                led: false,
                mode: Mode::Running,
            }),
    {
        Controller {
            read_buf: ReadBuf::new(),
            duties: DutyCycles { steering: 0, motor_fl: 0, motor_fr: 0, motor_rl: 0, motor_rr: 0 },
            drive_front: true,
            drive_rear: true,
            led: false,
            mode: Mode::Running,
        }
    }

    /// The duty cycles last commanded.
    pub fn duties(&self) -> (r: DutyCycles)
        ensures
            r == self@.duties,
    {
        self.duties
    }

    /// The levels of the front and rear drive-power enable lines.
    pub fn drive_enabled(&self) -> (r: (bool, bool))
        ensures
            r == (self@.drive_front, self@.drive_rear),
    {
        (self.drive_front, self.drive_rear)
    }

    /// The level of the indicator.
    pub fn led(&self) -> (r: bool)
        ensures
            r == self@.led,
    {
        self.led
    }

    pub fn mode(&self) -> (r: Mode)
        ensures
            r == self@.mode,
    {
        self.mode
    }

    /// The number of bytes of an unfinished frame held in the buffer.
    pub fn buffered_len(&self) -> (r: usize)
        requires
            self.wf(),
        ensures
            r == self@.buffered.len(),
    {
        self.read_buf.len()
    }

    /// One tick of the control loop on the bytes that arrived and the
    /// sensor samples: reads a command, reports what came of it, executes
    /// it, then reports the wheel speeds. Every byte is taken; when several
    /// frames complete, the last one's command is the one executed. Returns
    /// the bytes to transmit.
    pub fn control_tick(&mut self, bytes: &[u8], readings: WheelReadings) -> (r: Vec<u8>)
        requires
            old(self).wf(),
            old(self)@.mode == Mode::Running,
        ensures
            final(self).wf(),
            (final(self)@, r@) == running_tick(old(self)@, bytes@, readings),
    {
        let read = read_command(&mut self.read_buf, bytes);
        let mut out: Vec<u8> = Vec::new();
        let mut write_buf = [0u8; MAX_FRAME_SIZE];
        let ghost infos = tick_infos(read, readings);
        match read {
            Ok(Some(command)) => {
                let _ = write_event(&Info::Log(Log::CommandReceived), &mut write_buf, &mut out);
                if let Err(log) = execute(command, &mut self.duties) {
                    let _ = write_event(&Info::Log(log), &mut write_buf, &mut out);
                }
            },
            Ok(None) => {
                let _ = write_event(&Info::Log(Log::NoCommandReceived), &mut write_buf, &mut out);
            },
            Err(log) => {
                let _ = write_event(&Info::Log(log), &mut write_buf, &mut out);
            },
        }
        proof {
            let ev = command_events(read);
            assert(infos.drop_last() =~= ev);
            assert(seq![ev[0]].drop_last() =~= Seq::<Info>::empty());
            assert(seq![ev[0]].last() == ev[0]);
            assert(frames(Seq::<Info>::empty()) =~= Seq::<u8>::empty());
            assert(frames(seq![ev[0]]) =~= info_frame(ev[0]));
            if ev.len() == 2 {
                assert(ev.drop_last() =~= seq![ev[0]]);
                assert(frames(ev) =~= info_frame(ev[0]) + info_frame(ev[1]));
            } else {
                assert(ev =~= seq![ev[0]]);
            }
            assert(out@ =~= frames(ev));
        }
        let sensors = sensors_from_analog(readings.fl, readings.fr, readings.rl, readings.rr);
        let _ = write_event(&Info::Sensors(sensors), &mut write_buf, &mut out);
        out
    }
}

} // verus!
