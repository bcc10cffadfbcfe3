//! The safety handler: the terminal fault state. Drive power is cut, the
//! steering is left as it is, and each iteration toggles the indicator and
//! sends a `FirmwarePanic` frame; nothing leads back to the control loop.
use vstd::prelude::*;
use crate::control::{lemma_controller_view, running_tick, write_event, Controller, ControllerView, Mode, WheelReadings};
use crate::messages::{Info, Log, MAX_FRAME_SIZE};
use crate::wire::info_frame;

verus! {

/// The frame sent over and over in the fault state.
pub open spec fn panic_frame() -> Seq<u8> {
    info_frame(Info::Log(Log::FirmwarePanic))
}

/// One tick from state `v`: the control loop while running, one iteration
/// of the safety handler once faulted, which reads nothing. Gives the state
/// after it and the bytes transmitted.
pub open spec fn tick_spec(v: ControllerView, bytes: Seq<u8>, readings: WheelReadings) -> (ControllerView, Seq<u8>) {
    if v.mode == Mode::Running {
        running_tick(v, bytes, readings)
    } else {
        (ControllerView { led: !v.led, ..v }, panic_frame())
    }
}

/// The state after the given ticks, each with the bytes that arrived and
/// the sensor samples.
pub open spec fn run_ticks(v: ControllerView, inputs: Seq<(Seq<u8>, WheelReadings)>) -> ControllerView
    decreases inputs.len(),
{
    if inputs.len() == 0 {
        v
    } else {
        let (next, _) = tick_spec(v, inputs[0].0, inputs[0].1);
        run_ticks(next, inputs.drop_first())
    }
}

/// The state right after a fault: drive power cut, all else as it was.
pub open spec fn faulted(v: ControllerView) -> ControllerView {
    ControllerView { mode: Mode::Faulted, drive_front: false, drive_rear: false, ..v }
}

/// Encodes the fault report.
pub fn panic_message() -> (r: Vec<u8>)
    ensures
        r@ == panic_frame(),
{
    let mut write_buf = [0u8; MAX_FRAME_SIZE];
    let mut out: Vec<u8> = Vec::new();
    let _ = write_event(&Info::Log(Log::FirmwarePanic), &mut write_buf, &mut out);
    assert(out@ =~= panic_frame());
    out
}

impl Controller {
    /// Enters the fault state: drives both drive-power enable lines low and
    /// leaves every duty cycle, the steering's included, as it was.
    pub fn fault(&mut self)
        requires
            old(self).wf(),
        ensures
            final(self).wf(),
            final(self)@ == faulted(old(self)@),
    {
        proof {
            lemma_controller_view(self);
        }
        self.mode = Mode::Faulted;
        self.drive_front = false;
        self.drive_rear = false;
        proof {
            lemma_controller_view(self);
        }
    }

    /// One iteration of the fault state: toggles the indicator and returns
    /// the `FirmwarePanic` frame to send.
    pub fn safety_step(&mut self) -> (r: Vec<u8>)
        requires
            old(self).wf(),
            old(self)@.mode == Mode::Faulted,
        ensures
            final(self).wf(),
            final(self)@ == (ControllerView { led: !old(self)@.led, ..old(self)@ }),
            r@ == panic_frame(),
    {
        proof {
            lemma_controller_view(self);
        }
        self.led = !self.led;
        proof {
            lemma_controller_view(self);
        }
        panic_message()
    }

    /// One tick: the control loop while running, an iteration of the
    /// safety handler once faulted, which ignores the bytes. Returns the
    /// bytes to transmit.
    pub fn tick(&mut self, bytes: &[u8], readings: WheelReadings) -> (r: Vec<u8>)
        requires
            old(self).wf(),
        ensures
            final(self).wf(),
            (final(self)@, r@) == tick_spec(old(self)@, bytes@, readings),
    {
        proof {
            lemma_controller_view(self);
        }
        if self.mode == Mode::Running {
            self.control_tick(bytes, readings)
        } else {
            self.safety_step()
        }
    }
}

/// Once faulted, every later tick, whatever arrives, keeps the fault state
/// with both drive-power enable lines low, reads nothing, leaves the
/// buffer and duty cycles alone and transmits only the `FirmwarePanic`
/// frame.
pub proof fn lemma_fault_is_terminal(v: ControllerView, inputs: Seq<(Seq<u8>, WheelReadings)>)
    ensures
        ({
            let w = run_ticks(faulted(v), inputs);
            &&& w.mode == Mode::Faulted
            &&& !w.drive_front
            &&& !w.drive_rear
            &&& w.buffered == v.buffered
            &&& w.duties == v.duties
            &&& forall|bytes: Seq<u8>, readings: WheelReadings|
                #![trigger tick_spec(w, bytes, readings)]
                tick_spec(w, bytes, readings).1 == panic_frame()
        }),
    decreases inputs.len(),
{
    if inputs.len() > 0 {
        let next = tick_spec(faulted(v), inputs[0].0, inputs[0].1).0;
        let v2 = ControllerView { led: !v.led, ..v };
        assert(next == faulted(v2));
        lemma_fault_is_terminal(v2, inputs.drop_first());
    }
}

} // verus!
