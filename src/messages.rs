use vstd::prelude::*;

verus! {

/// Sensor readings, in hundredths of a wheel RPM.
#[derive(Clone, Copy, Debug, PartialEq, Eq, Structural)]
pub struct Sensors {
    /// Front left wheel RPM.
    pub fl_whl_rpm: i32,
    /// Front right wheel RPM.
    pub fr_whl_rpm: i32,
    /// Rear left wheel RPM.
    pub rl_whl_rpm: i32,
    /// Rear right wheel RPM.
    pub rr_whl_rpm: i32,
}

/// What is happening in the firmware.
#[derive(Clone, Copy, Debug, PartialEq, Eq, Structural)]
pub enum Log {
    /// A message could not be serialized.
    SerializationError,
    /// A received frame could not be deserialized.
    DeserializationError,
    /// The receive buffer overflowed.
    ReadBufferOverflow,
    /// It was too long since the last message (host side only).
    ReadTimeout,
    /// The firmware entered its fault state and must be reset.
    FirmwarePanic,
    /// The command had a field out of its range.
    InvalidCommand,
    /// A command was received.
    CommandReceived,
    /// No command was received during the tick.
    NoCommandReceived,
}

/// Information sent by the firmware.
#[derive(Clone, Copy, Debug, PartialEq, Eq, Structural)]
pub enum Info {
    Sensors(Sensors),
    Log(Log),
}

/// Command sent to the firmware.
///
/// The steering angle is in hundredths of a degree (9000 is straight ahead),
/// the wheel speeds in hundredths of an RPM.
#[derive(Clone, Copy, Debug, PartialEq, Eq, Structural)]
pub struct Command {
    /// Angle of the steering.
    pub steering: i32,
    /// Front left wheel RPM.
    pub fl_whl_rpm: i32,
    /// Front right wheel RPM.
    pub fr_whl_rpm: i32,
    /// Rear left wheel RPM.
    pub rl_whl_rpm: i32,
    /// Rear right wheel RPM.
    pub rr_whl_rpm: i32,
}

/// Errors of the communication layer.
#[derive(Clone, Copy, Debug, PartialEq, Eq, Structural)]
pub enum XmaxxError {
    SerializationError,
    DeserializationError,
    ReadError,
    ReadBufferOverflow,
    ReadTimeout,
    WriteError,
}

/// The largest frame of either message: five varints of at most five
/// bytes, one byte of stuffing overhead and the terminator.
pub const MAX_FRAME_SIZE: usize = 27;

impl Command {
    pub const MAX_SERIAL_SIZE: usize = MAX_FRAME_SIZE;

    pub fn new(steering: i32, fl_whl_rpm: i32, fr_whl_rpm: i32, rl_whl_rpm: i32, rr_whl_rpm: i32) -> (r: Command)
        ensures
            r == (Command { steering, fl_whl_rpm, fr_whl_rpm, rl_whl_rpm, rr_whl_rpm }),
    {
        Command { steering, fl_whl_rpm, fr_whl_rpm, rl_whl_rpm, rr_whl_rpm }
    }
}

impl Info {
    pub const MAX_SERIAL_SIZE: usize = MAX_FRAME_SIZE;
}

impl Log {
    /// The position of the variant in the declaration: its tag on the wire.
    pub open spec fn index(self) -> nat {
        match self {
            Log::SerializationError => 0,
            Log::DeserializationError => 1,
            Log::ReadBufferOverflow => 2,
            Log::ReadTimeout => 3,
            Log::FirmwarePanic => 4,
            Log::InvalidCommand => 5,
            Log::CommandReceived => 6,
            Log::NoCommandReceived => 7,
        }
    }

    /// The variant whose tag is `i`, if any.
    pub open spec fn spec_from_index(i: nat) -> Option<Log> {
        if i == 0 { Some(Log::SerializationError) }
        else if i == 1 { Some(Log::DeserializationError) }
        else if i == 2 { Some(Log::ReadBufferOverflow) }
        else if i == 3 { Some(Log::ReadTimeout) }
        else if i == 4 { Some(Log::FirmwarePanic) }
        else if i == 5 { Some(Log::InvalidCommand) }
        else if i == 6 { Some(Log::CommandReceived) }
        else if i == 7 { Some(Log::NoCommandReceived) }
        else { None }
    }

    pub fn to_index(&self) -> (r: u32)
        ensures
            r == self.index(),
    {
        match self {
            Log::SerializationError => 0,
            Log::DeserializationError => 1,
            Log::ReadBufferOverflow => 2,
            Log::ReadTimeout => 3,
            Log::FirmwarePanic => 4,
            Log::InvalidCommand => 5,
            Log::CommandReceived => 6,
            Log::NoCommandReceived => 7,
        }
    }

    pub fn from_index(i: u32) -> (r: Option<Log>)
        ensures
            r == Log::spec_from_index(i as nat),
            r matches Some(l) ==> l.index() == i,
    {
        if i == 0 { Some(Log::SerializationError) }
        else if i == 1 { Some(Log::DeserializationError) }
        else if i == 2 { Some(Log::ReadBufferOverflow) }
        else if i == 3 { Some(Log::ReadTimeout) }
        else if i == 4 { Some(Log::FirmwarePanic) }
        else if i == 5 { Some(Log::InvalidCommand) }
        else if i == 6 { Some(Log::CommandReceived) }
        else if i == 7 { Some(Log::NoCommandReceived) }
        else { None }
    }
}

} // verus!
