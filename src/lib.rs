//! Control core of a remote-controlled vehicle: framed command/telemetry
//! protocol, bounded receive buffer, actuation mapping, sensor conversion,
//! control tick and fault handling.
pub mod readbuf;
pub mod messages;
pub mod wire;
pub mod reader;
pub mod actuation;
pub mod sensors;
pub mod control;
pub mod safety;
