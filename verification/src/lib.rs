//! Protocol engine of a bridge that presents a Bluetooth LE FIDO2 authenticator
//! to the host as a USB HID FIDO2 device.
//!
//! The crate holds the two frame codecs, the message reassembler, the command
//! and error translation tables, the channel state machine, the bridge session
//! and the session registry. Every function is a verified function from plain
//! values to plain values; the transports themselves live with the caller.

pub mod ble;
pub mod channel;
pub mod cmd;
pub mod hid;
pub mod reassembler;
pub mod registry;
pub mod session;
pub mod translate;
pub mod wire;
