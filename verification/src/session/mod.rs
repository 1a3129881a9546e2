//! The bridge session: one authenticator on the Bluetooth LE side, one
//! virtual device on the HID side, and the rules by which what arrives on
//! one side is answered or passed on to the other.
//!
//! A session is a state machine. An event (a report from the host, a
//! notification from the authenticator, a tick of the keep-alive timer, the
//! loss of a transport) takes a state to the next state and to a reply: at
//! most one message for the host and one for the authenticator. The caller
//! waits for the events and delivers the frames of the reply; the session
//! itself never waits.

pub mod laws;
pub mod machine;
pub mod model;
