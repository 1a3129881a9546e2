//! The Bluetooth LE side: fragments of up to the negotiated size, their
//! codec and the reassembly of messages from them.

pub mod codec;
pub mod fragment;
pub mod reassembly;
