//! The HID side: frames of fixed size on a channel, their codec and the
//! reassembly of messages from them.

pub mod codec;
pub mod packet;
pub mod reassembly;
