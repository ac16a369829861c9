//! The wire format: byte streams, tagged primitive values and framed packets.

pub mod bytes;
pub mod display;
pub mod encoding;
pub mod packet;
pub mod packet_assembly;
pub mod packet_data;
pub mod stream;
pub mod text;
