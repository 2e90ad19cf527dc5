//! Host side of the serial bootloader protocol: SLIP framing, the
//! command/response layer, register and SPI flash access, the connection
//! handshake and the flash programming sequence, all driven over an
//! explicit [`port::Port`] value that stands for the link and its timer.
use vstd::prelude::*;

pub mod error;
pub mod slip;
pub mod port;
pub mod comm;
pub mod loader;
pub mod flash;
pub mod checksum;
