//! Host side of a serial bootloader for a Raspberry Pi, together with the
//! decision logic of the small keyboard controllers that drive a robot over
//! the same serial line.
//!
//! Everything here is pure: the programs around the library open the serial
//! port, read the keyboard and the file system, and feed what they observe to
//! the state machines and checks below.

pub mod boot;
pub mod crc;
pub mod degree;
pub mod drive;
pub mod keys;
pub mod ports;
pub mod protocol;
pub mod pulse;
pub mod serial;
pub mod session;
