//! Fixed-size page storage over a flat heap image, together with the
//! cartridge header decoder and the memory bus of a small console emulator.

pub mod bus;
pub mod disk;
pub mod rom;
