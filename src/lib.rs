//! The live output side of a playback library: choosing a device's output
//! format, sharing one mixing session per device, and filling device buffers
//! from the mixed stream.

pub mod format;
pub mod registry;
pub mod feeder;
