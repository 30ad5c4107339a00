//! Driver for DHT11 and DHT22 humidity and temperature sensors, which talk
//! over one bidirectional line with pulse-width encoded bits.
//!
//! A reading sends a start signal, measures the 82 pulses with which the
//! sensor answers, packs the 40 bits they carry into five bytes, tests the
//! checksum and decodes the rest into tenths of a degree and of a percent.
//!
//! - [`constants`]: the sensor types and the timing of the protocol.
//! - [`errors`]: what can go wrong.
//! - [`frame`]: bits, bytes, checksum and decoding of a frame.
//! - [`protocol`]: the steps that each operation takes on the line, and how
//!   its result follows from what the line answered.
//! - [`sensor`]: the driver.
//! - [`laws`]: what follows for every run of the driver.

pub mod constants;
pub mod errors;
pub mod frame;
mod hal;
pub mod laws;
pub mod protocol;
pub mod sensor;

pub use constants::SensorType;
pub use constants::MAX_CYCLES;
pub use errors::DhtError;
pub use frame::Reading;
pub use sensor::Dht;
