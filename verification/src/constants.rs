use vstd::prelude::*;

verus! {

/// Most iterations that one pulse measurement may poll the line before it
/// gives up.
pub const MAX_CYCLES: u32 = 1_000_000;

/// Microseconds for which the line rests high before the first reading.
pub const SETTLE_US: u32 = 20_000;

/// Microseconds for which the line is held high after the start pulse, before
/// the sensor takes it over.
pub const RELEASE_US: u32 = 40;

/// Microseconds between two polls of the line while a pulse is measured.
pub const POLL_US: u32 = 1;

/// Longest high pulse, in polls, that still stands for a zero bit.
pub const ZERO_BIT_MAX: u32 = 50;

/// Supported DHT sensor types.
#[derive(Clone, Copy, Debug, PartialEq, Eq, Structural)]
pub enum SensorType {
    DHT11,
    DHT22,
}

impl SensorType {
    /// Least time between two readings, in microseconds: two seconds for
    /// either sensor.
    pub open spec fn spec_min_delay_us(&self) -> u32 {
        2_000_000
    }

    /// Time for which the start pulse holds the line low, in microseconds:
    /// 20 ms for the DHT11, 1.1 ms for the DHT22.
    pub open spec fn spec_signal_pulse_us(&self) -> u32 {
        match self {
            SensorType::DHT11 => 20_000,
            SensorType::DHT22 => 1_100,
        }
    }

    /// Returns the minimum delay between readings in microseconds.
    #[verifier::when_used_as_spec(spec_min_delay_us)]
    pub fn min_delay_us(&self) -> (us: u32)
        ensures
            us == self.spec_min_delay_us(),
    {
        match self {
            SensorType::DHT11 => 2_000_000,
            SensorType::DHT22 => 2_000_000,
        }
    }

    /// Returns the duration to hold the start signal low in microseconds.
    #[verifier::when_used_as_spec(spec_signal_pulse_us)]
    pub fn signal_pulse_us(&self) -> (us: u32)
        ensures
            us == self.spec_signal_pulse_us(),
    {
        match self {
            SensorType::DHT11 => 20_000,
            SensorType::DHT22 => 1_100,
        }
    }
}

} // verus!
