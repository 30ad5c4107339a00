use vstd::prelude::*;

verus! {

/// Errors that can occur while interacting with the DHT sensor.
#[derive(Clone, Copy, Debug, PartialEq, Eq, Structural)]
pub enum DhtError {
    /// A pulse did not end within `MAX_CYCLES` polls.
    Timeout,
    /// The frame's last byte is not the sum of the four before it.
    ChecksumMismatch,
    /// Invalid sensor type. No operation of this crate returns it.
    InvalidSensorType,
    /// The pin could not be driven or read.
    IoError,
}

impl DhtError {
    /// The text that describes each error.
    pub open spec fn spec_message(&self) -> Seq<char> {
        match self {
            DhtError::Timeout => "Timeout while waiting for pulse"@,
            DhtError::ChecksumMismatch => "Checksum validation failed"@,
            DhtError::InvalidSensorType => "Invalid sensor type"@,
            DhtError::IoError => "I/O Error occurred"@,
        }
    }

    /// A short description of the error.
    pub fn message(&self) -> (text: &'static str)
        ensures
            text@ == self.spec_message(),
    {
        match self {
            DhtError::Timeout => "Timeout while waiting for pulse",
            DhtError::ChecksumMismatch => "Checksum validation failed",
            DhtError::InvalidSensorType => "Invalid sensor type",
            DhtError::IoError => "I/O Error occurred",
        }
    }
}

} // verus!
