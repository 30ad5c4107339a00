use dht_sensor::constants::{POLL_US, RELEASE_US, SETTLE_US, ZERO_BIT_MAX};
use dht_sensor::frame::FRAME_BITS;
use dht_sensor::protocol::{ACK_PULSES, FRAME_PULSES};
use dht_sensor::{DhtError, SensorType, MAX_CYCLES};

#[test]
fn min_delay_is_two_seconds_for_both_sensors() {
    assert_eq!(SensorType::DHT11.min_delay_us(), 2_000_000);
    assert_eq!(SensorType::DHT22.min_delay_us(), 2_000_000);
}

#[test]
fn start_pulse_depends_on_the_sensor() {
    assert_eq!(SensorType::DHT11.signal_pulse_us(), 20_000);
    assert_eq!(SensorType::DHT22.signal_pulse_us(), 1_100);
}

#[test]
fn protocol_constants() {
    assert_eq!(MAX_CYCLES, 1_000_000);
    assert_eq!(SETTLE_US, 20_000);
    assert_eq!(RELEASE_US, 40);
    assert_eq!(POLL_US, 1);
    assert_eq!(ZERO_BIT_MAX, 50);
    assert_eq!(FRAME_BITS, 40);
    assert_eq!(ACK_PULSES, 2);
    assert_eq!(FRAME_PULSES, ACK_PULSES + 2 * FRAME_BITS);
}

#[test]
fn sensor_types_compare_and_copy() {
    let kind = SensorType::DHT22;
    let copy = kind;
    assert_eq!(kind, copy);
    assert_ne!(SensorType::DHT11, SensorType::DHT22);
}

#[test]
fn each_error_has_its_message() {
    assert_eq!(DhtError::Timeout.message(), "Timeout while waiting for pulse");
    assert_eq!(DhtError::ChecksumMismatch.message(), "Checksum validation failed");
    assert_eq!(DhtError::InvalidSensorType.message(), "Invalid sensor type");
    assert_eq!(DhtError::IoError.message(), "I/O Error occurred");
}

#[test]
fn errors_compare_and_print() {
    assert_eq!(DhtError::Timeout, DhtError::Timeout);
    assert_ne!(DhtError::Timeout, DhtError::IoError);
    assert_eq!(format!("{:?}", DhtError::ChecksumMismatch), "ChecksumMismatch");
}
