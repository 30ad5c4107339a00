use dht_sensor::frame::record_bit;
use dht_sensor::{Dht, DhtError, Reading, SensorType};

fn driver(kind: SensorType) -> Dht<(), ()> {
    Dht::new((), (), kind)
}

fn with_checksum(data: [u8; 4]) -> [u8; 5] {
    let sum = data[0]
        .wrapping_add(data[1])
        .wrapping_add(data[2])
        .wrapping_add(data[3]);
    [data[0], data[1], data[2], data[3], sum]
}

#[test]
fn pulse_of_50_polls_is_a_zero_bit() {
    let mut frame = [0u8; 5];
    record_bit(&mut frame, 0, 50);
    assert_eq!(frame, [0, 0, 0, 0, 0]);
}

#[test]
fn pulse_of_51_polls_is_a_one_bit() {
    let mut frame = [0u8; 5];
    record_bit(&mut frame, 0, 51);
    assert_eq!(frame, [0x80, 0, 0, 0, 0]);
}

#[test]
fn very_short_and_very_long_pulses() {
    let mut frame = [0u8; 5];
    record_bit(&mut frame, 3, 0);
    assert_eq!(frame, [0, 0, 0, 0, 0]);
    record_bit(&mut frame, 3, 1_000_000);
    assert_eq!(frame, [0x10, 0, 0, 0, 0]);
    record_bit(&mut frame, 4, u32::MAX);
    assert_eq!(frame, [0x18, 0, 0, 0, 0]);
}

#[test]
fn bits_fill_each_byte_from_its_top() {
    for index in 0..40usize {
        let mut frame = [0u8; 5];
        record_bit(&mut frame, index, 70);
        let mut expected = [0u8; 5];
        expected[index / 8] = 0x80 >> (index % 8);
        assert_eq!(frame, expected, "bit {}", index);
    }
}

#[test]
fn last_bit_is_the_lowest_of_the_checksum_byte() {
    let mut frame = [0u8; 5];
    record_bit(&mut frame, 39, 70);
    assert_eq!(frame, [0, 0, 0, 0, 0x01]);
}

#[test]
fn a_zero_bit_leaves_the_frame_as_it_is() {
    let mut frame = [0xA5, 0x5A, 0xFF, 0x00, 0x3C];
    for index in 0..40usize {
        record_bit(&mut frame, index, 50);
    }
    assert_eq!(frame, [0xA5, 0x5A, 0xFF, 0x00, 0x3C]);
}

#[test]
fn a_one_bit_keeps_the_bits_already_set() {
    let mut frame = [0x81, 0, 0, 0, 0];
    record_bit(&mut frame, 1, 60);
    assert_eq!(frame, [0xC1, 0, 0, 0, 0]);
    record_bit(&mut frame, 1, 60);
    assert_eq!(frame, [0xC1, 0, 0, 0, 0]);
}

#[test]
fn forty_pulses_spell_a_frame() {
    let wanted: [u8; 5] = [0x02, 0x8C, 0x80, 0x32, 0x40];
    let mut frame = [0u8; 5];
    for index in 0..40usize {
        let one = wanted[index / 8] & (0x80 >> (index % 8)) != 0;
        record_bit(&mut frame, index, if one { 70 } else { 26 });
    }
    assert_eq!(frame, wanted);
}

#[test]
fn checksum_of_the_data_bytes_is_accepted() {
    let dht = driver(SensorType::DHT22);
    let payloads: [[u8; 4]; 6] = [
        [0, 0, 0, 0],
        [50, 0, 25, 0],
        [0x02, 0x8C, 0x80, 0x32],
        [255, 255, 255, 255],
        [200, 100, 50, 25],
        [1, 2, 3, 250],
    ];
    for data in payloads {
        assert_eq!(dht.validate_checksum(&with_checksum(data)), Ok(()));
    }
}

#[test]
fn checksum_wraps_around_at_256() {
    let dht = driver(SensorType::DHT11);
    assert_eq!(dht.validate_checksum(&[255, 255, 255, 255, 252]), Ok(()));
    assert_eq!(dht.validate_checksum(&[128, 128, 0, 0, 0]), Ok(()));
    assert_eq!(dht.validate_checksum(&[0x02, 0x8C, 0x80, 0x32, 0x40]), Ok(()));
}

#[test]
fn any_flipped_checksum_bit_is_a_mismatch() {
    let dht = driver(SensorType::DHT22);
    let payloads: [[u8; 4]; 4] =
        [[0, 0, 0, 0], [50, 0, 25, 0], [0x02, 0x8C, 0x80, 0x32], [255, 255, 255, 255]];
    for data in payloads {
        let sound = with_checksum(data);
        for bit in 0..8 {
            let mut flipped = sound;
            flipped[4] ^= 1 << bit;
            assert_eq!(dht.validate_checksum(&flipped), Err(DhtError::ChecksumMismatch));
        }
    }
}

#[test]
fn a_changed_data_byte_is_a_mismatch() {
    let dht = driver(SensorType::DHT11);
    assert_eq!(dht.validate_checksum(&[50, 0, 25, 0, 75]), Ok(()));
    assert_eq!(dht.validate_checksum(&[51, 0, 25, 0, 75]), Err(DhtError::ChecksumMismatch));
    assert_eq!(dht.validate_checksum(&[50, 0, 25, 1, 75]), Err(DhtError::ChecksumMismatch));
}

#[test]
fn dht22_negative_temperature() {
    let dht = driver(SensorType::DHT22);
    let reading = dht.parse_data(&[0x02, 0x8C, 0x80, 0x32, 0x40]);
    assert_eq!(reading, Reading { temperature_tenths: -50, humidity_tenths: 652 });
    assert!((f32::from(reading.temperature_tenths) / 10.0 - (-5.0)).abs() < 1e-4);
    assert!((f32::from(reading.humidity_tenths) / 10.0 - 65.2).abs() < 1e-4);
}

#[test]
fn dht11_whole_degrees_and_percent() {
    let dht = driver(SensorType::DHT11);
    let reading = dht.parse_data(&[50, 0, 25, 0, 75]);
    assert_eq!(reading, Reading { temperature_tenths: 250, humidity_tenths: 500 });
    assert!((f32::from(reading.temperature_tenths) / 10.0 - 25.0).abs() < 1e-4);
    assert!((f32::from(reading.humidity_tenths) / 10.0 - 50.0).abs() < 1e-4);
}

#[test]
fn dht11_tenths_are_added_unclamped() {
    let dht = driver(SensorType::DHT11);
    assert_eq!(
        dht.parse_data(&[45, 7, 23, 4, 79]),
        Reading { temperature_tenths: 234, humidity_tenths: 457 }
    );
    assert_eq!(
        dht.parse_data(&[255, 255, 255, 255, 252]),
        Reading { temperature_tenths: 2805, humidity_tenths: 2805 }
    );
}

#[test]
fn dht22_positive_temperature() {
    let dht = driver(SensorType::DHT22);
    assert_eq!(
        dht.parse_data(&[0x01, 0x90, 0x01, 0x0D, 0x9F]),
        Reading { temperature_tenths: 269, humidity_tenths: 400 }
    );
}

#[test]
fn dht22_extremes() {
    let dht = driver(SensorType::DHT22);
    assert_eq!(
        dht.parse_data(&[0xFF, 0xFF, 0x7F, 0xFF, 0x7C]),
        Reading { temperature_tenths: 32767, humidity_tenths: 65535 }
    );
    assert_eq!(
        dht.parse_data(&[0, 0, 0xFF, 0xFF, 0xFE]),
        Reading { temperature_tenths: -32767, humidity_tenths: 0 }
    );
    assert_eq!(
        dht.parse_data(&[0, 0, 0x80, 0x00, 0x80]),
        Reading { temperature_tenths: 0, humidity_tenths: 0 }
    );
}

#[test]
fn the_sensor_type_selects_the_decoding() {
    let frame = [0x02, 0x8C, 0x00, 0x32, 0xC0];
    assert_eq!(
        driver(SensorType::DHT11).parse_data(&frame),
        Reading { temperature_tenths: 50, humidity_tenths: 160 }
    );
    assert_eq!(
        driver(SensorType::DHT22).parse_data(&frame),
        Reading { temperature_tenths: 50, humidity_tenths: 652 }
    );
}

#[test]
fn dht11_has_no_sign_bit() {
    let dht = driver(SensorType::DHT11);
    assert_eq!(
        dht.parse_data(&[0, 0, 0x80, 0, 0x80]),
        Reading { temperature_tenths: 1280, humidity_tenths: 0 }
    );
}
