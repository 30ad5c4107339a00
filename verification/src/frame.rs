//! The 40-bit frame of one transmission: five bytes, sent most significant
//! bit first. Bytes 0 and 1 hold the humidity, bytes 2 and 3 the temperature,
//! byte 4 the checksum.

use crate::constants::SensorType;
use crate::constants::ZERO_BIT_MAX;
use crate::errors::DhtError;
use vstd::prelude::*;

verus! {

/// Bits in a frame.
pub const FRAME_BITS: usize = 40;

/// One measurement, in tenths of a unit so that it is exact.
#[derive(Clone, Copy, Debug, PartialEq, Eq, Structural)]
pub struct Reading {
    /// Temperature in tenths of a degree Celsius.
    pub temperature_tenths: i16,
    /// Relative humidity in tenths of a percent.
    pub humidity_tenths: u16,
}

/// The bit that a high pulse of `width` polls stands for: one if the pulse
/// is longer than `ZERO_BIT_MAX` polls, zero otherwise.
pub open spec fn pulse_bit(width: u32) -> bool {
    width > ZERO_BIT_MAX
}

/// What bit `i` of a frame is worth within its byte: 128 for the first bit
/// of a byte, 1 for its eighth.
pub open spec fn place_value(i: int) -> int {
    let place = i % 8;
    if place == 0 {
        128
    } else if place == 1 {
        64
    } else if place == 2 {
        32
    } else if place == 3 {
        16
    } else if place == 4 {
        8
    } else if place == 5 {
        4
    } else if place == 6 {
        2
    } else {
        1
    }
}

/// Bit `i` of a frame in the order of reception: bit 0 is the most
/// significant bit of byte 0, bit 39 the least significant bit of byte 4.
pub open spec fn frame_bit(frame: Seq<u8>, i: int) -> bool {
    (frame[i / 8] as int / place_value(i)) % 2 == 1
}

/// Bit `i` of a frame as a number: 1 if it is set, 0 if not.
pub open spec fn weight(frame: Seq<u8>, i: int) -> int {
    if frame_bit(frame, i) {
        1
    } else {
        0
    }
}

/// The sum of the four data bytes, modulo 256.
pub open spec fn checksum(frame: Seq<u8>) -> int {
    (frame[0] + frame[1] + frame[2] + frame[3]) % 256
}

/// Whether the frame's last byte is the checksum of the four before it.
pub open spec fn checksum_ok(frame: Seq<u8>) -> bool {
    frame[4] == checksum(frame)
}

/// Relative humidity that a frame holds, in tenths of a percent.
///
/// The DHT11 sends whole percent in byte 0 and tenths in byte 1; the DHT22
/// sends the tenths as one 16-bit number, high byte first.
pub open spec fn humidity_tenths(kind: SensorType, frame: Seq<u8>) -> int {
    match kind {
        SensorType::DHT11 => 10 * frame[0] + frame[1],
        SensorType::DHT22 => 256 * frame[0] + frame[1],
    }
}

/// Temperature that a frame holds, in tenths of a degree Celsius.
///
/// The DHT11 sends whole degrees in byte 2 and tenths in byte 3. The DHT22
/// sends sign and magnitude: the top bit of byte 2 is the sign, the other
/// fifteen bits are the tenths, high byte first.
pub open spec fn temperature_tenths(kind: SensorType, frame: Seq<u8>) -> int {
    match kind {
        SensorType::DHT11 => 10 * frame[2] + frame[3],
        SensorType::DHT22 => {
            let magnitude = 256 * (frame[2] % 128) + frame[3];
            if frame[2] >= 128 {
                -magnitude
            } else {
                magnitude
            }
        },
    }
}

/// The reading that a frame holds.
pub open spec fn reading_of(kind: SensorType, frame: Seq<u8>) -> Reading {
    Reading {
        temperature_tenths: temperature_tenths(kind, frame) as i16,
        humidity_tenths: humidity_tenths(kind, frame) as u16,
    }
}

/// What a received frame comes to: its reading if the checksum holds,
/// `ChecksumMismatch` if not.
pub open spec fn decoded(kind: SensorType, frame: Seq<u8>) -> Result<Reading, DhtError> {
    if checksum_ok(frame) {
        Ok(reading_of(kind, frame))
    } else {
        Err(DhtError::ChecksumMismatch)
    }
}

proof fn lemma_mask(place: u8)
    by (bit_vector)
    requires
        place < 8,
    ensures
        1u8 << ((7 - place) as u8) == (if place == 0 {
            128u8
        } else if place == 1 {
            64u8
        } else if place == 2 {
            32u8
        } else if place == 3 {
            16u8
        } else if place == 4 {
            8u8
        } else if place == 5 {
            4u8
        } else if place == 6 {
            2u8
        } else {
            1u8
        }),
{
}

proof fn lemma_or_bit(byte: u8, set: u8, probe: u8)
    by (bit_vector)
    requires
        set == 128 || set == 64 || set == 32 || set == 16 || set == 8 || set == 4 || set == 2
            || set == 1,
        probe == 128 || probe == 64 || probe == 32 || probe == 16 || probe == 8 || probe == 4
            || probe == 2 || probe == 1,
    ensures
        (((byte | set) / probe) % 2 == 1) == ((byte / probe) % 2 == 1 || set == probe),
{
}

/// Enters the bit that a high pulse of `width` polls stands for at place
/// `index` of the frame: a one is set there, a zero leaves the frame as it
/// is. No other bit changes.
pub fn record_bit(frame: &mut [u8; 5], index: usize, width: u32)
    requires
        index < FRAME_BITS,
    ensures
        forall|j: int|
            0 <= j < FRAME_BITS ==> frame_bit(final(frame)@, j) == (frame_bit(old(frame)@, j) || (j
                == index && pulse_bit(width))),
{
    if width > ZERO_BIT_MAX {
        let byte: u8 = frame[index / 8];
        let shift: usize = 7 - (index % 8);
        frame[index / 8] = byte | (1u8 << shift);
        proof {
            lemma_mask((index % 8) as u8);
            assert forall|j: int| 0 <= j < FRAME_BITS implies frame_bit(frame@, j) == (frame_bit(
                old(frame)@,
                j,
            ) || j == index) by {
                if j / 8 == index / 8 {
                    lemma_or_bit(byte, place_value(index as int) as u8, place_value(j) as u8);
                }
            }
        }
    }
}

/// Every value that a frame can hold fits the fields of a `Reading`: the
/// humidity lies in 0..=65535 tenths, the temperature within 32767 tenths of
/// zero.
pub proof fn lemma_reading_fits(kind: SensorType, frame: Seq<u8>)
    requires
        frame.len() == 5,
    ensures
        0 <= humidity_tenths(kind, frame) <= u16::MAX,
        -i16::MAX <= temperature_tenths(kind, frame) <= i16::MAX,
        reading_of(kind, frame).humidity_tenths == humidity_tenths(kind, frame),
        reading_of(kind, frame).temperature_tenths == temperature_tenths(kind, frame),
{
}

/// A frame whose last byte is the sum of its four data bytes, modulo 256, is
/// decoded, whatever the data bytes are. With any one bit of that last byte
/// flipped it is refused with `ChecksumMismatch`.
pub proof fn lemma_checksum_law(kind: SensorType, data: Seq<u8>, bit: u8)
    requires
        data.len() == 4,
        bit < 8,
    ensures
        ({
            let sum = checksum(data) as u8;
            let sound = data.push(sum);
            let flipped = data.push(sum ^ (1u8 << bit));
            &&& decoded(kind, sound) == Ok::<Reading, DhtError>(reading_of(kind, sound))
            &&& decoded(kind, flipped) == Err::<Reading, DhtError>(DhtError::ChecksumMismatch)
        }),
{
    let sum = checksum(data) as u8;
    assert(sum ^ (1u8 << bit) != sum) by (bit_vector)
        requires
            bit < 8,
    ;
}

/// A byte is the sum of the weights of its bits, the first bit being worth
/// 128: the forty bits of a frame fix its five bytes.
pub proof fn lemma_byte_of_bits(frame: Seq<u8>, k: int)
    requires
        frame.len() == 5,
        0 <= k < 5,
    ensures
        frame[k] == 128 * weight(frame, 8 * k) + 64 * weight(frame, 8 * k + 1) + 32 * weight(
            frame,
            8 * k + 2,
        ) + 16 * weight(frame, 8 * k + 3) + 8 * weight(frame, 8 * k + 4) + 4 * weight(
            frame,
            8 * k + 5,
        ) + 2 * weight(frame, 8 * k + 6) + weight(frame, 8 * k + 7),
{
    let b = frame[k];
    assert(b == 128 * ((b / 128) % 2) + 64 * ((b / 64) % 2) + 32 * ((b / 32) % 2) + 16 * ((b / 16)
        % 2) + 8 * ((b / 8) % 2) + 4 * ((b / 4) % 2) + 2 * ((b / 2) % 2) + (b / 1) % 2)
        by (bit_vector);
}

/// Two frames with the same forty bits are the same five bytes.
pub proof fn lemma_bits_fix_frame(first: Seq<u8>, second: Seq<u8>)
    requires
        first.len() == 5,
        second.len() == 5,
        forall|j: int| 0 <= j < FRAME_BITS ==> frame_bit(first, j) == frame_bit(second, j),
    ensures
        first == second,
{
    assert forall|k: int| 0 <= k < 5 implies first[k] == second[k] by {
        lemma_byte_of_bits(first, k);
        lemma_byte_of_bits(second, k);
    }
    assert(first =~= second);
}

} // verus!
