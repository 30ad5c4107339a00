use crate::constants::MAX_CYCLES;
use crate::constants::POLL_US;
use crate::constants::RELEASE_US;
use crate::constants::SensorType;
use crate::constants::SETTLE_US;
use crate::errors::DhtError;
use crate::frame::checksum_ok;
use crate::frame::frame_bit;
use crate::frame::FRAME_BITS;
use crate::frame::humidity_tenths;
use crate::frame::pulse_bit;
use crate::frame::Reading;
use crate::frame::reading_of;
use crate::frame::record_bit;
use crate::frame::temperature_tenths;
use crate::hal::Hardware;
use crate::protocol::ACK_PULSES;
use crate::protocol::begin_ran;
use crate::protocol::bit_pulse;
use crate::protocol::capture_ran;
use crate::protocol::captured;
use crate::protocol::lemma_pulses_push;
use crate::protocol::polls;
use crate::protocol::pulse;
use crate::protocol::pulse_level;
use crate::protocol::FRAME_PULSES;
use crate::protocol::pulse_ran;
use crate::protocol::pulses;
use crate::protocol::read_ran;
use crate::protocol::start_ran;
use crate::protocol::start_steps;
use crate::protocol::Step;
use embedded_hal::delay::DelayNs;
use embedded_hal::digital::InputPin;
use embedded_hal::digital::OutputPin;
use vstd::prelude::*;

verus! {

/// A DHT sensor on one pin, with the clock that times its pulses.
pub struct Dht<PIN, DELAY> {
    hw: Hardware<PIN, DELAY>,
    sensor_type: SensorType,
}

impl<PIN, DELAY> Dht<PIN, DELAY> {
    /// The kind of sensor that this driver was made for.
    pub closed spec fn sensor_type(&self) -> SensorType {
        self.sensor_type
    }

    /// Every step that this driver has taken on its pin and its clock,
    /// oldest first.
    pub closed spec fn trace(&self) -> Seq<Step> {
        self.hw.trace()
    }

    /// Creates a new DHT sensor instance. It has not touched the pin yet.
    pub fn new(pin: PIN, delay: DELAY, sensor_type: SensorType) -> (dht: Self)
        ensures
            dht.sensor_type() == sensor_type,
            dht.trace() == Seq::<Step>::empty(),
    {
        Dht { hw: Hardware::new(pin, delay), sensor_type }
    }

    /// Tests the checksum of a received frame: its last byte must be the sum
    /// of the four before it, modulo 256.
    pub fn validate_checksum(&self, bits: &[u8; 5]) -> (r: Result<(), DhtError>)
        ensures
            r is Ok <==> checksum_ok(bits@),
            r is Err ==> r == Err::<(), DhtError>(DhtError::ChecksumMismatch),
    {
        let checksum: u8 = bits[0].wrapping_add(bits[1]).wrapping_add(bits[2]).wrapping_add(bits[3]);
        if checksum == bits[4] {
            Ok(())
        } else {
            Err(DhtError::ChecksumMismatch)
        }
    }

    /// Decodes the four data bytes of a frame as this driver's sensor encodes
    /// them. Only a frame whose checksum holds may be decoded.
    pub fn parse_data(&self, bits: &[u8; 5]) -> (reading: Reading)
        requires
            checksum_ok(bits@),
        ensures
            reading == reading_of(self.sensor_type(), bits@),
            reading.humidity_tenths == humidity_tenths(self.sensor_type(), bits@),
            reading.temperature_tenths == temperature_tenths(self.sensor_type(), bits@),
    {
        let b0: u8 = bits[0];
        let b1: u8 = bits[1];
        let b2: u8 = bits[2];
        let b3: u8 = bits[3];
        match self.sensor_type {
            SensorType::DHT11 => {
                let humidity: u16 = (b0 as u16) * 10 + (b1 as u16);
                let temperature: u16 = (b2 as u16) * 10 + (b3 as u16);
                Reading { temperature_tenths: temperature as i16, humidity_tenths: humidity }
            },
            SensorType::DHT22 => {
                let humidity: u16 = (b0 as u16) << 8 | (b1 as u16);
                let magnitude: u16 = ((b2 as u16) & 0x7F) << 8 | (b3 as u16);
                assert(humidity == 256 * b0 + b1) by (bit_vector)
                    requires
                        humidity == (b0 as u16) << 8 | (b1 as u16),
                ;
                assert(magnitude == 256 * (b2 % 128) + b3) by (bit_vector)
                    requires
                        magnitude == ((b2 as u16) & 0x7F) << 8 | (b3 as u16),
                ;
                assert((b2 & 0x80 != 0) == (b2 >= 128)) by (bit_vector);
                let temperature: i16 = if b2 & 0x80 != 0 {
                    -(magnitude as i16)
                } else {
                    magnitude as i16
                };
                Reading { temperature_tenths: temperature, humidity_tenths: humidity }
            },
        }
    }
}

impl<PIN, DELAY> Dht<PIN, DELAY> where PIN: OutputPin + InputPin, DELAY: DelayNs {
    /// Initializes the sensor: drives the line to its idle level, high, and
    /// lets the sensor settle. Fails with `IoError` if the pin cannot be
    /// driven.
    pub fn begin(&mut self) -> (r: Result<(), DhtError>)
        ensures
            final(self).sensor_type() == old(self).sensor_type(),
            begin_ran(old(self).trace(), final(self).trace(), r),
    {
        if !self.hw.drive(true) {
            assert(self.trace() =~= old(self).trace() + seq![
                Step::Drive { high: true, done: false },
            ]);
            return Err(DhtError::IoError);
        }
        self.hw.wait(SETTLE_US);
        assert(self.trace() =~= old(self).trace() + seq![
            Step::Drive { high: true, done: true },
            Step::Wait { us: SETTLE_US },
        ]);
        Ok(())
    }

    /// Sends the start signal to the sensor: the line is held low for
    /// `signal_pulse_us` of this sensor, then high for `RELEASE_US`, after
    /// which the sensor takes the line over.
    pub fn send_start_signal(&mut self) -> (r: Result<(), DhtError>)
        ensures
            final(self).sensor_type() == old(self).sensor_type(),
            start_ran(old(self).sensor_type(), old(self).trace(), final(self).trace(), r),
    {
        let hold: u32 = self.sensor_type.signal_pulse_us();
        if !self.hw.drive(false) {
            assert(self.trace() =~= old(self).trace() + seq![
                Step::Drive { high: false, done: false },
            ]);
            return Err(DhtError::IoError);
        }
        self.hw.wait(hold);
        if !self.hw.drive(true) {
            assert(self.trace() =~= old(self).trace() + seq![
                Step::Drive { high: false, done: true },
                Step::Wait { us: hold },
                Step::Drive { high: true, done: false },
            ]);
            return Err(DhtError::IoError);
        }
        self.hw.wait(RELEASE_US);
        assert(self.trace() =~= old(self).trace() + start_steps(self.sensor_type()));
        Ok(())
    }

    /// Measures how long the line stays at `level`: polls it once per
    /// `POLL_US` and returns the number of polls that found it there before
    /// the first that did not. Gives up with `Timeout` when poll number
    /// `MAX_CYCLES + 1` still finds the line at `level`, and with `IoError`
    /// as soon as the pin fails.
    pub fn expect_pulse(&mut self, level: bool) -> (r: Result<u32, DhtError>)
        ensures
            final(self).sensor_type() == old(self).sensor_type(),
            pulse_ran(level, old(self).trace(), final(self).trace(), r),
    {
        let mut count: u32 = 0;
        loop
            invariant
                count <= MAX_CYCLES,
                self.sensor_type() == old(self).sensor_type(),
                self.trace() == old(self).trace() + polls(level, count as nat),
            decreases MAX_CYCLES - count,
        {
            match self.hw.sense(level) {
                Some(at_level) => {
                    if !at_level {
                        assert(self.trace() =~= old(self).trace() + pulse(
                            level,
                            count as nat,
                            Some(false),
                        ));
                        return Ok(count);
                    }
                },
                None => {
                    assert(self.trace() =~= old(self).trace() + pulse(level, count as nat, None));
                    return Err(DhtError::IoError);
                },
            }
            count += 1;
            if count > MAX_CYCLES {
                assert(self.trace() =~= old(self).trace() + pulse(
                    level,
                    MAX_CYCLES as nat,
                    Some(true),
                ));
                return Err(DhtError::Timeout);
            }
            self.hw.wait(POLL_US);
            assert(self.trace() =~= old(self).trace() + polls(level, count as nat));
        }
    }

    /// Measures the next pulse of a transmission, the pulses before it
    /// having ended after `widths` polls.
    fn next_pulse(
        &mut self,
        level: bool,
        Ghost(start): Ghost<Seq<Step>>,
        Ghost(widths): Ghost<Seq<u32>>,
    ) -> (r: Result<u32, DhtError>)
        requires
            widths.len() < FRAME_PULSES,
            level == pulse_level(widths.len() as int),
            forall|k: int| 0 <= k < widths.len() ==> widths[k] <= MAX_CYCLES,
            old(self).trace() == start + pulses(widths),
        ensures
            final(self).sensor_type() == old(self).sensor_type(),
            match r {
                Ok(width) => width <= MAX_CYCLES && final(self).trace() == start + pulses(
                    widths.push(width),
                ),
                Err(e) => captured(widths, start, final(self).trace(), Err(e)),
            },
    {
        let r = self.expect_pulse(level);
        proof {
            if let Ok(width) = r {
                lemma_pulses_push(widths, width);
                assert(self.trace() =~= start + pulses(widths.push(width)));
            }
        }
        r
    }

    /// Reads the 40 bits of a transmission from the sensor: measures the low
    /// and the high pulse with which the sensor acknowledges the start
    /// signal, then for each bit the low pulse before it and the high pulse
    /// that carries it. Bits are entered in the frame as they arrive, the
    /// most significant bit of each byte first.
    pub fn read_raw_data(&mut self) -> (r: Result<[u8; 5], DhtError>)
        ensures
            final(self).sensor_type() == old(self).sensor_type(),
            capture_ran(old(self).trace(), final(self).trace(), r),
    {
        let mut bits: [u8; 5] = [0; 5];
        let ghost start = self.trace();
        let ghost mut widths: Seq<u32> = Seq::empty();
        assert(self.trace() =~= start + pulses(widths));

        let ack_low: u32 = self.next_pulse(false, Ghost(start), Ghost(widths))?;
        proof {
            widths = widths.push(ack_low);
        }
        let ack_high: u32 = self.next_pulse(true, Ghost(start), Ghost(widths))?;
        proof {
            widths = widths.push(ack_high);
        }

        let mut i: usize = 0;
        while i < FRAME_BITS
            invariant
                i <= FRAME_BITS,
                start == old(self).trace(),
                self.sensor_type() == old(self).sensor_type(),
                self.trace() == start + pulses(widths),
                widths.len() == ACK_PULSES + 2 * i,
                forall|k: int| 0 <= k < widths.len() ==> widths[k] <= MAX_CYCLES,
                forall|j: int|
                    0 <= j < FRAME_BITS ==> frame_bit(bits@, j) == (j < i && pulse_bit(
                        widths[bit_pulse(j)],
                    )),
            decreases FRAME_BITS - i,
        {
            let gap: u32 = self.next_pulse(false, Ghost(start), Ghost(widths))?;
            proof {
                widths = widths.push(gap);
            }
            let duration: u32 = self.next_pulse(true, Ghost(start), Ghost(widths))?;
            proof {
                widths = widths.push(duration);
            }
            record_bit(&mut bits, i, duration);
            i += 1;
        }
        assert(captured(widths, start, self.trace(), Ok(bits)));
        Ok(bits)
    }

    /// Reads temperature and humidity from the sensor: sends the start
    /// signal, captures a frame, tests its checksum and decodes it. The
    /// first step that fails ends the reading with its error.
    ///
    /// The sensor needs `min_delay_us` between two readings; the driver does
    /// not wait for that itself.
    pub fn read(&mut self) -> (r: Result<Reading, DhtError>)
        ensures
            final(self).sensor_type() == old(self).sensor_type(),
            read_ran(old(self).sensor_type(), old(self).trace(), final(self).trace(), r),
    {
        self.send_start_signal()?;
        let bits = self.read_raw_data()?;
        self.validate_checksum(&bits)?;
        Ok(self.parse_data(&bits))
    }
}

} // verus!
