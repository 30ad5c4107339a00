//! The hardware of one sensor: its pin and the clock that times it. Only
//! here does the driver call into `embedded_hal`, and only here is the
//! record of those calls written: each operation of `Hardware` makes one
//! call and notes it down with what came back.

use crate::protocol::Step;
use embedded_hal::delay::DelayNs;
use embedded_hal::digital::InputPin;
use embedded_hal::digital::OutputPin;
use vstd::prelude::*;

verus! {

/// Calls `OutputPin::set_high` and tells whether it returned `Ok`. The pin's
/// own error value is dropped. Nothing is claimed of the answer.
#[verifier::external_body]
fn set_high<PIN: OutputPin>(pin: &mut PIN) -> (done: bool) {
    pin.set_high().is_ok()
}

/// Calls `OutputPin::set_low` and tells whether it returned `Ok`. The pin's
/// own error value is dropped. Nothing is claimed of the answer.
#[verifier::external_body]
fn set_low<PIN: OutputPin>(pin: &mut PIN) -> (done: bool) {
    pin.set_low().is_ok()
}

/// Calls `InputPin::is_high`: `Some` of its answer, or `None` where it
/// returned an error. Nothing is claimed of the answer.
#[verifier::external_body]
fn is_high<PIN: InputPin>(pin: &mut PIN) -> (seen: Option<bool>) {
    pin.is_high().ok()
}

/// Calls `InputPin::is_low`: `Some` of its answer, or `None` where it
/// returned an error. Nothing is claimed of the answer.
#[verifier::external_body]
fn is_low<PIN: InputPin>(pin: &mut PIN) -> (seen: Option<bool>) {
    pin.is_low().ok()
}

/// Calls `DelayNs::delay_us`, which pauses for at least `us` microseconds
/// and returns nothing.
#[verifier::external_body]
fn delay_us<DELAY: DelayNs>(delay: &mut DELAY, us: u32) {
    delay.delay_us(us)
}

/// A pin and a clock, with the record of what was done to them.
pub struct Hardware<PIN, DELAY> {
    pin: PIN,
    delay: DELAY,
    trace: Ghost<Seq<Step>>,
}

impl<PIN, DELAY> Hardware<PIN, DELAY> {
    /// Every step taken on this hardware, oldest first.
    pub closed spec fn trace(&self) -> Seq<Step> {
        self.trace@
    }

    /// Hardware on which nothing has been done yet.
    pub fn new(pin: PIN, delay: DELAY) -> (hw: Self)
        ensures
            hw.trace() == Seq::<Step>::empty(),
    {
        Hardware { pin, delay, trace: Ghost(Seq::empty()) }
    }
}

impl<PIN, DELAY> Hardware<PIN, DELAY> where PIN: OutputPin + InputPin, DELAY: DelayNs {
    /// Drives the line high or low and tells whether the pin accepted that.
    pub fn drive(&mut self, high: bool) -> (done: bool)
        ensures
            final(self).trace() == old(self).trace().push(Step::Drive { high, done }),
    {
        let done = if high {
            set_high(&mut self.pin)
        } else {
            set_low(&mut self.pin)
        };
        self.trace = Ghost(self.trace@.push(Step::Drive { high, done }));
        done
    }

    /// Asks the pin whether the line is at `level`: with `is_high` for the
    /// high level, with `is_low` for the low one.
    pub fn sense(&mut self, level: bool) -> (seen: Option<bool>)
        ensures
            final(self).trace() == old(self).trace().push(Step::Sense { level, seen }),
    {
        let seen = if level {
            is_high(&mut self.pin)
        } else {
            is_low(&mut self.pin)
        };
        self.trace = Ghost(self.trace@.push(Step::Sense { level, seen }));
        seen
    }

    /// Pauses for `us` microseconds.
    pub fn wait(&mut self, us: u32)
        ensures
            final(self).trace() == old(self).trace().push(Step::Wait { us }),
    {
        delay_us(&mut self.delay, us);
        self.trace = Ghost(self.trace@.push(Step::Wait { us }));
    }
}

} // verus!
