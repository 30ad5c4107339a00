//! The dialogue on the line, written down step by step. A driver keeps the
//! steps it has taken as ghost state; the contracts of its operations say
//! which steps an operation adds and how its result follows from what the
//! line answered.

use crate::constants::MAX_CYCLES;
use crate::constants::POLL_US;
use crate::constants::RELEASE_US;
use crate::constants::SensorType;
use crate::constants::SETTLE_US;
use crate::errors::DhtError;
use crate::frame::decoded;
use crate::frame::frame_bit;
use crate::frame::FRAME_BITS;
use crate::frame::pulse_bit;
use crate::frame::Reading;
use vstd::prelude::*;

verus! {

/// One thing that the driver did to the line or the clock, with what came
/// back.
pub enum Step {
    /// The line was driven high or low; `done` tells whether the pin
    /// accepted that.
    Drive { high: bool, done: bool },
    /// The pin was asked whether the line is at `level` (high for `true`).
    /// `seen` is its answer, `None` where the pin failed.
    Sense { level: bool, seen: Option<bool> },
    /// The driver paused for `us` microseconds.
    Wait { us: u32 },
}

/// Pulses that the sensor sends to acknowledge the start signal, before the
/// first bit: one low, one high.
pub const ACK_PULSES: usize = 2;

/// Pulses of a whole transmission: the acknowledgment, then for each bit a
/// low pulse that separates and a high pulse that carries the bit.
pub const FRAME_PULSES: usize = 82;

/// What `begin` does, from the steps `before` it to those `after` it: the
/// line is driven high, and once the pin has accepted that, the driver waits
/// `SETTLE_US`. It fails if and only if the pin refused.
pub open spec fn begin_ran(before: Seq<Step>, after: Seq<Step>, r: Result<(), DhtError>) -> bool {
    match r {
        Ok(()) => after == before + seq![
            Step::Drive { high: true, done: true },
            Step::Wait { us: SETTLE_US },
        ],
        Err(e) => e == DhtError::IoError && after == before + seq![
            Step::Drive { high: true, done: false },
        ],
    }
}

/// The start signal: the line is held low for as long as the sensor asks,
/// then high for `RELEASE_US`.
pub open spec fn start_steps(kind: SensorType) -> Seq<Step> {
    seq![
        Step::Drive { high: false, done: true },
        Step::Wait { us: kind.signal_pulse_us() },
        Step::Drive { high: true, done: true },
        Step::Wait { us: RELEASE_US },
    ]
}

/// What sending the start signal does: all of `start_steps`, or, where the
/// pin refuses to be driven, the steps up to that refusal and `IoError`.
pub open spec fn start_ran(
    kind: SensorType,
    before: Seq<Step>,
    after: Seq<Step>,
    r: Result<(), DhtError>,
) -> bool {
    match r {
        Ok(()) => after == before + start_steps(kind),
        Err(e) => e == DhtError::IoError && (after == before + seq![
            Step::Drive { high: false, done: false },
        ] || after == before + seq![
            Step::Drive { high: false, done: true },
            Step::Wait { us: kind.signal_pulse_us() },
            Step::Drive { high: true, done: false },
        ]),
    }
}

/// `n` polls that each found the line at `level`, with a pause of `POLL_US`
/// after each.
pub open spec fn polls(level: bool, n: nat) -> Seq<Step>
    decreases n,
{
    if n == 0 {
        Seq::empty()
    } else {
        polls(level, (n - 1) as nat).push(Step::Sense { level, seen: Some(true) }).push(
            Step::Wait { us: POLL_US },
        )
    }
}

/// The steps of one pulse measurement: `n` polls find the line at `level`,
/// then one last poll is answered by `end`.
pub open spec fn pulse(level: bool, n: nat, end: Option<bool>) -> Seq<Step> {
    polls(level, n).push(Step::Sense { level, seen: end })
}

/// What measuring a pulse at `level` does.
///
/// - `Ok(width)`: the line was at `level` for `width` polls, at most
///   `MAX_CYCLES`, and had left it at the next.
/// - `Timeout`: the line was at `level` for `MAX_CYCLES + 1` polls.
/// - `IoError`: the pin failed at a poll; all polls before it had found the
///   line at `level`.
pub open spec fn pulse_ran(
    level: bool,
    before: Seq<Step>,
    after: Seq<Step>,
    r: Result<u32, DhtError>,
) -> bool {
    match r {
        Ok(width) => width <= MAX_CYCLES && after == before + pulse(
            level,
            width as nat,
            Some(false),
        ),
        Err(DhtError::Timeout) => after == before + pulse(level, MAX_CYCLES as nat, Some(true)),
        Err(DhtError::IoError) => exists|n: nat|
            n <= MAX_CYCLES && after == before + #[trigger] pulse(level, n, None),
        Err(_) => false,
    }
}

/// The level of the `k`-th pulse of a transmission, counted from 0: low and
/// high in turn.
pub open spec fn pulse_level(k: int) -> bool {
    k % 2 == 1
}

/// The place, among the pulses of a transmission, of the high pulse that
/// carries bit `j`.
pub open spec fn bit_pulse(j: int) -> int {
    ACK_PULSES + 2 * j + 1
}

/// The steps of measuring, one after the other, pulses that end in time
/// after `widths[0]`, `widths[1]`, ... polls.
pub open spec fn pulses(widths: Seq<u32>) -> Seq<Step>
    decreases widths.len(),
{
    if widths.len() == 0 {
        Seq::empty()
    } else {
        pulses(widths.drop_last()) + pulse(
            pulse_level(widths.len() - 1),
            widths.last() as nat,
            Some(false),
        )
    }
}

/// `capture_ran` for given widths of the pulses that ended in time.
pub open spec fn captured(
    widths: Seq<u32>,
    before: Seq<Step>,
    after: Seq<Step>,
    r: Result<[u8; 5], DhtError>,
) -> bool {
    &&& forall|k: int| 0 <= k < widths.len() ==> widths[k] <= MAX_CYCLES
    &&& match r {
        Ok(frame) => {
            &&& widths.len() == FRAME_PULSES
            &&& after == before + pulses(widths)
            &&& forall|j: int|
                0 <= j < FRAME_BITS ==> frame_bit(frame@, j) == pulse_bit(widths[bit_pulse(j)])
        },
        Err(e) => {
            &&& widths.len() < FRAME_PULSES
            &&& pulse_ran(pulse_level(widths.len() as int), before + pulses(widths), after, Err(e))
        },
    }
}

/// What capturing a frame does: it measures `FRAME_PULSES` pulses, low and
/// high in turn, and stops at the first that fails, with that pulse's error.
/// Where all end in time, bit `j` of the frame is the bit that the width of
/// pulse `bit_pulse(j)` stands for; the widths of the other pulses do not
/// matter.
pub open spec fn capture_ran(
    before: Seq<Step>,
    after: Seq<Step>,
    r: Result<[u8; 5], DhtError>,
) -> bool {
    exists|widths: Seq<u32>| #[trigger] captured(widths, before, after, r)
}

/// The result of a reading whose capture ended in `frame`.
pub open spec fn outcome(kind: SensorType, frame: Result<[u8; 5], DhtError>) -> Result<
    Reading,
    DhtError,
> {
    match frame {
        Ok(bytes) => decoded(kind, bytes@),
        Err(e) => Err(e),
    }
}

/// What a reading does: the start signal, then the capture of a frame, whose
/// checksum is tested before its bytes are decoded. The first step that
/// fails ends the reading with its error.
pub open spec fn read_ran(
    kind: SensorType,
    before: Seq<Step>,
    after: Seq<Step>,
    r: Result<Reading, DhtError>,
) -> bool {
    ||| r == Err::<Reading, DhtError>(DhtError::IoError) && start_ran(
        kind,
        before,
        after,
        Err(DhtError::IoError),
    )
    ||| exists|frame: Result<[u8; 5], DhtError>|
        r == outcome(kind, frame) && #[trigger] capture_ran(
            before + start_steps(kind),
            after,
            frame,
        )
}

/// Measuring one more pulse adds its steps to those of the pulses before it.
pub proof fn lemma_pulses_push(widths: Seq<u32>, width: u32)
    ensures
        pulses(widths.push(width)) == pulses(widths) + pulse(
            pulse_level(widths.len() as int),
            width as nat,
            Some(false),
        ),
{
    assert(widths.push(width).drop_last() =~= widths);
}

/// The level to which the driver last drove the line, with the pin's
/// consent; `None` before the first time.
pub open spec fn line_level(trace: Seq<Step>) -> Option<bool>
    decreases trace.len(),
{
    if trace.len() == 0 {
        None
    } else {
        match trace.last() {
            Step::Drive { high, done: true } => Some(high),
            _ => line_level(trace.drop_last()),
        }
    }
}

} // verus!
