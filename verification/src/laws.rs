//! What follows from the contracts of the driver's operations.

use crate::constants::SensorType;
use crate::constants::MAX_CYCLES;
use crate::constants::POLL_US;
use crate::constants::SETTLE_US;
use crate::errors::DhtError;
use crate::frame::checksum_ok;
use crate::frame::frame_bit;
use crate::frame::pulse_bit;
use crate::frame::FRAME_BITS;
use crate::frame::lemma_bits_fix_frame;
use crate::frame::reading_of;
use crate::frame::Reading;
use crate::protocol::begin_ran;
use crate::protocol::bit_pulse;
use crate::protocol::capture_ran;
use crate::protocol::captured;
use crate::protocol::line_level;
use crate::protocol::outcome;
use crate::protocol::polls;
use crate::protocol::pulse;
use crate::protocol::pulse_level;
use crate::protocol::pulse_ran;
use crate::protocol::pulses;
use crate::protocol::FRAME_PULSES;
use crate::protocol::read_ran;
use crate::protocol::start_ran;
use crate::protocol::start_steps;
use crate::protocol::Step;
use vstd::prelude::*;

verus! {

/// `begin` may be called again. As long as the pin lets itself be driven,
/// neither call fails, the second does what the first did, and each leaves
/// the line driven high.
pub proof fn lemma_begin_twice(
    t0: Seq<Step>,
    t1: Seq<Step>,
    t2: Seq<Step>,
    r1: Result<(), DhtError>,
    r2: Result<(), DhtError>,
)
    requires
        begin_ran(t0, t1, r1),
        begin_ran(t1, t2, r2),
        forall|i: int, high: bool|
            t0.len() <= i < t2.len() ==> t2[i] != (Step::Drive { high, done: false }),
    ensures
        r1 is Ok,
        r2 is Ok,
        t1.subrange(t0.len() as int, t1.len() as int) == t2.subrange(
            t1.len() as int,
            t2.len() as int,
        ),
        line_level(t1) == Some(true),
        line_level(t2) == line_level(t1),
{
    let steps = seq![Step::Drive { high: true, done: true }, Step::Wait { us: SETTLE_US }];
    if r1 is Err {
        assert(t1[t0.len() as int] == Step::Drive { high: true, done: false });
        assert(t2[t0.len() as int] == t1[t0.len() as int]);
    }
    if r2 is Err {
        assert(t2[t1.len() as int] == Step::Drive { high: true, done: false });
    }
    assert(t1.subrange(t0.len() as int, t1.len() as int) =~= steps);
    assert(t2.subrange(t1.len() as int, t2.len() as int) =~= steps);
    lemma_level_after_begin(t0);
    lemma_level_after_begin(t1);
}

/// A pulse measurement ends with `Timeout` if and only if `MAX_CYCLES + 1`
/// polls, one after the other, found the line at the expected level. Whatever
/// its result, it polls the line at most `MAX_CYCLES + 1` times and pauses
/// at most `MAX_CYCLES` times.
pub proof fn lemma_timeout_law(
    level: bool,
    before: Seq<Step>,
    after: Seq<Step>,
    r: Result<u32, DhtError>,
)
    requires
        pulse_ran(level, before, after, r),
    ensures
        r == Err::<u32, DhtError>(DhtError::Timeout) <==> after == before + pulse(
            level,
            MAX_CYCLES as nat,
            Some(true),
        ),
        after.len() <= before.len() + 2 * MAX_CYCLES + 1,
{
    let stuck = before + pulse(level, MAX_CYCLES as nat, Some(true));
    lemma_polls_len(level, MAX_CYCLES as nat);
    assert(stuck.last() == Step::Sense { level, seen: Some(true) });
    match r {
        Ok(width) => {
            lemma_polls_len(level, width as nat);
            assert(after.last() == Step::Sense { level, seen: Some(false) });
        },
        Err(DhtError::IoError) => {
            let n = choose|n: nat| n <= MAX_CYCLES && after == before + #[trigger] pulse(
                level,
                n,
                None,
            );
            lemma_polls_len(level, n);
            assert(after.last() == Step::Sense { level, seen: None });
        },
        Err(_) => {},
    }
}

/// The result of a pulse measurement follows from what the line answered:
/// the same steps never go with two results.
pub proof fn lemma_pulse_determined(
    level: bool,
    before: Seq<Step>,
    after: Seq<Step>,
    first: Result<u32, DhtError>,
    second: Result<u32, DhtError>,
)
    requires
        pulse_ran(level, before, after, first),
        pulse_ran(level, before, after, second),
    ensures
        first == second,
{
    let a = lemma_pulse_shape(level, before, after, first);
    let b = lemma_pulse_shape(level, before, after, second);
    lemma_cancel(before, pulse(level, a.0, a.1), pulse(level, b.0, b.1));
    lemma_last_pulse(Seq::empty(), level, a.0, a.1, Seq::empty(), level, b.0, b.1);
}

/// The frame that a capture returns, or the error with which it fails,
/// follows from what the line answered: the same steps never go with two
/// results.
pub proof fn lemma_capture_determined(
    before: Seq<Step>,
    after: Seq<Step>,
    first: Result<[u8; 5], DhtError>,
    second: Result<[u8; 5], DhtError>,
)
    requires
        capture_ran(before, after, first),
        capture_ran(before, after, second),
    ensures
        first == second,
{
    let w1 = choose|w: Seq<u32>| #[trigger] captured(w, before, after, first);
    let w2 = choose|w: Seq<u32>| #[trigger] captured(w, before, after, second);
    lemma_captured_determined(before, after, w1, first, w2, second);
}

/// The result of a reading follows from what the hardware answered: the
/// same steps never go with two results.
pub proof fn lemma_read_determined(
    kind: SensorType,
    before: Seq<Step>,
    after: Seq<Step>,
    first: Result<Reading, DhtError>,
    second: Result<Reading, DhtError>,
)
    requires
        read_ran(kind, before, after, first),
        read_ran(kind, before, after, second),
    ensures
        first == second,
{
    let refused = Err::<(), DhtError>(DhtError::IoError);
    let started = before + start_steps(kind);
    if start_ran(kind, before, after, refused) {
        assert(after.len() <= before.len() + 3);
        assert forall|frame: Result<[u8; 5], DhtError>| !capture_ran(started, after, frame) by {
            if capture_ran(started, after, frame) {
                lemma_capture_bounded(started, after, frame);
            }
        }
    } else {
        let f1 = choose|frame: Result<[u8; 5], DhtError>|
            first == outcome(kind, frame) && #[trigger] capture_ran(started, after, frame);
        let f2 = choose|frame: Result<[u8; 5], DhtError>|
            second == outcome(kind, frame) && #[trigger] capture_ran(started, after, frame);
        lemma_capture_determined(started, after, f1, f2);
    }
}

/// A reading fails with `Timeout`, `ChecksumMismatch` or `IoError` only, and
/// a reading that succeeds returns what a frame with a sound checksum holds.
pub proof fn lemma_read_results(
    kind: SensorType,
    before: Seq<Step>,
    after: Seq<Step>,
    r: Result<Reading, DhtError>,
)
    requires
        read_ran(kind, before, after, r),
    ensures
        r != Err::<Reading, DhtError>(DhtError::InvalidSensorType),
        r matches Ok(reading) ==> exists|frame: [u8; 5]|
            checksum_ok(frame@) && reading == #[trigger] reading_of(kind, frame@),
{
    if !(r == Err::<Reading, DhtError>(DhtError::IoError) && start_ran(
        kind,
        before,
        after,
        Err(DhtError::IoError),
    )) {
        let frame = choose|frame: Result<[u8; 5], DhtError>|
            r == outcome(kind, frame) && #[trigger] capture_ran(
                before + start_steps(kind),
                after,
                frame,
            );
        if frame is Err {
            let widths = choose|widths: Seq<u32>| #[trigger]
                captured(widths, before + start_steps(kind), after, frame);
        }
    }
}

/// A capture takes at least one step and at most `2 * MAX_CYCLES + 1` for
/// each of its pulses.
pub proof fn lemma_capture_bounded(
    before: Seq<Step>,
    after: Seq<Step>,
    r: Result<[u8; 5], DhtError>,
)
    requires
        capture_ran(before, after, r),
    ensures
        before.len() < after.len() <= before.len() + FRAME_PULSES * (2 * MAX_CYCLES + 1),
{
    let widths = choose|w: Seq<u32>| #[trigger] captured(w, before, after, r);
    let most = 2 * MAX_CYCLES + 1;
    lemma_pulses_len(widths);
    lemma_pulses_closed_off(widths);
    match r {
        Ok(_) => {},
        Err(e) => {
            let level = pulse_level(widths.len() as int);
            let shape = lemma_pulse_shape(level, before + pulses(widths), after, Err(e));
            lemma_polls_len(level, shape.0);
            assert(widths.len() * most + most <= FRAME_PULSES * most) by (nonlinear_arith)
                requires
                    widths.len() + 1 <= FRAME_PULSES,
                    most >= 0,
            ;
        },
    }
}

/// A reading cannot block for ever: it takes at most the four steps of the
/// start signal and `2 * MAX_CYCLES + 1` steps for each pulse.
pub proof fn lemma_read_bounded(
    kind: SensorType,
    before: Seq<Step>,
    after: Seq<Step>,
    r: Result<Reading, DhtError>,
)
    requires
        read_ran(kind, before, after, r),
    ensures
        after.len() <= before.len() + 4 + FRAME_PULSES * (2 * MAX_CYCLES + 1),
{
    let started = before + start_steps(kind);
    if !start_ran(kind, before, after, Err(DhtError::IoError)) {
        let frame = choose|frame: Result<[u8; 5], DhtError>|
            r == outcome(kind, frame) && #[trigger] capture_ran(started, after, frame);
        lemma_capture_bounded(started, after, frame);
    }
}

/// `n` polls with their pauses are `2 * n` steps.
pub proof fn lemma_polls_len(level: bool, n: nat)
    ensures
        polls(level, n).len() == 2 * n,
    decreases n,
{
    if n > 0 {
        lemma_polls_len(level, (n - 1) as nat);
    }
}

/// `begin` leaves the line driven high.
proof fn lemma_level_after_begin(before: Seq<Step>)
    ensures
        line_level(
            before + seq![Step::Drive { high: true, done: true }, Step::Wait { us: SETTLE_US }],
        ) == Some(true),
{
    let after = before + seq![
        Step::Drive { high: true, done: true },
        Step::Wait { us: SETTLE_US },
    ];
    assert(after.drop_last().last() == Step::Drive { high: true, done: true });
    assert(line_level(after) == line_level(after.drop_last()));
}

/// Whether `steps` is empty or ends with a poll that found the line off the
/// expected level, as the steps of whole pulses do.
spec fn closed_off(steps: Seq<Step>) -> bool {
    steps.len() > 0 ==> (steps.last() matches Step::Sense { seen, .. } && seen == Some(false))
}

/// In `n` polls, every other step is a poll that found the line at `level`,
/// and each step after such a poll is a pause.
proof fn lemma_polls_steps(level: bool, n: nat, i: int)
    requires
        0 <= i < n,
    ensures
        polls(level, n).len() == 2 * n,
        polls(level, n)[2 * i] == (Step::Sense { level, seen: Some(true) }),
        polls(level, n)[2 * i + 1] == (Step::Wait { us: POLL_US }),
    decreases n,
{
    lemma_polls_len(level, n);
    lemma_polls_len(level, (n - 1) as nat);
    if i < n - 1 {
        lemma_polls_steps(level, (n - 1) as nat, i);
    }
}

/// What is added to the same steps is the same if the sums are.
proof fn lemma_cancel(before: Seq<Step>, first: Seq<Step>, second: Seq<Step>)
    requires
        before + first == before + second,
    ensures
        first == second,
{
    let all = before + first;
    assert(first =~= all.subrange(before.len() as int, all.len() as int));
    assert(second =~= all.subrange(before.len() as int, all.len() as int));
}

/// Where two runs of steps end in a pulse measurement each and are equal, the
/// first measurement cannot have fewer polls than the second: the second
/// would have a pause where whole pulses before the first end in a poll.
proof fn lemma_longer_pulse_differs(
    x: Seq<Step>,
    l1: bool,
    n1: nat,
    e1: Option<bool>,
    y: Seq<Step>,
    l2: bool,
    n2: nat,
    e2: Option<bool>,
)
    requires
        closed_off(x),
        x + pulse(l1, n1, e1) == y + pulse(l2, n2, e2),
    ensures
        n1 >= n2,
{
    if n1 < n2 {
        let all = x + pulse(l1, n1, e1);
        lemma_polls_len(l1, n1);
        lemma_polls_len(l2, n2);
        assert(all.len() == x.len() + pulse(l1, n1, e1).len());
        assert(all.len() == y.len() + pulse(l2, n2, e2).len());
        let last = x.len() - 1;
        let inside = n2 - n1 - 1;
        lemma_polls_steps(l2, n2, inside);
        assert(all[last] == x.last());
        assert((y + pulse(l2, n2, e2))[last] == pulse(l2, n2, e2)[2 * inside + 1]);
    }
}

/// Where steps of whole pulses, each followed by one more pulse measurement,
/// are equal, so are the two measurements and what came before them.
proof fn lemma_last_pulse(
    x: Seq<Step>,
    l1: bool,
    n1: nat,
    e1: Option<bool>,
    y: Seq<Step>,
    l2: bool,
    n2: nat,
    e2: Option<bool>,
)
    requires
        closed_off(x),
        closed_off(y),
        x + pulse(l1, n1, e1) == y + pulse(l2, n2, e2),
    ensures
        x == y,
        l1 == l2,
        n1 == n2,
        e1 == e2,
{
    let all = x + pulse(l1, n1, e1);
    lemma_polls_len(l1, n1);
    lemma_polls_len(l2, n2);
    assert(all.last() == Step::Sense { level: l1, seen: e1 });
    assert((y + pulse(l2, n2, e2)).last() == Step::Sense { level: l2, seen: e2 });
    lemma_longer_pulse_differs(x, l1, n1, e1, y, l2, n2, e2);
    lemma_longer_pulse_differs(y, l2, n2, e2, x, l1, n1, e1);
    assert(x =~= all.subrange(0, x.len() as int));
    assert(y =~= all.subrange(0, y.len() as int));
}

/// The steps of whole pulses end with a poll that found the line off its
/// level.
proof fn lemma_pulses_closed_off(widths: Seq<u32>)
    ensures
        closed_off(pulses(widths)),
        widths.len() > 0 ==> pulses(widths).len() > 0,
{
}

/// Pulses with the same steps have the same widths.
proof fn lemma_pulses_fix_widths(first: Seq<u32>, second: Seq<u32>)
    requires
        pulses(first) == pulses(second),
    ensures
        first == second,
    decreases first.len(),
{
    lemma_pulses_closed_off(first);
    lemma_pulses_closed_off(second);
    if first.len() > 0 {
        lemma_pulses_closed_off(first.drop_last());
        lemma_pulses_closed_off(second.drop_last());
        lemma_last_pulse(
            pulses(first.drop_last()),
            pulse_level(first.len() - 1),
            first.last() as nat,
            Some(false),
            pulses(second.drop_last()),
            pulse_level(second.len() - 1),
            second.last() as nat,
            Some(false),
        );
        lemma_pulses_fix_widths(first.drop_last(), second.drop_last());
        assert(first =~= first.drop_last().push(first.last()));
        assert(second =~= second.drop_last().push(second.last()));
    }
}

/// The last poll of a pulse measurement with result `r`, and the number of
/// polls before it.
proof fn lemma_pulse_shape(level: bool, before: Seq<Step>, after: Seq<Step>, r: Result<u32, DhtError>)
    -> (shape: (nat, Option<bool>))
    requires
        pulse_ran(level, before, after, r),
    ensures
        after == before + pulse(level, shape.0, shape.1),
        shape.0 <= MAX_CYCLES,
        r == (match shape.1 {
            Some(false) => Ok::<u32, DhtError>(shape.0 as u32),
            Some(true) => Err::<u32, DhtError>(DhtError::Timeout),
            None => Err::<u32, DhtError>(DhtError::IoError),
        }),
{
    match r {
        Ok(width) => (width as nat, Some(false)),
        Err(DhtError::Timeout) => (MAX_CYCLES as nat, Some(true)),
        _ => {
            let n = choose|n: nat| n <= MAX_CYCLES && after == before + #[trigger] pulse(
                level,
                n,
                None,
            );
            (n, None)
        },
    }
}

/// `lemma_capture_determined` for given widths.
proof fn lemma_captured_determined(
    before: Seq<Step>,
    after: Seq<Step>,
    w1: Seq<u32>,
    first: Result<[u8; 5], DhtError>,
    w2: Seq<u32>,
    second: Result<[u8; 5], DhtError>,
)
    requires
        captured(w1, before, after, first),
        captured(w2, before, after, second),
    ensures
        first == second,
{
    match first {
        Ok(f1) => match second {
            Ok(f2) => {
                lemma_whole_frames_same(before, after, w1, f1, w2, f2);
            },
            Err(e2) => {
                lemma_whole_and_broken(before, after, w1, w2, e2);
            },
        },
        Err(e1) => match second {
            Ok(f2) => {
                lemma_whole_and_broken(before, after, w2, w1, e1);
            },
            Err(e2) => {
                lemma_broken_same(before, after, w1, e1, w2, e2);
            },
        },
    }
}

/// Two frames captured from the same steps are the same.
proof fn lemma_whole_frames_same(
    before: Seq<Step>,
    after: Seq<Step>,
    w1: Seq<u32>,
    f1: [u8; 5],
    w2: Seq<u32>,
    f2: [u8; 5],
)
    requires
        after == before + pulses(w1),
        after == before + pulses(w2),
        forall|j: int| 0 <= j < FRAME_BITS ==> frame_bit(f1@, j) == pulse_bit(w1[bit_pulse(j)]),
        forall|j: int| 0 <= j < FRAME_BITS ==> frame_bit(f2@, j) == pulse_bit(w2[bit_pulse(j)]),
    ensures
        f1 == f2,
{
    lemma_cancel(before, pulses(w1), pulses(w2));
    lemma_pulses_fix_widths(w1, w2);
    lemma_bits_fix_frame(f1@, f2@);
    assert(f1 =~= f2);
}

/// Two captures that failed on the same steps failed with the same error.
proof fn lemma_broken_same(
    before: Seq<Step>,
    after: Seq<Step>,
    w1: Seq<u32>,
    e1: DhtError,
    w2: Seq<u32>,
    e2: DhtError,
)
    requires
        pulse_ran(pulse_level(w1.len() as int), before + pulses(w1), after, Err(e1)),
        pulse_ran(pulse_level(w2.len() as int), before + pulses(w2), after, Err(e2)),
    ensures
        e1 == e2,
{
    let l1 = pulse_level(w1.len() as int);
    let l2 = pulse_level(w2.len() as int);
    let a = lemma_pulse_shape(l1, before + pulses(w1), after, Err(e1));
    let b = lemma_pulse_shape(l2, before + pulses(w2), after, Err(e2));
    let t1 = pulses(w1) + pulse(l1, a.0, a.1);
    let t2 = pulses(w2) + pulse(l2, b.0, b.1);
    assert(after =~= before + t1);
    assert(after =~= before + t2);
    lemma_cancel(before, t1, t2);
    lemma_pulses_closed_off(w1);
    lemma_pulses_closed_off(w2);
    lemma_last_pulse(pulses(w1), l1, a.0, a.1, pulses(w2), l2, b.0, b.1);
}

/// The steps of a capture that failed are not the steps of whole pulses.
proof fn lemma_whole_and_broken(
    before: Seq<Step>,
    after: Seq<Step>,
    whole: Seq<u32>,
    broken: Seq<u32>,
    e: DhtError,
)
    requires
        whole.len() > 0,
        pulse_ran(pulse_level(broken.len() as int), before + pulses(broken), after, Err(e)),
    ensures
        after != before + pulses(whole),
{
    let level = pulse_level(broken.len() as int);
    let shape = lemma_pulse_shape(level, before + pulses(broken), after, Err(e));
    lemma_pulses_closed_off(whole);
    assert((before + pulses(whole)).last() == pulses(whole).last());
    assert(after.last() == Step::Sense { level, seen: shape.1 });
}

/// Whole pulses take at most `2 * MAX_CYCLES + 1` steps each.
proof fn lemma_pulses_len(widths: Seq<u32>)
    requires
        forall|k: int| 0 <= k < widths.len() ==> widths[k] <= MAX_CYCLES,
    ensures
        pulses(widths).len() <= widths.len() * (2 * MAX_CYCLES + 1),
    decreases widths.len(),
{
    if widths.len() > 0 {
        lemma_pulses_len(widths.drop_last());
        lemma_polls_len(pulse_level(widths.len() - 1), widths.last() as nat);
        let most = 2 * MAX_CYCLES + 1;
        assert(widths.len() * most == (widths.len() - 1) * most + most) by (nonlinear_arith);
    }
}

} // verus!
