//! The transaction as mathematics: what a wait, and a whole read, come to
//! for a given behaviour of the line.
//!
//! The line is described by what it would show at each tick of each wait.
//! A *line* in this module is a function from the tick to the sample taken
//! at that tick: `Ok(true)` if the line is at the level waited for,
//! `Ok(false)` if it is not, `Err` if sampling fails. A transaction makes
//! its waits in a fixed order, numbered from zero: the two halves of the
//! presence handshake, then for each of the forty bits the rise and the
//! fall of its cell.

use crate::error::DhtError;
use crate::frame::{
    bit_at, decode_spec, is_one, lemma_pulse_touches_only_its_bit, with_pulse, FRAME_BITS,
    FRAME_BYTES,
};
use crate::reading::Reading;
use vstd::prelude::*;

verus! {

/// How long the host holds the line low to wake the sensor, in microseconds.
pub const RESET_LOW_US: u32 = 3000;

/// How long the host waits after releasing the line, in microseconds.
pub const RELEASE_US: u32 = 25;

/// How long the host pauses between two samples of a wait, in
/// microseconds. This is the one place that sets the sampling rate; the
/// bit threshold is counted in these ticks.
pub const TICK_US: u32 = 1;

/// How many samples each half of the presence handshake may take.
pub const PRESENCE_TIMEOUT_US: u32 = 85;

/// How many samples each half of a bit cell may take.
pub const BIT_TIMEOUT_US: u32 = 55;

/// What one sample of the line means for a wait that has made `tick`
/// samples before it.
///
/// `None`: the line is not yet at the level waited for. `Some`: the wait
/// is over, either because the level was seen at this tick or because the
/// line reported a fault.
pub open spec fn settle_spec<HE>(tick: u32, sample: Result<bool, HE>) -> Option<
    Result<u32, DhtError<HE>>,
> {
    match sample {
        Ok(true) => Some(Ok(tick)),
        Ok(false) => None,
        Err(fault) => Some(Err(DhtError::PinError(fault))),
    }
}

/// What a wait comes to that has already made `tick` samples, none of
/// which ended it.
pub open spec fn wait_from<HE>(
    line: spec_fn(nat) -> Result<bool, HE>,
    tick: nat,
    timeout_us: u32,
    error: DhtError<HE>,
) -> Result<u32, DhtError<HE>>
    decreases timeout_us - tick,
{
    if tick >= timeout_us {
        Err(error)
    } else {
        match settle_spec(tick as u32, line(tick)) {
            Some(outcome) => outcome,
            None => wait_from(line, tick + 1, timeout_us, error),
        }
    }
}

/// What a wait of at most `timeout_us` samples comes to on `line`: the
/// tick at which the level was first seen, the line's first fault if that
/// came before, or `error` if neither came within the bound.
pub open spec fn wait_outcome<HE>(
    line: spec_fn(nat) -> Result<bool, HE>,
    timeout_us: u32,
    error: DhtError<HE>,
) -> Result<u32, DhtError<HE>> {
    wait_from(line, 0, timeout_us, error)
}

/// Whether `line` stays away from the level waited for, without a fault,
/// at every tick from `from` up to but excluding `to`.
pub open spec fn quiet<HE>(line: spec_fn(nat) -> Result<bool, HE>, from: nat, to: nat) -> bool {
    forall|t: nat| from <= t < to ==> #[trigger] line(t) == Ok::<bool, HE>(false)
}

/// The frame after the first `bits` bit cells, or the error that ended the
/// capture before that.
///
/// Bit `k` takes wait `2 + 2k` for the rise of its cell and wait `3 + 2k`
/// for the fall; the tick at which the fall is seen is the length of the
/// cell's high pulse.
pub open spec fn capture_upto<HE>(
    waits: spec_fn(nat) -> spec_fn(nat) -> Result<bool, HE>,
    bits: nat,
) -> Result<Seq<u8>, DhtError<HE>>
    decreases bits,
{
    if bits == 0 {
        Ok(seq![0u8, 0u8, 0u8, 0u8, 0u8])
    } else {
        let bit: nat = (bits - 1) as nat;
        match capture_upto(waits, bit) {
            Err(e) => Err(e),
            Ok(frame) => match wait_outcome(waits(2 + 2 * bit), BIT_TIMEOUT_US, DhtError::Timeout) {
                Err(e) => Err(e),
                Ok(_) => match wait_outcome(
                    waits(3 + 2 * bit),
                    BIT_TIMEOUT_US,
                    DhtError::Timeout,
                ) {
                    Err(e) => Err(e),
                    Ok(elapsed) => Ok(with_pulse(frame, bit as int, elapsed)),
                },
            },
        }
    }
}

/// Whether bit cell `bit` carries a one: the fall of its high pulse was
/// seen, and seen after more than the threshold number of ticks.
pub open spec fn cell_is_one<HE>(
    waits: spec_fn(nat) -> spec_fn(nat) -> Result<bool, HE>,
    bit: nat,
) -> bool {
    match wait_outcome(waits(3 + 2 * bit), BIT_TIMEOUT_US, DhtError::Timeout) {
        Ok(elapsed) => is_one(elapsed),
        Err(_) => false,
    }
}

/// What a whole transaction comes to.
///
/// `driven_low` and `driven_high` are what the line answered when the host
/// pulled it low and released it; `waits` gives the line for each wait of
/// the transaction, by the wait's number. The first failure ends the
/// transaction and is its result.
pub open spec fn read_outcome<HE>(
    driven_low: Result<(), HE>,
    driven_high: Result<(), HE>,
    waits: spec_fn(nat) -> spec_fn(nat) -> Result<bool, HE>,
) -> Result<Reading, DhtError<HE>> {
    match driven_low {
        Err(fault) => Err(DhtError::PinError(fault)),
        Ok(_) => match driven_high {
            Err(fault) => Err(DhtError::PinError(fault)),
            Ok(_) => match wait_outcome(waits(0), PRESENCE_TIMEOUT_US, DhtError::NotPresent) {
                Err(e) => Err(e),
                Ok(_) => match wait_outcome(waits(1), PRESENCE_TIMEOUT_US, DhtError::NotPresent) {
                    Err(e) => Err(e),
                    Ok(_) => match capture_upto(waits, FRAME_BITS as nat) {
                        Err(e) => Err(e),
                        Ok(frame) => decode_spec(frame),
                    },
                },
            },
        },
    }
}

/// Decides what one sample of the line means for a wait that has made
/// `tick` samples before it.
pub fn settle<HE>(tick: u32, sample: Result<bool, HE>) -> (outcome: Option<
    Result<u32, DhtError<HE>>,
>)
    ensures
        outcome == settle_spec(tick, sample),
{
    match sample {
        Ok(true) => Some(Ok(tick)),
        Ok(false) => None,
        Err(fault) => Some(Err(DhtError::from(fault))),
    }
}

/// Samples that do not end a wait do not change what it comes to.
pub proof fn lemma_wait_skips_quiet<HE>(
    line: spec_fn(nat) -> Result<bool, HE>,
    from: nat,
    to: nat,
    timeout_us: u32,
    error: DhtError<HE>,
)
    requires
        from <= to <= timeout_us,
        quiet(line, from, to),
    ensures
        wait_from(line, from, timeout_us, error) == wait_from(line, to, timeout_us, error),
    decreases to - from,
{
    if from < to {
        assert(line(from) == Ok::<bool, HE>(false));
        lemma_wait_skips_quiet(line, from + 1, to, timeout_us, error);
    }
}

/// A wait on a line that never comes to the level waited for ends with
/// `error` after exactly `timeout_us` samples: what the line does from
/// tick `timeout_us` on makes no difference.
pub proof fn lemma_quiet_line_times_out<HE>(
    line: spec_fn(nat) -> Result<bool, HE>,
    timeout_us: u32,
    error: DhtError<HE>,
)
    requires
        quiet(line, 0, timeout_us as nat),
    ensures
        wait_outcome(line, timeout_us, error) == Err::<u32, DhtError<HE>>(error),
{
    lemma_wait_skips_quiet(line, 0, timeout_us as nat, timeout_us, error);
}

/// A wait does not give up early: if it ends with `error`, and `error` is
/// not itself a fault of the line, then none of the first `timeout_us`
/// samples showed the level or a fault.
pub proof fn lemma_timeout_means_quiet<HE>(
    line: spec_fn(nat) -> Result<bool, HE>,
    timeout_us: u32,
    error: DhtError<HE>,
)
    requires
        !(error is PinError),
        wait_outcome(line, timeout_us, error) == Err::<u32, DhtError<HE>>(error),
    ensures
        quiet(line, 0, timeout_us as nat),
{
    lemma_timeout_means_quiet_from(line, 0, timeout_us, error);
}

proof fn lemma_timeout_means_quiet_from<HE>(
    line: spec_fn(nat) -> Result<bool, HE>,
    tick: nat,
    timeout_us: u32,
    error: DhtError<HE>,
)
    requires
        !(error is PinError),
        wait_from(line, tick, timeout_us, error) == Err::<u32, DhtError<HE>>(error),
    ensures
        quiet(line, tick, timeout_us as nat),
    decreases timeout_us - tick,
{
    if tick < timeout_us {
        lemma_timeout_means_quiet_from(line, tick + 1, timeout_us, error);
        assert forall|t: nat| tick <= t < timeout_us implies #[trigger] line(t) == Ok::<bool, HE>(
            false,
        ) by {
            if t > tick {
                assert(quiet(line, tick + 1, timeout_us as nat));
            }
        }
    }
}

/// A wait ends with `Ok(elapsed)` exactly when `elapsed` is the first tick
/// at which the line is at the level waited for, that tick lies within the
/// bound, and the line reported no fault before it.
pub proof fn lemma_wait_finds_first_level<HE>(
    line: spec_fn(nat) -> Result<bool, HE>,
    timeout_us: u32,
    error: DhtError<HE>,
    elapsed: u32,
)
    ensures
        wait_outcome(line, timeout_us, error) == Ok::<u32, DhtError<HE>>(elapsed) <==> (elapsed
            < timeout_us && quiet(line, 0, elapsed as nat) && line(elapsed as nat) == Ok::<
            bool,
            HE,
        >(true)),
{
    if elapsed < timeout_us && quiet(line, 0, elapsed as nat) && line(elapsed as nat) == Ok::<
        bool,
        HE,
    >(true) {
        lemma_wait_skips_quiet(line, 0, elapsed as nat, timeout_us, error);
    }
    if wait_outcome(line, timeout_us, error) == Ok::<u32, DhtError<HE>>(elapsed) {
        lemma_found_means_first_from(line, 0, timeout_us, error, elapsed);
    }
}

proof fn lemma_found_means_first_from<HE>(
    line: spec_fn(nat) -> Result<bool, HE>,
    tick: nat,
    timeout_us: u32,
    error: DhtError<HE>,
    elapsed: u32,
)
    requires
        wait_from(line, tick, timeout_us, error) == Ok::<u32, DhtError<HE>>(elapsed),
    ensures
        tick <= elapsed < timeout_us,
        quiet(line, tick, elapsed as nat),
        line(elapsed as nat) == Ok::<bool, HE>(true),
    decreases timeout_us - tick,
{
    if tick < timeout_us {
        match line(tick) {
            Ok(true) => {},
            Ok(false) => {
                lemma_found_means_first_from(line, tick + 1, timeout_us, error, elapsed);
                assert forall|t: nat| tick <= t < elapsed implies #[trigger] line(t) == Ok::<
                    bool,
                    HE,
                >(false) by {
                    if t > tick {
                        assert(quiet(line, tick + 1, elapsed as nat));
                    }
                }
            },
            Err(_) => {},
        }
    }
}

/// The first fault of the line ends a wait with that fault, if neither the
/// level nor the bound came before it.
pub proof fn lemma_fault_ends_wait<HE>(
    line: spec_fn(nat) -> Result<bool, HE>,
    timeout_us: u32,
    error: DhtError<HE>,
    tick: nat,
    fault: HE,
)
    requires
        tick < timeout_us,
        quiet(line, 0, tick),
        line(tick) == Err::<bool, HE>(fault),
    ensures
        wait_outcome(line, timeout_us, error) == Err::<u32, DhtError<HE>>(
            DhtError::PinError(fault),
        ),
{
    lemma_wait_skips_quiet(line, 0, tick, timeout_us, error);
}

/// The first `bits` bit cells look only at the waits that belong to them.
pub proof fn lemma_capture_looks_at_its_waits<HE>(
    waits: spec_fn(nat) -> spec_fn(nat) -> Result<bool, HE>,
    other: spec_fn(nat) -> spec_fn(nat) -> Result<bool, HE>,
    bits: nat,
)
    requires
        forall|w: nat| 2 <= w < 2 + 2 * bits ==> #[trigger] waits(w) == other(w),
    ensures
        capture_upto(waits, bits) == capture_upto(other, bits),
    decreases bits,
{
    if bits > 0 {
        let bit: nat = (bits - 1) as nat;
        lemma_capture_looks_at_its_waits(waits, other, bit);
        assert(waits(2 + 2 * bit) == other(2 + 2 * bit));
        assert(waits(3 + 2 * bit) == other(3 + 2 * bit));
    }
}

/// Once the capture has failed it stays failed: later bit cells are not
/// looked at.
pub proof fn lemma_capture_error_is_final<HE>(
    waits: spec_fn(nat) -> spec_fn(nat) -> Result<bool, HE>,
    failed: nat,
    bits: nat,
    error: DhtError<HE>,
)
    requires
        failed <= bits,
        capture_upto(waits, failed) == Err::<Seq<u8>, DhtError<HE>>(error),
    ensures
        capture_upto(waits, bits) == Err::<Seq<u8>, DhtError<HE>>(error),
    decreases bits,
{
    if failed < bits {
        lemma_capture_error_is_final(waits, failed, (bits - 1) as nat, error);
    }
}

/// A sensor that never raises the line after the bus reset is reported as
/// absent.
pub proof fn lemma_silent_sensor_is_not_present<HE>(
    waits: spec_fn(nat) -> spec_fn(nat) -> Result<bool, HE>,
)
    requires
        quiet(waits(0), 0, PRESENCE_TIMEOUT_US as nat),
    ensures
        read_outcome(Ok(()), Ok(()), waits) == Err::<Reading, DhtError<HE>>(DhtError::NotPresent),
{
    lemma_quiet_line_times_out(waits(0), PRESENCE_TIMEOUT_US, DhtError::<HE>::NotPresent);
}

/// The captured frame spells the pulses, most significant bit first: after
/// `bits` bit cells, bit `bit` of the frame is set exactly if its cell has
/// been captured and carried a one.
pub proof fn lemma_captured_bits_are_the_pulses<HE>(
    waits: spec_fn(nat) -> spec_fn(nat) -> Result<bool, HE>,
    bits: nat,
    frame: Seq<u8>,
    bit: nat,
)
    requires
        bits <= FRAME_BITS,
        bit < FRAME_BITS,
        capture_upto(waits, bits) == Ok::<Seq<u8>, DhtError<HE>>(frame),
    ensures
        frame.len() == FRAME_BYTES,
        bit_at(frame, bit as int) == (bit < bits && cell_is_one(waits, bit)),
    decreases bits,
{
    if bits == 0 {
        let none: u8 = frame[bit as int / 8];
        let probe: u8 = (7 - bit % 8) as u8;
        assert(none & (1u8 << probe) == 0) by (bit_vector)
            requires
                none == 0,
        ;
    } else {
        let last: nat = (bits - 1) as nat;
        let before: Seq<u8> = capture_upto(waits, last)->Ok_0;
        let elapsed: u32 = wait_outcome(waits(3 + 2 * last), BIT_TIMEOUT_US, DhtError::Timeout)->Ok_0;
        lemma_captured_bits_are_the_pulses(waits, last, before, bit);
        lemma_pulse_touches_only_its_bit(before, last as int, elapsed, bit as int);
    }
}

/// A longer bound never changes a level that was seen in time: what a
/// wait found within `timeout_us` samples it finds, at the same tick,
/// within any larger number of them, whatever error it was handed.
pub proof fn lemma_longer_bound_keeps_level<HE>(
    line: spec_fn(nat) -> Result<bool, HE>,
    timeout_us: u32,
    longer_us: u32,
    error: DhtError<HE>,
    other: DhtError<HE>,
    elapsed: u32,
)
    requires
        timeout_us <= longer_us,
        wait_outcome(line, timeout_us, error) == Ok::<u32, DhtError<HE>>(elapsed),
    ensures
        wait_outcome(line, longer_us, other) == Ok::<u32, DhtError<HE>>(elapsed),
{
    lemma_wait_finds_first_level(line, timeout_us, error, elapsed);
    lemma_wait_finds_first_level(line, longer_us, other, elapsed);
}

} // verus!
