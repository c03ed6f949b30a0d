//! What a wait and a whole transaction do on the bus: the calls they make,
//! in order, and how their result follows from what those calls returned.

use crate::error::DhtError;
use crate::frame::FRAME_BITS;
use crate::line::Call;
use crate::protocol::{
    capture_upto, lemma_capture_error_is_final, lemma_wait_skips_quiet, read_outcome,
    wait_outcome, BIT_TIMEOUT_US, PRESENCE_TIMEOUT_US, RELEASE_US, RESET_LOW_US, TICK_US,
};
use crate::reading::Reading;
use embedded_hal::digital::{ErrorKind, PinState};
use vstd::prelude::*;

verus! {

/// How many waits a complete transaction makes: two for the handshake and
/// two for each of the forty bits.
pub const TRANSACTION_WAITS: usize = 82;

/// The call that samples the line for `state`, with what it returned.
/// `sample` says whether the line was at `state`.
pub open spec fn sample_call(state: PinState, sample: Result<bool, ErrorKind>) -> Call {
    match state {
        PinState::Low => Call::IsLow(sample),
        PinState::High => Call::IsHigh(sample),
    }
}

/// The calls of a wait for `state` that took `samples`: each sample in
/// turn, and one pause of a tick after each sample that did not show the
/// level.
pub open spec fn wait_calls(state: PinState, samples: Seq<Result<bool, ErrorKind>>) -> Seq<Call>
    decreases samples.len(),
{
    if samples.len() == 0 {
        Seq::empty()
    } else {
        let sampled = wait_calls(state, samples.drop_last()).push(
            sample_call(state, samples.last()),
        );
        if samples.last() == Ok::<bool, ErrorKind>(false) {
            sampled.push(Call::DelayUs(TICK_US))
        } else {
            sampled
        }
    }
}

/// The line that showed `samples`, one per tick, and stayed away from the
/// level after them.
pub open spec fn line_of(samples: Seq<Result<bool, ErrorKind>>) -> spec_fn(nat) -> Result<
    bool,
    ErrorKind,
> {
    |t: nat|
        if t < samples.len() {
            samples[t as int]
        } else {
            Ok(false)
        }
}

/// Whether `samples` are all the samples of one wait of at most
/// `timeout_us`: no sample was taken after one that ended the wait, none
/// beyond the bound, and the wait did not stop short of the bound without
/// a sample that ended it.
pub open spec fn wait_taken(samples: Seq<Result<bool, ErrorKind>>, timeout_us: u32) -> bool {
    &&& samples.len() <= timeout_us
    &&& forall|t: int|
        0 <= t < samples.len() - 1 ==> #[trigger] samples[t] == Ok::<bool, ErrorKind>(false)
    &&& samples.len() < timeout_us ==> samples.len() > 0 && samples.last() != Ok::<
        bool,
        ErrorKind,
    >(false)
}

/// What a wait has done when it returns `result`, having taken `samples`:
/// it made the calls for those samples and no others, and its result is
/// what the samples come to.
pub open spec fn waited(
    before: Seq<Call>,
    after: Seq<Call>,
    samples: Seq<Result<bool, ErrorKind>>,
    timeout_us: u32,
    state: PinState,
    error: DhtError<ErrorKind>,
    result: Result<u32, DhtError<ErrorKind>>,
) -> bool {
    &&& wait_taken(samples, timeout_us)
    &&& after == before + wait_calls(state, samples)
    &&& result == wait_outcome(line_of(samples), timeout_us, error)
}

/// The level that wait number `wait` of a transaction waits for: the rise
/// of the line in every even wait, its fall in every odd one.
pub open spec fn wait_state(wait: nat) -> PinState {
    if wait % 2 == 0 {
        PinState::High
    } else {
        PinState::Low
    }
}

/// How many samples wait number `wait` of a transaction may take.
pub open spec fn wait_bound(wait: nat) -> u32 {
    if wait < 2 {
        PRESENCE_TIMEOUT_US
    } else {
        BIT_TIMEOUT_US
    }
}

/// The error of wait number `wait` of a transaction when its bound is
/// reached.
pub open spec fn wait_error(wait: nat) -> DhtError<ErrorKind> {
    if wait < 2 {
        DhtError::NotPresent
    } else {
        DhtError::Timeout
    }
}

/// What wait number `wait` of a transaction comes to on `samples`.
pub open spec fn wait_result(wait: nat, samples: Seq<Result<bool, ErrorKind>>) -> Result<
    u32,
    DhtError<ErrorKind>,
> {
    wait_outcome(line_of(samples), wait_bound(wait), wait_error(wait))
}

/// The calls of the bus reset: pull the line low, hold it, release it,
/// leave it alone; cut short at the first fault.
pub open spec fn reset_calls(
    driven_low: Result<(), ErrorKind>,
    driven_high: Result<(), ErrorKind>,
) -> Seq<Call> {
    if driven_low is Err {
        seq![Call::SetLow(driven_low)]
    } else if driven_high is Err {
        seq![Call::SetLow(driven_low), Call::DelayUs(RESET_LOW_US), Call::SetHigh(driven_high)]
    } else {
        seq![
            Call::SetLow(driven_low),
            Call::DelayUs(RESET_LOW_US),
            Call::SetHigh(driven_high),
            Call::DelayUs(RELEASE_US),
        ]
    }
}

/// The calls of the waits of a transaction, where `waits[w]` are the
/// samples of wait number `w`.
pub open spec fn transaction_calls(waits: Seq<Seq<Result<bool, ErrorKind>>>) -> Seq<Call>
    decreases waits.len(),
{
    if waits.len() == 0 {
        Seq::empty()
    } else {
        transaction_calls(waits.drop_last()) + wait_calls(
            wait_state((waits.len() - 1) as nat),
            waits.last(),
        )
    }
}

/// The lines of a transaction whose waits took `waits`.
pub open spec fn lines_of(waits: Seq<Seq<Result<bool, ErrorKind>>>) -> spec_fn(nat) -> spec_fn(
    nat,
) -> Result<bool, ErrorKind> {
    |w: nat|
        if w < waits.len() {
            line_of(waits[w as int])
        } else {
            line_of(Seq::empty())
        }
}

/// What a transaction has done when it returns `result`.
///
/// `driven_low` and `driven_high` are what the two calls of the bus reset
/// returned and `waits[w]` the samples of wait number `w`. The calls made
/// are those of the reset followed by those of the waits, and no others.
/// Every wait but the last succeeded, and the transaction stopped before
/// its last wait only because something failed. The result is what the
/// protocol makes of exactly these answers and samples.
pub open spec fn transacted(
    before: Seq<Call>,
    after: Seq<Call>,
    driven_low: Result<(), ErrorKind>,
    driven_high: Result<(), ErrorKind>,
    waits: Seq<Seq<Result<bool, ErrorKind>>>,
    result: Result<Reading, DhtError<ErrorKind>>,
) -> bool {
    &&& after == before + reset_calls(driven_low, driven_high) + transaction_calls(waits)
    &&& waits.len() <= TRANSACTION_WAITS
    &&& (driven_low is Err || driven_high is Err) ==> waits.len() == 0
    &&& forall|w: int|
        0 <= w < waits.len() ==> wait_taken(#[trigger] waits[w], wait_bound(w as nat))
    &&& forall|w: int|
        0 <= w < waits.len() - 1 ==> wait_result(w as nat, #[trigger] waits[w]) is Ok
    &&& (driven_low is Ok && driven_high is Ok && waits.len() < TRANSACTION_WAITS) ==> waits.len()
        > 0 && wait_result((waits.len() - 1) as nat, waits.last()) is Err
    &&& result == read_outcome(driven_low, driven_high, lines_of(waits))
}

/// A wait's result is what the model makes of the line that was sampled:
/// if `samples` are all the samples of a wait and `line` is any line that
/// shows them, the wait comes to the same on both.
pub proof fn lemma_wait_follows_the_line(
    samples: Seq<Result<bool, ErrorKind>>,
    line: spec_fn(nat) -> Result<bool, ErrorKind>,
    timeout_us: u32,
    error: DhtError<ErrorKind>,
)
    requires
        wait_taken(samples, timeout_us),
        forall|t: int| 0 <= t < samples.len() ==> #[trigger] samples[t] == line(t as nat),
    ensures
        wait_outcome(line_of(samples), timeout_us, error) == wait_outcome(line, timeout_us, error),
{
    let own = line_of(samples);
    if samples.len() > 0 && samples.last() != Ok::<bool, ErrorKind>(false) {
        let last: nat = (samples.len() - 1) as nat;
        assert forall|t: nat| t < last implies #[trigger] own(t) == Ok::<bool, ErrorKind>(
            false,
        ) by {
            assert(samples[t as int] == Ok::<bool, ErrorKind>(false));
        }
        assert forall|t: nat| t < last implies #[trigger] line(t) == Ok::<bool, ErrorKind>(
            false,
        ) by {
            assert(samples[t as int] == Ok::<bool, ErrorKind>(false));
        }
        lemma_wait_skips_quiet(own, 0, last, timeout_us, error);
        lemma_wait_skips_quiet(line, 0, last, timeout_us, error);
        assert(own(last) == samples[last as int]);
        assert(line(last) == samples[last as int]);
    } else {
        let all: nat = timeout_us as nat;
        assert forall|t: nat| t < all implies #[trigger] own(t) == Ok::<bool, ErrorKind>(false) by {
            if t < samples.len() {
                assert(samples[t as int] == Ok::<bool, ErrorKind>(false));
            }
        }
        assert forall|t: nat| t < all implies #[trigger] line(t) == Ok::<bool, ErrorKind>(
            false,
        ) by {
            assert(samples[t as int] == Ok::<bool, ErrorKind>(false));
        }
        lemma_wait_skips_quiet(own, 0, all, timeout_us, error);
        lemma_wait_skips_quiet(line, 0, all, timeout_us, error);
    }
}

/// Whether every wait in `waits` is complete and succeeded.
pub open spec fn all_succeeded(waits: Seq<Seq<Result<bool, ErrorKind>>>) -> bool {
    forall|w: int|
        0 <= w < waits.len() ==> wait_taken(#[trigger] waits[w], wait_bound(w as nat))
            && wait_result(w as nat, waits[w]) is Ok
}

/// One more wait adds its calls to the transaction's and leaves the
/// earlier waits as they were.
pub proof fn lemma_wait_appended(
    start: Seq<Call>,
    before: Seq<Call>,
    after: Seq<Call>,
    waits: Seq<Seq<Result<bool, ErrorKind>>>,
    samples: Seq<Result<bool, ErrorKind>>,
    result: Result<u32, DhtError<ErrorKind>>,
)
    requires
        before == start + transaction_calls(waits),
        waited(
            before,
            after,
            samples,
            wait_bound(waits.len()),
            wait_state(waits.len()),
            wait_error(waits.len()),
            result,
        ),
    ensures
        after == start + transaction_calls(waits.push(samples)),
        wait_result(waits.len(), samples) == result,
        wait_taken(samples, wait_bound(waits.len())),
        lines_of(waits.push(samples))(waits.len()) == line_of(samples),
        forall|w: nat|
            w < waits.len() ==> #[trigger] lines_of(waits.push(samples))(w) == lines_of(waits)(w),
        forall|w: nat| w < waits.len() ==> #[trigger] lines_of(waits)(w) == line_of(waits[w as int]),
{
    let longer = waits.push(samples);
    assert(longer.drop_last() =~= waits);
    assert(after =~= start + transaction_calls(longer));
    assert forall|w: nat| w < waits.len() implies #[trigger] lines_of(longer)(w) == lines_of(
        waits,
    )(w) by {
        assert(longer[w as int] == waits[w as int]);
    }
}

/// A wait whose samples never showed the level, and never failed, took
/// exactly `timeout_us` samples and ends with the error it was handed:
/// it gives up neither earlier nor later.
pub proof fn lemma_quiet_wait_times_out(
    samples: Seq<Result<bool, ErrorKind>>,
    timeout_us: u32,
    error: DhtError<ErrorKind>,
)
    requires
        wait_taken(samples, timeout_us),
        forall|t: int| 0 <= t < samples.len() ==> #[trigger] samples[t] == Ok::<bool, ErrorKind>(
            false,
        ),
    ensures
        samples.len() == timeout_us,
        wait_outcome(line_of(samples), timeout_us, error) == Err::<u32, DhtError<ErrorKind>>(
            error,
        ),
{
    let line = line_of(samples);
    assert forall|t: nat| t < timeout_us implies #[trigger] line(t) == Ok::<bool, ErrorKind>(
        false,
    ) by {
        assert(samples[t as int] == Ok::<bool, ErrorKind>(false));
    }
    lemma_wait_skips_quiet(line, 0, timeout_us as nat, timeout_us, error);
}

/// A wait whose last sample showed the level returns the number of
/// samples before it: the tick at which the level was first seen.
pub proof fn lemma_level_ends_wait(
    samples: Seq<Result<bool, ErrorKind>>,
    timeout_us: u32,
    error: DhtError<ErrorKind>,
)
    requires
        wait_taken(samples, timeout_us),
        samples.len() > 0,
        samples.last() == Ok::<bool, ErrorKind>(true),
    ensures
        wait_outcome(line_of(samples), timeout_us, error) == Ok::<u32, DhtError<ErrorKind>>(
            (samples.len() - 1) as u32,
        ),
{
    let line = line_of(samples);
    let last: nat = (samples.len() - 1) as nat;
    assert forall|t: nat| t < last implies #[trigger] line(t) == Ok::<bool, ErrorKind>(false) by {
        assert(samples[t as int] == Ok::<bool, ErrorKind>(false));
    }
    lemma_wait_skips_quiet(line, 0, last, timeout_us, error);
    assert(line(last) == samples[last as int]);
}

/// A wait whose last sample failed returns that fault, not the error it
/// was handed.
pub proof fn lemma_fault_ends_wait_taken(
    samples: Seq<Result<bool, ErrorKind>>,
    timeout_us: u32,
    error: DhtError<ErrorKind>,
    fault: ErrorKind,
)
    requires
        wait_taken(samples, timeout_us),
        samples.len() > 0,
        samples.last() == Err::<bool, ErrorKind>(fault),
    ensures
        wait_outcome(line_of(samples), timeout_us, error) == Err::<u32, DhtError<ErrorKind>>(
            DhtError::PinError(fault),
        ),
{
    let line = line_of(samples);
    let last: nat = (samples.len() - 1) as nat;
    assert forall|t: nat| t < last implies #[trigger] line(t) == Ok::<bool, ErrorKind>(false) by {
        assert(samples[t as int] == Ok::<bool, ErrorKind>(false));
    }
    lemma_wait_skips_quiet(line, 0, last, timeout_us, error);
    assert(line(last) == samples[last as int]);
}

/// The calls of a wait, written out: sample `t` is call `2t`, and the
/// pause of one tick after it is call `2t + 1`. There is a pause after
/// every sample but one that ended the wait, and there are no other
/// calls: a wait only ever samples the level it waits for and pauses for
/// one tick; it never drives the line.
pub proof fn lemma_wait_calls_alternate(state: PinState, samples: Seq<Result<bool, ErrorKind>>)
    requires
        forall|t: int|
            0 <= t < samples.len() - 1 ==> #[trigger] samples[t] == Ok::<bool, ErrorKind>(false),
    ensures
        wait_calls(state, samples).len() == if samples.len() > 0 && samples.last() != Ok::<
            bool,
            ErrorKind,
        >(false) {
            2 * samples.len() - 1
        } else {
            2 * samples.len() as int
        },
        forall|t: int|
            0 <= t < samples.len() ==> #[trigger] wait_calls(state, samples)[2 * t] == sample_call(
                state,
                samples[t],
            ),
        forall|t: int|
            0 <= t && 2 * t + 1 < wait_calls(state, samples).len() ==> #[trigger] wait_calls(
                state,
                samples,
            )[2 * t + 1] == Call::DelayUs(TICK_US),
    decreases samples.len(),
{
    if samples.len() > 0 {
        let earlier = samples.drop_last();
        assert forall|t: int| 0 <= t < earlier.len() - 1 implies #[trigger] earlier[t] == Ok::<
            bool,
            ErrorKind,
        >(false) by {
            assert(samples[t] == Ok::<bool, ErrorKind>(false));
        }
        assert(earlier.len() > 0 ==> earlier.last() == Ok::<bool, ErrorKind>(false)) by {
            if earlier.len() > 0 {
                assert(samples[earlier.len() - 1] == Ok::<bool, ErrorKind>(false));
            }
        }
        lemma_wait_calls_alternate(state, earlier);
        let calls = wait_calls(state, samples);
        assert forall|t: int| 0 <= t < samples.len() implies #[trigger] calls[2 * t]
            == sample_call(state, samples[t]) by {
            if t < earlier.len() {
                assert(wait_calls(state, earlier)[2 * t] == sample_call(state, earlier[t]));
            }
        }
        assert forall|t: int| 0 <= t && 2 * t + 1 < calls.len() implies #[trigger] calls[2 * t + 1]
            == Call::DelayUs(TICK_US) by {
            if 2 * t + 1 < wait_calls(state, earlier).len() {
                assert(wait_calls(state, earlier)[2 * t + 1] == Call::DelayUs(TICK_US));
            }
        }
    }
}

/// Whether `call` samples the line or pauses for one tick: the only calls
/// made once the bus reset is over.
pub open spec fn listens(call: Call) -> bool {
    call is IsLow || call is IsHigh || call == Call::DelayUs(TICK_US)
}

/// A wait never drives the line and never pauses for more than a tick.
pub proof fn lemma_wait_only_listens(
    state: PinState,
    samples: Seq<Result<bool, ErrorKind>>,
    index: int,
)
    requires
        0 <= index < wait_calls(state, samples).len(),
    ensures
        listens(wait_calls(state, samples)[index]),
        state == PinState::High ==> !(wait_calls(state, samples)[index] is IsLow),
        state == PinState::Low ==> !(wait_calls(state, samples)[index] is IsHigh),
    decreases samples.len(),
{
    if samples.len() > 0 {
        if index < wait_calls(state, samples.drop_last()).len() {
            lemma_wait_only_listens(state, samples.drop_last(), index);
        }
    }
}

/// After the bus reset a transaction only listens: the line is driven in
/// the reset and nowhere else.
pub proof fn lemma_transaction_only_listens(waits: Seq<Seq<Result<bool, ErrorKind>>>, index: int)
    requires
        0 <= index < transaction_calls(waits).len(),
    ensures
        listens(transaction_calls(waits)[index]),
    decreases waits.len(),
{
    if waits.len() > 0 {
        let earlier = transaction_calls(waits.drop_last());
        if index < earlier.len() {
            lemma_transaction_only_listens(waits.drop_last(), index);
        } else {
            lemma_wait_only_listens(
                wait_state((waits.len() - 1) as nat),
                waits.last(),
                index - earlier.len(),
            );
        }
    }
}

/// While every wait succeeds, the capture goes on.
proof fn lemma_capture_goes_on(waits: Seq<Seq<Result<bool, ErrorKind>>>, bits: nat)
    requires
        2 + 2 * bits <= waits.len(),
        forall|w: int| 0 <= w < 2 + 2 * bits ==> wait_result(w as nat, #[trigger] waits[w]) is Ok,
    ensures
        capture_upto(lines_of(waits), bits) is Ok,
    decreases bits,
{
    if bits > 0 {
        let bit: nat = (bits - 1) as nat;
        lemma_capture_goes_on(waits, bit);
        assert(wait_result(2 + 2 * bit, waits[2 + 2 * bit as int]) is Ok);
        assert(wait_result(3 + 2 * bit, waits[3 + 2 * bit as int]) is Ok);
        assert(lines_of(waits)(2 + 2 * bit) == line_of(waits[2 + 2 * bit as int]));
        assert(lines_of(waits)(3 + 2 * bit) == line_of(waits[3 + 2 * bit as int]));
    }
}

/// The first step that fails decides the result, and nothing is called
/// after it.
///
/// A fault while driving the line is the result, and the journal ends
/// with the call that failed. A wait that fails is the last wait made, and
/// its error is the result. A reading is only ever the result of a
/// transaction that made every one of its waits.
pub proof fn lemma_first_failure_decides(
    before: Seq<Call>,
    after: Seq<Call>,
    driven_low: Result<(), ErrorKind>,
    driven_high: Result<(), ErrorKind>,
    waits: Seq<Seq<Result<bool, ErrorKind>>>,
    result: Result<Reading, DhtError<ErrorKind>>,
)
    requires
        transacted(before, after, driven_low, driven_high, waits, result),
    ensures
        driven_low matches Err(fault) ==> result == Err::<Reading, DhtError<ErrorKind>>(
            DhtError::PinError(fault),
        ) && after == before.push(Call::SetLow(driven_low)),
        driven_low is Ok ==> (driven_high matches Err(fault) ==> result == Err::<
            Reading,
            DhtError<ErrorKind>,
        >(DhtError::PinError(fault)) && after == before.push(Call::SetLow(driven_low)).push(
            Call::DelayUs(RESET_LOW_US),
        ).push(Call::SetHigh(driven_high))),
        driven_low is Ok && driven_high is Ok && waits.len() > 0 ==> (wait_result(
            (waits.len() - 1) as nat,
            waits.last(),
        ) matches Err(e) ==> result == Err::<Reading, DhtError<ErrorKind>>(e)),
        result is Ok ==> driven_low is Ok && driven_high is Ok && waits.len() == TRANSACTION_WAITS,
{
    if driven_low is Err || driven_high is Err {
        assert(waits =~= Seq::empty());
        assert(after =~= before + reset_calls(driven_low, driven_high));
        if driven_low is Err {
            assert(after =~= before.push(Call::SetLow(driven_low)));
        } else {
            assert(after =~= before.push(Call::SetLow(driven_low)).push(
                Call::DelayUs(RESET_LOW_US),
            ).push(Call::SetHigh(driven_high)));
        }
    } else if waits.len() > 0 {
        let lines = lines_of(waits);
        let last: nat = (waits.len() - 1) as nat;
        assert(lines(last) == line_of(waits[last as int]));
        if wait_result(last, waits.last()) is Err {
            let e = wait_result(last, waits.last())->Err_0;
            if last >= 1 {
                assert(wait_result(0, waits[0]) is Ok);
                assert(lines(0) == line_of(waits[0]));
            }
            if last >= 2 {
                assert(wait_result(1, waits[1]) is Ok);
                assert(lines(1) == line_of(waits[1]));
                let bit: nat = ((last - 2) / 2) as nat;
                lemma_capture_goes_on(waits, bit);
                if last == 3 + 2 * bit {
                    assert(wait_result(2 + 2 * bit, waits[2 + 2 * bit as int]) is Ok);
                    assert(lines(2 + 2 * bit) == line_of(waits[2 + 2 * bit as int]));
                }
                assert(capture_upto(lines, bit + 1) == Err::<Seq<u8>, DhtError<ErrorKind>>(e));
                lemma_capture_error_is_final(lines, bit + 1, FRAME_BITS as nat, e);
            }
        }
    }
}

} // verus!
