//! The driver: bus reset, presence handshake and the capture of forty bits.

use crate::frame::{decode, record_pulse, FRAME_BITS};
use crate::journal::{
    all_succeeded, lemma_wait_appended, line_of, lines_of, reset_calls, transacted,
    transaction_calls, wait_calls, waited,
};
use crate::line::{drive_high, drive_low, pause_us, sample_high, sample_low, Bus, Call};
use crate::protocol::{
    capture_upto, lemma_capture_error_is_final, lemma_capture_looks_at_its_waits,
    lemma_wait_skips_quiet, quiet, settle, BIT_TIMEOUT_US, PRESENCE_TIMEOUT_US, RELEASE_US,
    RESET_LOW_US, TICK_US,
};
use embedded_hal::delay::DelayNs;
use embedded_hal::digital::{ErrorKind, InputPin, OutputPin, PinState};
use vstd::prelude::*;

pub use crate::error::DhtError;
pub use crate::reading::Reading;

verus! {

/// A DHT11 on a line `P`, timed by a delay `D`.
///
/// The line has to be able to both drive and sample the wire, as an
/// open-drain output can. A fault of the line is reported by its kind.
pub struct Dht11<P, D> {
    bus: Bus<P, D>,
}

impl<P: InputPin + OutputPin, D: DelayNs> Dht11<P, D> {
    /// The line the driver talks over.
    pub closed spec fn line(&self) -> P {
        self.bus.line()
    }

    /// The delay the driver counts time with.
    pub closed spec fn timer(&self) -> D {
        self.bus.timer()
    }

    /// Every call the driver has made on its line and its delay, oldest
    /// first.
    pub closed spec fn calls(&self) -> Seq<Call> {
        self.bus.calls()
    }

    /// Takes the line and the delay. Nothing is sent yet.
    pub fn new(pin: P, delay: D) -> (driver: Self)
        ensures
            driver.line() == pin,
            driver.timer() == delay,
            driver.calls() == Seq::<Call>::empty(),
    {
        Self { bus: Bus::new(pin, delay) }
    }

    /// Samples the line once per tick until it is at `state`.
    ///
    /// Returns the number of samples that did not show `state` before the
    /// one that did. After `timeout_us` such samples the wait is given up
    /// with `error`; a fault of the line ends it at once.
    ///
    /// The contract names the samples that were taken: the calls made are
    /// exactly those for these samples (see [`wait_calls`]), and the result
    /// is what [`crate::protocol::wait_outcome`] makes of them.
    pub fn wait_signal(
        &mut self,
        timeout_us: u32,
        state: PinState,
        error: DhtError<ErrorKind>,
    ) -> (result: Result<u32, DhtError<ErrorKind>>)
        ensures
            exists|samples: Seq<Result<bool, ErrorKind>>| #[trigger]
                waited(
                    old(self).calls(),
                    final(self).calls(),
                    samples,
                    timeout_us,
                    state,
                    error,
                    result,
                ),
            timeout_us == 0 ==> result == Err::<u32, DhtError<ErrorKind>>(error),
            result matches Ok(elapsed) ==> elapsed < timeout_us,
            result matches Err(e) ==> e == error || e is PinError,
    {
        let ghost mut samples: Seq<Result<bool, ErrorKind>> = Seq::empty();
        let mut tick: u32 = 0;
        while tick < timeout_us
            invariant
                tick <= timeout_us,
                samples.len() == tick,
                forall|t: int|
                    0 <= t < samples.len() ==> #[trigger] samples[t] == Ok::<bool, ErrorKind>(
                        false,
                    ),
                self.bus.calls() == old(self).bus.calls() + wait_calls(state, samples),
            decreases timeout_us - tick,
        {
            let sample: Result<bool, ErrorKind> = match state {
                PinState::Low => sample_low(&mut self.bus),
                PinState::High => sample_high(&mut self.bus),
            };
            let ghost taken = samples.push(sample);
            proof {
                assert(taken.drop_last() =~= samples);
            }
            match settle(tick, sample) {
                Some(outcome) => {
                    proof {
                        let line = line_of(taken);
                        assert(quiet(line, 0, tick as nat)) by {
                            assert forall|t: nat| t < tick implies #[trigger] line(t) == Ok::<
                                bool,
                                ErrorKind,
                            >(false) by {
                                assert(taken[t as int] == samples[t as int]);
                            }
                        }
                        lemma_wait_skips_quiet(line, 0, tick as nat, timeout_us, error);
                        assert(line(tick as nat) == sample);
                        assert(self.bus.calls() =~= old(self).bus.calls() + wait_calls(
                            state,
                            taken,
                        ));
                        assert(waited(
                            old(self).calls(),
                            self.calls(),
                            taken,
                            timeout_us,
                            state,
                            error,
                            outcome,
                        ));
                    }
                    return outcome;
                },
                None => {},
            }
            pause_us(&mut self.bus, TICK_US);
            proof {
                assert(self.bus.calls() =~= old(self).bus.calls() + wait_calls(state, taken));
                samples = taken;
            }
            tick = tick + 1;
        }
        proof {
            let line = line_of(samples);
            assert(quiet(line, 0, timeout_us as nat)) by {
                assert forall|t: nat| t < timeout_us implies #[trigger] line(t) == Ok::<
                    bool,
                    ErrorKind,
                >(false) by {
                    assert(samples[t as int] == Ok::<bool, ErrorKind>(false));
                }
            }
            lemma_wait_skips_quiet(line, 0, timeout_us as nat, timeout_us, error);
            assert(waited(
                old(self).calls(),
                self.calls(),
                samples,
                timeout_us,
                state,
                error,
                Err::<u32, DhtError<ErrorKind>>(error),
            ));
        }
        Err(error)
    }

    /// Runs one transaction with the sensor and returns what it measured.
    ///
    /// The host holds the line low for [`RESET_LOW_US`] microseconds,
    /// releases it for [`RELEASE_US`], waits for the sensor to raise and
    /// lower the line, then measures the high pulse of each of the forty
    /// bit cells and decodes the frame they spell. The first failure ends
    /// the transaction; nothing is tried twice and nothing is called after
    /// it.
    ///
    /// The contract names what the line answered: the calls made are
    /// exactly those of the reset and of the waits that were made (see
    /// [`transacted`]), and the result is what
    /// [`crate::protocol::read_outcome`] makes of those answers.
    pub fn read(&mut self) -> (result: Result<Reading, DhtError<ErrorKind>>)
        ensures
            exists|
                driven_low: Result<(), ErrorKind>,
                driven_high: Result<(), ErrorKind>,
                waits: Seq<Seq<Result<bool, ErrorKind>>>,
            | #[trigger]
                transacted(
                    old(self).calls(),
                    final(self).calls(),
                    driven_low,
                    driven_high,
                    waits,
                    result,
                ),
            result matches Ok(reading) ==> reading.plausible(),
            result matches Err(DhtError::ChecksumMismatch(found, computed)) ==> found != computed,
    {
        let ghost before = self.bus.calls();
        let ghost none: Seq<Seq<Result<bool, ErrorKind>>> = Seq::empty();
        let mut frame: [u8; 5] = [0u8; 5];

        let driven_low: Result<(), ErrorKind> = drive_low(&mut self.bus);
        match driven_low {
            Ok(_) => {},
            Err(fault) => {
                let failed: Result<Reading, DhtError<ErrorKind>> = Err(DhtError::from(fault));
                proof {
                    assert(self.bus.calls() =~= before + reset_calls(driven_low, Ok(()))
                        + transaction_calls(none));
                }
                assert(transacted(old(self).calls(), self.calls(), driven_low, Ok(()), none, failed));
                return failed;
            },
        }
        pause_us(&mut self.bus, RESET_LOW_US);
        let driven_high: Result<(), ErrorKind> = drive_high(&mut self.bus);
        match driven_high {
            Ok(_) => {},
            Err(fault) => {
                let failed: Result<Reading, DhtError<ErrorKind>> = Err(DhtError::from(fault));
                proof {
                    assert(self.bus.calls() =~= before + reset_calls(driven_low, driven_high)
                        + transaction_calls(none));
                }
                assert(transacted(old(self).calls(), self.calls(), driven_low, driven_high, none, failed));
                return failed;
            },
        }
        pause_us(&mut self.bus, RELEASE_US);
        let ghost start = before + reset_calls(driven_low, driven_high);
        assert(self.bus.calls() =~= start + transaction_calls(none));

        let ghost mut waits = none;
        let ghost mut earlier = self.bus.calls();
        let raised = self.wait_signal(PRESENCE_TIMEOUT_US, PinState::High, DhtError::NotPresent);
        proof {
            let samples = choose|samples: Seq<Result<bool, ErrorKind>>|
                waited(
                    earlier,
                    self.calls(),
                    samples,
                    PRESENCE_TIMEOUT_US,
                    PinState::High,
                    DhtError::NotPresent,
                    raised,
                );
            lemma_wait_appended(start, earlier, self.calls(), waits, samples, raised);
            waits = waits.push(samples);
        }
        match raised {
            Ok(_) => {},
            Err(e) => {
                let failed: Result<Reading, DhtError<ErrorKind>> = Err(e);
                assert(transacted(old(self).calls(), self.calls(), driven_low, driven_high, waits, failed));
                return failed;
            },
        }
        proof {
            earlier = self.bus.calls();
        }
        let lowered = self.wait_signal(PRESENCE_TIMEOUT_US, PinState::Low, DhtError::NotPresent);
        proof {
            let samples = choose|samples: Seq<Result<bool, ErrorKind>>|
                waited(
                    earlier,
                    self.calls(),
                    samples,
                    PRESENCE_TIMEOUT_US,
                    PinState::Low,
                    DhtError::NotPresent,
                    lowered,
                );
            lemma_wait_appended(start, earlier, self.calls(), waits, samples, lowered);
            waits = waits.push(samples);
        }
        match lowered {
            Ok(_) => {},
            Err(e) => {
                let failed: Result<Reading, DhtError<ErrorKind>> = Err(e);
                assert(transacted(old(self).calls(), self.calls(), driven_low, driven_high, waits, failed));
                return failed;
            },
        }

        assert(frame@ =~= seq![0u8, 0u8, 0u8, 0u8, 0u8]);
        let mut bit: usize = 0;
        while bit < FRAME_BITS
            invariant
                bit <= FRAME_BITS,
                before == old(self).bus.calls(),
                start == before + reset_calls(driven_low, driven_high),
                driven_low is Ok,
                driven_high is Ok,
                waits.len() == 2 + 2 * bit,
                self.bus.calls() == start + transaction_calls(waits),
                all_succeeded(waits),
                capture_upto(lines_of(waits), bit as nat) == Ok::<Seq<u8>, DhtError<ErrorKind>>(
                    frame@,
                ),
            decreases FRAME_BITS - bit,
        {
            let ghost handshake = waits;
            proof {
                earlier = self.bus.calls();
            }
            let started = self.wait_signal(BIT_TIMEOUT_US, PinState::High, DhtError::Timeout);
            proof {
                let samples = choose|samples: Seq<Result<bool, ErrorKind>>|
                    waited(
                        earlier,
                        self.calls(),
                        samples,
                        BIT_TIMEOUT_US,
                        PinState::High,
                        DhtError::Timeout,
                        started,
                    );
                lemma_wait_appended(start, earlier, self.calls(), waits, samples, started);
                lemma_capture_looks_at_its_waits(
                    lines_of(waits.push(samples)),
                    lines_of(waits),
                    bit as nat,
                );
                waits = waits.push(samples);
            }
            match started {
                Ok(_) => {},
                Err(e) => {
                    let failed: Result<Reading, DhtError<ErrorKind>> = Err(e);
                    proof {
                        assert(capture_upto(lines_of(waits), (bit + 1) as nat) == Err::<
                            Seq<u8>,
                            DhtError<ErrorKind>,
                        >(e));
                        lemma_capture_error_is_final(
                            lines_of(waits),
                            (bit + 1) as nat,
                            FRAME_BITS as nat,
                            e,
                        );
                    }
                    assert(transacted(
                        old(self).calls(),
                        self.calls(),
                        driven_low,
                        driven_high,
                        waits,
                        failed,
                    ));
                    return failed;
                },
            }
            proof {
                earlier = self.bus.calls();
            }
            let ended = self.wait_signal(BIT_TIMEOUT_US, PinState::Low, DhtError::Timeout);
            proof {
                let samples = choose|samples: Seq<Result<bool, ErrorKind>>|
                    waited(
                        earlier,
                        self.calls(),
                        samples,
                        BIT_TIMEOUT_US,
                        PinState::Low,
                        DhtError::Timeout,
                        ended,
                    );
                lemma_wait_appended(start, earlier, self.calls(), waits, samples, ended);
                lemma_capture_looks_at_its_waits(
                    lines_of(waits.push(samples)),
                    lines_of(waits),
                    bit as nat,
                );
                waits = waits.push(samples);
            }
            match ended {
                Ok(elapsed) => {
                    record_pulse(&mut frame, bit, elapsed);
                },
                Err(e) => {
                    let failed: Result<Reading, DhtError<ErrorKind>> = Err(e);
                    proof {
                        assert(capture_upto(lines_of(waits), (bit + 1) as nat) == Err::<
                            Seq<u8>,
                            DhtError<ErrorKind>,
                        >(e));
                        lemma_capture_error_is_final(
                            lines_of(waits),
                            (bit + 1) as nat,
                            FRAME_BITS as nat,
                            e,
                        );
                    }
                    assert(transacted(
                        old(self).calls(),
                        self.calls(),
                        driven_low,
                        driven_high,
                        waits,
                        failed,
                    ));
                    return failed;
                },
            }
            bit = bit + 1;
        }
        let result = decode(&frame);
        assert(transacted(old(self).calls(), self.calls(), driven_low, driven_high, waits, result));
        result
    }
}

} // verus!
