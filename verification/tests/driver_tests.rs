//! The driver on a simulated line: a waveform that starts when the host
//! releases the bus, sampled at the time a simulated delay has counted.

use driver::dht11::{Dht11, DhtError, Reading};
use embedded_hal::delay::DelayNs;
use embedded_hal::digital::{Error, ErrorKind, ErrorType, InputPin, OutputPin, PinState};
use std::cell::RefCell;
use std::rc::Rc;

/// How long a simulated cell's low phase, short pulse and long pulse last.
const CELL_LOW: u64 = 50;
const SHORT: u64 = 27;
const LONG: u64 = 40;

#[derive(Debug, Clone, Copy, PartialEq)]
struct Fault;

impl Error for Fault {
    fn kind(&self) -> ErrorKind {
        ErrorKind::Other
    }
}

/// The wire and the clock, shared by the simulated line and delay.
struct Bench {
    now_ns: u64,
    /// When the host last released the line, if it has.
    released_at_ns: Option<u64>,
    /// Whether the host holds the line low.
    held_low: bool,
    /// Levels (`true` is high) and how long each lasts in microseconds,
    /// from the moment of release. After the last one the line idles high.
    wave: Vec<(bool, u64)>,
    /// Every pause asked for, in nanoseconds.
    pauses_ns: Vec<u64>,
    samples: u64,
    /// How many of the samples asked whether the line is high, and low.
    asked_high: u64,
    asked_low: u64,
    /// What the host did to the line, in order.
    driven: Vec<PinState>,
    fail_set_low: bool,
    fail_set_high: bool,
    /// Fail the sample with this number (counted from zero).
    fail_sample: Option<u64>,
}

impl Bench {
    fn new(wave: Vec<(bool, u64)>) -> Rc<RefCell<Bench>> {
        Rc::new(RefCell::new(Bench {
            now_ns: 0,
            released_at_ns: None,
            held_low: false,
            wave,
            pauses_ns: Vec::new(),
            samples: 0,
            asked_high: 0,
            asked_low: 0,
            driven: Vec::new(),
            fail_set_low: false,
            fail_set_high: false,
            fail_sample: None,
        }))
    }

    fn is_high(&self) -> bool {
        if self.held_low {
            return false;
        }
        let Some(released) = self.released_at_ns else {
            return true;
        };
        let mut since_us = (self.now_ns - released) / 1000;
        for (high, lasts) in &self.wave {
            if since_us < *lasts {
                return *high;
            }
            since_us -= *lasts;
        }
        true
    }

    fn sample(&mut self) -> Result<bool, Fault> {
        let number = self.samples;
        self.samples += 1;
        if self.fail_sample == Some(number) {
            return Err(Fault);
        }
        Ok(self.is_high())
    }

    fn paused_us(&self) -> u64 {
        self.pauses_ns.iter().sum::<u64>() / 1000
    }
}

struct SimLine(Rc<RefCell<Bench>>);

struct SimDelay(Rc<RefCell<Bench>>);

impl ErrorType for SimLine {
    type Error = Fault;
}

impl OutputPin for SimLine {
    fn set_low(&mut self) -> Result<(), Fault> {
        let mut bench = self.0.borrow_mut();
        if bench.fail_set_low {
            return Err(Fault);
        }
        bench.driven.push(PinState::Low);
        bench.held_low = true;
        bench.released_at_ns = None;
        Ok(())
    }

    fn set_high(&mut self) -> Result<(), Fault> {
        let mut bench = self.0.borrow_mut();
        if bench.fail_set_high {
            return Err(Fault);
        }
        bench.driven.push(PinState::High);
        bench.held_low = false;
        bench.released_at_ns = Some(bench.now_ns);
        Ok(())
    }
}

impl InputPin for SimLine {
    fn is_high(&mut self) -> Result<bool, Fault> {
        let mut bench = self.0.borrow_mut();
        bench.asked_high += 1;
        bench.sample()
    }

    fn is_low(&mut self) -> Result<bool, Fault> {
        let mut bench = self.0.borrow_mut();
        bench.asked_low += 1;
        bench.sample().map(|high| !high)
    }
}

impl DelayNs for SimDelay {
    fn delay_ns(&mut self, ns: u32) {
        let mut bench = self.0.borrow_mut();
        bench.now_ns += ns as u64;
        bench.pauses_ns.push(ns as u64);
    }
}

fn driver_on(bench: &Rc<RefCell<Bench>>) -> Dht11<SimLine, SimDelay> {
    Dht11::new(SimLine(bench.clone()), SimDelay(bench.clone()))
}

/// The sensor's answer to a bus reset, with one high-pulse length per bit.
fn answer_with_pulses(pulses: &[u64]) -> Vec<(bool, u64)> {
    let mut wave = vec![(true, 20), (false, 80), (true, 80)];
    for pulse in pulses {
        wave.push((false, CELL_LOW));
        wave.push((true, *pulse));
    }
    wave.push((false, CELL_LOW));
    wave
}

fn pulses_of(frame: [u8; 5]) -> Vec<u64> {
    let mut pulses = Vec::new();
    for byte in frame {
        for position in (0..8).rev() {
            pulses.push(if byte >> position & 1 == 1 { LONG } else { SHORT });
        }
    }
    pulses
}

fn read_frame(frame: [u8; 5]) -> Result<Reading, DhtError<ErrorKind>> {
    let bench = Bench::new(answer_with_pulses(&pulses_of(frame)));
    driver_on(&bench).read()
}

/// A line that is already released and stays at one level for ever.
fn stuck(high: bool) -> Rc<RefCell<Bench>> {
    let bench = Bench::new(vec![(high, u64::MAX / 2)]);
    bench.borrow_mut().released_at_ns = Some(0);
    bench
}

#[test]
fn reads_a_frame_end_to_end() {
    let reading = read_frame([0x32, 0x00, 0x1B, 0x00, 0x4D]).expect("a consistent frame");
    assert_eq!(reading.humidity_tenths, 500);
    assert_eq!(reading.temperature_tenths, 270);
    assert_eq!(reading.humidity_tenths as f32 / 10.0, 50.0);
    assert_eq!(reading.temperature_tenths as f32 / 10.0, 27.0);
}

#[test]
fn reads_a_frame_with_the_sign_flag() {
    let reading = read_frame([0x32, 0x00, 0x9B, 0x00, 0xCD]).expect("a consistent frame");
    assert_eq!(reading.humidity_tenths, 500);
    assert!(reading.temperature_tenths < 0);
    assert_eq!(reading.temperature_tenths, -1550);
}

#[test]
fn reads_fractional_parts() {
    let reading = read_frame([41, 7, 23, 4, 75]).expect("a consistent frame");
    assert_eq!(reading.humidity_tenths, 417);
    assert_eq!(reading.temperature_tenths, 234);
}

#[test]
fn bits_arrive_most_significant_first() {
    // Only the very first pulse is long: that is the top bit of byte 0.
    let mut pulses = vec![SHORT; 40];
    pulses[0] = LONG;
    let bench = Bench::new(answer_with_pulses(&pulses));
    let result = driver_on(&bench).read();
    // Frame 0x80 00 00 00 00: the checksum byte should have been 0x80.
    assert!(matches!(result, Err(DhtError::ChecksumMismatch(0x00, 0x80))));
}

#[test]
fn resets_the_bus_before_listening() {
    let bench = Bench::new(answer_with_pulses(&pulses_of([0x32, 0x00, 0x1B, 0x00, 0x4D])));
    driver_on(&bench).read().expect("a consistent frame");
    let bench = bench.borrow();
    assert_eq!(bench.driven, vec![PinState::Low, PinState::High]);
    assert_eq!(bench.pauses_ns[0], 3_000_000);
    assert_eq!(bench.pauses_ns[1], 25_000);
    assert!(bench.pauses_ns[2..].iter().all(|pause| *pause == 1000));
}

#[test]
fn pulse_of_thirty_ticks_is_a_zero() {
    // Bits 7 and 39 are the lowest bits of the humidity and of the checksum.
    let mut pulses = vec![SHORT; 40];
    pulses[7] = 30;
    pulses[39] = 30;
    let bench = Bench::new(answer_with_pulses(&pulses));
    let reading = driver_on(&bench).read().expect("an all-zero frame");
    assert_eq!(reading.humidity_tenths, 0);
    assert_eq!(reading.temperature_tenths, 0);
}

#[test]
fn pulse_of_thirty_one_ticks_is_a_one() {
    let mut pulses = vec![SHORT; 40];
    pulses[7] = 31;
    pulses[39] = 31;
    let bench = Bench::new(answer_with_pulses(&pulses));
    let reading = driver_on(&bench).read().expect("frame 01 00 00 00 01");
    assert_eq!(reading.humidity_tenths, 10);
    assert_eq!(reading.temperature_tenths, 0);
}

#[test]
fn wait_returns_the_tick_of_the_first_match() {
    let bench = Bench::new(vec![(false, 30), (true, 100)]);
    bench.borrow_mut().released_at_ns = Some(0);
    let mut driver = driver_on(&bench);
    let waited = driver.wait_signal(85, PinState::High, DhtError::NotPresent);
    assert!(matches!(waited, Ok(30)));
    assert_eq!(bench.borrow().paused_us(), 30);
    assert_eq!(bench.borrow().samples, 31);
}

#[test]
fn wait_for_low_samples_the_low_level() {
    let bench = Bench::new(vec![(true, 12), (false, 100)]);
    bench.borrow_mut().released_at_ns = Some(0);
    let mut driver = driver_on(&bench);
    let waited = driver.wait_signal(55, PinState::Low, DhtError::Timeout);
    assert!(matches!(waited, Ok(12)));
}

#[test]
fn wait_on_a_line_already_at_the_level_returns_zero() {
    let bench = stuck(true);
    let mut driver = driver_on(&bench);
    let waited = driver.wait_signal(85, PinState::High, DhtError::NotPresent);
    assert!(matches!(waited, Ok(0)));
    assert_eq!(bench.borrow().paused_us(), 0);
}

#[test]
fn presence_wait_times_out_after_exactly_its_bound() {
    let bench = stuck(false);
    let mut driver = driver_on(&bench);
    let waited = driver.wait_signal(85, PinState::High, DhtError::NotPresent);
    assert!(matches!(waited, Err(DhtError::NotPresent)));
    assert_eq!(bench.borrow().paused_us(), 85);
    assert_eq!(bench.borrow().samples, 85);
}

#[test]
fn bit_wait_times_out_after_exactly_its_bound() {
    let bench = stuck(true);
    let mut driver = driver_on(&bench);
    let waited = driver.wait_signal(55, PinState::Low, DhtError::Timeout);
    assert!(matches!(waited, Err(DhtError::Timeout)));
    assert_eq!(bench.borrow().paused_us(), 55);
    assert_eq!(bench.borrow().samples, 55);
}

#[test]
fn match_at_the_last_tick_is_still_in_time() {
    let bench = Bench::new(vec![(false, 54), (true, 100)]);
    bench.borrow_mut().released_at_ns = Some(0);
    let waited = driver_on(&bench).wait_signal(55, PinState::High, DhtError::Timeout);
    assert!(matches!(waited, Ok(54)));
}

#[test]
fn match_one_tick_after_the_bound_is_too_late() {
    let bench = Bench::new(vec![(false, 55), (true, 100)]);
    bench.borrow_mut().released_at_ns = Some(0);
    let waited = driver_on(&bench).wait_signal(55, PinState::High, DhtError::Timeout);
    assert!(matches!(waited, Err(DhtError::Timeout)));
}

#[test]
fn wait_of_zero_microseconds_fails_without_sampling() {
    let bench = stuck(true);
    let waited = driver_on(&bench).wait_signal(0, PinState::High, DhtError::Timeout);
    assert!(matches!(waited, Err(DhtError::Timeout)));
    assert_eq!(bench.borrow().samples, 0);
}

#[test]
fn wait_gives_back_the_error_it_was_handed() {
    let bench = stuck(false);
    let waited = driver_on(&bench).wait_signal(3, PinState::High, DhtError::ChecksumMismatch(1, 2));
    assert!(matches!(waited, Err(DhtError::ChecksumMismatch(1, 2))));
}

#[test]
fn fault_while_sampling_ends_the_wait() {
    let bench = stuck(false);
    bench.borrow_mut().fail_sample = Some(4);
    let waited = driver_on(&bench).wait_signal(85, PinState::High, DhtError::NotPresent);
    assert!(matches!(waited, Err(DhtError::PinError(ErrorKind::Other))));
    assert_eq!(bench.borrow().paused_us(), 4);
}

#[test]
fn missing_sensor_is_not_present() {
    // Nothing answers: the released line idles high and never falls.
    let bench = Bench::new(Vec::new());
    let result = driver_on(&bench).read();
    assert!(matches!(result, Err(DhtError::NotPresent)));
    assert_eq!(bench.borrow().paused_us(), 3000 + 25 + 85);
}

#[test]
fn sensor_that_holds_the_line_low_is_not_present() {
    let bench = Bench::new(vec![(false, u64::MAX / 2)]);
    let result = driver_on(&bench).read();
    assert!(matches!(result, Err(DhtError::NotPresent)));
    assert_eq!(bench.borrow().paused_us(), 3000 + 25 + 85);
}

#[test]
fn frame_that_stops_early_times_out() {
    let pulses = vec![SHORT; 17];
    let mut wave = answer_with_pulses(&pulses);
    wave.push((false, u64::MAX / 2));
    let bench = Bench::new(wave);
    let result = driver_on(&bench).read();
    assert!(matches!(result, Err(DhtError::Timeout)));
}

#[test]
fn pulse_that_never_ends_times_out() {
    let mut pulses = vec![SHORT; 40];
    pulses[5] = 55;
    let bench = Bench::new(answer_with_pulses(&pulses));
    let result = driver_on(&bench).read();
    assert!(matches!(result, Err(DhtError::Timeout)));
}

#[test]
fn fault_on_driving_low_aborts_the_read() {
    let bench = Bench::new(answer_with_pulses(&pulses_of([0x32, 0x00, 0x1B, 0x00, 0x4D])));
    bench.borrow_mut().fail_set_low = true;
    let result = driver_on(&bench).read();
    assert!(matches!(result, Err(DhtError::PinError(ErrorKind::Other))));
    assert_eq!(bench.borrow().paused_us(), 0);
    assert_eq!(bench.borrow().samples, 0);
}

#[test]
fn fault_on_release_aborts_the_read() {
    let bench = Bench::new(answer_with_pulses(&pulses_of([0x32, 0x00, 0x1B, 0x00, 0x4D])));
    bench.borrow_mut().fail_set_high = true;
    let result = driver_on(&bench).read();
    assert!(matches!(result, Err(DhtError::PinError(ErrorKind::Other))));
    assert_eq!(bench.borrow().paused_us(), 3000);
    assert_eq!(bench.borrow().samples, 0);
}

#[test]
fn fault_in_the_middle_of_a_frame_aborts_the_read() {
    let bench = Bench::new(answer_with_pulses(&pulses_of([0x32, 0x00, 0x1B, 0x00, 0x4D])));
    bench.borrow_mut().fail_sample = Some(1000);
    let result = driver_on(&bench).read();
    assert!(matches!(result, Err(DhtError::PinError(ErrorKind::Other))));
}

#[test]
fn checksum_mismatch_carries_both_values() {
    let result = read_frame([0x32, 0x00, 0x1B, 0x00, 0x4E]);
    assert!(matches!(result, Err(DhtError::ChecksumMismatch(0x4E, 0x4D))));
}

#[test]
fn humidity_of_a_hundred_percent_is_invalid() {
    let result = read_frame([100, 0, 20, 0, 120]);
    assert!(matches!(result, Err(DhtError::InvalidData)));
}

#[test]
fn each_read_is_a_fresh_transaction() {
    let bench = stuck(false);
    let mut driver = driver_on(&bench);
    assert!(matches!(driver.read(), Err(DhtError::NotPresent)));
    bench.borrow_mut().wave = answer_with_pulses(&pulses_of([0x32, 0x00, 0x1B, 0x00, 0x4D]));
    let reading = driver.read().expect("the second transaction succeeds");
    assert_eq!(reading.humidity_tenths, 500);
    assert_eq!(reading.temperature_tenths, 270);
}

#[test]
fn a_whole_read_makes_at_most_the_worst_case_number_of_samples() {
    let bench = Bench::new(answer_with_pulses(&pulses_of([0xFF, 0xFF, 0xFF, 0xFF, 0xFC])));
    let _ = driver_on(&bench).read();
    assert!(bench.borrow().samples <= 85 + 85 + 40 * (55 + 55));
}

#[test]
fn wait_for_high_only_asks_whether_the_line_is_high() {
    let bench = stuck(false);
    let waited = driver_on(&bench).wait_signal(85, PinState::High, DhtError::NotPresent);
    assert!(matches!(waited, Err(DhtError::NotPresent)));
    let bench = bench.borrow();
    assert_eq!(bench.asked_high, 85);
    assert_eq!(bench.asked_low, 0);
    assert!(bench.driven.is_empty());
    assert_eq!(bench.pauses_ns, vec![1000; 85]);
}

#[test]
fn wait_for_low_only_asks_whether_the_line_is_low() {
    let bench = stuck(true);
    let waited = driver_on(&bench).wait_signal(55, PinState::Low, DhtError::Timeout);
    assert!(matches!(waited, Err(DhtError::Timeout)));
    let bench = bench.borrow();
    assert_eq!(bench.asked_low, 55);
    assert_eq!(bench.asked_high, 0);
    assert!(bench.driven.is_empty());
    assert_eq!(bench.pauses_ns, vec![1000; 55]);
}

#[test]
fn level_after_thirty_misses_is_found_at_tick_thirty() {
    let bench = Bench::new(vec![(true, 30), (false, 100)]);
    bench.borrow_mut().released_at_ns = Some(0);
    let waited = driver_on(&bench).wait_signal(55, PinState::Low, DhtError::Timeout);
    assert!(matches!(waited, Ok(30)));
    let bench = bench.borrow();
    assert_eq!(bench.asked_low, 31);
    assert_eq!(bench.pauses_ns, vec![1000; 30]);
}

#[test]
fn level_at_the_tick_of_the_bound_is_too_late() {
    let bench = Bench::new(vec![(false, 3), (true, 100)]);
    bench.borrow_mut().released_at_ns = Some(0);
    let waited = driver_on(&bench).wait_signal(3, PinState::High, DhtError::Timeout);
    assert!(matches!(waited, Err(DhtError::Timeout)));
    let bench = bench.borrow();
    assert_eq!(bench.asked_high, 3);
    assert_eq!(bench.pauses_ns, vec![1000; 3]);
}

#[test]
fn timeout_hands_back_the_callers_own_error() {
    let bench = stuck(true);
    let waited =
        driver_on(&bench).wait_signal(2, PinState::Low, DhtError::ChecksumMismatch(1, 2));
    assert!(matches!(waited, Err(DhtError::ChecksumMismatch(1, 2))));
    assert_eq!(bench.borrow().asked_low, 2);
}

#[test]
fn nothing_is_called_after_a_failed_sample() {
    let bench = stuck(false);
    bench.borrow_mut().fail_sample = Some(4);
    let waited = driver_on(&bench).wait_signal(85, PinState::High, DhtError::NotPresent);
    assert!(matches!(waited, Err(DhtError::PinError(ErrorKind::Other))));
    let bench = bench.borrow();
    assert_eq!(bench.samples, 5);
    assert_eq!(bench.pauses_ns, vec![1000; 4]);
}

#[test]
fn longer_bound_finds_the_level_at_the_same_tick() {
    for bound in [13, 14, 55, 85, 4000] {
        let bench = Bench::new(vec![(false, 12), (true, 10_000)]);
        bench.borrow_mut().released_at_ns = Some(0);
        let waited = driver_on(&bench).wait_signal(bound, PinState::High, DhtError::Timeout);
        assert!(matches!(waited, Ok(12)));
    }
}

#[test]
fn the_line_is_driven_in_the_reset_only() {
    let bench = Bench::new(answer_with_pulses(&pulses_of([0x32, 0x00, 0x1B, 0x00, 0x4D])));
    driver_on(&bench).read().expect("a consistent frame");
    let bench = bench.borrow();
    assert_eq!(bench.driven, vec![PinState::Low, PinState::High]);
    assert_eq!(bench.pauses_ns[..2], [3_000_000, 25_000]);
    assert!(bench.pauses_ns[2..].iter().all(|pause| *pause == 1000));
    // One sample more than pauses for each of the 82 waits that found its level.
    assert_eq!(bench.samples, bench.pauses_ns.len() as u64 - 2 + 82);
}

#[test]
fn nothing_is_called_after_the_step_that_failed() {
    // The sensor answers the reset but sends nothing: bit 0 never rises.
    let bench = Bench::new(vec![(true, 20), (false, 80), (true, 80), (false, u64::MAX / 2)]);
    let result = driver_on(&bench).read();
    assert!(matches!(result, Err(DhtError::Timeout)));
    let bench = bench.borrow();
    // 75 misses and a hit, 80 misses and a hit, then 55 misses.
    assert_eq!(bench.samples, 76 + 81 + 55);
    assert_eq!(bench.paused_us(), 3000 + 25 + 75 + 80 + 55);
    assert_eq!(bench.driven, vec![PinState::Low, PinState::High]);
}
