//! The two capabilities the driver is given, a bidirectional digital line
//! and a microsecond delay, both as `embedded-hal` defines them, and the
//! journal of the calls made on them.
//!
//! What a line reads and whether driving it succeeds is decided by the
//! hardware at the moment of the call, so none of the functions here
//! promises anything about the value it returns. What each of them does
//! promise is that the call it made, with what came back, is the one entry
//! added to the journal. The driver's contracts are stated over that
//! journal.

use embedded_hal::delay::DelayNs;
use embedded_hal::digital::{Error, ErrorKind, InputPin, OutputPin, PinState};
use vstd::prelude::*;

verus! {

/// `embedded_hal::digital::PinState`: the level of a line, `Low` or `High`.
/// Declared with its two variants, so that the driver can tell them apart.
#[verifier::external_type_specification]
pub struct ExPinState(PinState);

/// `embedded_hal::digital::ErrorKind`: the kind of a line's fault, in the
/// terms that every `embedded-hal` implementation shares. Carried through
/// as it is; the driver never looks inside.
#[verifier::external_type_specification]
#[verifier::external_body]
pub struct ExErrorKind(ErrorKind);

/// One call on the line or the delay, with what the call returned.
pub enum Call {
    /// `OutputPin::set_low`.
    SetLow(Result<(), ErrorKind>),
    /// `OutputPin::set_high`.
    SetHigh(Result<(), ErrorKind>),
    /// `InputPin::is_low`.
    IsLow(Result<bool, ErrorKind>),
    /// `InputPin::is_high`.
    IsHigh(Result<bool, ErrorKind>),
    /// `DelayNs::delay_us` with this many microseconds.
    DelayUs(u32),
}

/// A line and a delay, together with the journal of every call made on
/// them through this module, oldest first.
pub struct Bus<P, D> {
    pin: P,
    delay: D,
    calls: Ghost<Seq<Call>>,
}

impl<P, D> Bus<P, D> {
    /// The calls made so far, oldest first.
    pub closed spec fn calls(&self) -> Seq<Call> {
        self.calls@
    }

    /// The line.
    pub closed spec fn line(&self) -> P {
        self.pin
    }

    /// The delay.
    pub closed spec fn timer(&self) -> D {
        self.delay
    }

    /// Takes the line and the delay, with an empty journal.
    pub fn new(pin: P, delay: D) -> (bus: Self)
        ensures
            bus.line() == pin,
            bus.timer() == delay,
            bus.calls() == Seq::<Call>::empty(),
    {
        Bus { pin, delay, calls: Ghost(Seq::empty()) }
    }
}

/// Calls `OutputPin::set_low`, which drives the line low. A fault of the
/// line comes back as its `Error::kind`. Nothing is promised of the value
/// returned; the journal gains this one call with that value.
#[verifier::external_body]
pub(crate) fn drive_low<P: OutputPin, D>(bus: &mut Bus<P, D>) -> (driven: Result<(), ErrorKind>)
    ensures
        final(bus).calls() == old(bus).calls().push(Call::SetLow(driven)),
{
    match bus.pin.set_low() {
        Ok(()) => Ok(()),
        Err(fault) => Err(fault.kind()),
    }
}

/// Calls `OutputPin::set_high`, which drives the line high; on an
/// open-drain line that releases it. A fault of the line comes back as its
/// `Error::kind`. Nothing is promised of the value returned; the journal
/// gains this one call with that value.
#[verifier::external_body]
pub(crate) fn drive_high<P: OutputPin, D>(bus: &mut Bus<P, D>) -> (driven: Result<(), ErrorKind>)
    ensures
        final(bus).calls() == old(bus).calls().push(Call::SetHigh(driven)),
{
    match bus.pin.set_high() {
        Ok(()) => Ok(()),
        Err(fault) => Err(fault.kind()),
    }
}

/// Calls `InputPin::is_low`, which samples the line and says whether it is
/// low. A fault of the line comes back as its `Error::kind`. Nothing is
/// promised of the value returned; the journal gains this one call with
/// that value.
#[verifier::external_body]
pub(crate) fn sample_low<P: InputPin, D>(bus: &mut Bus<P, D>) -> (low: Result<bool, ErrorKind>)
    ensures
        final(bus).calls() == old(bus).calls().push(Call::IsLow(low)),
{
    match bus.pin.is_low() {
        Ok(low) => Ok(low),
        Err(fault) => Err(fault.kind()),
    }
}

/// Calls `InputPin::is_high`, which samples the line and says whether it is
/// high. A fault of the line comes back as its `Error::kind`. Nothing is
/// promised of the value returned; the journal gains this one call with
/// that value.
#[verifier::external_body]
pub(crate) fn sample_high<P: InputPin, D>(bus: &mut Bus<P, D>) -> (high: Result<bool, ErrorKind>)
    ensures
        final(bus).calls() == old(bus).calls().push(Call::IsHigh(high)),
{
    match bus.pin.is_high() {
        Ok(high) => Ok(high),
        Err(fault) => Err(fault.kind()),
    }
}

/// Calls `DelayNs::delay_us`, which returns after at least `us`
/// microseconds. The journal gains this one call; time itself is not part
/// of what is proved.
#[verifier::external_body]
pub(crate) fn pause_us<P, D: DelayNs>(bus: &mut Bus<P, D>, us: u32)
    ensures
        final(bus).calls() == old(bus).calls().push(Call::DelayUs(us)),
{
    bus.delay.delay_us(us)
}

} // verus!
