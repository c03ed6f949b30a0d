//! What can go wrong during a sensor transaction.

use crate::text::{hex, hex_text};
use core::fmt::Debug;
use vstd::prelude::*;

verus! {

/// The ways a read can fail. `HE` is the error type of the line.
#[derive(Debug, Clone)]
pub enum DhtError<HE> {
    /// The frame's last byte (first field) differs from the sum of the
    /// other four modulo 256 (second field).
    ChecksumMismatch(u8, u8),
    /// The line itself reported a fault.
    PinError(HE),
    /// The frame passed its checksum but carries a humidity of 100 % or more.
    InvalidData,
    /// The sensor did not answer the bus reset.
    NotPresent,
    /// A bit's pulse did not arrive within its window.
    Timeout,
}

impl<HE> From<HE> for DhtError<HE> {
    /// A fault of the line is passed on as it is, as [`DhtError::PinError`].
    fn from(error: HE) -> (wrapped: Self) {
        DhtError::PinError(error)
    }
}

impl<HE> vstd::std_specs::convert::FromSpecImpl<HE> for DhtError<HE> {
    open spec fn obeys_from_spec() -> bool {
        true
    }

    open spec fn from_spec(error: HE) -> Self {
        DhtError::PinError(error)
    }
}

/// What a line fault's message begins with; the fault's own description
/// follows.
pub open spec fn line_fault_prefix() -> Seq<char> {
    "HAL pin error: "@
}

/// The message for a line fault whose description is `detail`.
pub open spec fn line_fault_text(detail: Seq<char>) -> Seq<char> {
    line_fault_prefix() + detail
}

/// Formats `value` with `{:?}`. The text is whatever the `Debug` impl of
/// `T` writes, so nothing is claimed of it.
#[verifier::external_body]
fn debug_text<T: Debug>(value: &T) -> (text: String) {
    format!("{:?}", value)
}

/// Writes the message for a line fault from the fault's description.
pub fn line_fault_message(detail: &str) -> (text: String)
    ensures
        text@ == line_fault_text(detail@),
{
    let mut text: String = String::from_str("HAL pin error: ");
    text.append(detail);
    text
}

impl<HE> DhtError<HE> {
    /// The message of every error that does not come from the line. A line
    /// fault's message depends on how the line describes its faults; see
    /// [`line_fault_text`].
    pub open spec fn fixed_message(&self) -> Seq<char> {
        match self {
            DhtError::ChecksumMismatch(expected, calculated) => {
                "Data read was corrupt (expected checksum "@ + hex_text(*expected as nat)
                    + ", calculated "@ + hex_text(*calculated as nat) + ")"@
            },
            DhtError::NotPresent => "DHT device not found"@,
            DhtError::InvalidData => "Received data is out of range"@,
            DhtError::Timeout => "Timed out waiting for a read"@,
            DhtError::PinError(_) => line_fault_prefix(),
        }
    }
}

impl<HE: Debug> DhtError<HE> {
    /// A message for people.
    pub fn message(&self) -> (text: String)
        ensures
            !(self is PinError) ==> text@ == self.fixed_message(),
            self is PinError ==> line_fault_prefix().is_prefix_of(text@),
    {
        match self {
            DhtError::ChecksumMismatch(expected, calculated) => {
                let mut text: String = String::from_str("Data read was corrupt (expected checksum ");
                text.append(hex(*expected).as_str());
                text.append(", calculated ");
                text.append(hex(*calculated).as_str());
                text.append(")");
                text
            },
            DhtError::NotPresent => String::from_str("DHT device not found"),
            DhtError::InvalidData => String::from_str("Received data is out of range"),
            DhtError::Timeout => String::from_str("Timed out waiting for a read"),
            DhtError::PinError(fault) => {
                let detail: String = debug_text(fault);
                line_fault_message(detail.as_str())
            },
        }
    }
}

} // verus!
