//! The result of a successful sensor transaction.

use crate::text::{tenths, tenths_text};
use vstd::prelude::*;

verus! {

/// One temperature and humidity measurement.
///
/// Both quantities are held in tenths of their unit, which is the
/// resolution of the sensor's wire format: `humidity_tenths == 505` stands
/// for 50.5 %RH and `temperature_tenths == -123` for -12.3 °C.
#[derive(Debug, Clone, Copy, PartialEq, Eq, Structural)]
pub struct Reading {
    /// Relative humidity in tenths of a percent.
    pub humidity_tenths: u16,
    /// Temperature in tenths of a degree Celsius.
    pub temperature_tenths: i16,
}

impl Reading {
    /// A reading is plausible when its humidity lies in `[0.0, 100.0)` percent.
    pub open spec fn plausible(&self) -> bool {
        self.humidity_tenths < 1000
    }

    /// The reading as text: temperature, then humidity, each with one
    /// fractional digit and its unit.
    pub open spec fn render_spec(&self) -> Seq<char> {
        tenths_text(self.temperature_tenths as int) + "°C "@ + tenths_text(
            self.humidity_tenths as int,
        ) + "%RH"@
    }

    /// Relative humidity in tenths of a percent.
    pub fn humidity_tenths(&self) -> (tenths: u16)
        ensures
            tenths == self.humidity_tenths,
    {
        self.humidity_tenths
    }

    /// Temperature in tenths of a degree Celsius.
    pub fn temperature_tenths(&self) -> (tenths: i16)
        ensures
            tenths == self.temperature_tenths,
    {
        self.temperature_tenths
    }

    /// Writes the reading for people, as in `27.0°C 50.0%RH`.
    pub fn render(&self) -> (text: String)
        ensures
            text@ == self.render_spec(),
    {
        let mut text: String = tenths(self.temperature_tenths as i32);
        text.append("°C ");
        text.append(tenths(self.humidity_tenths as i32).as_str());
        text.append("%RH");
        text
    }
}

} // verus!
