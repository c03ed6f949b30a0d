//! A blocking driver for the DHT11 temperature and humidity sensor.
//!
//! The sensor talks over one shared digital line. A transaction is a bus
//! reset by the host, a presence handshake by the sensor, forty pulse-width
//! coded bits, a checksum and a plausibility check.
//!
//! - [`frame`] decides everything about the received bits.
//! - [`protocol`] says what a wait and a whole transaction come to for a
//!   given behaviour of the line.
//! - [`line`] makes the calls into `embedded-hal` and keeps the journal of
//!   them.
//! - [`journal`] says which calls a wait and a transaction make, and how
//!   their result follows from what the calls returned.
//! - [`dht11`] is the driver, proved to do exactly that.

pub mod dht11;
pub mod error;
pub mod frame;
pub mod journal;
pub mod line;
pub mod protocol;
pub mod reading;
pub mod text;
