//! The five-byte frame: bit placement, checksum, plausibility and value
//! derivation.
//!
//! A frame is `[humidity, humidity tenths, temperature, temperature tenths,
//! checksum]`. Bits arrive most significant first, so bit `k` of a
//! transaction lands in byte `k / 8` at position `7 - k % 8`.

use crate::error::DhtError;
use crate::reading::Reading;
use vstd::prelude::*;

verus! {

/// Number of bytes in a frame.
pub const FRAME_BYTES: usize = 5;

/// Number of bits in a frame.
pub const FRAME_BITS: usize = 40;

/// A high pulse that lasted more than this many ticks carries a one.
pub const BIT_THRESHOLD_TICKS: u32 = 30;

/// Whether a high pulse of `elapsed` ticks carries a one.
pub open spec fn is_one(elapsed: u32) -> bool {
    elapsed > BIT_THRESHOLD_TICKS
}

/// The single-bit mask for bit `bit` of a transaction within its byte.
pub open spec fn bit_mask(bit: int) -> u8 {
    1u8 << ((7 - bit % 8) as u8)
}

/// Whether bit `bit` of a transaction is set in `frame`.
pub open spec fn bit_at(frame: Seq<u8>, bit: int) -> bool {
    frame[bit / 8] & bit_mask(bit) != 0
}

/// The frame after the pulse for bit `bit` has been recorded: a long pulse
/// sets the bit, a short one leaves the frame as it is.
pub open spec fn with_pulse(frame: Seq<u8>, bit: int, elapsed: u32) -> Seq<u8> {
    if is_one(elapsed) {
        frame.update(bit / 8, frame[bit / 8] | bit_mask(bit))
    } else {
        frame
    }
}

/// The sum of the four payload bytes modulo 256.
pub open spec fn checksum_of(frame: Seq<u8>) -> int {
    (frame[0] + frame[1] + frame[2] + frame[3]) % 256
}

/// The humidity a frame carries, in tenths of a percent.
pub open spec fn humidity_tenths_of(frame: Seq<u8>) -> int {
    10 * frame[0] + frame[1]
}

/// Whether the frame's temperature carries the sign flag, the top bit of
/// byte 2.
pub open spec fn is_negative(frame: Seq<u8>) -> bool {
    frame[2] & 0x80 != 0
}

/// The temperature a frame carries, in tenths of a degree Celsius.
///
/// The magnitude is taken from the whole of byte 2: the sign flag is not
/// cleared before the fractional part is added, so every negative
/// temperature has a magnitude of at least 128 degrees. Whether sensors in
/// the field rely on this has not been confirmed; the arithmetic is kept as
/// it is until it has.
pub open spec fn temperature_tenths_of(frame: Seq<u8>) -> int {
    let magnitude = 10 * frame[2] + frame[3];
    if is_negative(frame) {
        -magnitude
    } else {
        magnitude
    }
}

/// What a complete frame means: a checksum error, an implausible humidity,
/// or a reading, in that order of precedence.
pub open spec fn decode_spec<HE>(frame: Seq<u8>) -> Result<Reading, DhtError<HE>> {
    if frame[4] != checksum_of(frame) {
        Err(DhtError::ChecksumMismatch(frame[4], checksum_of(frame) as u8))
    } else if humidity_tenths_of(frame) >= 1000 {
        Err(DhtError::InvalidData)
    } else {
        Ok(
            Reading {
                humidity_tenths: humidity_tenths_of(frame) as u16,
                temperature_tenths: temperature_tenths_of(frame) as i16,
            },
        )
    }
}

/// Classifies the high pulse of one bit cell by its length in ticks.
pub fn bit_value(elapsed: u32) -> (one: bool)
    ensures
        one == is_one(elapsed),
        one <==> elapsed > 30,
{
    elapsed > BIT_THRESHOLD_TICKS
}

/// Records the pulse measured for bit `bit` of a transaction in `frame`.
pub fn record_pulse(frame: &mut [u8; 5], bit: usize, elapsed: u32)
    requires
        bit < FRAME_BITS,
    ensures
        final(frame)@ == with_pulse(old(frame)@, bit as int, elapsed),
{
    if bit_value(elapsed) {
        let byte: usize = bit / 8;
        let shift: u8 = (7 - bit % 8) as u8;
        let merged: u8 = frame[byte] | (1u8 << shift);
        frame[byte] = merged;
    }
}

/// Computes the checksum that a frame's last byte must carry.
pub fn checksum(frame: &[u8; 5]) -> (sum: u8)
    ensures
        sum == checksum_of(frame@),
{
    let total: u16 = frame[0] as u16 + frame[1] as u16 + frame[2] as u16 + frame[3] as u16;
    assert(total & 0xff == total % 256) by (bit_vector);
    (total & 0xff) as u8
}

/// Validates a complete frame and derives the reading it carries.
pub fn decode<HE>(frame: &[u8; 5]) -> (result: Result<Reading, DhtError<HE>>)
    ensures
        result == decode_spec::<HE>(frame@),
        result matches Ok(reading) ==> reading.plausible(),
{
    let sum: u8 = checksum(frame);
    if frame[4] != sum {
        return Err(DhtError::ChecksumMismatch(frame[4], sum));
    }
    let humidity: u16 = frame[0] as u16 * 10 + frame[1] as u16;
    if humidity >= 1000 {
        return Err(DhtError::InvalidData);
    }
    let magnitude: i16 = frame[2] as i16 * 10 + frame[3] as i16;
    let temperature: i16 = if frame[2] & 0x80 != 0 {
        -magnitude
    } else {
        magnitude
    };
    Ok(Reading { humidity_tenths: humidity, temperature_tenths: temperature })
}

/// Recording a pulse changes no bit of the frame but its own: afterwards
/// bit `other` is set exactly if it was set before, or if it is the bit
/// recorded and the pulse was a long one.
pub proof fn lemma_pulse_touches_only_its_bit(frame: Seq<u8>, bit: int, elapsed: u32, other: int)
    requires
        frame.len() == FRAME_BYTES,
        0 <= bit < FRAME_BITS,
        0 <= other < FRAME_BITS,
    ensures
        bit_at(with_pulse(frame, bit, elapsed), other) == (bit_at(frame, other) || (other == bit
            && is_one(elapsed))),
{
    if is_one(elapsed) && other / 8 == bit / 8 {
        let byte: u8 = frame[bit / 8];
        let set: u8 = (7 - bit % 8) as u8;
        let probe: u8 = (7 - other % 8) as u8;
        assert(((byte | (1u8 << set)) & (1u8 << probe) != 0) == ((byte & (1u8 << probe) != 0) || set
            == probe)) by (bit_vector)
            requires
                set < 8,
                probe < 8,
        ;
    }
}

/// A frame whose last byte differs from the checksum of the other four is
/// rejected, whatever else it holds, and the error carries the byte that
/// was received and the sum that was computed.
pub proof fn lemma_checksum_mismatch_is_reported<HE>(frame: Seq<u8>)
    requires
        frame.len() == FRAME_BYTES,
        frame[4] != checksum_of(frame),
    ensures
        decode_spec::<HE>(frame) matches Err(DhtError::ChecksumMismatch(found, computed))
            && found == frame[4] && computed == checksum_of(frame),
{
}

/// Among frames that carry a humidity below 100 %, decoding succeeds
/// exactly when the last byte is the checksum of the other four.
pub proof fn lemma_checksum_decides_success<HE>(frame: Seq<u8>)
    requires
        frame.len() == FRAME_BYTES,
        humidity_tenths_of(frame) < 1000,
    ensures
        decode_spec::<HE>(frame) is Ok <==> frame[4] == checksum_of(frame),
{
}

/// A humidity of 100 % or more is rejected even when the checksum matches.
pub proof fn lemma_implausible_humidity_is_rejected<HE>(frame: Seq<u8>)
    requires
        frame.len() == FRAME_BYTES,
        frame[4] == checksum_of(frame),
        humidity_tenths_of(frame) >= 1000,
    ensures
        decode_spec::<HE>(frame) == Err::<Reading, DhtError<HE>>(DhtError::InvalidData),
{
}

/// A decoded reading holds the frame's values exactly: nothing is lost in
/// the narrower integers of a [`Reading`], and its humidity is plausible.
pub proof fn lemma_reading_holds_the_frame_values<HE>(frame: Seq<u8>, reading: Reading)
    requires
        frame.len() == FRAME_BYTES,
        decode_spec::<HE>(frame) == Ok::<Reading, DhtError<HE>>(reading),
    ensures
        reading.humidity_tenths == humidity_tenths_of(frame),
        reading.temperature_tenths == temperature_tenths_of(frame),
        reading.plausible(),
{
}

/// The sign of a decoded temperature follows the top bit of byte 2: set
/// gives a temperature below zero, clear gives one of zero or more.
pub proof fn lemma_sign_follows_flag<HE>(frame: Seq<u8>, reading: Reading)
    requires
        frame.len() == FRAME_BYTES,
        decode_spec::<HE>(frame) == Ok::<Reading, DhtError<HE>>(reading),
    ensures
        frame[2] & 0x80 != 0 ==> reading.temperature_tenths < 0,
        frame[2] & 0x80 == 0 ==> reading.temperature_tenths >= 0,
{
    let flagged: u8 = frame[2];
    assert(flagged & 0x80 != 0 ==> flagged >= 128) by (bit_vector);
}

} // verus!
