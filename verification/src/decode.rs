//! Field decoding: from a complete frame to a typed measurement record.
//!
//! The sensor packs six quantities at fixed byte offsets. The 16-bit integer
//! fields combine their two bytes with a multiplier of 255 — unusual, but it
//! is the wire behaviour of this device and is preserved deliberately. The
//! temperature and humidity fields use a multiplier of 256 and carry tenths
//! of a unit; the record keeps them as whole tenths so the scaling by ten
//! stays exact, and a consumer may divide by ten for display.

use vstd::prelude::*;

use crate::frame::{frame_wf, RawFrame};

verus! {

/// One decoded measurement. `timestamp` is the local wall-clock second count
/// captured at decode time; it is not transmitted by the sensor.
#[derive(Debug, Clone, Copy, PartialEq, Eq, Structural)]
pub struct Record {
    /// Seconds of local wall-clock time at which the frame was decoded.
    pub timestamp: i64,
    /// Fine particulate matter, µg/m³.
    pub pm25: u16,
    /// Total volatile organic compounds, ppb.
    pub tvoc: u16,
    /// Formaldehyde, µg/m³.
    pub hcho: u16,
    /// Carbon dioxide, ppm.
    pub co2: u16,
    /// Temperature in tenths of a °C.
    pub temperature_tenths: u16,
    /// Relative humidity in tenths of a percent.
    pub humidity_tenths: u16,
}

/// A 16-bit integer field: high byte scaled by 255, plus the low byte.
pub open spec fn field_x255(hi: u8, lo: u8) -> u16 {
    (hi * 255 + lo) as u16
}

/// A tenths-valued field: high byte scaled by 256, plus the low byte; the
/// result counts tenths of the physical unit.
pub open spec fn field_x256(hi: u8, lo: u8) -> u16 {
    (hi * 256 + lo) as u16
}

/// What decoding a frame at a given capture time yields, field for field.
pub open spec fn spec_decode(frame: Seq<u8>, timestamp: i64) -> Record
    recommends
        frame.len() >= 18,
{
    Record {
        timestamp,
        pm25: field_x255(frame[4], frame[5]),
        tvoc: field_x255(frame[6], frame[7]),
        hcho: field_x255(frame[9], frame[10]),
        co2: field_x255(frame[12], frame[13]),
        temperature_tenths: field_x256(frame[14], frame[15]),
        humidity_tenths: field_x256(frame[16], frame[17]),
    }
}

/// Decode a frame with an explicit capture time. Total: every frame decodes,
/// and the result is exactly `spec_decode` of the frame's bytes.
pub fn decode_at(frame: &RawFrame, timestamp: i64) -> (r: Record)
    requires
        frame.wf(),
    ensures
        r == spec_decode(frame@, timestamp),
{
    Record {
        timestamp,
        pm25: (frame.byte_at(4) as u16) * 255 + (frame.byte_at(5) as u16),
        tvoc: (frame.byte_at(6) as u16) * 255 + (frame.byte_at(7) as u16),
        hcho: (frame.byte_at(9) as u16) * 255 + (frame.byte_at(10) as u16),
        co2: (frame.byte_at(12) as u16) * 255 + (frame.byte_at(13) as u16),
        temperature_tenths: (frame.byte_at(14) as u16) * 256 + (frame.byte_at(15) as u16),
        humidity_tenths: (frame.byte_at(16) as u16) * 256 + (frame.byte_at(17) as u16),
    }
}

/// Relies on chrono::Local::now, chrono::NaiveDateTime::and_utc and
/// chrono::DateTime::timestamp for the current local wall-clock time as
/// whole seconds. Nothing is promised of the clock's value.
#[verifier::external_body]
fn local_now_seconds() -> i64 {
    chrono::Local::now().naive_local().and_utc().timestamp()
}

/// Decode a frame, capturing the wall-clock time now. Every field except the
/// timestamp is pinned to `spec_decode` of the frame's bytes; the timestamp
/// is whatever the clock returned.
pub fn decode_now(frame: &RawFrame) -> (r: Record)
    requires
        frame.wf(),
    ensures
        r == spec_decode(frame@, r.timestamp),
{
    let now = local_now_seconds();
    decode_at(frame, now)
}

/// Idempotence of decoding: the same frame decoded twice yields
/// field-for-field identical records, apart from the capture timestamp
/// supplied with each decode.
pub proof fn lemma_decode_repeatable(frame: Seq<u8>, t1: i64, t2: i64)
    ensures
        ({
            let r1 = spec_decode(frame, t1);
            let r2 = spec_decode(frame, t2);
            &&& r1.pm25 == r2.pm25
            &&& r1.tvoc == r2.tvoc
            &&& r1.hcho == r2.hcho
            &&& r1.co2 == r2.co2
            &&& r1.temperature_tenths == r2.temperature_tenths
            &&& r1.humidity_tenths == r2.humidity_tenths
            &&& r1.timestamp == t1
            &&& r2.timestamp == t2
        }),
{
}

} // verus!
