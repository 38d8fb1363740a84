//! The Heart Rate Measurement characteristic: decoding of one notification
//! payload.
//!
//! Byte 0 of a payload holds flags. Bit 0 tells whether the heart rate that
//! follows is one byte or a little-endian 16-bit value; bits 1 and 2 tell of
//! the sensor's skin contact; bit 3 announces a 16-bit energy field after the
//! heart rate; bit 4 announces 16-bit RR intervals that fill the rest of the
//! payload.

use vstd::prelude::*;

verus! {

/// Whether the sensor touches the skin, as far as it can tell.
#[derive(Debug, Clone, Copy, PartialEq, Eq, Structural)]
pub enum SensorContact {
    NotSupported,
    NotDetected,
    Detected,
}

/// Why a payload could not be decoded.
#[derive(Debug, Clone, Copy, PartialEq, Eq, Structural)]
pub enum DecodeError {
    /// Fewer than two bytes: no room for the flags and a heart rate.
    PayloadTooShort,
    /// A field that the flags announce does not fit in the bytes that are left.
    PayloadTruncated,
}

/// One decoded heart rate measurement.
#[derive(Debug, Clone, PartialEq, Eq)]
pub struct HeartRateMeasurement {
    pub flags: u8,
    pub heart_rate: u16,
    pub sensor_contact: SensorContact,
    pub energy_expended: Option<u16>,
    pub rr_intervals: Vec<u16>,
}

/// A measurement as plain values.
pub struct MeasurementView {
    pub flags: u8,
    pub heart_rate: u16,
    pub sensor_contact: SensorContact,
    pub energy_expended: Option<u16>,
    pub rr_intervals: Seq<u16>,
}

impl View for HeartRateMeasurement {
    type V = MeasurementView;

    open spec fn view(&self) -> MeasurementView {
        MeasurementView {
            flags: self.flags,
            heart_rate: self.heart_rate,
            sensor_contact: self.sensor_contact,
            energy_expended: self.energy_expended,
            rr_intervals: self.rr_intervals@,
        }
    }
}

/// Flag bit 0: the heart rate takes two bytes.
pub open spec fn has_wide_heart_rate(flags: u8) -> bool {
    flags & 0x01 != 0
}

/// Flag bit 3: an energy field follows the heart rate.
pub open spec fn has_energy_expended(flags: u8) -> bool {
    flags & 0x08 != 0
}

/// Flag bit 4: RR intervals fill the rest of the payload.
pub open spec fn has_rr_intervals(flags: u8) -> bool {
    flags & 0x10 != 0
}

/// The contact status in flag bits 2 and 1: `10` is supported without
/// contact, `11` supported with contact, anything else not supported.
pub open spec fn sensor_contact_of(flags: u8) -> SensorContact {
    let code = (flags >> 1) & 0x03;
    if code == 2 {
        SensorContact::NotDetected
    } else if code == 3 {
        SensorContact::Detected
    } else {
        SensorContact::NotSupported
    }
}

/// The 16-bit value of two bytes, the low byte first.
pub open spec fn le16(low: u8, high: u8) -> u16 {
    (low + 256 * high) as u16
}

/// The 16-bit little-endian value at `at` in a payload.
pub open spec fn le16_at(payload: Seq<u8>, at: int) -> u16 {
    le16(payload[at], payload[at + 1])
}

/// Where the field after the heart rate begins.
pub open spec fn energy_offset(flags: u8) -> int {
    if has_wide_heart_rate(flags) {
        3
    } else {
        2
    }
}

/// Where the RR intervals begin.
pub open spec fn rr_offset(flags: u8) -> int {
    energy_offset(flags) + if has_energy_expended(flags) {
        2int
    } else {
        0int
    }
}

/// Every field that the flags of the payload announce is there in full. RR
/// intervals are in full when an even number of bytes is left for them.
pub open spec fn is_complete(payload: Seq<u8>) -> bool
    recommends
        payload.len() >= 1,
{
    let flags = payload[0];
    &&& payload.len() >= rr_offset(flags)
    &&& has_rr_intervals(flags) ==> (payload.len() - rr_offset(flags)) % 2 == 0
}

/// The heart rate that a complete payload holds.
pub open spec fn heart_rate_of(payload: Seq<u8>) -> u16
    recommends
        payload.len() >= 2,
        is_complete(payload),
{
    if has_wide_heart_rate(payload[0]) {
        le16_at(payload, 1)
    } else {
        payload[1] as u16
    }
}

/// The energy field that a complete payload holds, if it has one.
pub open spec fn energy_expended_of(payload: Seq<u8>) -> Option<u16>
    recommends
        payload.len() >= 2,
        is_complete(payload),
{
    if has_energy_expended(payload[0]) {
        Some(le16_at(payload, energy_offset(payload[0])))
    } else {
        None
    }
}

/// The RR intervals that a complete payload holds, in their order.
pub open spec fn rr_intervals_of(payload: Seq<u8>) -> Seq<u16>
    recommends
        payload.len() >= 2,
        is_complete(payload),
{
    let start = rr_offset(payload[0]);
    if has_rr_intervals(payload[0]) {
        Seq::new(((payload.len() - start) / 2) as nat, |i: int| le16_at(payload, start + 2 * i))
    } else {
        Seq::empty()
    }
}

/// What a payload decodes to.
pub open spec fn decoded(payload: Seq<u8>) -> Result<MeasurementView, DecodeError> {
    if payload.len() < 2 {
        Err(DecodeError::PayloadTooShort)
    } else if !is_complete(payload) {
        Err(DecodeError::PayloadTruncated)
    } else {
        Ok(
            MeasurementView {
                flags: payload[0],
                heart_rate: heart_rate_of(payload),
                sensor_contact: sensor_contact_of(payload[0]),
                energy_expended: energy_expended_of(payload),
                rr_intervals: rr_intervals_of(payload),
            },
        )
    }
}

/// Reads the 16-bit little-endian value at `at`.
fn read_le16(payload: &[u8], at: usize) -> (value: u16)
    requires
        at + 1 < payload@.len(),
    ensures
        value == le16_at(payload@, at as int),
{
    let low: u16 = payload[at] as u16;
    let high: u16 = payload[at + 1] as u16;
    low + 256 * high
}

/// The contact status that the flags tell.
pub fn sensor_contact(flags: u8) -> (contact: SensorContact)
    ensures
        contact == sensor_contact_of(flags),
{
    let code: u8 = (flags >> 1) & 0x03;
    if code == 2 {
        SensorContact::NotDetected
    } else if code == 3 {
        SensorContact::Detected
    } else {
        SensorContact::NotSupported
    }
}

/// Decodes one notification payload of the Heart Rate Measurement
/// characteristic.
pub fn decode(payload: &[u8]) -> (result: Result<HeartRateMeasurement, DecodeError>)
    ensures
        match result {
            Ok(measurement) => decoded(payload@) == Ok::<MeasurementView, DecodeError>(
                measurement@,
            ),
            Err(error) => decoded(payload@) == Err::<MeasurementView, DecodeError>(error),
        },
        result is Ok && !has_wide_heart_rate(payload@[0]) ==> result->Ok_0.heart_rate
            == payload@[1],
        result is Ok && has_wide_heart_rate(payload@[0]) ==> result->Ok_0.heart_rate
            == payload@[1] + 256 * payload@[2],
{
    let len: usize = payload.len();
    if len < 2 {
        return Err(DecodeError::PayloadTooShort);
    }
    let flags: u8 = payload[0];
    let wide: bool = flags & 0x01 != 0;
    let with_energy: bool = flags & 0x08 != 0;
    let with_rr: bool = flags & 0x10 != 0;
    let mut at: usize = if wide {
        3
    } else {
        2
    };
    if len < at {
        return Err(DecodeError::PayloadTruncated);
    }
    let heart_rate: u16 = if wide {
        read_le16(payload, 1)
    } else {
        payload[1] as u16
    };
    let mut energy_expended: Option<u16> = None;
    if with_energy {
        if len - at < 2 {
            return Err(DecodeError::PayloadTruncated);
        }
        energy_expended = Some(read_le16(payload, at));
        at = at + 2;
    }
    let mut rr_intervals: Vec<u16> = Vec::new();
    if with_rr {
        if (len - at) % 2 != 0 {
            return Err(DecodeError::PayloadTruncated);
        }
        let start: usize = at;
        while at < len
            invariant
                start == rr_offset(flags),
                len == payload@.len(),
                start <= at <= len,
                (at - start) % 2 == 0,
                (len - start) % 2 == 0,
                rr_intervals@.len() == (at - start) / 2,
                forall|i: int|
                    0 <= i < rr_intervals@.len() ==> rr_intervals@[i] == le16_at(
                        payload@,
                        start + 2 * i,
                    ),
            decreases len - at,
        {
            rr_intervals.push(read_le16(payload, at));
            at = at + 2;
        }
        assert(rr_intervals@ =~= rr_intervals_of(payload@));
    }
    Ok(
        HeartRateMeasurement {
            flags,
            heart_rate,
            sensor_contact: sensor_contact(flags),
            energy_expended,
            rr_intervals,
        },
    )
}

} // verus!
