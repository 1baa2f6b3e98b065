//! Record framing: cutting a capture's byte stream into records.
//!
//! A record is two bytes of total length, two bytes of type tag, and the
//! payload; both numbers are big-endian and the length counts all three
//! parts.

use vstd::prelude::*;
use vstd::slice::{slice_subrange, slice_to_vec};

verus! {

/// The bytes of a record's length field.
pub const RECORD_LENGTH: u16 = 2;

/// The bytes of a record's type field.
pub const RECORD_TYPE: u16 = 2;

/// The type tag of the records that carry an event.
pub const EVENT_RECORD: u16 = 4;

/// One record of a capture, without its envelope.
#[derive(Debug)]
pub struct RawRecord {
    pub type_tag: u16,
    pub payload: Vec<u8>,
}

/// A record as plain values.
pub struct RawRecordView {
    pub type_tag: u16,
    pub payload: Seq<u8>,
}

impl View for RawRecord {
    type V = RawRecordView;

    open spec fn view(&self) -> RawRecordView {
        RawRecordView { type_tag: self.type_tag, payload: self.payload@ }
    }
}

/// Why a stream could not be cut at a record boundary.
#[derive(Clone, Copy, Debug, PartialEq, Eq, Structural)]
pub enum FrameError {
    /// The stream ends inside a record: after its length field, but before
    /// the end of its type tag or payload.
    Truncated,
    /// The record declares a total length that does not even cover its own
    /// two header fields.
    BadLength,
}

/// The number that two bytes write, the first being the high one.
pub open spec fn be16(high: u8, low: u8) -> u16 {
    (high as int * 256 + low as int) as u16
}

/// The total length that the record at offset `at` declares.
pub open spec fn declared_length(stream: Seq<u8>, at: int) -> int {
    be16(stream[at], stream[at + 1]) as int
}

/// The record that begins at offset `at` of `stream`. Fewer than two bytes
/// left is the regular end of the stream and gives `None`. After a length
/// field, the type tag and the whole payload must be there, and the length
/// must cover the header.
pub open spec fn frame_at(stream: Seq<u8>, at: int) -> Result<Option<RawRecordView>, FrameError> {
    if stream.len() - at < 2 {
        Ok(None)
    } else if stream.len() - at < 4 {
        Err(FrameError::Truncated)
    } else if declared_length(stream, at) < 4 {
        Err(FrameError::BadLength)
    } else if stream.len() - at < declared_length(stream, at) {
        Err(FrameError::Truncated)
    } else {
        Ok(
            Some(
                RawRecordView {
                    type_tag: be16(stream[at + 2], stream[at + 3]),
                    payload: stream.subrange(at + 4, at + declared_length(stream, at)),
                },
            ),
        )
    }
}

/// The offset behind a record that began at `at`.
pub open spec fn frame_end(at: int, record: RawRecordView) -> int {
    at + 4 + record.payload.len()
}

/// Reads two bytes as a big-endian number.
pub fn read_be16(high: u8, low: u8) -> (value: u16)
    ensures
        value == be16(high, low),
{
    high as u16 * 256 + low as u16
}

/// Cuts the record that begins at offset `at` out of `stream`.
pub fn read_frame(stream: &[u8], at: usize) -> (result: Result<Option<RawRecord>, FrameError>)
    ensures
        match frame_at(stream@, at as int) {
            Ok(Some(record)) => result matches Ok(Some(read)) && read@ == record,
            Ok(None) => result matches Ok(None),
            Err(error) => result == Err::<Option<RawRecord>, FrameError>(error),
        },
{
    let left: usize = if at <= stream.len() {
        stream.len() - at
    } else {
        0
    };
    if left < 2 {
        return Ok(None);
    }
    if left < 4 {
        return Err(FrameError::Truncated);
    }
    let total: u16 = read_be16(stream[at], stream[at + 1]);
    let type_tag: u16 = read_be16(stream[at + 2], stream[at + 3]);
    if total < RECORD_LENGTH + RECORD_TYPE {
        return Err(FrameError::BadLength);
    }
    if left < total as usize {
        return Err(FrameError::Truncated);
    }
    let payload = slice_to_vec(slice_subrange(stream, at + 4, at + total as usize));
    Ok(Some(RawRecord { type_tag, payload }))
}

/// A record that declares more bytes than the stream has left is an error,
/// never a shorter record.
pub proof fn lemma_short_record_is_fatal(stream: Seq<u8>, at: int)
    requires
        0 <= at,
        stream.len() - at >= 2,
        declared_length(stream, at) > stream.len() - at,
    ensures
        frame_at(stream, at) is Err,
{
}

} // verus!
