//! Decoded events, and the reader that turns a capture into them.

use crate::error::DecodeError;
use crate::framing::{
    declared_length, frame_at, frame_end, read_frame, FrameError, EVENT_RECORD,
};
use crate::parser::{decode_record, RowParser, RowState, FIRST_FIELD};
use crate::xml_parser::{catalog_view, Event, EventView};
use flate2::read::GzDecoder;
use std::collections::HashMap;
use std::io::Read;
use vstd::prelude::*;
use vstd::std_specs::cmp::PartialEqSpecImpl;

verus! {

/// One decoded field: every value is normalised to text.
#[derive(Debug)]
pub struct TraceParameter {
    pub name: String,
    pub value: String,
}

/// A decoded field as plain values.
pub struct TraceParameterView {
    pub name: Seq<char>,
    pub value: Seq<char>,
}

impl View for TraceParameter {
    type V = TraceParameterView;

    open spec fn view(&self) -> TraceParameterView {
        TraceParameterView { name: self.name@, value: self.value@ }
    }
}

impl PartialEq for TraceParameter {
    fn eq(&self, other: &Self) -> (r: bool) {
        self.name == other.name && self.value == other.value
    }
}

impl PartialEqSpecImpl for TraceParameter {
    open spec fn obeys_eq_spec() -> bool {
        true
    }

    open spec fn eq_spec(&self, other: &Self) -> bool {
        self.name@ == other.name@ && self.value@ == other.value@
    }
}

/// One decoded event: its fields in schema order and its time of day.
#[derive(Debug)]
pub struct TraceEvent {
    pub name: String,
    pub parameters: Vec<TraceParameter>,
    /// Milliseconds since midnight, from the event's timestamp fields.
    pub timestamp: u64,
}

/// A decoded event as plain values.
pub struct TraceEventView {
    pub name: Seq<char>,
    pub parameters: Seq<TraceParameterView>,
    pub timestamp: u64,
}

impl View for TraceEvent {
    type V = TraceEventView;

    open spec fn view(&self) -> TraceEventView {
        TraceEventView {
            name: self.name@,
            parameters: self.parameters@.map_values(|parameter: TraceParameter| parameter@),
            timestamp: self.timestamp,
        }
    }
}

/// The views of a run of decoded events.
pub open spec fn events_view(events: Seq<TraceEvent>) -> Seq<TraceEventView> {
    events.map_values(|event: TraceEvent| event@)
}

/// What went wrong while reading a capture.
#[derive(Clone, Copy, Debug, PartialEq, Eq, Structural)]
pub enum ReadFault {
    /// The stream could not be cut into records.
    Frame(FrameError),
    /// An event record could not be decoded.
    Record(DecodeError),
}

/// A failure to read a capture, with the stream offset of the record at
/// which it happened.
#[derive(Clone, Copy, Debug, PartialEq, Eq, Structural)]
pub struct ReadError {
    pub offset: usize,
    pub fault: ReadFault,
}

/// How reading a stream ends.
pub struct ReadOutcome {
    /// The events decoded, in stream order.
    pub events: Seq<TraceEventView>,
    /// The offset that reading has reached.
    pub position: nat,
    /// The failure that stopped reading, if one did.
    pub failure: Option<ReadError>,
}

/// The state in which the decoding of every record begins.
pub open spec fn first_state() -> RowState {
    RowState { cursor: FIRST_FIELD as int, timestamp: 0, decoded: Seq::empty() }
}

/// Reading `stream` from offset `at` to its end, record by record, after
/// `events` were decoded. Records of another type than the event type are
/// passed over. An event record is decoded; it adds its event unless the
/// filter leaves it out. The first record that cannot be cut out or decoded
/// stops the reading with what was decoded before it.
pub open spec fn read_records(
    stream: Seq<u8>,
    at: nat,
    catalog: Map<u16, EventView>,
    filter: Seq<char>,
    events: Seq<TraceEventView>,
) -> ReadOutcome
    decreases stream.len() - at,
{
    match frame_at(stream, at as int) {
        Err(error) => ReadOutcome {
            events,
            position: at,
            failure: Some(ReadError { offset: at as usize, fault: ReadFault::Frame(error) }),
        },
        Ok(None) => ReadOutcome { events, position: at, failure: None },
        Ok(Some(record)) => {
            let next = frame_end(at as int, record) as nat;
            if record.type_tag != EVENT_RECORD {
                read_records(stream, next, catalog, filter, events)
            } else {
                match decode_record(record.payload, filter, catalog, first_state()) {
                    Err(error) => ReadOutcome {
                        events,
                        position: next,
                        failure: Some(
                            ReadError { offset: at as usize, fault: ReadFault::Record(error) },
                        ),
                    },
                    Ok(None) => read_records(stream, next, catalog, filter, events),
                    Ok(Some((event, _))) => read_records(
                        stream,
                        next,
                        catalog,
                        filter,
                        events.push(event),
                    ),
                }
            }
        },
    }
}

/// The bytes that a gzip stream holds: what `flate2`'s decoder gives until
/// it reaches the end of the stream or its first fault.
pub uninterp spec fn gunzip_of(compressed: Seq<u8>) -> Seq<u8>;

/// `flate2::read::GzDecoder` over a byte slice, read to its end: the bytes
/// that it gave before it ended or failed, which depend on the compressed
/// bytes alone.
#[verifier::external_body]
pub(crate) fn gunzip(compressed: &[u8]) -> (stream: Vec<u8>)
    ensures
        stream@ == gunzip_of(compressed@),
{
    let mut stream = Vec::new();
    let _ = GzDecoder::new(compressed).read_to_end(&mut stream);
    stream
}

/// The reader of one capture: the catalog, the capture's byte stream and the
/// events decoded from it so far.
pub struct TraceReader {
    events_definition: HashMap<u16, Event>,
    stream: Vec<u8>,
    position: usize,
    pub decoded_trace_events: Vec<TraceEvent>,
    filter: String,
}

/// A reader in plain values.
pub struct TraceReaderView {
    pub catalog: Map<u16, EventView>,
    pub stream: Seq<u8>,
    pub position: nat,
    pub events: Seq<TraceEventView>,
    pub filter: Seq<char>,
}

impl View for TraceReader {
    type V = TraceReaderView;

    closed spec fn view(&self) -> TraceReaderView {
        TraceReaderView {
            catalog: catalog_view(self.events_definition@),
            stream: self.stream@,
            position: self.position as nat,
            events: events_view(self.decoded_trace_events@),
            filter: self.filter@,
        }
    }
}

impl TraceReader {
    /// A reader at the start of a gzip-compressed capture.
    pub fn new(events_definition: HashMap<u16, Event>, capture: &[u8], filter: &str) -> (reader:
        Self)
        ensures
            reader@ == (TraceReaderView {
                catalog: catalog_view(events_definition@),
                stream: gunzip_of(capture@),
                position: 0,
                events: Seq::empty(),
                filter: filter@,
            }),
    {
        Self::from_stream(events_definition, gunzip(capture), filter)
    }

    /// A reader at the start of a capture's uncompressed byte stream.
    pub fn from_stream(events_definition: HashMap<u16, Event>, stream: Vec<u8>, filter: &str) -> (reader:
        Self)
        ensures
            reader@ == (TraceReaderView {
                catalog: catalog_view(events_definition@),
                stream: stream@,
                position: 0,
                events: Seq::empty(),
                filter: filter@,
            }),
    {
        let reader = Self {
            events_definition,
            stream,
            position: 0,
            decoded_trace_events: Vec::new(),
            filter: filter.to_owned(),
        };
        assert(events_view(reader.decoded_trace_events@) == Seq::<TraceEventView>::empty());
        reader
    }

    /// The events decoded so far, in stream order.
    pub fn events(&self) -> (events: &Vec<TraceEvent>)
        ensures
            events_view(events@) == self@.events,
    {
        &self.decoded_trace_events
    }

    /// Reads the stream to its end and appends the event of every event
    /// record that passes the filter. The first record that cannot be cut
    /// out or decoded ends the reading with an error; the events of the
    /// records before it stay.
    pub fn read_trace(&mut self) -> (result: Result<(), ReadError>)
        ensures
            ({
                let outcome = read_records(
                    old(self)@.stream,
                    old(self)@.position,
                    old(self)@.catalog,
                    old(self)@.filter,
                    old(self)@.events,
                );
                &&& final(self)@ == (TraceReaderView {
                    position: outcome.position,
                    events: outcome.events,
                    ..old(self)@
                })
                &&& result == match outcome.failure {
                    None => Ok::<(), ReadError>(()),
                    Some(error) => Err::<(), ReadError>(error),
                }
            }),
    {
        let (position, failure) = read_stream(
            self.stream.as_slice(),
            self.position,
            &self.events_definition,
            self.filter.as_str(),
            &mut self.decoded_trace_events,
        );
        self.position = position;
        match failure {
            None => Ok(()),
            Some(error) => Err(error),
        }
    }

    /// Decodes one event record and appends its event, unless the filter
    /// leaves it out.
    pub fn decode_raw_event(&mut self, raw_event: Vec<u8>) -> (result: Result<(), DecodeError>)
        ensures
            match decode_record(raw_event@, old(self)@.filter, old(self)@.catalog, first_state()) {
                Ok(Some((event, _))) => result is Ok && final(self)@ == (TraceReaderView {
                    events: old(self)@.events.push(event),
                    ..old(self)@
                }),
                Ok(None) => result is Ok && final(self)@ == old(self)@,
                Err(error) => result == Err::<(), DecodeError>(error) && final(self)@ == old(self)@,
            },
    {
        decode_event(
            raw_event,
            &self.events_definition,
            self.filter.as_str(),
            &mut self.decoded_trace_events,
        )
    }
}

/// Decodes one event record and appends its event to `decoded`, unless the
/// filter leaves it out.
pub fn decode_event(
    raw_event: Vec<u8>,
    events: &HashMap<u16, Event>,
    filter: &str,
    decoded: &mut Vec<TraceEvent>,
) -> (result: Result<(), DecodeError>)
    ensures
        match decode_record(raw_event@, filter@, catalog_view(events@), first_state()) {
            Ok(Some((event, _))) => result is Ok && events_view(final(decoded)@) == events_view(
                old(decoded)@,
            ).push(event),
            Ok(None) => result is Ok && final(decoded)@ == old(decoded)@,
            Err(error) => result == Err::<(), DecodeError>(error) && final(decoded)@ == old(
                decoded,
            )@,
        },
{
    let mut parser = RowParser::new(raw_event, filter);
    match parser.parse(events) {
        Ok(Some(event)) => {
            proof {
                assert(events_view(decoded@.push(event)) == events_view(decoded@).push(event@));
            }
            decoded.push(event);
            Ok(())
        },
        Ok(None) => Ok(()),
        Err(error) => Err(error),
    }
}

/// Reads `stream` from offset `start` to its end and appends to `decoded`
/// the event of every event record that passes the filter. Gives the offset
/// that it reached and, where a record could not be cut out or decoded, the
/// failure that stopped it.
#[verifier::loop_isolation(false)]
pub fn read_stream(
    stream: &[u8],
    start: usize,
    events: &HashMap<u16, Event>,
    filter: &str,
    decoded: &mut Vec<TraceEvent>,
) -> (end: (usize, Option<ReadError>))
    ensures
        ({
            let outcome = read_records(
                stream@,
                start as nat,
                catalog_view(events@),
                filter@,
                events_view(old(decoded)@),
            );
            &&& events_view(final(decoded)@) == outcome.events
            &&& end.0 == outcome.position
            &&& end.1 == outcome.failure
        }),
{
    let ghost outcome = read_records(
        stream@,
        start as nat,
        catalog_view(events@),
        filter@,
        events_view(decoded@),
    );
    let mut at: usize = start;
    loop
        invariant
            read_records(
                stream@,
                at as nat,
                catalog_view(events@),
                filter@,
                events_view(decoded@),
            ) == outcome,
        decreases stream@.len() - at,
    {
        let length: usize = stream.len();
        let record = match read_frame(stream, at) {
            Ok(Some(record)) => record,
            Ok(None) => {
                return (at, None);
            },
            Err(error) => {
                return (at, Some(ReadError { offset: at, fault: ReadFault::Frame(error) }));
            },
        };
        proof {
            let total = declared_length(stream@, at as int);
            assert(4 <= total <= length - at);
            assert(record.payload@.len() == total - 4);
        }
        let next: usize = at + 4 + record.payload.len();
        if record.type_tag == EVENT_RECORD {
            match decode_event(record.payload, events, filter, decoded) {
                Ok(()) => {},
                Err(error) => {
                    return (next, Some(ReadError { offset: at, fault: ReadFault::Record(error) }));
                },
            }
        }
        at = next;
    }
}

/// Reading stops with a failure at a record that declares more bytes than
/// the stream has left: the events before it are kept and nothing of the
/// record is decoded.
pub proof fn lemma_short_record_stops_reading(
    stream: Seq<u8>,
    at: nat,
    catalog: Map<u16, EventView>,
    filter: Seq<char>,
    events: Seq<TraceEventView>,
)
    requires
        stream.len() - at >= 2,
        declared_length(stream, at as int) > stream.len() - at,
    ensures
        read_records(stream, at, catalog, filter, events).failure is Some,
        read_records(stream, at, catalog, filter, events).events == events,
        read_records(stream, at, catalog, filter, events).position == at,
{
}

} // verus!
