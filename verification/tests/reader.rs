use celltrace::ctr_parser;
use celltrace::error::DecodeError;
use celltrace::framing::{read_be16, read_frame, FrameError};
use celltrace::trace_reader::{
    decode_event, read_stream, ReadError, ReadFault, TraceEvent, TraceReader,
};
use celltrace::xml_parser::{Event, Paramter};
use flate2::write::GzEncoder;
use flate2::Compression;
use std::collections::HashMap;
use std::io::Write;

fn field(name: &str, param_type: &str, number_of_bytes: i64) -> Paramter {
    Paramter {
        name: name.to_string(),
        param_type: param_type.to_string(),
        number_of_bytes,
        enumeration: HashMap::new(),
        related_name: String::new(),
    }
}

fn catalog() -> HashMap<u16, Event> {
    let mut events = HashMap::new();
    for (id, name) in [(1u16, "EVENT_A"), (2u16, "EVENT_B")] {
        events.insert(
            id,
            Event {
                name: name.to_string(),
                id,
                elements: vec!["VALUE".to_string()],
                parameters: vec![field("VALUE", "UINT", 1)],
            },
        );
    }
    events
}

fn record(type_tag: u16, payload: &[u8]) -> Vec<u8> {
    let mut bytes = ((payload.len() + 4) as u16).to_be_bytes().to_vec();
    bytes.extend_from_slice(&type_tag.to_be_bytes());
    bytes.extend_from_slice(payload);
    bytes
}

fn gzip(bytes: &[u8]) -> Vec<u8> {
    let mut encoder = GzEncoder::new(Vec::new(), Compression::default());
    encoder.write_all(bytes).unwrap();
    encoder.finish().unwrap()
}

fn names_and_values(events: &[TraceEvent]) -> Vec<(String, String)> {
    events.iter().map(|e| (e.name.clone(), e.parameters[0].value.clone())).collect()
}

#[test]
fn big_endian_pairs() {
    assert_eq!(read_be16(0, 0), 0);
    assert_eq!(read_be16(0x12, 0x34), 0x1234);
    assert_eq!(read_be16(0xff, 0xff), 0xffff);
}

#[test]
fn frame_is_cut_at_the_declared_length() {
    let mut stream = record(4, &[9, 8, 7]);
    stream.extend_from_slice(&record(1, &[]));
    let first = read_frame(&stream, 0).unwrap().unwrap();
    assert_eq!(first.type_tag, 4);
    assert_eq!(first.payload, vec![9, 8, 7]);
    let second = read_frame(&stream, 7).unwrap().unwrap();
    assert_eq!(second.type_tag, 1);
    assert_eq!(second.payload, Vec::<u8>::new());
    assert!(read_frame(&stream, 11).unwrap().is_none());
    assert!(read_frame(&stream, 500).unwrap().is_none());
}

#[test]
fn fewer_than_two_bytes_end_the_stream() {
    assert!(read_frame(&[], 0).unwrap().is_none());
    assert!(read_frame(&[0], 0).unwrap().is_none());
    assert!(read_frame(&[0, 7, 0, 4, 1, 2, 3, 9], 7).unwrap().is_none());
}

#[test]
fn stream_that_ends_inside_a_record_is_truncated() {
    assert_eq!(read_frame(&[0, 8], 0).unwrap_err(), FrameError::Truncated);
    assert_eq!(read_frame(&[0, 8, 0], 0).unwrap_err(), FrameError::Truncated);
    assert_eq!(read_frame(&[0, 8, 0, 4], 0).unwrap_err(), FrameError::Truncated);
    assert_eq!(read_frame(&[0, 8, 0, 4, 1, 2, 3], 0).unwrap_err(), FrameError::Truncated);
    assert!(read_frame(&[0, 8, 0, 4, 1, 2, 3, 4], 0).unwrap().is_some());
}

#[test]
fn declared_length_must_cover_the_header() {
    for total in 0u8..4 {
        assert_eq!(read_frame(&[0, total, 0, 4, 1, 2], 0).unwrap_err(), FrameError::BadLength);
    }
    let empty = read_frame(&[0, 4, 0, 4], 0).unwrap().unwrap();
    assert!(empty.payload.is_empty());
}

#[test]
fn reader_decodes_event_records_in_stream_order() {
    let mut stream = record(4, &[0, 0, 1, 10]);
    stream.extend_from_slice(&record(3, &[1, 2, 3, 4, 5]));
    stream.extend_from_slice(&record(4, &[0, 0, 2, 20]));
    stream.extend_from_slice(&record(4, &[0, 0, 1, 30]));
    let mut reader = TraceReader::from_stream(catalog(), stream.clone(), "all");
    assert_eq!(reader.read_trace(), Ok(()));
    let s = |t: &str| t.to_string();
    assert_eq!(
        names_and_values(&reader.decoded_trace_events),
        vec![(s("EVENT_A"), s("10")), (s("EVENT_B"), s("20")), (s("EVENT_A"), s("30"))]
    );
    assert_eq!(names_and_values(reader.events()).len(), 3);
    assert_eq!(reader.read_trace(), Ok(()));
    assert_eq!(reader.decoded_trace_events.len(), 3);

    let mut filtered = TraceReader::from_stream(catalog(), stream, "EVENT_A");
    assert_eq!(filtered.read_trace(), Ok(()));
    assert_eq!(
        names_and_values(&filtered.decoded_trace_events),
        vec![(s("EVENT_A"), s("10")), (s("EVENT_A"), s("30"))]
    );
}

#[test]
fn reader_stops_at_a_record_that_promises_more_than_is_left() {
    let mut stream = record(4, &[0, 0, 1, 10]);
    stream.extend_from_slice(&[0, 9, 0, 4, 0, 0, 1]);
    let mut reader = TraceReader::from_stream(catalog(), stream, "all");
    assert_eq!(
        reader.read_trace(),
        Err(ReadError { offset: 8, fault: ReadFault::Frame(FrameError::Truncated) })
    );
    assert_eq!(reader.decoded_trace_events.len(), 1);
}

#[test]
fn reader_stops_at_a_record_that_cannot_be_decoded() {
    let mut stream = record(4, &[0, 0, 1, 10]);
    stream.extend_from_slice(&record(4, &[0, 0, 9, 10]));
    stream.extend_from_slice(&record(4, &[0, 0, 1, 11]));
    let mut reader = TraceReader::from_stream(catalog(), stream.clone(), "all");
    assert_eq!(
        reader.read_trace(),
        Err(ReadError { offset: 8, fault: ReadFault::Record(DecodeError::UnknownEvent) })
    );
    assert_eq!(reader.decoded_trace_events.len(), 1);
    assert_eq!(reader.read_trace(), Ok(()));
    assert_eq!(reader.decoded_trace_events.len(), 2);

    let mut decoded = Vec::new();
    let (end, failure) = read_stream(&stream, 0, &catalog(), "all", &mut decoded);
    assert_eq!(end, 16);
    assert_eq!(
        failure,
        Some(ReadError { offset: 8, fault: ReadFault::Record(DecodeError::UnknownEvent) })
    );
}

#[test]
fn trailing_byte_is_left_unread() {
    let mut stream = record(4, &[0, 0, 1, 10]);
    stream.push(0xff);
    let mut decoded = Vec::new();
    let (end, failure) = read_stream(&stream, 0, &catalog(), "all", &mut decoded);
    assert_eq!((end, failure), (8, None));
    assert_eq!(decoded.len(), 1);
}

#[test]
fn decode_event_appends_unless_filtered() {
    let mut decoded = Vec::new();
    assert_eq!(decode_event(vec![0, 0, 1, 10], &catalog(), "EVENT_B", &mut decoded), Ok(()));
    assert!(decoded.is_empty());
    assert_eq!(decode_event(vec![0, 0, 2, 10], &catalog(), "EVENT_B", &mut decoded), Ok(()));
    assert_eq!(decoded.len(), 1);
    assert_eq!(
        decode_event(vec![0, 0, 2], &catalog(), "EVENT_B", &mut decoded),
        Err(DecodeError::Truncated)
    );
    assert_eq!(decoded.len(), 1);
    let mut reader = TraceReader::from_stream(catalog(), Vec::new(), "all");
    assert_eq!(reader.decode_raw_event(vec![0, 0, 1, 7]), Ok(()));
    assert_eq!(reader.decoded_trace_events[0].parameters[0].value, "7");
}

#[test]
fn reader_unpacks_a_gzip_capture() {
    let mut stream = record(4, &[0, 0, 1, 10]);
    stream.extend_from_slice(&record(4, &[0, 0, 2, 20]));
    let capture = gzip(&stream);
    assert_ne!(capture, stream);
    let mut reader = TraceReader::new(catalog(), &capture, "all");
    assert_eq!(reader.read_trace(), Ok(()));
    let s = |t: &str| t.to_string();
    assert_eq!(
        names_and_values(&reader.decoded_trace_events),
        vec![(s("EVENT_A"), s("10")), (s("EVENT_B"), s("20"))]
    );
}

#[test]
fn capture_that_is_no_gzip_stream_holds_nothing() {
    let stream = record(4, &[0, 0, 1, 10]);
    let mut reader = TraceReader::new(catalog(), &stream, "all");
    assert_eq!(reader.read_trace(), Ok(()));
    assert!(reader.decoded_trace_events.is_empty());
}

#[test]
fn rows_are_events_without_their_time() {
    let mut stream = record(4, &[0, 0, 1, 10]);
    stream.extend_from_slice(&record(7, &[]));
    stream.extend_from_slice(&record(4, &[0, 0, 2, 20]));
    let rows = ctr_parser::rows_of_stream(&stream, &catalog()).unwrap();
    assert_eq!(rows.len(), 2);
    assert_eq!(rows[0].name, "EVENT_A");
    assert_eq!(rows[0].events.len(), 1);
    assert_eq!(rows[0].events[0].name, "VALUE");
    assert_eq!(rows[0].events[0].value, "10");
    assert_eq!(rows[1].name, "EVENT_B");
    let packed = ctr_parser::read_trace(&gzip(&stream), &catalog()).unwrap();
    assert_eq!(packed.len(), 2);
    assert_eq!(packed[1].events[0].value, "20");
    stream.extend_from_slice(&[0, 3, 0, 4]);
    assert_eq!(
        ctr_parser::rows_of_stream(&stream, &catalog()).unwrap_err(),
        ReadError { offset: 20, fault: ReadFault::Frame(FrameError::BadLength) }
    );
}
