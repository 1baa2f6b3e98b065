use celltrace::error::DecodeError;
use celltrace::parser::RowParser;
use celltrace::trace_reader::TraceParameter;
use celltrace::xml_parser::{Event, Paramter};
use std::collections::HashMap;

fn field(name: &str, param_type: &str, number_of_bytes: i64, related_name: &str) -> Paramter {
    Paramter {
        name: name.to_string(),
        param_type: param_type.to_string(),
        number_of_bytes,
        enumeration: HashMap::new(),
        related_name: related_name.to_string(),
    }
}

fn catalog(id: u16, name: &str, parameters: Vec<Paramter>) -> HashMap<u16, Event> {
    let mut events: HashMap<u16, Event> = HashMap::new();
    events.insert(
        id,
        Event {
            name: name.to_string(),
            id,
            elements: parameters.iter().map(|p| p.name.to_string()).collect(),
            parameters,
        },
    );
    events
}

fn pair(name: &str, value: &str) -> TraceParameter {
    TraceParameter { name: name.to_string(), value: value.to_string() }
}

#[test]
fn test_parse() {
    let data = vec![
        0, 4, 40, 7, 46, 38, 3, 106, 2, 0, 0, 0, 1, 172, 55, 1, 4, 19, 180, 19, 129, 123, 98,
        0, 98, 242, 16, 255, 51, 200, 0, 191, 192, 43, 0, 83, 180, 1, 0, 24, 32, 23, 0, 20, 0,
        0, 2, 0, 0, 64, 5, 192, 19, 129, 123, 98, 0, 8, 64, 4, 128, 4, 19, 180, 0, 0, 0, 0,
    ];
    let mut parser = RowParser::new(data, "all");

    let params = vec![
        Paramter {
            name: "EVENT_PARAM_TIMESTAMP_HOUR".to_string(),
            param_type: "UINT".to_string(),
            number_of_bytes: 1,
            enumeration: HashMap::new(),
            related_name: "".to_string(),
        },
        Paramter {
            name: "EVENT_PARAM_TIMESTAMP_MINUTE".to_string(),
            param_type: "UINT".to_string(),
            number_of_bytes: 1,
            enumeration: HashMap::new(),
            related_name: "".to_string(),
        },
        Paramter {
            name: "EVENT_PARAM_TIMESTAMP_SECOND".to_string(),
            param_type: "UINT".to_string(),
            number_of_bytes: 1,
            enumeration: HashMap::new(),
            related_name: "".to_string(),
        },
        Paramter {
            name: "EVENT_PARAM_TIMESTAMP_MILLISEC".to_string(),
            param_type: "UINT".to_string(),
            number_of_bytes: 2,
            enumeration: HashMap::new(),
            related_name: "".to_string(),
        },
        Paramter {
            name: "EVENT_PARAM_SCANNER_ID".to_string(),
            param_type: "UINT".to_string(),
            number_of_bytes: 3,
            enumeration: HashMap::new(),
            related_name: "".to_string(),
        },
        Paramter {
            name: "EVENT_PARAM_RBS_MODULE_ID".to_string(),
            param_type: "ENUM".to_string(),
            number_of_bytes: 1,
            enumeration: HashMap::new(),
            related_name: "".to_string(),
        },
        Paramter {
            name: "EVENT_PARAM_GLOBAL_CELL_ID".to_string(),
            param_type: "UINT".to_string(),
            number_of_bytes: 4,
            enumeration: HashMap::new(),
            related_name: "".to_string(),
        },
        Paramter {
            name: "EVENT_PARAM_ENBS1APID".to_string(),
            param_type: "UINT".to_string(),
            number_of_bytes: 3,
            enumeration: HashMap::new(),
            related_name: "".to_string(),
        },
        Paramter {
            name: "EVENT_PARAM_MMES1APID".to_string(),
            param_type: "UINT".to_string(),
            number_of_bytes: 4,
            enumeration: HashMap::new(),
            related_name: "".to_string(),
        },
        Paramter {
            name: "EVENT_PARAM_GUMMEI".to_string(),
            param_type: "BINARY".to_string(),
            number_of_bytes: 7,
            enumeration: HashMap::new(),
            related_name: "".to_string(),
        },
        Paramter {
            name: "EVENT_PARAM_RAC_UE_REF".to_string(),
            param_type: "UINT".to_string(),
            number_of_bytes: 4,
            enumeration: HashMap::new(),
            related_name: "".to_string(),
        },
        Paramter {
            name: "EVENT_PARAM_TRACE_RECORDING_SESSION_REFERENCE".to_string(),
            param_type: "BINARY".to_string(),
            number_of_bytes: 3,
            enumeration: HashMap::new(),
            related_name: "".to_string(),
        },
        Paramter {
            name: "EVENT_PARAM_MESSAGE_DIRECTION".to_string(),
            param_type: "ENUM".to_string(),
            number_of_bytes: 1,
            enumeration: HashMap::new(),
            related_name: "".to_string(),
        },
        Paramter {
            name: "EVENT_PARAM_L3MESSAGE_LENGTH".to_string(),
            param_type: "UINT".to_string(),
            number_of_bytes: 2,
            enumeration: HashMap::new(),
            related_name: "".to_string(),
        },
        Paramter {
            name: "EVENT_PARAM_L3MESSAGE_CONTENTS".to_string(),
            param_type: "BINARY".to_string(),
            number_of_bytes: -1,
            enumeration: HashMap::new(),
            related_name: "EVENT_PARAM_L3MESSAGE_LENGTH".to_string(),
        },
        Paramter {
            name: "EVENT_PARAM_RADIO_TYPE".to_string(),
            param_type: "ENUM".to_string(),
            number_of_bytes: 1,
            enumeration: HashMap::new(),
            related_name: "".to_string(),
        },
    ];

    let event = Event {
        name: "S1_UE_CONTEXT_RELEASE_COMPLETE".to_string(),
        id: 1064,
        elements: vec![],
        parameters: params,
    };

    let mut events: HashMap<u16, Event> = HashMap::new();
    events.insert(1064, event);

    match parser.parse(&events) {
        Ok(Some(e)) => {
            assert_eq!(e.name, "S1_UE_CONTEXT_RELEASE_COMPLETE");
            assert_eq!(e.timestamp, 27998874);
        }
        _ => panic!("failed"),
    }
}

#[test]
fn fields_are_decoded_in_schema_order() {
    let events = catalog(
        7,
        "EVENT_A",
        vec![
            field("ID", "uint", 2, ""),
            field("TEXT", "string", 3, ""),
            field("RAW", "binary", 2, ""),
            field("KIND", "enum", 1, ""),
        ],
    );
    let mut parser = RowParser::new(vec![0, 0, 7, 1, 2, b'a', b'b', b'c', 0xde, 0xad, 9], "all");
    let event = parser.parse(&events).unwrap().unwrap();
    assert_eq!(event.name, "EVENT_A");
    assert_eq!(event.timestamp, 0);
    assert_eq!(
        event.parameters,
        vec![pair("ID", "258"), pair("TEXT", "abc"), pair("RAW", "dead"), pair("KIND", "na")]
    );
}

#[test]
fn variable_length_takes_the_referenced_number_of_bytes() {
    let events = catalog(
        1,
        "EVENT_V",
        vec![
            field("LEN", "UINT", 1, ""),
            field("BODY", "BINARY", -1, "LEN"),
            field("AFTER", "UINT", 1, ""),
        ],
    );
    let mut parser = RowParser::new(vec![0, 0, 1, 3, 0xaa, 0xbb, 0xcc, 0x2a], "all");
    let event = parser.parse(&events).unwrap().unwrap();
    assert_eq!(
        event.parameters,
        vec![pair("LEN", "3"), pair("BODY", "aabbcc"), pair("AFTER", "42")]
    );
    let mut empty = RowParser::new(vec![0, 0, 1, 0, 0x2a], "all");
    let event = empty.parse(&events).unwrap().unwrap();
    assert_eq!(event.parameters, vec![pair("LEN", "0"), pair("BODY", ""), pair("AFTER", "42")]);
}

#[test]
fn variable_length_uses_the_most_recent_value_of_the_name() {
    let events = catalog(
        1,
        "EVENT_V",
        vec![
            field("LEN", "UINT", 1, ""),
            field("LEN", "UINT", 1, ""),
            field("BODY", "BINARY", -1, "LEN"),
        ],
    );
    let mut parser = RowParser::new(vec![0, 0, 1, 1, 2, 0xaa, 0xbb], "all");
    let event = parser.parse(&events).unwrap().unwrap();
    assert_eq!(event.parameters[2], pair("BODY", "aabb"));
}

#[test]
fn unresolved_length_reference_is_fatal() {
    let events = catalog(1, "EVENT_V", vec![field("BODY", "BINARY", -1, "LEN")]);
    let mut parser = RowParser::new(vec![0, 0, 1, 1, 2], "all");
    assert_eq!(parser.parse(&events).unwrap_err(), DecodeError::UnresolvedLength);
    let later = catalog(
        1,
        "EVENT_V",
        vec![field("BODY", "BINARY", -1, "LEN"), field("LEN", "UINT", 1, "")],
    );
    let mut parser = RowParser::new(vec![0, 0, 1, 1, 2], "all");
    assert_eq!(parser.parse(&later).unwrap_err(), DecodeError::UnresolvedLength);
}

#[test]
fn length_reference_must_hold_an_integer() {
    let events = catalog(
        1,
        "EVENT_V",
        vec![field("LEN", "STRING", 2, ""), field("BODY", "BINARY", -1, "LEN")],
    );
    let mut parser = RowParser::new(vec![0, 0, 1, b'x', b'y', 1, 2], "all");
    assert_eq!(parser.parse(&events).unwrap_err(), DecodeError::InvalidInteger);
    let mut signed = RowParser::new(vec![0, 0, 1, b'+', b'2', 1, 2], "all");
    let event = signed.parse(&events).unwrap().unwrap();
    assert_eq!(event.parameters[1], pair("BODY", "0102"));
    let mut negative = RowParser::new(vec![0, 0, 1, b'-', b'1', 1, 2], "all");
    assert_eq!(negative.parse(&events).unwrap_err(), DecodeError::NegativeLength);
}

#[test]
fn negative_fixed_length_is_fatal() {
    let events = catalog(1, "EVENT_V", vec![field("BODY", "BINARY", -2, "")]);
    let mut parser = RowParser::new(vec![0, 0, 1, 1, 2], "all");
    assert_eq!(parser.parse(&events).unwrap_err(), DecodeError::NegativeLength);
}

#[test]
fn unknown_event_is_fatal() {
    let events = catalog(1, "EVENT_V", vec![]);
    let mut parser = RowParser::new(vec![0, 0, 2], "all");
    assert_eq!(parser.parse(&events).unwrap_err(), DecodeError::UnknownEvent);
    let mut filtered = RowParser::new(vec![0, 0, 2], "OTHER");
    assert_eq!(filtered.parse(&events).unwrap_err(), DecodeError::UnknownEvent);
}

#[test]
fn payload_without_event_id_is_truncated() {
    let events = catalog(1, "EVENT_V", vec![]);
    for payload in [vec![], vec![0], vec![0, 0]] {
        let mut parser = RowParser::new(payload, "all");
        assert_eq!(parser.parse(&events).unwrap_err(), DecodeError::Truncated);
    }
}

#[test]
fn field_beyond_the_payload_is_truncated() {
    let events = catalog(1, "EVENT_V", vec![field("A", "UINT", 2, ""), field("B", "UINT", 2, "")]);
    let mut parser = RowParser::new(vec![0, 0, 1, 1, 2, 3], "all");
    assert_eq!(parser.parse(&events).unwrap_err(), DecodeError::Truncated);
}

#[test]
fn filter_selects_one_event_by_name() {
    let events = catalog(1, "EVENT_V", vec![field("A", "UINT", 1, "")]);
    let mut other = RowParser::new(vec![0, 0, 1, 5], "EVENT_W");
    assert!(other.parse(&events).unwrap().is_none());
    let mut same = RowParser::new(vec![0, 0, 1, 5], "EVENT_V");
    assert_eq!(same.parse(&events).unwrap().unwrap().parameters, vec![pair("A", "5")]);
    let mut all = RowParser::new(vec![0, 0, 1, 5], "all");
    assert!(all.parse(&events).unwrap().is_some());
}

#[test]
fn unrecognised_type_is_passed_over() {
    let events = catalog(
        1,
        "EVENT_V",
        vec![field("A", "UINT", 1, ""), field("B", "FLOAT", 2, ""), field("C", "UINT", 1, "")],
    );
    let mut parser = RowParser::new(vec![0, 0, 1, 5, 9, 9, 6], "all");
    let event = parser.parse(&events).unwrap().unwrap();
    assert_eq!(event.parameters, vec![pair("A", "5"), pair("C", "6")]);
}

#[test]
fn unrecognised_type_may_lie_beyond_the_payload() {
    let events = catalog(1, "EVENT_V", vec![field("A", "UINT", 1, ""), field("B", "FLOAT", 8, "")]);
    let mut parser = RowParser::new(vec![0, 0, 1, 5], "all");
    let event = parser.parse(&events).unwrap().unwrap();
    assert_eq!(event.parameters, vec![pair("A", "5")]);
    let then = catalog(
        1,
        "EVENT_V",
        vec![field("A", "UINT", 1, ""), field("B", "FLOAT", 8, ""), field("C", "BINARY", 0, "")],
    );
    let mut parser = RowParser::new(vec![0, 0, 1, 5], "all");
    assert_eq!(parser.parse(&then).unwrap_err(), DecodeError::Truncated);
}

fn timestamp_of(order: [usize; 4]) -> u64 {
    let names = [
        "EVENT_PARAM_TIMESTAMP_HOUR",
        "EVENT_PARAM_TIMESTAMP_MINUTE",
        "EVENT_PARAM_TIMESTAMP_SECOND",
        "EVENT_PARAM_TIMESTAMP_MILLISEC",
    ];
    let bytes: [&[u8]; 4] = [&[7], &[46], &[38], &[3, 106]];
    let mut payload = vec![0, 0, 1];
    let mut parameters = Vec::new();
    for at in order {
        payload.extend_from_slice(bytes[at]);
        parameters.push(field(names[at], "UINT", bytes[at].len() as i64, ""));
    }
    let events = catalog(1, "EVENT_T", parameters);
    RowParser::new(payload, "all").parse(&events).unwrap().unwrap().timestamp
}

#[test]
fn timestamp_does_not_depend_on_component_order() {
    assert_eq!(timestamp_of([0, 1, 2, 3]), 27_998_874);
    let mut seen = 0;
    for a in 0..4 {
        for b in 0..4 {
            for c in 0..4 {
                for d in 0..4 {
                    let mut used = [false; 4];
                    for at in [a, b, c, d] {
                        used[at] = true;
                    }
                    if used.iter().all(|u| *u) {
                        assert_eq!(timestamp_of([a, b, c, d]), 27_998_874);
                        seen += 1;
                    }
                }
            }
        }
    }
    assert_eq!(seen, 24);
}

#[test]
fn timestamp_scales_each_component() {
    let one = |name: &str| {
        let events = catalog(1, "EVENT_T", vec![field(name, "UINT", 1, "")]);
        RowParser::new(vec![0, 0, 1, 2], "all").parse(&events).unwrap().unwrap().timestamp
    };
    assert_eq!(one("EVENT_PARAM_TIMESTAMP_HOUR"), 7_200_000);
    assert_eq!(one("EVENT_PARAM_TIMESTAMP_MINUTE"), 120_000);
    assert_eq!(one("EVENT_PARAM_TIMESTAMP_SECOND"), 2_000);
    assert_eq!(one("EVENT_PARAM_TIMESTAMP_MILLISEC"), 2);
    assert_eq!(one("EVENT_PARAM_TIMESTAMP_START_HOUR"), 0);
}

#[test]
fn timestamp_component_must_hold_a_number() {
    let events = catalog(1, "EVENT_T", vec![field("EVENT_PARAM_TIMESTAMP_HOUR", "ENUM", 1, "")]);
    let mut parser = RowParser::new(vec![0, 0, 1, 2], "all");
    assert_eq!(parser.parse(&events).unwrap_err(), DecodeError::InvalidInteger);
}

#[test]
fn timestamp_that_overflows_is_fatal() {
    let events = catalog(1, "EVENT_T", vec![field("EVENT_PARAM_TIMESTAMP_HOUR", "STRING", 20, "")]);
    let mut payload = vec![0, 0, 1];
    payload.extend_from_slice(b"18446744073709551615");
    let mut parser = RowParser::new(payload, "all");
    assert_eq!(parser.parse(&events).unwrap_err(), DecodeError::TimestampOverflow);
    assert_eq!(
        RowParser::update_timestamp(u64::MAX, &pair("EVENT_PARAM_TIMESTAMP_MILLISEC", "1")),
        Err(DecodeError::TimestampOverflow)
    );
    assert_eq!(
        RowParser::update_timestamp(u64::MAX - 1, &pair("EVENT_PARAM_TIMESTAMP_MILLISEC", "1")),
        Ok(u64::MAX)
    );
}

#[test]
fn find_length_reads_fixed_and_referenced_lengths() {
    let parser = RowParser::new(vec![], "all");
    let decoded = vec![pair("A", "12"), pair("B", "x"), pair("A", "007")];
    assert_eq!(parser.find_length(&field("F", "UINT", 4, ""), &decoded), Ok(4));
    assert_eq!(parser.find_length(&field("F", "UINT", 0, "A"), &decoded), Ok(0));
    assert_eq!(parser.find_length(&field("F", "BINARY", -1, "A"), &decoded), Ok(7));
    assert_eq!(
        parser.find_length(&field("F", "BINARY", -1, "B"), &decoded),
        Err(DecodeError::InvalidInteger)
    );
    assert_eq!(
        parser.find_length(&field("F", "BINARY", -1, "C"), &decoded),
        Err(DecodeError::UnresolvedLength)
    );
    assert_eq!(
        parser.find_length(&field("F", "BINARY", -3, "A"), &decoded),
        Err(DecodeError::NegativeLength)
    );
}

#[test]
fn a_second_parse_goes_on_behind_the_first() {
    let events = catalog(1, "EVENT_V", vec![field("A", "UINT", 1, "")]);
    let mut parser = RowParser::new(vec![0, 0, 1, 5, 6], "all");
    assert_eq!(parser.parse(&events).unwrap().unwrap().parameters, vec![pair("A", "5")]);
    assert_eq!(parser.parse(&events).unwrap().unwrap().parameters, vec![pair("A", "6")]);
    assert_eq!(parser.parse(&events).unwrap_err(), DecodeError::Truncated);
}

#[test]
fn error_messages_are_distinct() {
    let all = [
        DecodeError::Truncated,
        DecodeError::UnknownEvent,
        DecodeError::UnresolvedLength,
        DecodeError::InvalidInteger,
        DecodeError::NegativeLength,
        DecodeError::SpanLength,
        DecodeError::InvalidUtf8,
        DecodeError::TimestampOverflow,
    ];
    for (i, a) in all.iter().enumerate() {
        assert!(!a.message().is_empty());
        for b in all.iter().skip(i + 1) {
            assert_ne!(a.message(), b.message());
        }
    }
}
