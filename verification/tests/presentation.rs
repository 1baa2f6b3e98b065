use celltrace::config::{processing_of, Config, Processing};
use celltrace::printer::{
    event_holds, heading, message_direction, parameter_line, timeline, trace_row, trace_table,
    Direction, TimelineError, TimelineLine,
};
use celltrace::text::{same_text, signed_string};
use celltrace::trace_reader::{TraceEvent, TraceParameter};

fn pair(name: &str, value: &str) -> TraceParameter {
    TraceParameter { name: name.to_string(), value: value.to_string() }
}

fn event(name: &str, timestamp: u64, parameters: Vec<TraceParameter>) -> TraceEvent {
    TraceEvent { name: name.to_string(), parameters, timestamp }
}

fn args(words: &[&str]) -> Vec<String> {
    words.iter().map(|w| w.to_string()).collect()
}

fn texts(lines: &[TimelineLine]) -> Vec<String> {
    lines
        .iter()
        .map(|line| match line {
            TimelineLine::Text(text) => text.clone(),
            TimelineLine::TimingAdvance { name, value } => format!("TA {} {}", name, value),
        })
        .collect()
}

#[test]
fn command_line_gives_the_settings() {
    let config = Config::new(args(&["prog", "schema.xml", "trace.gz", "table", "EVENT_A", "77"])).unwrap();
    assert_eq!(config.xml, "schema.xml");
    assert_eq!(config.filename, "trace.gz");
    assert_eq!(config.output, Processing::Table);
    assert_eq!(config.filter, "EVENT_A");
    assert_eq!(config.ueref, "77");
    let short = Config::new(args(&["prog", "schema.xml", "trace.gz", "summary"])).unwrap();
    assert_eq!(short.output, Processing::Summary);
    assert_eq!(short.filter, "all");
    assert_eq!(short.ueref, "all");
    let row = Config::new(args(&["prog", "s", "t", "row", "f", "u", "more"])).unwrap();
    assert_eq!(row.output, Processing::Row);
    assert_eq!(row.filter, "f");
    assert_eq!(row.ueref, "u");
}

#[test]
fn command_line_tells_what_is_missing() {
    assert_eq!(Config::new(args(&[])).unwrap_err(), "did not get xml file");
    assert_eq!(Config::new(args(&["prog"])).unwrap_err(), "did not get xml file");
    assert_eq!(Config::new(args(&["prog", "s"])).unwrap_err(), "did not get a file to parse");
    let output = "did not specify result output, options 'table' and 'summary'";
    assert_eq!(Config::new(args(&["prog", "s", "t"])).unwrap_err(), output);
    assert_eq!(Config::new(args(&["prog", "s", "t", "Table"])).unwrap_err(), output);
    assert_eq!(processing_of("rows"), None);
    assert_eq!(processing_of("row"), Some(Processing::Row));
}

#[test]
fn texts_compare_by_their_characters() {
    assert!(same_text("", ""));
    assert!(same_text("all", "all"));
    assert!(!same_text("all", "All"));
    assert!(!same_text("all", "al"));
}

#[test]
fn integers_are_written_with_their_sign() {
    assert_eq!(signed_string(0), "0");
    assert_eq!(signed_string(-1), "-1");
    assert_eq!(signed_string(-140), "-140");
    assert_eq!(signed_string(12345), "12345");
    assert_eq!(signed_string(i64::MAX), i64::MAX.to_string());
    assert_eq!(signed_string(i64::MIN), i64::MIN.to_string());
}

#[test]
fn row_holds_the_event_and_its_fields() {
    let shown = event("EVENT_A", 1, vec![pair("a", "1"), pair("b", "")]);
    assert_eq!(trace_row(&shown), vec!["EVENT_A".to_string(), "a:1".to_string(), "b:".to_string()]);
    assert_eq!(trace_row(&event("", 1, vec![])), vec!["".to_string()]);
}

#[test]
fn table_has_a_numbered_column_for_every_cell() {
    let events =
        vec![event("EVENT_A", 1, vec![pair("a", "1"), pair("b", "2")]), event("EVENT_B", 2, vec![])];
    let table = trace_table(&events);
    let lines: Vec<&str> = table.lines().collect();
    assert_eq!(
        lines,
        vec![
            ".---------------------.",
            "| 0       | 1   | 2   |",
            "| EVENT_A | a:1 | b:2 |",
            "| EVENT_B |     |     |",
            "'---------------------'",
        ]
    );
    assert_ne!(trace_table(&events[..1]), table);
}

#[test]
fn direction_comes_from_the_direction_field() {
    let sent = event("E", 1, vec![pair("EVENT_PARAM_MESSAGE_DIRECTION", "EVENT_VALUE_SENT")]);
    let received = event("E", 1, vec![pair("EVENT_PARAM_MESSAGE_DIRECTION", "EVENT_VALUE_RECEIVED")]);
    let neither = event("E", 1, vec![pair("EVENT_PARAM_MESSAGE_DIRECTION", "OTHER")]);
    let both = event(
        "E",
        1,
        vec![
            pair("EVENT_PARAM_MESSAGE_DIRECTION", "EVENT_VALUE_RECEIVED"),
            pair("EVENT_PARAM_MESSAGE_DIRECTION", "EVENT_VALUE_SENT"),
        ],
    );
    assert_eq!(message_direction(&sent), Direction::Sent);
    assert_eq!(message_direction(&received), Direction::Received);
    assert_eq!(message_direction(&neither), Direction::Unknown);
    assert_eq!(message_direction(&both), Direction::Sent);
    assert!(event_holds(&sent, "EVENT_PARAM_MESSAGE_DIRECTION", "EVENT_VALUE_SENT"));
    assert!(!event_holds(&sent, "EVENT_PARAM_MESSAGE_DIRECTION", "EVENT_VALUE_SEN"));
    assert!(!event_holds(&sent, "EVENT_VALUE_SENT", "EVENT_PARAM_MESSAGE_DIRECTION"));
}

#[test]
fn heading_points_the_way_of_the_message() {
    let direction = |value: &str| vec![pair("EVENT_PARAM_MESSAGE_DIRECTION", value)];
    assert_eq!(heading(&event("RRC_SETUP", 1, direction("EVENT_VALUE_SENT"))), "<---RRC_SETUP");
    assert_eq!(heading(&event("RRC_SETUP", 1, direction("EVENT_VALUE_RECEIVED"))), "--->RRC_SETUP");
    assert_eq!(heading(&event("RRC_SETUP", 1, vec![])), "        RRC_SETUP");
    assert_eq!(heading(&event("S1_SETUP", 1, direction("EVENT_VALUE_SENT"))), "-   S1_SETUP --->");
    assert_eq!(heading(&event("X2_SETUP", 1, direction("EVENT_VALUE_RECEIVED"))), "-   X2_SETUP <---");
    assert_eq!(heading(&event("S1", 1, vec![])), "-   S1 ");
    assert_eq!(heading(&event("s1_lower", 1, vec![])), "        s1_lower");
}

#[test]
fn signal_power_is_shown_in_dbm() {
    let line = |name: &str, value: &str| match parameter_line(&pair(name, value)) {
        Ok(TimelineLine::Text(text)) => text,
        other => panic!("{:?}", other),
    };
    assert_eq!(
        line("EVENT_PARAM_SERVING_RSRP", "60"),
        format!("            {:<40}: {}", "EVENT_PARAM_SERVING_RSRP", -80)
    );
    assert_eq!(
        line("X_EVENT_PARAM_NEIGHBOR_RSRP_2", "140"),
        format!("            {:<40}: {}", "X_EVENT_PARAM_NEIGHBOR_RSRP_2", 0)
    );
    assert_eq!(
        line("EVENT_PARAM_OTHER", "60"),
        format!("            {:<40}: {}", "EVENT_PARAM_OTHER", 60)
    );
    assert_eq!(
        line("EVENT_PARAM_SERVING_RSRP", "2147483647"),
        format!("            {:<40}: {}", "EVENT_PARAM_SERVING_RSRP", 2147483507)
    );
    assert_eq!(
        line("EVENT_PARAM_SERVING_RSRP", "-2147483508"),
        format!("            {:<40}: {}", "EVENT_PARAM_SERVING_RSRP", i32::MIN)
    );
    for bad in ["", "x", "2147483648", "-2147483509"] {
        assert_eq!(
            parameter_line(&pair("EVENT_PARAM_SERVING_RSRP", bad)).unwrap_err(),
            TimelineError::InvalidSignalPower
        );
    }
}

#[test]
fn timing_advance_is_handed_on() {
    match parameter_line(&pair("EVENT_ARRAY_TA_1", "16")).unwrap() {
        TimelineLine::TimingAdvance { name, value } => {
            assert_eq!(name, "EVENT_ARRAY_TA_1");
            assert_eq!(value, "16");
        }
        other => panic!("{:?}", other),
    }
    match parameter_line(&pair("EVENT_ARRAY_TA_EVENT_PARAM_SERVING_RSRP", "x")).unwrap() {
        TimelineLine::TimingAdvance { .. } => {}
        other => panic!("{:?}", other),
    }
}

#[test]
fn timeline_is_in_time_order_for_one_endpoint() {
    let events = vec![
        event("LATE", 30, vec![pair("EVENT_PARAM_RAC_UE_REF", "7"), pair("a", "1")]),
        event("OTHER", 10, vec![pair("EVENT_PARAM_RAC_UE_REF", "8")]),
        event("EARLY", 20, vec![pair("EVENT_PARAM_RAC_UE_REF", "7")]),
        event("SAME", 20, vec![pair("EVENT_PARAM_RAC_UE_REF", "7")]),
    ];
    let field = |name: &str, value: &str| format!("            {:<40}: {}", name, value);
    assert_eq!(
        texts(&timeline(&events, "7").unwrap()),
        vec![
            "        EARLY".to_string(),
            field("EVENT_PARAM_RAC_UE_REF", "7"),
            "        SAME".to_string(),
            field("EVENT_PARAM_RAC_UE_REF", "7"),
            "        LATE".to_string(),
            field("EVENT_PARAM_RAC_UE_REF", "7"),
            field("a", "1"),
        ]
    );
    let all = texts(&timeline(&events, "all").unwrap());
    assert_eq!(all.len(), 9);
    assert_eq!(all[0], "        OTHER");
    assert!(timeline(&events, "9").unwrap().is_empty());
    assert!(timeline(&[], "all").unwrap().is_empty());
}

#[test]
fn timeline_fails_on_a_signal_power_that_is_no_number() {
    let events = vec![
        event("A", 2, vec![pair("EVENT_PARAM_SERVING_RSRP", "x")]),
        event("B", 1, vec![pair("EVENT_PARAM_SERVING_RSRP", "1")]),
    ];
    assert_eq!(timeline(&events, "all").unwrap_err(), TimelineError::InvalidSignalPower);
    assert_eq!(timeline(&events[1..], "all").unwrap().len(), 2);
    assert!(timeline(&events, "none").unwrap().is_empty());
}
