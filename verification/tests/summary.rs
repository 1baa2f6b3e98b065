use celltrace::ctr_analyzer::{
    excluded_from_summary, get_sum_event, sum_parameters, summarize_trace, SumEvent, Summary,
};
use celltrace::formatter::{
    format_summary, merge_parameters, pad_name, process_event, top_parameters,
};
use celltrace::ranking::rank_order;
use celltrace::trace_reader::{TraceEvent, TraceParameter};
use indexmap::IndexMap;

fn pair(name: &str, value: &str) -> TraceParameter {
    TraceParameter { name: name.to_string(), value: value.to_string() }
}

fn event(name: &str, parameters: Vec<TraceParameter>) -> TraceEvent {
    TraceEvent { name: name.to_string(), parameters, timestamp: 1 }
}

#[test]
fn test_summarize_trace() {
    let parameter1 = TraceParameter {
        name: "param1".to_string(),
        value: "value1".to_string(),
    };
    let parameter2 = TraceParameter {
        name: "param1".to_string(),
        value: "value1".to_string(),
    };

    let event1 = TraceEvent {
        name: "INTERNAL_event1".to_string(),
        parameters: vec![parameter1, parameter2],
        timestamp: 1,
    };
    let events = vec![event1];

    let mut summary: Summary = IndexMap::new();
    let mut event: SumEvent = IndexMap::new();
    let mut value: IndexMap<String, u32> = IndexMap::new();
    value.insert("value1".to_string(), 2);
    event.insert("param1".to_string(), value);
    summary.insert("INTERNAL_event1".to_string(), event);

    assert_eq!(summary, summarize_trace(&events));
}

#[test]
fn test_summarize_trace_non_internal() {
    let parameter1 = TraceParameter {
        name: "param1".to_string(),
        value: "value1".to_string(),
    };
    let parameter2 = TraceParameter {
        name: "param1".to_string(),
        value: "value1".to_string(),
    };

    let event1 = TraceEvent {
        name: "event1".to_string(),
        parameters: vec![parameter1, parameter2],
        timestamp: 1,
    };
    let events = vec![event1];

    let summary: Summary = IndexMap::new();

    assert_eq!(summary, summarize_trace(&events));
}

#[test]
fn format() {
    let mut values: IndexMap<String, u32> = IndexMap::new();
    values.insert("value1".to_string(), 1);
    values.insert("value2".to_string(), 2);
    let mut event: SumEvent = IndexMap::new();
    event.insert("paramter1".to_string(), values);
    let mut summary: Summary = IndexMap::new();
    summary.insert("event1".to_string(), event);

    let mut formatted_summary: IndexMap<String, String> = IndexMap::new();
    let formattd_value = format!(
        "\n    {:<40}: ({}:{}) ({}:{}) ",
        "paramter1", "value2", 2, "value1", 1
    );
    formatted_summary.insert("event1".to_string(), formattd_value);
    assert_eq!(formatted_summary, format_summary(summary));
}

#[test]
fn format_wrong() {
    let mut values: IndexMap<String, u32> = IndexMap::new();
    values.insert("value1".to_string(), 1);
    values.insert("value2".to_string(), 2);
    let mut event: SumEvent = IndexMap::new();
    event.insert("paramter1".to_string(), values);
    let mut summary: Summary = IndexMap::new();
    summary.insert("event1".to_string(), event);
    let mut wrong_formatted_summary: IndexMap<String, String> = IndexMap::new();
    let wrong_formattd_value = format!(
        "\n    {:<40}: ({}:{}) ({}:{}) ",
        "paramter1", "value1", 1, "value2", 2
    );
    wrong_formatted_summary.insert("event1".to_string(), wrong_formattd_value);
    assert_ne!(wrong_formatted_summary, format_summary(summary));
}

fn order_of(summary: &Summary) -> Vec<(String, Vec<(String, Vec<(String, u32)>)>)> {
    summary
        .iter()
        .map(|(event, table)| {
            let parameters = table
                .iter()
                .map(|(name, counts)| {
                    (name.clone(), counts.iter().map(|(v, c)| (v.clone(), *c)).collect())
                })
                .collect();
            (event.clone(), parameters)
        })
        .collect()
}

#[test]
fn summary_keeps_the_order_of_first_sight() {
    let events = vec![
        event("INTERNAL_B", vec![pair("q", "2"), pair("p", "1"), pair("q", "1")]),
        event("EXTERNAL", vec![pair("p", "1")]),
        event("INTERNAL_A", vec![pair("p", "x")]),
        event("INTERNAL_B", vec![pair("q", "1"), pair("r", "z"), pair("q", "2")]),
    ];
    let summary = summarize_trace(&events);
    let s = |t: &str| t.to_string();
    assert_eq!(
        order_of(&summary),
        vec![
            (
                s("INTERNAL_B"),
                vec![
                    (s("q"), vec![(s("2"), 2), (s("1"), 2)]),
                    (s("p"), vec![(s("1"), 1)]),
                    (s("r"), vec![(s("z"), 1)]),
                ]
            ),
            (s("INTERNAL_A"), vec![(s("p"), vec![(s("x"), 1)])]),
        ]
    );
}

#[test]
fn summary_ignores_events_outside_the_internal_namespace() {
    let events = vec![
        event("S1_SETUP", vec![pair("p", "1")]),
        event("internal_lowercase", vec![pair("p", "1")]),
        event("XINTERNAL", vec![pair("p", "1")]),
        event("INTERNA", vec![pair("p", "1")]),
        event("", vec![pair("p", "1")]),
    ];
    assert!(summarize_trace(&events).is_empty());
    let kept = summarize_trace(&[event("INTERNAL", vec![])]);
    assert_eq!(kept.len(), 1);
    assert!(kept["INTERNAL"].is_empty());
}

const EXCLUDED: [&str; 21] = [
    "EVENT_PARAM_TIMESTAMP_HOUR",
    "EVENT_PARAM_TIMESTAMP_MINUTE",
    "EVENT_PARAM_TIMESTAMP_SECOND",
    "EVENT_PARAM_TIMESTAMP_MILLISEC",
    "EVENT_PARAM_SCANNER_ID",
    "EVENT_PARAM_RBS_MODULE_ID",
    "EVENT_PARAM_ENBS1APID",
    "EVENT_PARAM_MMES1APID",
    "EVENT_PARAM_GUMMEI",
    "EVENT_PARAM_TRACE_RECORDING_SESSION_REFERENCE",
    "EVENT_PARAM_MESSAGE_DIRECTION",
    "EVENT_PARAM_L3MESSAGE_LENGTH",
    "EVENT_PARAM_L3MESSAGE_CONTENTS",
    "EVENT_PARAM_TIMESTAMP_START_MINUTE",
    "EVENT_PARAM_TIMESTAMP_START_HOUR",
    "EVENT_PARAM_TIMESTAMP_START_SECOND",
    "EVENT_PARAM_TIMESTAMP_START_MILLISEC",
    "EVENT_PARAM_TIMESTAMP_STOP_HOUR",
    "EVENT_PARAM_TIMESTAMP_STOP_MINUTE",
    "EVENT_PARAM_TIMESTAMP_STOP_SECOND",
    "EVENT_PARAM_TIMESTAMP_STOP_MILLISEC",
];

#[test]
fn summary_never_holds_an_excluded_parameter() {
    let mut parameters = Vec::new();
    for name in EXCLUDED {
        assert!(excluded_from_summary(name));
        for value in 0..10 {
            parameters.push(pair(name, &value.to_string()));
        }
    }
    parameters.push(pair("EVENT_PARAM_RAC_UE_REF", "1"));
    assert!(!excluded_from_summary("EVENT_PARAM_RAC_UE_REF"));
    assert!(!excluded_from_summary("event_param_gummei"));
    assert!(!excluded_from_summary(""));
    let summary = summarize_trace(&[event("INTERNAL_X", parameters)]);
    let s = |t: &str| t.to_string();
    assert_eq!(
        order_of(&summary),
        vec![(s("INTERNAL_X"), vec![(s("EVENT_PARAM_RAC_UE_REF"), vec![(s("1"), 1)])])]
    );
}

#[test]
fn summary_is_the_same_every_time() {
    let events = vec![
        event("INTERNAL_B", vec![pair("q", "2"), pair("p", "1"), pair("q", "1")]),
        event("INTERNAL_A", vec![pair("p", "x")]),
    ];
    let first = summarize_trace(&events);
    let second = summarize_trace(&events);
    assert_eq!(order_of(&first), order_of(&second));
    let first_text: Vec<(String, String)> = format_summary(first).into_iter().collect();
    let second_text: Vec<(String, String)> = format_summary(second).into_iter().collect();
    assert_eq!(first_text, second_text);
}

#[test]
fn get_sum_event_only_opens_internal_events() {
    let mut summary: Summary = IndexMap::new();
    assert!(get_sum_event(&mut summary, "S1_SETUP").is_none());
    assert!(summary.is_empty());
    assert!(get_sum_event(&mut summary, "INTERNAL_A").is_some());
    assert_eq!(summary.len(), 1);
    let mut table: SumEvent = IndexMap::new();
    sum_parameters(&mut table, &vec![pair("p", "1"), pair("p", "1"), pair("p", "2")]);
    assert_eq!(table["p"]["1"], 2);
    assert_eq!(table["p"]["2"], 1);
    *get_sum_event(&mut summary, "INTERNAL_A").unwrap() = table;
    assert_eq!(summary["INTERNAL_A"]["p"]["1"], 2);
    assert_eq!(summary.len(), 1);
}

#[test]
fn line_shows_the_five_most_frequent_values() {
    let mut parameters = Vec::new();
    let counts = [5, 4, 3, 3, 2, 1, 1];
    let mut left = counts;
    let mut any = true;
    while any {
        any = false;
        for (at, count) in left.iter_mut().enumerate() {
            if *count > 0 {
                *count -= 1;
                any = true;
                parameters.push(pair("p", &format!("v{}", at)));
            }
        }
    }
    let summary = summarize_trace(&[event("INTERNAL_X", parameters)]);
    let observed: Vec<u32> = summary["INTERNAL_X"]["p"].values().copied().collect();
    assert_eq!(observed, counts);
    let text = format_summary(summary);
    assert_eq!(
        text["INTERNAL_X"],
        format!("\n    {:<40}: (v0:5) (v1:4) (v2:3) (v3:3) (v4:2) ", "p")
    );
}

#[test]
fn ties_stand_in_the_order_of_first_sight() {
    let mut values: IndexMap<String, u32> = IndexMap::new();
    for (name, count) in [("late", 1), ("b", 3), ("top", 9), ("a", 3), ("c", 3), ("d", 3), ("e", 3)] {
        values.insert(name.to_string(), count);
    }
    let params: Vec<(&String, &u32)> = values.iter().collect();
    let top = top_parameters(&params, 5);
    let names: Vec<&str> = top.iter().map(|(name, _)| name.as_str()).collect();
    assert_eq!(names, vec!["top", "b", "a", "c", "d"]);
    assert_eq!(top_parameters(&params, 0).len(), 0);
    assert_eq!(top_parameters(&params, 7).len(), 7);
    assert_eq!(top_parameters(&params, 100).len(), 7);
}

#[test]
fn rank_order_is_a_stable_descending_sort() {
    assert_eq!(rank_order(&[]), Vec::<usize>::new());
    assert_eq!(rank_order(&[7]), vec![0]);
    assert_eq!(rank_order(&[1, 2, 3]), vec![2, 1, 0]);
    assert_eq!(rank_order(&[2, 2, 2]), vec![0, 1, 2]);
    assert_eq!(rank_order(&[5, 4, 3, 3, 2, 1, 1]), vec![0, 1, 2, 3, 4, 5, 6]);
    assert_eq!(rank_order(&[1, 3, 2, 3, 1, u64::MAX, 0]), vec![5, 1, 3, 2, 0, 4, 6]);
    let counts = [3u64, 1, 4, 1, 5, 9, 2, 6, 5, 3, 5];
    let mut expected: Vec<usize> = (0..counts.len()).collect();
    expected.sort_by(|a, b| counts[*b].cmp(&counts[*a]));
    assert_eq!(rank_order(&counts), expected);
}

#[test]
fn merge_parameters_writes_value_and_count() {
    let names = ["a".to_string(), "".to_string(), "x:y".to_string()];
    let counts = [0u32, 10, u32::MAX];
    let params: Vec<(&String, &u32)> = names.iter().zip(counts.iter()).collect();
    assert_eq!(merge_parameters(&params), "(a:0) (:10) (x:y:4294967295) ");
    assert_eq!(merge_parameters(&[]), "");
}

#[test]
fn names_are_padded_to_forty_characters() {
    assert_eq!(pad_name("abc"), format!("{:<40}", "abc"));
    assert_eq!(pad_name(""), " ".repeat(40));
    let exact = "x".repeat(40);
    assert_eq!(pad_name(&exact), exact);
    let long = "x".repeat(41);
    assert_eq!(pad_name(&long), long);
    let accented = "\u{e9}\u{e9}";
    assert_eq!(pad_name(accented), format!("{:<40}", accented));
    assert_eq!(pad_name(accented).chars().count(), 40);
}

#[test]
fn event_text_has_one_line_for_each_parameter() {
    let mut table: SumEvent = IndexMap::new();
    assert_eq!(process_event(&table), "");
    sum_parameters(&mut table, &vec![pair("first", "1"), pair("second", "x"), pair("first", "1")]);
    assert_eq!(
        process_event(&table),
        format!("\n    {:<40}: (1:2) \n    {:<40}: (x:1) ", "first", "second")
    );
}

#[test]
fn formatted_summary_keeps_the_order_of_events() {
    let events = vec![
        event("INTERNAL_B", vec![pair("q", "2")]),
        event("INTERNAL_A", vec![]),
        event("INTERNAL_B", vec![pair("q", "2")]),
    ];
    let texts: Vec<(String, String)> = format_summary(summarize_trace(&events)).into_iter().collect();
    assert_eq!(
        texts,
        vec![
            ("INTERNAL_B".to_string(), format!("\n    {:<40}: (2:2) ", "q")),
            ("INTERNAL_A".to_string(), "".to_string()),
        ]
    );
}
