//! What the decoded events look like on a terminal: one table row for each
//! event, or the events of one endpoint in time order.

use crate::formatter::{pad_name, padded};
use crate::ranking::{is_ranking, lemma_ranking_exists, rank_order, ranking, ranks_before};
use crate::text::{
    contains_text, decimal_string, decimal_text, has_part, has_prefix, parse_i64, same_text,
    signed_of, signed_string, signed_text, starts_with,
};
use crate::trace_reader::{events_view, TraceEvent, TraceEventView, TraceParameter, TraceParameterView};
use tabled::builder::Builder;
use tabled::Style;
use vstd::prelude::*;
use vstd::string::StringExecFns;

verus! {

/// The cell of one decoded field: its name, a colon, its value.
pub open spec fn cell_text(field: TraceParameterView) -> Seq<char> {
    field.name + ":"@ + field.value
}

/// The row of one event: its name, then a cell for each of its fields.
pub open spec fn row_of(event: TraceEventView) -> Seq<Seq<char>> {
    seq![event.name] + event.parameters.map_values(|field: TraceParameterView| cell_text(field))
}

/// The rows of a run of events.
pub open spec fn rows_of(events: Seq<TraceEventView>) -> Seq<Seq<Seq<char>>> {
    events.map_values(|event: TraceEventView| row_of(event))
}

/// The number of cells of the longest row; 0 where there is no row.
pub open spec fn widest_row(events: Seq<TraceEventView>) -> nat
    decreases events.len(),
{
    if events.len() == 0 {
        0
    } else {
        let before = widest_row(events.drop_last());
        let last = events.last().parameters.len() + 1;
        if last > before {
            last
        } else {
            before
        }
    }
}

/// The titles of `n` columns: their numbers, from 0 on.
pub open spec fn column_titles(n: nat) -> Seq<Seq<char>> {
    Seq::new(n, |i: int| decimal_text(i as nat))
}

/// The text of a table with rounded ASCII borders, as `tabled` draws it
/// from the titles of its columns and its rows.
pub uninterp spec fn table_text(columns: Seq<Seq<char>>, rows: Seq<Seq<Seq<char>>>) -> Seq<char>;

/// The texts of a run of rows.
pub open spec fn rows_view(rows: Seq<Vec<String>>) -> Seq<Seq<Seq<char>>> {
    rows.map_values(|row: Vec<String>| row@.map_values(|cell: String| cell@))
}

/// The texts of a run of cells.
pub open spec fn cells_view(cells: Seq<String>) -> Seq<Seq<char>> {
    cells.map_values(|cell: String| cell@)
}

/// `tabled`'s `Builder`, filled with the rows and then given the column
/// titles, built and drawn in the style `ascii_rounded`: the text of the
/// table, which depends on the titles and the rows alone.
#[verifier::external_body]
fn render_table(columns: Vec<String>, rows: Vec<Vec<String>>) -> (text: String)
    ensures
        text@ == table_text(cells_view(columns@), rows_view(rows@)),
{
    let mut builder = Builder::from_iter(rows);
    builder.set_columns(columns);
    builder.build().with(Style::ascii_rounded()).to_string()
}

/// The row of one event.
pub fn trace_row(event: &TraceEvent) -> (row: Vec<String>)
    ensures
        cells_view(row@) == row_of(event@),
{
    let ghost fields = event@.parameters;
    let mut row: Vec<String> = Vec::new();
    row.push(event.name.clone());
    let mut i: usize = 0;
    while i < event.parameters.len()
        invariant
            i <= event.parameters@.len(),
            fields == event@.parameters,
            cells_view(row@) == seq![event@.name] + fields.take(i as int).map_values(
                |field: TraceParameterView| cell_text(field),
            ),
        decreases event.parameters@.len() - i,
    {
        let field = &event.parameters[i];
        let mut cell = field.name.clone();
        cell.append(":");
        cell.append(field.value.as_str());
        let ghost before = cells_view(row@);
        row.push(cell);
        proof {
            let draw = |field: TraceParameterView| cell_text(field);
            assert(cells_view(row@) == before.push(cell@));
            assert(fields.take(i + 1) == fields.take(i as int).push(field@));
            assert(fields.take(i as int).push(field@).map_values(draw) == fields.take(
                i as int,
            ).map_values(draw).push(draw(field@)));
        }
        i = i + 1;
    }
    proof {
        assert(fields.take(i as int) == fields);
    }
    row
}

/// The table that shows one row for each event, under numbered columns.
pub fn trace_table(events: &[TraceEvent]) -> (text: String)
    requires
        forall|i: int| 0 <= i < events@.len() ==> (#[trigger] events@[i]).parameters@.len() < usize::MAX,
    ensures
        text@ == table_text(
            column_titles(widest_row(events_view(events@))),
            rows_of(events_view(events@)),
        ),
{
    let ghost views = events_view(events@);
    let mut rows: Vec<Vec<String>> = Vec::new();
    let mut max_columns: usize = 0;
    let mut i: usize = 0;
    proof {
        assert(views.take(0) == Seq::<TraceEventView>::empty());
    }
    while i < events.len()
        invariant
            i <= events@.len(),
            views == events_view(events@),
            forall|i: int| 0 <= i < events@.len() ==> (#[trigger] events@[i]).parameters@.len() < usize::MAX,
            max_columns == widest_row(views.take(i as int)),
            rows_view(rows@) == rows_of(views.take(i as int)),
        decreases events@.len() - i,
    {
        let event = &events[i];
        proof {
            let next = views.take(i + 1);
            assert(next.drop_last() == views.take(i as int));
            assert(next.last() == event@);
            assert(event@.parameters.len() == event.parameters@.len());
        }
        let cells: usize = event.parameters.len() + 1;
        if cells > max_columns {
            max_columns = cells;
        }
        let row = trace_row(event);
        let ghost before = rows_view(rows@);
        rows.push(row);
        proof {
            let draw = |event: TraceEventView| row_of(event);
            assert(rows_view(rows@) == before.push(cells_view(row@)));
            assert(views.take(i + 1) == views.take(i as int).push(event@));
            assert(views.take(i as int).push(event@).map_values(draw) == views.take(
                i as int,
            ).map_values(draw).push(draw(event@)));
        }
        i = i + 1;
    }
    proof {
        assert(views.take(i as int) == views);
    }
    let mut columns: Vec<String> = Vec::new();
    let mut n: usize = 0;
    while n < max_columns
        invariant
            n <= max_columns,
            cells_view(columns@) == column_titles(n as nat),
        decreases max_columns - n,
    {
        let title = decimal_string(n as u64);
        let ghost before = cells_view(columns@);
        columns.push(title);
        proof {
            assert(cells_view(columns@) == before.push(title@));
            assert(column_titles((n + 1) as nat) == column_titles(n as nat).push(
                decimal_text(n as nat),
            ));
        }
        n = n + 1;
    }
    render_table(columns, rows)
}

/// Which way a message went, seen from the node that recorded it.
#[derive(Clone, Copy, Debug, PartialEq, Eq, Structural)]
pub enum Direction {
    Sent,
    Received,
    Unknown,
}

/// Whether the event holds a field of this name with this value.
pub open spec fn holds(event: TraceEventView, name: Seq<char>, value: Seq<char>) -> bool {
    exists|i: int|
        0 <= i < event.parameters.len() && (#[trigger] event.parameters[i]).name == name
            && event.parameters[i].value == value
}

/// The direction that the event's direction field tells, if it has one.
pub open spec fn direction_of(event: TraceEventView) -> Direction {
    if holds(event, "EVENT_PARAM_MESSAGE_DIRECTION"@, "EVENT_VALUE_SENT"@) {
        Direction::Sent
    } else if holds(event, "EVENT_PARAM_MESSAGE_DIRECTION"@, "EVENT_VALUE_RECEIVED"@) {
        Direction::Received
    } else {
        Direction::Unknown
    }
}

/// Whether the event belongs to the endpoint: the reference is `all`, or
/// the event's endpoint reference field holds it.
pub open spec fn selected(event: TraceEventView, ueref: Seq<char>) -> bool {
    ueref == "all"@ || holds(event, "EVENT_PARAM_RAC_UE_REF"@, ueref)
}

/// The heading of an event. A message towards the endpoint points left and
/// one from it points right, before the event's name; where no direction is
/// known, eight spaces stand there. A message on the S1 or X2 interface is
/// shown from the far side: its name, and behind it the opposite arrow.
pub open spec fn heading_text(event: TraceEventView) -> Seq<char> {
    let direction = direction_of(event);
    if has_prefix(event.name, "S1"@) || has_prefix(event.name, "X2"@) {
        "-   "@ + event.name + " "@ + far_arrow(direction)
    } else {
        near_arrow(direction) + event.name
    }
}

/// The arrow before the name of an event, seen from the endpoint.
pub open spec fn near_arrow(direction: Direction) -> Seq<char> {
    match direction {
        Direction::Sent => "<---"@,
        Direction::Received => "--->"@,
        Direction::Unknown => "        "@,
    }
}

/// The arrow behind the name of an event, seen from the far side.
pub open spec fn far_arrow(direction: Direction) -> Seq<char> {
    match direction {
        Direction::Sent => "--->"@,
        Direction::Received => "<---"@,
        Direction::Unknown => ""@,
    }
}

/// Whether a field holds a signal power, which is shown in dBm.
pub open spec fn is_signal_power(name: Seq<char>) -> bool {
    has_part(name, "EVENT_PARAM_SERVING_RSRP"@) || has_part(name, "EVENT_PARAM_NEIGHBOR_RSRP"@)
}

/// Whether a field holds a timing advance, which is shown as a distance.
pub open spec fn is_timing_advance(name: Seq<char>) -> bool {
    has_part(name, "EVENT_ARRAY_TA"@)
}

/// The signal power in dBm that a reported value stands for: 140 less than
/// the value, which must be a number of 32 bits and leave one.
pub open spec fn signal_power(value: Seq<char>) -> Option<int> {
    match signed_of(value) {
        Some(reported) => if i32::MIN + 140 <= reported <= i32::MAX {
            Some(reported - 140)
        } else {
            None
        },
        None => None,
    }
}

/// The line of a field: twelve spaces, the padded name, a colon and a
/// space, and what is shown of the value.
pub open spec fn field_line(name: Seq<char>, shown: Seq<char>) -> Seq<char> {
    "            "@ + padded(name) + ": "@ + shown
}

/// One line of the timeline.
#[derive(Debug)]
pub enum TimelineLine {
    /// A finished line.
    Text(String),
    /// A timing advance: the field's name and its value as reported, which
    /// is to be shown as a distance.
    TimingAdvance { name: String, value: String },
}

/// A line of the timeline as plain values.
pub enum TimelineLineView {
    Text(Seq<char>),
    TimingAdvance { name: Seq<char>, value: Seq<char> },
}

impl View for TimelineLine {
    type V = TimelineLineView;

    open spec fn view(&self) -> TimelineLineView {
        match *self {
            TimelineLine::Text(text) => TimelineLineView::Text(text@),
            TimelineLine::TimingAdvance { name, value } => TimelineLineView::TimingAdvance {
                name: name@,
                value: value@,
            },
        }
    }
}

/// The views of a run of lines.
pub open spec fn lines_view(lines: Seq<TimelineLine>) -> Seq<TimelineLineView> {
    lines.map_values(|line: TimelineLine| line@)
}

/// Why a timeline cannot be shown.
#[derive(Clone, Copy, Debug, PartialEq, Eq, Structural)]
pub enum TimelineError {
    /// A signal power field does not hold a number of 32 bits from which 140
    /// can be taken.
    InvalidSignalPower,
}

/// The line of one field: a timing advance is handed on as it is, a signal
/// power is shown in dBm, any other value as it is.
pub open spec fn line_of(field: TraceParameterView) -> Result<TimelineLineView, TimelineError> {
    if is_timing_advance(field.name) {
        Ok(TimelineLineView::TimingAdvance { name: field.name, value: field.value })
    } else if is_signal_power(field.name) {
        match signal_power(field.value) {
            Some(power) => Ok(TimelineLineView::Text(field_line(field.name, signed_text(power)))),
            None => Err(TimelineError::InvalidSignalPower),
        }
    } else {
        Ok(TimelineLineView::Text(field_line(field.name, field.value)))
    }
}

/// The lines of a run of fields, after `lines`.
pub open spec fn field_lines(lines: Seq<TimelineLineView>, fields: Seq<TraceParameterView>) -> Result<
    Seq<TimelineLineView>,
    TimelineError,
>
    decreases fields.len(),
{
    if fields.len() == 0 {
        Ok(lines)
    } else {
        match (field_lines(lines, fields.drop_last()), line_of(fields.last())) {
            (Ok(front), Ok(line)) => Ok(front.push(line)),
            (Err(error), _) => Err(error),
            (_, Err(error)) => Err(error),
        }
    }
}

/// The lines of one event, after `lines`: nothing for an event of another
/// endpoint, else its heading and a line for each of its fields.
pub open spec fn event_lines(lines: Seq<TimelineLineView>, event: TraceEventView, ueref: Seq<char>) -> Result<
    Seq<TimelineLineView>,
    TimelineError,
> {
    if selected(event, ueref) {
        field_lines(lines.push(TimelineLineView::Text(heading_text(event))), event.parameters)
    } else {
        Ok(lines)
    }
}

/// The keys by which events are ranked in time: the earlier an event, the
/// higher its key.
pub open spec fn time_keys(events: Seq<TraceEventView>) -> Seq<u64> {
    events.map_values(|event: TraceEventView| (u64::MAX - event.timestamp) as u64)
}

/// The places of the events in time order; events of one time keep their
/// order.
pub open spec fn time_order(events: Seq<TraceEventView>) -> Seq<usize> {
    ranking(time_keys(events))
}

/// The lines of the first `n` events in time order.
pub open spec fn timeline_of(events: Seq<TraceEventView>, ueref: Seq<char>, n: int) -> Result<
    Seq<TimelineLineView>,
    TimelineError,
>
    decreases n,
{
    if n <= 0 {
        Ok(Seq::empty())
    } else {
        match timeline_of(events, ueref, n - 1) {
            Err(error) => Err(error),
            Ok(lines) => event_lines(lines, events[time_order(events)[n - 1] as int], ueref),
        }
    }
}

/// Whether the event holds a field of this name with this value.
pub fn event_holds(event: &TraceEvent, name: &str, value: &str) -> (found: bool)
    ensures
        found == holds(event@, name@, value@),
{
    let mut i: usize = 0;
    while i < event.parameters.len()
        invariant
            i <= event.parameters@.len(),
            forall|k: int|
                0 <= k < i ==> !((#[trigger] event@.parameters[k]).name == name@
                    && event@.parameters[k].value == value@),
        decreases event.parameters@.len() - i,
    {
        assert(event@.parameters[i as int] == event.parameters@[i as int]@);
        if same_text(event.parameters[i].name.as_str(), name) && same_text(
            event.parameters[i].value.as_str(),
            value,
        ) {
            return true;
        }
        i = i + 1;
    }
    false
}

/// The direction that the event's direction field tells.
pub fn message_direction(event: &TraceEvent) -> (direction: Direction)
    ensures
        direction == direction_of(event@),
{
    if event_holds(event, "EVENT_PARAM_MESSAGE_DIRECTION", "EVENT_VALUE_SENT") {
        Direction::Sent
    } else if event_holds(event, "EVENT_PARAM_MESSAGE_DIRECTION", "EVENT_VALUE_RECEIVED") {
        Direction::Received
    } else {
        Direction::Unknown
    }
}

/// The heading of an event.
pub fn heading(event: &TraceEvent) -> (text: String)
    ensures
        text@ == heading_text(event@),
{
    let direction = message_direction(event);
    if starts_with(event.name.as_str(), "S1") || starts_with(event.name.as_str(), "X2") {
        let mut text = "-   ".to_owned();
        text.append(event.name.as_str());
        text.append(" ");
        match direction {
            Direction::Sent => text.append("--->"),
            Direction::Received => text.append("<---"),
            Direction::Unknown => text.append(""),
        }
        text
    } else {
        let mut text = match direction {
            Direction::Sent => "<---".to_owned(),
            Direction::Received => "--->".to_owned(),
            Direction::Unknown => "        ".to_owned(),
        };
        text.append(event.name.as_str());
        text
    }
}

/// The line of one field.
pub fn parameter_line(parameter: &TraceParameter) -> (line: Result<TimelineLine, TimelineError>)
    ensures
        match line_of(parameter@) {
            Ok(expected) => line matches Ok(shown) && shown@ == expected,
            Err(error) => line matches Err(told) && told == error,
        },
{
    let name = parameter.name.as_str();
    if contains_text(name, "EVENT_ARRAY_TA") {
        return Ok(
            TimelineLine::TimingAdvance {
                name: parameter.name.clone(),
                value: parameter.value.clone(),
            },
        );
    }
    let shown = if contains_text(name, "EVENT_PARAM_SERVING_RSRP") || contains_text(
        name,
        "EVENT_PARAM_NEIGHBOR_RSRP",
    ) {
        match parse_i64(parameter.value.as_str()) {
            Some(reported) => {
                if reported < -2_147_483_648 + 140 || reported > 2_147_483_647 {
                    return Err(TimelineError::InvalidSignalPower);
                }
                signed_string(reported - 140)
            },
            None => {
                return Err(TimelineError::InvalidSignalPower);
            },
        }
    } else {
        parameter.value.clone()
    };
    let mut text = "            ".to_owned();
    text.append(pad_name(name).as_str());
    text.append(": ");
    text.append(shown.as_str());
    Ok(TimelineLine::Text(text))
}

/// The lines that show the events of one endpoint, or of all with `all`, in
/// time order.
#[verifier::loop_isolation(false)]
pub fn timeline(events: &[TraceEvent], ueref: &str) -> (result: Result<
    Vec<TimelineLine>,
    TimelineError,
>)
    ensures
        match timeline_of(events_view(events@), ueref@, events@.len() as int) {
            Ok(expected) => result matches Ok(lines) && lines_view(lines@) == expected,
            Err(error) => result matches Err(told) && told == error,
        },
{
    let ghost views = events_view(events@);
    let mut keys: Vec<u64> = Vec::new();
    let mut i: usize = 0;
    while i < events.len()
        invariant
            i <= events@.len(),
            keys@ == time_keys(views).take(i as int),
        decreases events@.len() - i,
    {
        keys.push(u64::MAX - events[i].timestamp);
        proof {
            assert(keys@ == time_keys(views).take(i + 1));
        }
        i = i + 1;
    }
    proof {
        assert(keys@ == time_keys(views));
    }
    let order = rank_order(keys.as_slice());
    let mut lines: Vec<TimelineLine> = Vec::new();
    let mut n: usize = 0;
    proof {
        assert(lines_view(lines@) == Seq::<TimelineLineView>::empty());
    }
    while n < order.len()
        invariant
            n <= order@.len() == events@.len(),
            timeline_of(views, ueref@, n as int) == Ok::<Seq<TimelineLineView>, TimelineError>(
                lines_view(lines@),
            ),
        decreases order@.len() - n,
    {
        let place: usize = order[n];
        proof {
            assert(order@[n as int] < events@.len());
        }
        let event = &events[place];
        let selected = same_text(ueref, "all") || event_holds(event, "EVENT_PARAM_RAC_UE_REF", ueref);
        if selected {
            let title = heading(event);
            let ghost before = lines_view(lines@);
            lines.push(TimelineLine::Text(title));
            let ghost begun = lines_view(lines@);
            proof {
                assert(begun == before.push(TimelineLineView::Text(heading_text(event@))));
                assert(event@.parameters.take(0) == Seq::<TraceParameterView>::empty());
            }
            let mut k: usize = 0;
            while k < event.parameters.len()
                invariant
                    k <= event.parameters@.len(),
                    field_lines(begun, event@.parameters.take(k as int)) == Ok::<
                        Seq<TimelineLineView>,
                        TimelineError,
                    >(lines_view(lines@)),
                decreases event.parameters@.len() - k,
            {
                proof {
                    let next = event@.parameters.take(k + 1);
                    assert(next.drop_last() == event@.parameters.take(k as int));
                    assert(next.last() == event.parameters@[k as int]@);
                }
                match parameter_line(&event.parameters[k]) {
                    Ok(line) => {
                        let ghost shown = lines_view(lines@);
                        lines.push(line);
                        proof {
                            assert(lines_view(lines@) == shown.push(line@));
                        }
                    },
                    Err(error) => {
                        proof {
                            lemma_line_failure_stays(begun, event@.parameters, k + 1);
                            lemma_timeline_failure_stays(views, ueref@, n + 1, events@.len() as int);
                        }
                        return Err(error);
                    },
                }
                k = k + 1;
            }
            proof {
                assert(event@.parameters.take(k as int) == event@.parameters);
            }
        }
        n = n + 1;
    }
    Ok(lines)
}

/// Once the lines of the first fields cannot be shown, the lines of all
/// fields cannot.
pub proof fn lemma_line_failure_stays(
    lines: Seq<TimelineLineView>,
    fields: Seq<TraceParameterView>,
    n: int,
)
    requires
        0 <= n <= fields.len(),
        field_lines(lines, fields.take(n)) is Err,
    ensures
        field_lines(lines, fields) is Err,
    decreases fields.len(),
{
    if n < fields.len() {
        assert(fields.drop_last().take(n) == fields.take(n));
        lemma_line_failure_stays(lines, fields.drop_last(), n);
    } else {
        assert(fields.take(n) == fields);
    }
}

/// Once the first events cannot be shown, no longer run of them can.
pub proof fn lemma_timeline_failure_stays(events: Seq<TraceEventView>, ueref: Seq<char>, n: int, m: int)
    requires
        n <= m,
        timeline_of(events, ueref, n) is Err,
    ensures
        timeline_of(events, ueref, m) == timeline_of(events, ueref, n),
    decreases m - n,
{
    if n < m {
        lemma_timeline_failure_stays(events, ueref, n, m - 1);
    }
}

/// The timeline shows the events by rising time, and events of one time in
/// the order in which they were decoded.
pub proof fn lemma_time_order_rises(events: Seq<TraceEventView>, k: int, l: int)
    requires
        events.len() <= usize::MAX,
        0 <= k < l < events.len(),
    ensures
        time_order(events).len() == events.len(),
        time_order(events)[k] < events.len(),
        time_order(events)[l] < events.len(),
        events[time_order(events)[k] as int].timestamp <= events[time_order(events)[l] as int].timestamp,
        events[time_order(events)[k] as int].timestamp == events[time_order(
            events,
        )[l] as int].timestamp ==> time_order(events)[k] < time_order(events)[l],
{
    let keys = time_keys(events);
    lemma_ranking_exists(keys);
    let order = ranking(keys);
    assert(ranks_before(keys, order[k] as int, order[l] as int));
}

} // verus!
