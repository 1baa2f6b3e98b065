//! The decoded events of a capture as plain rows of names and values,
//! without their times.

use crate::trace_reader::{
    events_view, gunzip, gunzip_of, read_records, read_stream, ReadError, TraceEventView,
    TraceParameter, TraceParameterView,
};
use crate::xml_parser::{catalog_view, Event};
use std::collections::HashMap;
use vstd::prelude::*;

verus! {

/// One cell of a row: the name of a field and its value as text.
#[derive(Debug)]
pub struct TraceEvent {
    pub name: String,
    pub value: String,
}

/// One row: the name of an event and its fields in schema order.
#[derive(Debug)]
pub struct TraceRow {
    pub name: String,
    pub events: Vec<TraceEvent>,
}

/// A row as plain values.
pub struct TraceRowView {
    pub name: Seq<char>,
    pub events: Seq<TraceParameterView>,
}

impl View for TraceEvent {
    type V = TraceParameterView;

    open spec fn view(&self) -> TraceParameterView {
        TraceParameterView { name: self.name@, value: self.value@ }
    }
}

impl View for TraceRow {
    type V = TraceRowView;

    open spec fn view(&self) -> TraceRowView {
        TraceRowView {
            name: self.name@,
            events: self.events@.map_values(|cell: TraceEvent| cell@),
        }
    }
}

/// The row of a decoded event: its name and fields, without its time.
pub open spec fn row_from(event: TraceEventView) -> TraceRowView {
    TraceRowView { name: event.name, events: event.parameters }
}

/// The views of a run of rows.
pub open spec fn rows_view(rows: Seq<TraceRow>) -> Seq<TraceRowView> {
    rows.map_values(|row: TraceRow| row@)
}

/// The row of a decoded event.
pub fn row_of_event(event: &crate::trace_reader::TraceEvent) -> (row: TraceRow)
    ensures
        row@ == row_from(event@),
{
    let mut cells: Vec<TraceEvent> = Vec::new();
    let mut i: usize = 0;
    while i < event.parameters.len()
        invariant
            i <= event.parameters@.len(),
            cells@.map_values(|cell: TraceEvent| cell@) == event@.parameters.take(i as int),
        decreases event.parameters@.len() - i,
    {
        let field: &TraceParameter = &event.parameters[i];
        let cell = TraceEvent { name: field.name.clone(), value: field.value.clone() };
        let ghost before = cells@.map_values(|cell: TraceEvent| cell@);
        cells.push(cell);
        proof {
            assert(cells@.map_values(|cell: TraceEvent| cell@) == before.push(cell@));
            assert(event@.parameters.take(i + 1) == event@.parameters.take(i as int).push(field@));
        }
        i = i + 1;
    }
    proof {
        assert(event@.parameters.take(i as int) == event@.parameters);
    }
    TraceRow { name: event.name.clone(), events: cells }
}

/// The rows of every event record of an uncompressed capture, in stream
/// order; the failure where a record cannot be cut out or decoded.
pub fn rows_of_stream(stream: &[u8], events: &HashMap<u16, Event>) -> (result: Result<
    Vec<TraceRow>,
    ReadError,
>)
    ensures
        ({
            let outcome = read_records(stream@, 0, catalog_view(events@), "all"@, Seq::empty());
            match outcome.failure {
                None => result matches Ok(rows) && rows_view(rows@) == outcome.events.map_values(
                    |event: TraceEventView| row_from(event),
                ),
                Some(error) => result matches Err(told) && told == error,
            }
        }),
{
    let mut decoded: Vec<crate::trace_reader::TraceEvent> = Vec::new();
    proof {
        assert(events_view(decoded@) == Seq::<TraceEventView>::empty());
    }
    let (_, failure) = read_stream(stream, 0, events, "all", &mut decoded);
    if let Some(error) = failure {
        return Err(error);
    }
    let ghost views = events_view(decoded@);
    let mut rows: Vec<TraceRow> = Vec::new();
    let mut i: usize = 0;
    while i < decoded.len()
        invariant
            i <= decoded@.len(),
            views == events_view(decoded@),
            rows_view(rows@) == views.take(i as int).map_values(
                |event: TraceEventView| row_from(event),
            ),
        decreases decoded@.len() - i,
    {
        let row = row_of_event(&decoded[i]);
        let ghost before = rows_view(rows@);
        rows.push(row);
        proof {
            let turn = |event: TraceEventView| row_from(event);
            assert(rows_view(rows@) == before.push(row@));
            assert(views.take(i + 1) == views.take(i as int).push(decoded@[i as int]@));
            assert(views.take(i as int).push(decoded@[i as int]@).map_values(turn) == views.take(
                i as int,
            ).map_values(turn).push(turn(decoded@[i as int]@)));
        }
        i = i + 1;
    }
    proof {
        assert(views.take(i as int) == views);
    }
    Ok(rows)
}

/// The rows of every event record of a gzip-compressed capture.
pub fn read_trace(capture: &[u8], events: &HashMap<u16, Event>) -> (result: Result<
    Vec<TraceRow>,
    ReadError,
>)
    ensures
        ({
            let outcome = read_records(
                gunzip_of(capture@),
                0,
                catalog_view(events@),
                "all"@,
                Seq::empty(),
            );
            match outcome.failure {
                None => result matches Ok(rows) && rows_view(rows@) == outcome.events.map_values(
                    |event: TraceEventView| row_from(event),
                ),
                Some(error) => result matches Err(told) && told == error,
            }
        }),
{
    let stream = gunzip(capture);
    rows_of_stream(stream.as_slice(), events)
}

} // verus!
