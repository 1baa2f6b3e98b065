//! The aggregation engine: how often each value of each parameter was seen,
//! per event, in the order of first sight.

use crate::parser::parameters_view;
use crate::text::{has_prefix, same_text, starts_with};
use crate::trace_reader::{events_view, TraceEvent, TraceEventView, TraceParameter, TraceParameterView};
use indexmap::IndexMap;
use vstd::prelude::*;

verus! {

/// `indexmap::IndexMap`, the hash map that keeps its entries in the order
/// in which their keys were first inserted. Nothing of its inside is known
/// here; what a map holds is named by `counts_of`, `parameters_of` and
/// `events_of`.
#[verifier::external_type_specification]
#[verifier::external_body]
#[verifier::reject_recursive_types(K)]
#[verifier::reject_recursive_types(V)]
#[verifier::reject_recursive_types(S)]
pub struct ExIndexMap<K, V, S>(IndexMap<K, V, S>);

/// The values seen of one parameter, each with the number of times it was
/// seen.
pub type ValueCounts = IndexMap<String, u32>;

/// The parameters of one event, each with its value counts.
pub type SumEvent = IndexMap<String, ValueCounts>;

/// The events, each with its parameters.
pub type Summary = IndexMap<String, SumEvent>;

/// Value counts in plain values: values and counts in insertion order.
pub type CountsView = Seq<(Seq<char>, u32)>;

/// An event's parameters in plain values, in insertion order.
pub type TableView = Seq<(Seq<char>, CountsView)>;

/// A summary in plain values, in insertion order.
pub type SummaryView = Seq<(Seq<char>, TableView)>;

/// Whether `table` holds `key` at position `at`.
pub open spec fn key_at<V>(table: Seq<(Seq<char>, V)>, key: Seq<char>, at: int) -> bool {
    0 <= at < table.len() && table[at].0 == key
}

/// Whether `table` holds `key`.
pub open spec fn has_key<V>(table: Seq<(Seq<char>, V)>, key: Seq<char>) -> bool {
    exists|at: int| key_at(table, key, at)
}

/// The position of `key` in a table that holds it.
pub open spec fn slot_of<V>(table: Seq<(Seq<char>, V)>, key: Seq<char>) -> int {
    choose|at: int| key_at(table, key, at)
}

/// The value under `key`, or `default` where the table does not hold the key.
pub open spec fn value_or<V>(table: Seq<(Seq<char>, V)>, key: Seq<char>, default: V) -> V {
    if has_key(table, key) {
        table[slot_of(table, key)].1
    } else {
        default
    }
}

/// The table with `value` under `key`: in the key's place where the table
/// holds the key, else as a new last entry.
pub open spec fn upsert<V>(table: Seq<(Seq<char>, V)>, key: Seq<char>, value: V) -> Seq<
    (Seq<char>, V),
> {
    if has_key(table, key) {
        table.update(slot_of(table, key), (key, value))
    } else {
        table.push((key, value))
    }
}

/// Whether no key occurs twice in `table`.
pub open spec fn keys_distinct<V>(table: Seq<(Seq<char>, V)>) -> bool {
    forall|i: int, j: int|
        0 <= i < table.len() && 0 <= j < table.len() && i != j ==> (#[trigger] table[i]).0 != (
        #[trigger] table[j]).0
}

/// What a map of value counts holds, in insertion order.
pub uninterp spec fn counts_of(counts: IndexMap<String, u32>) -> Seq<(Seq<char>, u32)>;

/// What an event's map of parameters holds, in insertion order.
pub uninterp spec fn parameters_of(table: IndexMap<String, IndexMap<String, u32>>) -> Seq<
    (Seq<char>, Seq<(Seq<char>, u32)>),
>;

/// What a summary holds, in insertion order.
pub uninterp spec fn events_of(
    summary: IndexMap<String, IndexMap<String, IndexMap<String, u32>>>,
) -> Seq<(Seq<char>, Seq<(Seq<char>, Seq<(Seq<char>, u32)>)>)>;

/// `IndexMap::new`: a summary that holds nothing.
#[verifier::external_body]
fn summary_new() -> (summary: Summary)
    ensures
        events_of(summary) == Seq::<(Seq<char>, TableView)>::empty(),
{
    IndexMap::new()
}

/// `IndexMap::entry` followed by `Entry::or_insert` with an empty map: the
/// place of the event's parameters. A key that the summary holds keeps its
/// place and its map; a new key goes last, with an empty map. Whatever the
/// caller leaves in the place is what the summary then holds under the key.
#[verifier::external_body]
fn event_slot<'a>(summary: &'a mut Summary, key: &str) -> (slot: &'a mut SumEvent)
    ensures
        parameters_of(*slot) == value_or(events_of(*old(summary)), key@, Seq::empty()),
        events_of(*final(summary)) == upsert(
            events_of(*old(summary)),
            key@,
            parameters_of(*final(slot)),
        ),
{
    summary.entry(key.to_string()).or_insert(IndexMap::new())
}

/// `IndexMap::entry` followed by `Entry::or_insert` with an empty map: the
/// place of the parameter's value counts, kept or added last as for
/// `event_slot`.
#[verifier::external_body]
fn parameter_slot<'a>(table: &'a mut SumEvent, key: &str) -> (slot: &'a mut ValueCounts)
    ensures
        counts_of(*slot) == value_or(parameters_of(*old(table)), key@, Seq::empty()),
        parameters_of(*final(table)) == upsert(
            parameters_of(*old(table)),
            key@,
            counts_of(*final(slot)),
        ),
{
    table.entry(key.to_string()).or_insert(IndexMap::new())
}

/// `IndexMap::entry` followed by `Entry::or_insert` with zero: the place of
/// the value's count, kept or added last as for `event_slot`.
#[verifier::external_body]
fn count_slot<'a>(counts: &'a mut ValueCounts, key: &str) -> (slot: &'a mut u32)
    ensures
        *slot == value_or(counts_of(*old(counts)), key@, 0u32),
        counts_of(*final(counts)) == upsert(counts_of(*old(counts)), key@, *final(slot)),
{
    counts.entry(key.to_string()).or_insert(0)
}

/// `IndexMap::iter`, collected: the values and their counts, in the map's
/// order.
#[verifier::external_body]
pub(crate) fn count_entries<'a>(counts: &'a ValueCounts) -> (entries: Vec<(&'a String, &'a u32)>)
    ensures
        entries@.len() == counts_of(*counts).len(),
        forall|i: int|
            0 <= i < entries@.len() ==> (#[trigger] entries@[i]).0@ == counts_of(*counts)[i].0
                && *entries@[i].1 == counts_of(*counts)[i].1,
{
    counts.iter().collect()
}

/// `IndexMap::iter`, collected: the parameters and their value counts, in
/// the map's order.
#[verifier::external_body]
pub(crate) fn parameter_entries<'a>(table: &'a SumEvent) -> (entries: Vec<
    (&'a String, &'a ValueCounts),
>)
    ensures
        entries@.len() == parameters_of(*table).len(),
        forall|i: int|
            0 <= i < entries@.len() ==> (#[trigger] entries@[i]).0@ == parameters_of(*table)[i].0
                && counts_of(*entries@[i].1) == parameters_of(*table)[i].1,
{
    table.iter().collect()
}

/// `IndexMap::iter`, collected: the events and their parameters, in the
/// map's order.
#[verifier::external_body]
pub(crate) fn event_entries<'a>(summary: &'a Summary) -> (entries: Vec<(&'a String, &'a SumEvent)>)
    ensures
        entries@.len() == events_of(*summary).len(),
        forall|i: int|
            0 <= i < entries@.len() ==> (#[trigger] entries@[i]).0@ == events_of(*summary)[i].0
                && parameters_of(*entries@[i].1) == events_of(*summary)[i].1,
{
    summary.iter().collect()
}

/// Whether an event belongs to the internal namespace, whose events are the
/// only ones summarised.
pub open spec fn is_internal(name: Seq<char>) -> bool {
    has_prefix(name, "INTERNAL"@)
}

/// Whether a parameter is left out of every summary: timestamps,
/// identifiers, session references, and the direction, length and contents
/// of messages.
pub open spec fn is_excluded(name: Seq<char>) -> bool {
    ||| name == "EVENT_PARAM_TIMESTAMP_HOUR"@
    ||| name == "EVENT_PARAM_TIMESTAMP_MINUTE"@
    ||| name == "EVENT_PARAM_TIMESTAMP_SECOND"@
    ||| name == "EVENT_PARAM_TIMESTAMP_MILLISEC"@
    ||| name == "EVENT_PARAM_SCANNER_ID"@
    ||| name == "EVENT_PARAM_RBS_MODULE_ID"@
    ||| name == "EVENT_PARAM_ENBS1APID"@
    ||| name == "EVENT_PARAM_MMES1APID"@
    ||| name == "EVENT_PARAM_GUMMEI"@
    ||| name == "EVENT_PARAM_TRACE_RECORDING_SESSION_REFERENCE"@
    ||| name == "EVENT_PARAM_MESSAGE_DIRECTION"@
    ||| name == "EVENT_PARAM_L3MESSAGE_LENGTH"@
    ||| name == "EVENT_PARAM_L3MESSAGE_CONTENTS"@
    ||| name == "EVENT_PARAM_TIMESTAMP_START_MINUTE"@
    ||| name == "EVENT_PARAM_TIMESTAMP_START_HOUR"@
    ||| name == "EVENT_PARAM_TIMESTAMP_START_SECOND"@
    ||| name == "EVENT_PARAM_TIMESTAMP_START_MILLISEC"@
    ||| name == "EVENT_PARAM_TIMESTAMP_STOP_HOUR"@
    ||| name == "EVENT_PARAM_TIMESTAMP_STOP_MINUTE"@
    ||| name == "EVENT_PARAM_TIMESTAMP_STOP_SECOND"@
    ||| name == "EVENT_PARAM_TIMESTAMP_STOP_MILLISEC"@
}

/// The counts after one more sight of `value`.
pub open spec fn bump(counts: CountsView, value: Seq<char>) -> CountsView {
    upsert(counts, value, (value_or(counts, value, 0u32) + 1) as u32)
}

/// An event's parameters after one more decoded field: a field that is not
/// excluded has its value counted under its name.
pub open spec fn add_field(table: TableView, field: TraceParameterView) -> TableView {
    if is_excluded(field.name) {
        table
    } else {
        upsert(table, field.name, bump(value_or(table, field.name, Seq::empty()), field.value))
    }
}

/// An event's parameters after a run of decoded fields.
pub open spec fn add_fields(table: TableView, fields: Seq<TraceParameterView>) -> TableView
    decreases fields.len(),
{
    if fields.len() == 0 {
        table
    } else {
        add_field(add_fields(table, fields.drop_last()), fields.last())
    }
}

/// The summary after one more event: an event of the internal namespace has
/// its fields counted under its name, any other event changes nothing.
pub open spec fn add_event(summary: SummaryView, event: TraceEventView) -> SummaryView {
    if is_internal(event.name) {
        upsert(
            summary,
            event.name,
            add_fields(value_or(summary, event.name, Seq::empty()), event.parameters),
        )
    } else {
        summary
    }
}

/// The summary of a run of events.
pub open spec fn summarize(events: Seq<TraceEventView>) -> SummaryView
    decreases events.len(),
{
    if events.len() == 0 {
        Seq::empty()
    } else {
        add_event(summarize(events.drop_last()), events.last())
    }
}

/// The number of decoded fields in a run of events.
pub open spec fn total_fields(events: Seq<TraceEventView>) -> nat
    decreases events.len(),
{
    if events.len() == 0 {
        0
    } else {
        total_fields(events.drop_last()) + events.last().parameters.len()
    }
}

/// Whether no count in `counts` is above `bound`.
pub open spec fn counts_within(counts: CountsView, bound: int) -> bool {
    forall|i: int| 0 <= i < counts.len() ==> (#[trigger] counts[i]).1 <= bound
}

/// Whether no count of any parameter in `table` is above `bound`.
pub open spec fn table_within(table: TableView, bound: int) -> bool {
    forall|i: int| 0 <= i < table.len() ==> counts_within((#[trigger] table[i]).1, bound)
}

/// Whether no count anywhere in `summary` is above `bound`.
pub open spec fn summary_within(summary: SummaryView, bound: int) -> bool {
    forall|i: int| 0 <= i < summary.len() ==> table_within((#[trigger] summary[i]).1, bound)
}

/// Whether the parameter of this name is left out of every summary.
pub fn excluded_from_summary(name: &str) -> (excluded: bool)
    ensures
        excluded == is_excluded(name@),
{
    same_text(name, "EVENT_PARAM_TIMESTAMP_HOUR") || same_text(name, "EVENT_PARAM_TIMESTAMP_MINUTE")
        || same_text(name, "EVENT_PARAM_TIMESTAMP_SECOND") || same_text(
        name,
        "EVENT_PARAM_TIMESTAMP_MILLISEC",
    ) || same_text(name, "EVENT_PARAM_SCANNER_ID") || same_text(name, "EVENT_PARAM_RBS_MODULE_ID")
        || same_text(name, "EVENT_PARAM_ENBS1APID") || same_text(name, "EVENT_PARAM_MMES1APID")
        || same_text(name, "EVENT_PARAM_GUMMEI") || same_text(
        name,
        "EVENT_PARAM_TRACE_RECORDING_SESSION_REFERENCE",
    ) || same_text(name, "EVENT_PARAM_MESSAGE_DIRECTION") || same_text(
        name,
        "EVENT_PARAM_L3MESSAGE_LENGTH",
    ) || same_text(name, "EVENT_PARAM_L3MESSAGE_CONTENTS") || same_text(
        name,
        "EVENT_PARAM_TIMESTAMP_START_MINUTE",
    ) || same_text(name, "EVENT_PARAM_TIMESTAMP_START_HOUR") || same_text(
        name,
        "EVENT_PARAM_TIMESTAMP_START_SECOND",
    ) || same_text(name, "EVENT_PARAM_TIMESTAMP_START_MILLISEC") || same_text(
        name,
        "EVENT_PARAM_TIMESTAMP_STOP_HOUR",
    ) || same_text(name, "EVENT_PARAM_TIMESTAMP_STOP_MINUTE") || same_text(
        name,
        "EVENT_PARAM_TIMESTAMP_STOP_SECOND",
    ) || same_text(name, "EVENT_PARAM_TIMESTAMP_STOP_MILLISEC")
}

/// Putting a value within a bound into a table within the bound leaves the
/// table within it.
pub proof fn lemma_upsert_counts_within(counts: CountsView, key: Seq<char>, value: u32, bound: int)
    requires
        counts_within(counts, bound),
        value <= bound,
    ensures
        counts_within(upsert(counts, key, value), bound),
{
    let after = upsert(counts, key, value);
    assert forall|i: int| 0 <= i < after.len() implies (#[trigger] after[i]).1 <= bound by {
        if has_key(counts, key) {
            if i != slot_of(counts, key) {
                assert(after[i] == counts[i]);
            }
        } else if i < counts.len() {
            assert(after[i] == counts[i]);
        }
    }
}

/// The value under a key of a table within a bound is within the bound.
pub proof fn lemma_value_within(counts: CountsView, key: Seq<char>, bound: int)
    requires
        counts_within(counts, bound),
        0 <= bound,
    ensures
        value_or(counts, key, 0u32) <= bound,
{
    if has_key(counts, key) {
        assert(counts[slot_of(counts, key)].1 <= bound);
    }
}

/// Whether going from `before` to `after` raised no count by more than `n`:
/// whatever bound `before` kept, `after` keeps the bound plus `n`.
pub open spec fn grows_by(before: TableView, after: TableView, n: int) -> bool {
    forall|bound: int|
        0 <= bound && #[trigger] table_within(before, bound) ==> table_within(after, bound + n)
}

/// Counts the fields of one event into the event's parameters.
pub fn sum_parameters(sum_event: &mut SumEvent, parameters: &Vec<TraceParameter>)
    requires
        parameters@.len() <= u32::MAX,
        table_within(parameters_of(*old(sum_event)), u32::MAX - parameters@.len()),
    ensures
        parameters_of(*final(sum_event)) == add_fields(
            parameters_of(*old(sum_event)),
            parameters_view(parameters@),
        ),
        grows_by(
            parameters_of(*old(sum_event)),
            parameters_of(*final(sum_event)),
            parameters@.len() as int,
        ),
{
    let ghost fields = parameters_view(parameters@);
    let ghost begun = parameters_of(*sum_event);
    let mut i: usize = 0;
    proof {
        assert(fields.take(0) == Seq::<TraceParameterView>::empty());
    }
    while i < parameters.len()
        invariant
            i <= parameters@.len() <= u32::MAX,
            fields == parameters_view(parameters@),
            parameters_of(*sum_event) == add_fields(begun, fields.take(i as int)),
            table_within(begun, u32::MAX - parameters@.len()),
            grows_by(begun, parameters_of(*sum_event), i as int),
        decreases parameters@.len() - i,
    {
        let parameter = &parameters[i];
        let ghost before = parameters_of(*sum_event);
        proof {
            let next = fields.take(i + 1);
            assert(next.drop_last() == fields.take(i as int));
            assert(next.last() == parameter@);
            assert(table_within(before, (u32::MAX - parameters@.len()) + i));
            lemma_table_within_grows(before, (u32::MAX - parameters@.len()) + i, u32::MAX - 1);
            assert forall|bound: int| 0 <= bound && #[trigger] table_within(begun, bound) implies table_within(
                add_field(before, parameter@),
                bound + (i + 1),
            ) by {
                assert(table_within(before, bound + i));
                lemma_add_field_within(before, parameter@, bound + i);
            }
        }
        if !excluded_from_summary(parameter.name.as_str()) {
            let ghost counts = value_or(before, parameter@.name, Seq::empty());
            proof {
                lemma_slot_within(before, parameter@.name, u32::MAX - 1);
                lemma_value_within(counts, parameter@.value, u32::MAX - 1);
            }
            let parameter_sum = parameter_slot(sum_event, parameter.name.as_str());
            let count = count_slot(parameter_sum, parameter.value.as_str());
            *count = *count + 1;
        }
        i = i + 1;
    }
    proof {
        assert(fields.take(i as int) == fields);
    }
}

/// The counts under a key of a table within a bound are within the bound.
pub proof fn lemma_slot_within(table: TableView, key: Seq<char>, bound: int)
    requires
        table_within(table, bound),
    ensures
        counts_within(value_or(table, key, Seq::empty()), bound),
{
    if has_key(table, key) {
        assert(counts_within(table[slot_of(table, key)].1, bound));
    }
}

/// A table within a bound is within every larger bound.
pub proof fn lemma_table_within_grows(table: TableView, bound: int, larger: int)
    requires
        table_within(table, bound),
        bound <= larger,
    ensures
        table_within(table, larger),
{
    assert forall|i: int| 0 <= i < table.len() implies counts_within((#[trigger] table[i]).1, larger) by {
        assert(counts_within(table[i].1, bound));
    }
}

/// One more field raises no count by more than one.
pub proof fn lemma_add_field_within(table: TableView, field: TraceParameterView, bound: int)
    requires
        table_within(table, bound),
        0 <= bound,
    ensures
        table_within(add_field(table, field), bound + 1),
{
    lemma_table_within_grows(table, bound, bound + 1);
    if !is_excluded(field.name) {
        let counts = value_or(table, field.name, Seq::empty());
        lemma_slot_within(table, field.name, bound);
        lemma_value_within(counts, field.value, bound);
        assert(counts_within(counts, bound + 1)) by {
            assert forall|i: int| 0 <= i < counts.len() implies (#[trigger] counts[i]).1 <= bound + 1 by {
                assert(counts[i].1 <= bound);
            }
        }
        let raised = (value_or(counts, field.value, 0u32) + 1) as u32;
        assert(raised <= bound + 1);
        lemma_upsert_counts_within(counts, field.value, raised, bound + 1);
        let after = add_field(table, field);
        assert forall|i: int| 0 <= i < after.len() implies counts_within(
            (#[trigger] after[i]).1,
            bound + 1,
        ) by {
            if has_key(table, field.name) {
                if i != slot_of(table, field.name) {
                    assert(after[i] == table[i]);
                }
            } else if i < table.len() {
                assert(after[i] == table[i]);
            }
        }
    }
}

/// The fields of the first events of a run are no more than the fields of
/// the whole run.
pub proof fn lemma_total_fields_grows(events: Seq<TraceEventView>, n: int)
    requires
        0 <= n <= events.len(),
    ensures
        total_fields(events.take(n)) <= total_fields(events),
    decreases events.len(),
{
    if n < events.len() {
        assert(events.drop_last().take(n) == events.take(n));
        lemma_total_fields_grows(events.drop_last(), n);
    } else {
        assert(events.take(n) == events);
    }
}

/// Putting a table within a bound into a summary within the bound leaves
/// the summary within it.
pub proof fn lemma_upsert_table_within(
    summary: SummaryView,
    key: Seq<char>,
    table: TableView,
    bound: int,
    larger: int,
)
    requires
        summary_within(summary, bound),
        bound <= larger,
        table_within(table, larger),
    ensures
        summary_within(upsert(summary, key, table), larger),
{
    let after = upsert(summary, key, table);
    assert forall|i: int| 0 <= i < after.len() implies table_within((#[trigger] after[i]).1, larger) by {
        if has_key(summary, key) && i != slot_of(summary, key) {
            assert(after[i] == summary[i]);
            assert(table_within(summary[i].1, bound));
            lemma_table_within_grows(summary[i].1, bound, larger);
        } else if !has_key(summary, key) && i < summary.len() {
            assert(after[i] == summary[i]);
            assert(table_within(summary[i].1, bound));
            lemma_table_within_grows(summary[i].1, bound, larger);
        }
    }
}

/// The place of an event's parameters in the summary, for an event of the
/// internal namespace; `None`, and the summary untouched, for any other.
pub fn get_sum_event<'a>(summary: &'a mut Summary, key: &str) -> (place: Option<&'a mut SumEvent>)
    ensures
        place is Some == is_internal(key@),
        place is None ==> events_of(*final(summary)) == events_of(*old(summary)),
        place matches Some(slot) ==> parameters_of(*slot) == value_or(
            events_of(*old(summary)),
            key@,
            Seq::empty(),
        ) && events_of(*final(summary)) == upsert(
            events_of(*old(summary)),
            key@,
            parameters_of(*final(slot)),
        ),
{
    if starts_with(key, "INTERNAL") {
        Some(event_slot(summary, key))
    } else {
        None
    }
}

/// Counts, for every event of the internal namespace, how often each value
/// of each parameter occurs. Events and parameters stand in the order in
/// which they were first seen, and so do the values of a parameter.
pub fn summarize_trace(events: &[TraceEvent]) -> (summary: Summary)
    requires
        total_fields(events_view(events@)) <= u32::MAX,
    ensures
        events_of(summary) == summarize(events_view(events@)),
{
    let ghost views = events_view(events@);
    let mut summary = summary_new();
    let mut i: usize = 0;
    proof {
        assert(views.take(0) == Seq::<TraceEventView>::empty());
    }
    while i < events.len()
        invariant
            i <= events@.len(),
            views == events_view(events@),
            total_fields(views) <= u32::MAX,
            events_of(summary) == summarize(views.take(i as int)),
            summary_within(events_of(summary), total_fields(views.take(i as int)) as int),
        decreases events@.len() - i,
    {
        let event = &events[i];
        let ghost before = events_of(summary);
        let ghost seen = total_fields(views.take(i as int)) as int;
        proof {
            let next = views.take(i + 1);
            assert(next.drop_last() == views.take(i as int));
            assert(next.last() == event@);
            assert(event@.parameters == parameters_view(event.parameters@));
            lemma_total_fields_grows(views, i + 1);
            if has_key(before, event@.name) {
                assert(table_within(before[slot_of(before, event@.name)].1, seen));
            }
            let table = value_or(before, event@.name, Seq::empty());
            assert(table_within(table, seen));
            lemma_table_within_grows(table, seen, u32::MAX - event.parameters@.len());
        }
        match get_sum_event(&mut summary, event.name.as_str()) {
            Some(sum_event) => {
                sum_parameters(sum_event, &event.parameters);
                proof {
                    let table = value_or(before, event@.name, Seq::empty());
                    let counted = add_fields(table, event@.parameters);
                    assert(table_within(counted, seen + event.parameters@.len()));
                    lemma_upsert_table_within(
                        before,
                        event@.name,
                        counted,
                        seen,
                        seen + event.parameters@.len(),
                    );
                }
            },
            None => {
                proof {
                    assert forall|k: int| 0 <= k < before.len() implies table_within(
                        (#[trigger] before[k]).1,
                        seen + event.parameters@.len(),
                    ) by {
                        lemma_table_within_grows(before[k].1, seen, seen + event.parameters@.len());
                    }
                }
            },
        }
        i = i + 1;
    }
    proof {
        assert(views.take(i as int) == views);
    }
    summary
}

/// Whether no parameter of `table` is one that summaries leave out.
pub open spec fn none_excluded(table: TableView) -> bool {
    forall|j: int| 0 <= j < table.len() ==> !is_excluded((#[trigger] table[j]).0)
}

/// Whether every event of `summary` is of the internal namespace and holds
/// no parameter that summaries leave out.
pub open spec fn only_internal(summary: SummaryView) -> bool {
    forall|i: int|
        0 <= i < summary.len() ==> is_internal((#[trigger] summary[i]).0) && none_excluded(
            summary[i].1,
        )
}

/// Counting fields adds no excluded parameter.
pub proof fn lemma_add_fields_none_excluded(table: TableView, fields: Seq<TraceParameterView>)
    requires
        none_excluded(table),
    ensures
        none_excluded(add_fields(table, fields)),
    decreases fields.len(),
{
    if fields.len() > 0 {
        lemma_add_fields_none_excluded(table, fields.drop_last());
        let before = add_fields(table, fields.drop_last());
        let field = fields.last();
        let after = add_field(before, field);
        assert forall|j: int| 0 <= j < after.len() implies !is_excluded((#[trigger] after[j]).0) by {
            if !is_excluded(field.name) {
                if has_key(before, field.name) {
                    if j != slot_of(before, field.name) {
                        assert(after[j] == before[j]);
                    }
                } else if j < before.len() {
                    assert(after[j] == before[j]);
                }
            }
        }
    }
}

/// A summary names only events of the internal namespace, and under them no
/// parameter of the exclusion list, whatever the events hold.
pub proof fn lemma_summary_only_internal(events: Seq<TraceEventView>)
    ensures
        only_internal(summarize(events)),
    decreases events.len(),
{
    if events.len() > 0 {
        lemma_summary_only_internal(events.drop_last());
        let before = summarize(events.drop_last());
        let event = events.last();
        if is_internal(event.name) {
            let table = value_or(before, event.name, Seq::empty());
            if has_key(before, event.name) {
                assert(none_excluded(before[slot_of(before, event.name)].1));
            }
            lemma_add_fields_none_excluded(table, event.parameters);
            let after = add_event(before, event);
            assert forall|i: int| 0 <= i < after.len() implies is_internal((#[trigger] after[i]).0)
                && none_excluded(after[i].1) by {
                if has_key(before, event.name) {
                    if i != slot_of(before, event.name) {
                        assert(after[i] == before[i]);
                    }
                } else if i < before.len() {
                    assert(after[i] == before[i]);
                }
            }
        }
    }
}

/// Events outside the internal namespace play no part: the summary of a run
/// of events is the summary of its internal events alone.
pub proof fn lemma_summary_ignores_others(events: Seq<TraceEventView>)
    ensures
        summarize(events) == summarize(
            events.filter(|event: TraceEventView| is_internal(event.name)),
        ),
    decreases events.len(),
{
    let internal = |event: TraceEventView| is_internal(event.name);
    reveal(Seq::filter);
    if events.len() > 0 {
        lemma_summary_ignores_others(events.drop_last());
        let kept = events.drop_last().filter(internal);
        if is_internal(events.last().name) {
            assert(kept.push(events.last()).drop_last() == kept);
        }
    }
}

/// Putting a value under a key keeps the keys of a table distinct.
pub proof fn lemma_upsert_keeps_distinct<V>(table: Seq<(Seq<char>, V)>, key: Seq<char>, value: V)
    requires
        keys_distinct(table),
    ensures
        keys_distinct(upsert(table, key, value)),
        has_key(upsert(table, key, value), key),
        value_or(upsert(table, key, value), key, value) == value,
{
    let after = upsert(table, key, value);
    let at = if has_key(table, key) {
        slot_of(table, key)
    } else {
        table.len() as int
    };
    assert(key_at(after, key, at));
    assert forall|i: int, j: int|
        0 <= i < after.len() && 0 <= j < after.len() && i != j implies (#[trigger] after[i]).0 != (
        #[trigger] after[j]).0 by {
        if has_key(table, key) {
            assert(table[i].0 != table[j].0);
        } else {
            if i < table.len() && j < table.len() {
                assert(table[i].0 != table[j].0);
            } else if i < table.len() {
                assert(!key_at(table, key, i));
            } else {
                assert(!key_at(table, key, j));
            }
        }
    }
    let found = slot_of(after, key);
    assert(key_at(after, key, found));
    if found != at {
        assert(after[found].0 != after[at].0);
    }
}

/// Whether `table` is a mapping at both of its levels: no parameter occurs
/// twice, and under no parameter does a value occur twice.
pub open spec fn table_is_mapping(table: TableView) -> bool {
    keys_distinct(table) && forall|j: int| 0 <= j < table.len() ==> keys_distinct((#[trigger] table[j]).1)
}

/// Whether `summary` is a mapping at all of its levels.
pub open spec fn summary_is_mapping(summary: SummaryView) -> bool {
    keys_distinct(summary) && forall|i: int|
        0 <= i < summary.len() ==> table_is_mapping((#[trigger] summary[i]).1)
}

/// Counting fields into a mapping gives a mapping.
pub proof fn lemma_add_fields_is_mapping(table: TableView, fields: Seq<TraceParameterView>)
    requires
        table_is_mapping(table),
    ensures
        table_is_mapping(add_fields(table, fields)),
    decreases fields.len(),
{
    if fields.len() > 0 {
        lemma_add_fields_is_mapping(table, fields.drop_last());
        let before = add_fields(table, fields.drop_last());
        let field = fields.last();
        if !is_excluded(field.name) {
            let counts = value_or(before, field.name, Seq::empty());
            if has_key(before, field.name) {
                assert(keys_distinct(before[slot_of(before, field.name)].1));
            }
            let raised = (value_or(counts, field.value, 0u32) + 1) as u32;
            lemma_upsert_keeps_distinct(counts, field.value, raised);
            lemma_upsert_keeps_distinct(before, field.name, bump(counts, field.value));
            let after = add_field(before, field);
            assert forall|j: int| 0 <= j < after.len() implies keys_distinct((#[trigger] after[j]).1) by {
                if has_key(before, field.name) {
                    if j != slot_of(before, field.name) {
                        assert(after[j] == before[j]);
                    }
                } else if j < before.len() {
                    assert(after[j] == before[j]);
                }
            }
        }
    }
}

/// A summary is a mapping at all of its levels: it names every event once,
/// under an event every parameter once, and under a parameter every value
/// once.
pub proof fn lemma_summary_is_mapping(events: Seq<TraceEventView>)
    ensures
        summary_is_mapping(summarize(events)),
    decreases events.len(),
{
    if events.len() > 0 {
        lemma_summary_is_mapping(events.drop_last());
        let before = summarize(events.drop_last());
        let event = events.last();
        if is_internal(event.name) {
            let table = value_or(before, event.name, Seq::empty());
            if has_key(before, event.name) {
                assert(table_is_mapping(before[slot_of(before, event.name)].1));
            }
            lemma_add_fields_is_mapping(table, event.parameters);
            lemma_upsert_keeps_distinct(before, event.name, add_fields(table, event.parameters));
            let after = add_event(before, event);
            assert forall|i: int| 0 <= i < after.len() implies table_is_mapping(
                (#[trigger] after[i]).1,
            ) by {
                if has_key(before, event.name) {
                    if i != slot_of(before, event.name) {
                        assert(after[i] == before[i]);
                    }
                } else if i < before.len() {
                    assert(after[i] == before[i]);
                }
            }
        }
    }
}

} // verus!
