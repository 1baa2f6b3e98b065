//! The text of a summary: for every event one line per parameter, with the
//! parameter's most frequent values.

use crate::ctr_analyzer::{
    count_entries, counts_of, event_entries, events_of, parameter_entries, parameters_of, upsert,
    CountsView, SumEvent, Summary, SummaryView, TableView,
};
use crate::ctr_analyzer::summarize;
use crate::ranking::{
    is_ranking, lemma_top_places_ranked, rank_order, ranking, ranks_before, top_places,
};
use crate::text::{decimal_string, decimal_text};
use crate::trace_reader::{events_view, TraceEvent};
use indexmap::IndexMap;
use vstd::prelude::*;
use vstd::string::StringExecFns;

verus! {

/// The number of values that a line shows of a parameter.
pub const TOP_VALUES: usize = 5;

/// The number of characters to which a parameter's name is filled up.
pub const NAME_WIDTH: usize = 40;

/// The counts of a parameter's values, without the values.
pub open spec fn counts_only(entries: CountsView) -> Seq<u64> {
    entries.map_values(|entry: (Seq<char>, u32)| entry.1 as u64)
}

/// The `limit` most frequent values with their counts: highest count first,
/// equal counts in the order of first sight. Values behind the limit are
/// dropped.
pub open spec fn top_entries(entries: CountsView, limit: nat) -> CountsView {
    top_places(counts_only(entries), limit).map_values(|place: usize| entries[place as int])
}

/// One value and its count: `(value:count)` and a space.
pub open spec fn entry_text(value: Seq<char>, count: u32) -> Seq<char> {
    "("@ + value + ":"@ + decimal_text(count as nat) + ") "@
}

/// The texts of a run of values, one after the other.
pub open spec fn merged(entries: CountsView) -> Seq<char>
    decreases entries.len(),
{
    if entries.len() == 0 {
        Seq::empty()
    } else {
        merged(entries.drop_last()) + entry_text(entries.last().0, entries.last().1)
    }
}

/// `n` spaces.
pub open spec fn spaces(n: nat) -> Seq<char> {
    Seq::new(n, |i: int| ' ')
}

/// A name filled up with spaces on the right to `NAME_WIDTH` characters; a
/// longer name is left whole.
pub open spec fn padded(name: Seq<char>) -> Seq<char> {
    if name.len() < NAME_WIDTH {
        name + spaces((NAME_WIDTH - name.len()) as nat)
    } else {
        name
    }
}

/// The line of one parameter: four spaces, the padded name, a colon and a
/// space, and the most frequent values.
pub open spec fn line_text(name: Seq<char>, entries: CountsView) -> Seq<char> {
    "    "@ + padded(name) + ": "@ + merged(top_entries(entries, TOP_VALUES as nat))
}

/// The text of one event: the lines of its parameters in order, each after
/// a line break.
pub open spec fn event_text(table: TableView) -> Seq<char>
    decreases table.len(),
{
    if table.len() == 0 {
        Seq::empty()
    } else {
        event_text(table.drop_last()) + "\n"@ + line_text(table.last().0, table.last().1)
    }
}

/// The texts of the events of a summary, in the summary's order.
pub open spec fn formatted(summary: SummaryView) -> Seq<(Seq<char>, Seq<char>)>
    decreases summary.len(),
{
    if summary.len() == 0 {
        Seq::empty()
    } else {
        upsert(formatted(summary.drop_last()), summary.last().0, event_text(summary.last().1))
    }
}

/// The values and counts that a list of borrowed entries holds.
pub open spec fn entries_view(entries: Seq<(&String, &u32)>) -> CountsView {
    entries.map_values(|entry: (&String, &u32)| (entry.0@, *entry.1))
}

/// What a map of event texts holds, in insertion order.
pub uninterp spec fn texts_of(texts: IndexMap<String, String>) -> Seq<(Seq<char>, Seq<char>)>;

/// `IndexMap::new`: a map of event texts that holds nothing.
#[verifier::external_body]
fn texts_new() -> (texts: IndexMap<String, String>)
    ensures
        texts_of(texts) == Seq::<(Seq<char>, Seq<char>)>::empty(),
{
    IndexMap::new()
}

/// `IndexMap::insert`: a key that the map holds keeps its place and gets the
/// new value; a new key goes last.
#[verifier::external_body]
fn texts_insert(texts: &mut IndexMap<String, String>, key: String, value: String)
    ensures
        texts_of(*final(texts)) == upsert(texts_of(*old(texts)), key@, value@),
{
    texts.insert(key, value);
}

/// The texts of `params`, one after the other.
pub fn merge_parameters(params: &[(&String, &u32)]) -> (text: String)
    ensures
        text@ == merged(entries_view(params@)),
{
    let ghost entries = entries_view(params@);
    let mut prepared_value = String::new();
    let mut i: usize = 0;
    proof {
        assert(entries.take(0) == Seq::<(Seq<char>, u32)>::empty());
    }
    while i < params.len()
        invariant
            i <= params@.len(),
            entries == entries_view(params@),
            prepared_value@ == merged(entries.take(i as int)),
        decreases params@.len() - i,
    {
        proof {
            let next = entries.take(i + 1);
            assert(next.drop_last() == entries.take(i as int));
            assert(next.last() == entries[i as int]);
        }
        let value_name: &String = params[i].0;
        let value_count: u32 = *params[i].1;
        let count_text = decimal_string(value_count as u64);
        prepared_value.append("(");
        prepared_value.append(value_name.as_str());
        prepared_value.append(":");
        prepared_value.append(count_text.as_str());
        prepared_value.append(") ");
        proof {
            assert(prepared_value@ == merged(entries.take(i as int)) + entry_text(
                value_name@,
                value_count,
            ));
        }
        i = i + 1;
    }
    proof {
        assert(entries.take(i as int) == entries);
    }
    prepared_value
}

/// A name filled up with spaces to `NAME_WIDTH` characters.
pub fn pad_name(name: &str) -> (text: String)
    ensures
        text@ == padded(name@),
{
    let mut text = name.to_owned();
    let mut length: usize = name.unicode_len();
    proof {
        reveal_strlit(" ");
        assert(name@ + spaces(0) == name@);
    }
    while length < NAME_WIDTH
        invariant
            " "@ == seq![' '],
            name@.len() <= length <= NAME_WIDTH || length == name@.len(),
            text@ == name@ + spaces((length - name@.len()) as nat),
        decreases NAME_WIDTH - length,
    {
        text.append(" ");
        length = length + 1;
        proof {
            assert(text@ == name@ + spaces((length - name@.len()) as nat));
        }
    }
    text
}

/// The `limit` highest-ranking of `params`, in ranking order.
pub fn top_parameters<'a>(params: &Vec<(&'a String, &'a u32)>, limit: usize) -> (top: Vec<
    (&'a String, &'a u32),
>)
    ensures
        entries_view(top@) == top_entries(entries_view(params@), limit as nat),
{
    let ghost entries = entries_view(params@);
    let mut counts: Vec<u64> = Vec::new();
    let mut i: usize = 0;
    while i < params.len()
        invariant
            i <= params@.len(),
            entries == entries_view(params@),
            counts@ == counts_only(entries).take(i as int),
        decreases params@.len() - i,
    {
        counts.push(*params[i].1 as u64);
        proof {
            assert(counts@ == counts_only(entries).take(i + 1));
        }
        i = i + 1;
    }
    proof {
        assert(counts@ == counts_only(entries));
    }
    let order = rank_order(counts.as_slice());
    let elements: usize = if limit < params.len() {
        limit
    } else {
        params.len()
    };
    let ghost places = top_places(counts_only(entries), limit as nat);
    proof {
        assert(places == order@.take(elements as int));
    }
    let mut top: Vec<(&'a String, &'a u32)> = Vec::new();
    let mut k: usize = 0;
    while k < elements
        invariant
            k <= elements <= order@.len() == params@.len(),
            entries == entries_view(params@),
            is_ranking(counts_only(entries), order@),
            places == order@.take(elements as int),
            entries_view(top@) == places.take(k as int).map_values(
                |place: usize| entries[place as int],
            ),
        decreases elements - k,
    {
        let place: usize = order[k];
        proof {
            assert(order@[k as int] < params@.len());
        }
        let ghost chosen = entries_view(top@);
        top.push(params[place]);
        proof {
            let pick = |place: usize| entries[place as int];
            assert(entries_view(top@) == chosen.push(entries[place as int]));
            assert(places.take(k + 1) == places.take(k as int).push(place));
            assert(places.take(k as int).push(place).map_values(pick) == places.take(
                k as int,
            ).map_values(pick).push(pick(place)));
        }
        k = k + 1;
    }
    proof {
        assert(places.take(k as int) == places);
    }
    top
}

/// The text of one event: a line for each of its parameters.
pub fn process_event(event_value: &SumEvent) -> (text: String)
    ensures
        text@ == event_text(parameters_of(*event_value)),
{
    let ghost table = parameters_of(*event_value);
    let parameters = parameter_entries(event_value);
    let mut event_summary = String::new();
    let mut i: usize = 0;
    proof {
        assert(table.take(0) == Seq::<(Seq<char>, CountsView)>::empty());
    }
    while i < parameters.len()
        invariant
            i <= parameters@.len() == table.len(),
            forall|j: int|
                0 <= j < parameters@.len() ==> (#[trigger] parameters@[j]).0@ == table[j].0
                    && counts_of(*parameters@[j].1) == table[j].1,
            event_summary@ == event_text(table.take(i as int)),
        decreases parameters@.len() - i,
    {
        proof {
            let next = table.take(i + 1);
            assert(next.drop_last() == table.take(i as int));
            assert(next.last() == table[i as int]);
        }
        let parameter_name: &String = parameters[i].0;
        let params = count_entries(parameters[i].1);
        proof {
            assert(entries_view(params@) == table[i as int].1);
        }
        let top = top_parameters(&params, TOP_VALUES);
        let params_counts = merge_parameters(top.as_slice());
        let name_text = pad_name(parameter_name.as_str());
        event_summary.append("\n");
        event_summary.append("    ");
        event_summary.append(name_text.as_str());
        event_summary.append(": ");
        event_summary.append(params_counts.as_str());
        proof {
            assert(event_summary@ == event_text(table.take(i as int)) + "\n"@ + line_text(
                table[i as int].0,
                table[i as int].1,
            ));
        }
        i = i + 1;
    }
    proof {
        assert(table.take(i as int) == table);
    }
    event_summary
}

/// The text of every event of a summary, under the event's name and in the
/// summary's order.
pub fn format_summary(summary: Summary) -> (texts: IndexMap<String, String>)
    ensures
        texts_of(texts) == formatted(events_of(summary)),
{
    let ghost events = events_of(summary);
    let entries = event_entries(&summary);
    let mut formated_summary = texts_new();
    let mut i: usize = 0;
    proof {
        assert(events.take(0) == Seq::<(Seq<char>, TableView)>::empty());
    }
    while i < entries.len()
        invariant
            i <= entries@.len() == events.len(),
            forall|j: int|
                0 <= j < entries@.len() ==> (#[trigger] entries@[j]).0@ == events[j].0
                    && parameters_of(*entries@[j].1) == events[j].1,
            texts_of(formated_summary) == formatted(events.take(i as int)),
        decreases entries@.len() - i,
    {
        proof {
            let next = events.take(i + 1);
            assert(next.drop_last() == events.take(i as int));
            assert(next.last() == events[i as int]);
        }
        let event_summary = process_event(entries[i].1);
        texts_insert(&mut formated_summary, entries[i].0.clone(), event_summary);
        i = i + 1;
    }
    proof {
        assert(events.take(i as int) == events);
    }
    formated_summary
}

/// A summary and its text depend on what the events hold and on nothing
/// else: events that hold the same give the same summary and the same text,
/// however often they are made.
pub proof fn lemma_summary_text_is_repeatable(first: Seq<TraceEvent>, second: Seq<TraceEvent>)
    requires
        events_view(first) == events_view(second),
    ensures
        summarize(events_view(first)) == summarize(events_view(second)),
        formatted(summarize(events_view(first))) == formatted(summarize(events_view(second))),
{
}

/// What a line shows of a parameter: no more values than the limit, and all
/// where there are no more; each of them one of the parameter's own, with
/// its count; the counts never rising; and equal counts in the order in
/// which their values were first seen.
pub proof fn lemma_top_entries_ranked(entries: CountsView, limit: nat)
    requires
        entries.len() <= usize::MAX,
    ensures
        top_entries(entries, limit).len() == if limit <= entries.len() {
            limit
        } else {
            entries.len()
        },
        forall|k: int|
            0 <= k < top_entries(entries, limit).len() ==> {
                let place = #[trigger] top_places(counts_only(entries), limit)[k];
                place < entries.len() && top_entries(entries, limit)[k] == entries[place as int]
            },
        forall|k: int, l: int|
            0 <= k < l < top_entries(entries, limit).len() ==> {
                let first = #[trigger] top_places(counts_only(entries), limit)[k];
                let second = #[trigger] top_places(counts_only(entries), limit)[l];
                top_entries(entries, limit)[k].1 >= top_entries(entries, limit)[l].1 && (
                top_entries(entries, limit)[k].1 == top_entries(entries, limit)[l].1 ==> first
                    < second)
            },
{
    let counts = counts_only(entries);
    lemma_top_places_ranked(counts, limit);
    let places = top_places(counts, limit);
    assert forall|k: int, l: int| 0 <= k < l < places.len() implies {
        let first = #[trigger] places[k];
        let second = #[trigger] places[l];
        entries[first as int].1 >= entries[second as int].1 && (entries[first as int].1
            == entries[second as int].1 ==> first < second)
    } by {
        assert(ranks_before(counts, places[k] as int, places[l] as int));
    }
}

} // verus!
