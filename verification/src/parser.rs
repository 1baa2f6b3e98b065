//! The row decoder: walks one event record in schema order.

use crate::converter::{create_converter, field_text, kind_named, Converter};
use crate::error::DecodeError;
use crate::text::{lowercase_of, parse_i64, parse_u64, same_text, signed_of, unsigned_of};
use crate::trace_reader::{TraceEvent, TraceEventView, TraceParameter, TraceParameterView};
use crate::xml_parser::{
    catalog_view, paramters_view, Event, EventView, Paramter, ParamterView,
};
use std::collections::HashMap;
use vstd::prelude::*;
use vstd::slice::slice_subrange;

verus! {

/// The offset into a payload at which the first field begins: one reserved
/// byte and two bytes of event id come before it.
pub const FIRST_FIELD: i64 = 3;

/// What decoding has reached inside one record.
pub struct RowState {
    /// The offset of the next field.
    pub cursor: int,
    /// The time of day gathered so far, in milliseconds.
    pub timestamp: u64,
    /// The fields decoded so far, in schema order.
    pub decoded: Seq<TraceParameterView>,
}

/// The views of a run of decoded fields.
pub open spec fn parameters_view(parameters: Seq<TraceParameter>) -> Seq<TraceParameterView> {
    parameters.map_values(|parameter: TraceParameter| parameter@)
}

/// The position of the most recently decoded field called `name`, if there
/// is one.
pub open spec fn last_named(decoded: Seq<TraceParameterView>, name: Seq<char>) -> Option<int>
    decreases decoded.len(),
{
    if decoded.len() == 0 {
        None
    } else if decoded.last().name == name {
        Some(decoded.len() - 1)
    } else {
        last_named(decoded.drop_last(), name)
    }
}

/// The number of bytes that a field takes: its fixed length, or for a
/// variable length the integer that the most recently decoded field of the
/// referenced name holds.
pub open spec fn resolved_length(parameter: ParamterView, decoded: Seq<TraceParameterView>) -> Result<
    int,
    DecodeError,
> {
    if parameter.number_of_bytes == -1 {
        match last_named(decoded, parameter.related_name) {
            None => Err(DecodeError::UnresolvedLength),
            Some(at) => match signed_of(decoded[at].value) {
                None => Err(DecodeError::InvalidInteger),
                Some(length) => if length < 0 {
                    Err(DecodeError::NegativeLength)
                } else {
                    Ok(length as int)
                },
            },
        }
    } else if parameter.number_of_bytes < 0 {
        Err(DecodeError::NegativeLength)
    } else {
        Ok(parameter.number_of_bytes)
    }
}

/// The milliseconds that one unit of a timestamp component stands for;
/// `None` for a name that is no timestamp component.
pub open spec fn component_scale(name: Seq<char>) -> Option<nat> {
    if name == "EVENT_PARAM_TIMESTAMP_HOUR"@ {
        Some(3_600_000)
    } else if name == "EVENT_PARAM_TIMESTAMP_MINUTE"@ {
        Some(60_000)
    } else if name == "EVENT_PARAM_TIMESTAMP_SECOND"@ {
        Some(1_000)
    } else if name == "EVENT_PARAM_TIMESTAMP_MILLISEC"@ {
        Some(1)
    } else {
        None
    }
}

/// The timestamp after one more decoded field: a timestamp component adds
/// its value times its scale, any other field adds nothing.
pub open spec fn timestamp_step(timestamp: u64, field: TraceParameterView) -> Result<
    u64,
    DecodeError,
> {
    match component_scale(field.name) {
        None => Ok(timestamp),
        Some(scale) => match unsigned_of(field.value) {
            None => Err(DecodeError::InvalidInteger),
            Some(value) => if timestamp + value * scale <= u64::MAX {
                Ok((timestamp + value * scale) as u64)
            } else {
                Err(DecodeError::TimestampOverflow)
            },
        },
    }
}

/// Decoding one field. The field takes its resolved length from the cursor
/// on. A field of a recognised type must lie inside the payload; it is
/// decoded, folded into the timestamp and appended. A field of any other
/// type is passed over. The cursor stays within 63 bits.
pub open spec fn decode_step(record: Seq<u8>, state: RowState, parameter: ParamterView) -> Result<
    RowState,
    DecodeError,
> {
    match resolved_length(parameter, state.decoded) {
        Err(error) => Err(error),
        Ok(length) => {
            let end = state.cursor + length;
            if end > i64::MAX {
                Err(DecodeError::Truncated)
            } else {
                match kind_named(lowercase_of(parameter.param_type)) {
                    None => Ok(RowState { cursor: end, ..state }),
                    Some(kind) => if end > record.len() {
                        Err(DecodeError::Truncated)
                    } else {
                        match field_text(kind, record.subrange(state.cursor, end), parameter) {
                            Err(error) => Err(error),
                            Ok(value) => {
                                let field = TraceParameterView { name: parameter.name, value };
                                match timestamp_step(state.timestamp, field) {
                                    Err(error) => Err(error),
                                    Ok(timestamp) => Ok(
                                        RowState {
                                            cursor: end,
                                            timestamp,
                                            decoded: state.decoded.push(field),
                                        },
                                    ),
                                }
                            },
                        }
                    },
                }
            }
        },
    }
}

/// Decoding a run of fields in order, from `state` on; the first failure
/// ends it.
pub open spec fn decode_fields(record: Seq<u8>, state: RowState, parameters: Seq<ParamterView>) -> Result<
    RowState,
    DecodeError,
>
    decreases parameters.len(),
{
    if parameters.len() == 0 {
        Ok(state)
    } else {
        match decode_fields(record, state, parameters.drop_last()) {
            Err(error) => Err(error),
            Ok(reached) => decode_step(record, reached, parameters.last()),
        }
    }
}

/// The event id that a payload carries in its second and third byte.
pub open spec fn event_id(record: Seq<u8>) -> u16 {
    (record[1] as int * 256 + record[2] as int) as u16
}

/// Whether an event of the given name passes the filter: the filter is the
/// wildcard `all` or the name itself.
pub open spec fn passes_filter(filter: Seq<char>, name: Seq<char>) -> bool {
    filter == "all"@ || filter == name
}

/// Decoding one record from `state` on: the event that it gives, `None`
/// where the filter leaves the event out, or the failure.
pub open spec fn decode_record(
    record: Seq<u8>,
    filter: Seq<char>,
    catalog: Map<u16, EventView>,
    state: RowState,
) -> Result<Option<(TraceEventView, int)>, DecodeError> {
    if record.len() < 3 {
        Err(DecodeError::Truncated)
    } else if !catalog.contains_key(event_id(record)) {
        Err(DecodeError::UnknownEvent)
    } else {
        let event = catalog[event_id(record)];
        if !passes_filter(filter, event.name) {
            Ok(None)
        } else {
            match decode_fields(record, state, event.parameters) {
                Err(error) => Err(error),
                Ok(reached) => Ok(
                    Some(
                        (
                            TraceEventView {
                                name: event.name,
                                parameters: reached.decoded,
                                timestamp: reached.timestamp,
                            },
                            reached.cursor,
                        ),
                    ),
                ),
            }
        }
    }
}

/// The decoder of one record: the payload, the filter, and how far decoding
/// has come.
pub struct RowParser {
    start: i64,
    end: i64,
    timestamp: u64,
    record: Vec<u8>,
    filter: String,
}

/// A row decoder as plain values.
pub struct RowParserView {
    pub start: int,
    pub end: int,
    pub timestamp: u64,
    pub record: Seq<u8>,
    pub filter: Seq<char>,
}

impl View for RowParser {
    type V = RowParserView;

    closed spec fn view(&self) -> RowParserView {
        RowParserView {
            start: self.start as int,
            end: self.end as int,
            timestamp: self.timestamp,
            record: self.record@,
            filter: self.filter@,
        }
    }
}

impl RowParser {
    /// The cursors never run backwards.
    #[verifier::type_invariant]
    closed spec fn cursors_in_order(&self) -> bool {
        0 <= self.start <= self.end
    }

    /// A decoder at the first field of `raw_event`, with no time gathered.
    pub fn new(raw_event: Vec<u8>, filter: &str) -> (parser: Self)
        ensures
            parser@ == (RowParserView {
                start: FIRST_FIELD as int,
                end: FIRST_FIELD as int,
                timestamp: 0,
                record: raw_event@,
                filter: filter@,
            }),
    {
        Self { start: 3, end: 3, timestamp: 0, record: raw_event, filter: filter.to_owned() }
    }

    /// Decodes the record. On success the decoder has moved past the fields
    /// and holds the event's timestamp; where the filter leaves the event
    /// out, or decoding fails, the decoder is unchanged.
    #[verifier::loop_isolation(false)]
    pub fn parse(&mut self, events: &HashMap<u16, Event>) -> (result: Result<
        Option<TraceEvent>,
        DecodeError,
    >)
        ensures
            match decode_record(
                old(self)@.record,
                old(self)@.filter,
                catalog_view(events@),
                RowState {
                    cursor: old(self)@.start,
                    timestamp: old(self)@.timestamp,
                    decoded: Seq::empty(),
                },
            ) {
                Ok(Some((event, cursor))) => result matches Ok(Some(decoded)) && decoded@ == event
                    && final(self)@ == (RowParserView {
                    start: cursor,
                    end: cursor,
                    timestamp: event.timestamp,
                    ..old(self)@
                }),
                Ok(None) => result matches Ok(None) && final(self)@ == old(self)@,
                Err(error) => result == Err::<Option<TraceEvent>, DecodeError>(error)
                    && final(self)@ == old(self)@,
            },
    {
        proof {
            use_type_invariant(&*self);
        }
        if self.record.len() < 3 {
            return Err(DecodeError::Truncated);
        }
        let id: u16 = self.record[1] as u16 * 256 + self.record[2] as u16;
        let event = match events.get(&id) {
            Some(event) => event,
            None => {
                return Err(DecodeError::UnknownEvent);
            },
        };
        assert(catalog_view(events@)[id] == event@);
        if !self.event_in_filter(event) {
            return Ok(None);
        }
        let mut trace_parameters: Vec<TraceParameter> = Vec::new();
        let mut cursor: i64 = self.start;
        let mut timestamp: u64 = self.timestamp;
        let ghost first = RowState {
            cursor: self.start as int,
            timestamp: self.timestamp,
            decoded: Seq::empty(),
        };
        let ghost definitions = paramters_view(event.parameters@);
        let mut i: usize = 0;
        proof {
            assert(definitions.take(0) == Seq::<ParamterView>::empty());
            assert(parameters_view(trace_parameters@) == Seq::<TraceParameterView>::empty());
        }
        while i < event.parameters.len()
            invariant
                i <= event.parameters@.len(),
                definitions == paramters_view(event.parameters@),
                0 <= self.start <= cursor,
                decode_fields(self.record@, first, definitions.take(i as int)) == Ok::<
                    RowState,
                    DecodeError,
                >(
                    RowState {
                        cursor: cursor as int,
                        timestamp,
                        decoded: parameters_view(trace_parameters@),
                    },
                ),
            decreases event.parameters@.len() - i,
        {
            proof {
                let next = definitions.take(i + 1);
                assert(next.drop_last() == definitions.take(i as int));
                assert(next.last() == event.parameters@[i as int]@);
            }
            match self.convert_paramter(cursor, timestamp, &event.parameters[i], &mut trace_parameters) {
                Ok((moved, gathered)) => {
                    cursor = moved;
                    timestamp = gathered;
                },
                Err(error) => {
                    proof {
                        assert(decode_fields(self.record@, first, definitions.take(i + 1)) is Err);
                        lemma_failure_stays(self.record@, first, definitions, i + 1);
                    }
                    return Err(error);
                },
            }
            i = i + 1;
        }
        proof {
            assert(definitions.take(i as int) == definitions);
            assert(event@.parameters == definitions);
        }
        self.end = cursor;
        self.start = cursor;
        self.timestamp = timestamp;
        let decoded = TraceEvent { name: event.name.clone(), parameters: trace_parameters, timestamp };
        proof {
            assert(decoded@.parameters == parameters_view(decoded.parameters@));
        }
        Ok(Some(decoded))
    }

    /// Whether the filter lets the event through.
    pub fn event_in_filter(&self, event: &Event) -> (passes: bool)
        ensures
            passes == passes_filter(self@.filter, event@.name),
    {
        same_text(self.filter.as_str(), "all") || self.filter == event.name
    }

    /// Decodes the field that `parameter` defines at `cursor`, and appends it
    /// unless its type is not recognised. Gives the cursor behind the field
    /// and the timestamp with the field folded in.
    pub fn convert_paramter(
        &self,
        cursor: i64,
        timestamp: u64,
        parameter: &Paramter,
        trace_parameters: &mut Vec<TraceParameter>,
    ) -> (result: Result<(i64, u64), DecodeError>)
        requires
            0 <= cursor,
        ensures
            match decode_step(
                self@.record,
                RowState {
                    cursor: cursor as int,
                    timestamp,
                    decoded: parameters_view(old(trace_parameters)@),
                },
                parameter@,
            ) {
                Ok(reached) => result == Ok::<(i64, u64), DecodeError>(
                    (reached.cursor as i64, reached.timestamp),
                ) && reached.cursor <= i64::MAX && parameters_view(final(trace_parameters)@)
                    == reached.decoded,
                Err(error) => result == Err::<(i64, u64), DecodeError>(error)
                    && final(trace_parameters)@ == old(trace_parameters)@,
            },
    {
        let length: i64 = match self.find_length(parameter, trace_parameters.as_slice()) {
            Ok(length) => length,
            Err(error) => {
                return Err(error);
            },
        };
        let end: i64 = match cursor.checked_add(length) {
            Some(end) => end,
            None => {
                return Err(DecodeError::Truncated);
            },
        };
        let converter: Option<Box<dyn Converter>> = create_converter(parameter.param_type.as_str());
        let mut gathered: u64 = timestamp;
        if let Some(conv) = converter {
            if end as u64 > self.record.len() as u64 {
                return Err(DecodeError::Truncated);
            }
            let span = slice_subrange(self.record.as_slice(), cursor as usize, end as usize);
            let trace_event = match conv.convert(span, parameter) {
                Ok(trace_event) => trace_event,
                Err(error) => {
                    return Err(error);
                },
            };
            gathered = match Self::update_timestamp(timestamp, &trace_event) {
                Ok(gathered) => gathered,
                Err(error) => {
                    return Err(error);
                },
            };
            proof {
                assert(parameters_view(trace_parameters@.push(trace_event)) == parameters_view(
                    trace_parameters@,
                ).push(trace_event@));
            }
            trace_parameters.push(trace_event);
        }
        Ok((end, gathered))
    }

    /// The number of bytes of the field that `parameter` defines, given the
    /// fields decoded before it.
    pub fn find_length(&self, parameter: &Paramter, trace_parameters: &[TraceParameter]) -> (result:
        Result<i64, DecodeError>)
        ensures
            match resolved_length(parameter@, parameters_view(trace_parameters@)) {
                Ok(length) => result == Ok::<i64, DecodeError>(length as i64) && 0 <= length
                    <= i64::MAX,
                Err(error) => result == Err::<i64, DecodeError>(error),
            },
    {
        if parameter.number_of_bytes != -1 {
            if parameter.number_of_bytes < 0 {
                return Err(DecodeError::NegativeLength);
            }
            return Ok(parameter.number_of_bytes);
        }
        let ghost decoded = parameters_view(trace_parameters@);
        let mut i: usize = trace_parameters.len();
        proof {
            assert(decoded.take(i as int) == decoded);
        }
        while i > 0
            invariant
                i <= trace_parameters@.len(),
                parameter.number_of_bytes == -1,
                decoded == parameters_view(trace_parameters@),
                last_named(decoded, parameter@.related_name) == last_named(
                    decoded.take(i as int),
                    parameter@.related_name,
                ),
            decreases i,
        {
            proof {
                let seen = decoded.take(i as int);
                assert(seen.drop_last() == decoded.take(i - 1));
                assert(seen.last() == trace_parameters@[i - 1]@);
            }
            i = i - 1;
            proof {
                assert(decoded[i as int] == trace_parameters@[i as int]@);
            }
            if trace_parameters[i].name == parameter.related_name {
                proof {
                    let seen = decoded.take(i + 1);
                    assert(seen.last() == decoded[i as int]);
                    assert(last_named(seen, parameter@.related_name) == Some(i as int));
                }
                return match parse_i64(trace_parameters[i].value.as_str()) {
                    None => Err(DecodeError::InvalidInteger),
                    Some(length) => if length < 0 {
                        Err(DecodeError::NegativeLength)
                    } else {
                        Ok(length)
                    },
                };
            }
        }
        Err(DecodeError::UnresolvedLength)
    }

    /// Folds one decoded field into the timestamp.
    pub fn update_timestamp(timestamp: u64, trace_parameter: &TraceParameter) -> (result: Result<
        u64,
        DecodeError,
    >)
        ensures
            result == timestamp_step(timestamp, trace_parameter@),
    {
        let name = trace_parameter.name.as_str();
        let scale: u64 = if same_text(name, "EVENT_PARAM_TIMESTAMP_HOUR") {
            3_600_000
        } else if same_text(name, "EVENT_PARAM_TIMESTAMP_MINUTE") {
            60_000
        } else if same_text(name, "EVENT_PARAM_TIMESTAMP_SECOND") {
            1_000
        } else if same_text(name, "EVENT_PARAM_TIMESTAMP_MILLISEC") {
            1
        } else {
            return Ok(timestamp);
        };
        let value: u64 = match parse_u64(trace_parameter.value.as_str()) {
            Some(value) => value,
            None => {
                return Err(DecodeError::InvalidInteger);
            },
        };
        match value.checked_mul(scale) {
            None => Err(DecodeError::TimestampOverflow),
            Some(share) => match timestamp.checked_add(share) {
                None => Err(DecodeError::TimestampOverflow),
                Some(sum) => Ok(sum),
            },
        }
    }
}

/// Once decoding a run of fields has failed, decoding a longer run fails in
/// the same way.
pub proof fn lemma_failure_stays(
    record: Seq<u8>,
    state: RowState,
    parameters: Seq<ParamterView>,
    n: int,
)
    requires
        0 <= n <= parameters.len(),
        decode_fields(record, state, parameters.take(n)) is Err,
    ensures
        decode_fields(record, state, parameters) == decode_fields(record, state, parameters.take(n)),
    decreases parameters.len(),
{
    if n < parameters.len() {
        assert(parameters.drop_last().take(n) == parameters.take(n));
        lemma_failure_stays(record, state, parameters.drop_last(), n);
    } else {
        assert(parameters.take(n) == parameters);
    }
}

/// The milliseconds that a decoded field adds to the timestamp: nothing for
/// a field that is no timestamp component, `None` for a component whose
/// value is not a number.
pub open spec fn share(field: TraceParameterView) -> Option<nat> {
    match component_scale(field.name) {
        None => Some(0),
        Some(scale) => match unsigned_of(field.value) {
            None => None,
            Some(value) => Some(value as nat * scale),
        },
    }
}

/// Whether every timestamp component among `fields` holds a number.
pub open spec fn shares_valid(fields: Seq<TraceParameterView>) -> bool {
    forall|i: int| 0 <= i < fields.len() ==> (#[trigger] share(fields[i])) is Some
}

/// The milliseconds that `fields` add to the timestamp together.
pub open spec fn total_share(fields: Seq<TraceParameterView>) -> nat
    decreases fields.len(),
{
    if fields.len() == 0 {
        0
    } else {
        total_share(fields.drop_last()) + match share(fields.last()) {
            Some(milliseconds) => milliseconds,
            None => 0,
        }
    }
}

/// The timestamp after folding in a run of decoded fields, one by one.
pub open spec fn gather_timestamp(timestamp: u64, fields: Seq<TraceParameterView>) -> Result<
    u64,
    DecodeError,
>
    decreases fields.len(),
{
    if fields.len() == 0 {
        Ok(timestamp)
    } else {
        match gather_timestamp(timestamp, fields.drop_last()) {
            Err(error) => Err(error),
            Ok(gathered) => timestamp_step(gathered, fields.last()),
        }
    }
}

/// Folding fields into a timestamp succeeds exactly when every component
/// holds a number and the sum fits in 64 bits, and then gives the sum.
pub proof fn lemma_gather_is_sum(timestamp: u64, fields: Seq<TraceParameterView>)
    ensures
        gather_timestamp(timestamp, fields) is Ok <==> shares_valid(fields) && timestamp
            + total_share(fields) <= u64::MAX,
        gather_timestamp(timestamp, fields) matches Ok(gathered) ==> gathered == timestamp
            + total_share(fields),
    decreases fields.len(),
{
    if fields.len() > 0 {
        let front = fields.drop_last();
        lemma_gather_is_sum(timestamp, front);
        assert forall|i: int| 0 <= i < front.len() implies front[i] == fields[i] by {}
        if shares_valid(fields) {
            assert forall|i: int| 0 <= i < front.len() implies (#[trigger] share(front[i])) is Some by {
                assert(share(fields[i]) is Some);
            }
            assert(share(fields.last()) is Some) by {
                assert(share(fields[fields.len() - 1]) is Some);
            }
        }
        if shares_valid(front) && share(fields.last()) is Some {
            assert forall|i: int| 0 <= i < fields.len() implies (#[trigger] share(fields[i])) is Some by {
                if i < front.len() {
                    assert(share(front[i]) is Some);
                }
            }
        }
    }
}

/// Taking one field out lowers the total by that field's share.
pub proof fn lemma_total_share_remove(fields: Seq<TraceParameterView>, at: int)
    requires
        0 <= at < fields.len(),
    ensures
        total_share(fields) == total_share(fields.remove(at)) + match share(fields[at]) {
            Some(milliseconds) => milliseconds,
            None => 0,
        },
    decreases fields.len(),
{
    if at == fields.len() - 1 {
        assert(fields.remove(at) == fields.drop_last());
    } else {
        lemma_total_share_remove(fields.drop_last(), at);
        assert(fields.remove(at).drop_last() == fields.drop_last().remove(at));
        assert(fields.remove(at).last() == fields.last());
    }
}

/// The total does not depend on the order of the fields, nor does whether
/// every component holds a number.
pub proof fn lemma_total_share_permutation(a: Seq<TraceParameterView>, b: Seq<TraceParameterView>)
    requires
        a.to_multiset() == b.to_multiset(),
    ensures
        total_share(a) == total_share(b),
        shares_valid(a) == shares_valid(b),
    decreases a.len(),
{
    broadcast use vstd::seq_lib::group_to_multiset_ensures;

    if a.len() == 0 {
        assert(b.to_multiset().len() == 0);
        assert(b.len() == 0);
    } else {
        let last = a.last();
        assert(a.drop_last().push(last) == a);
        assert(a.to_multiset().count(last) > 0);
        assert(b.contains(last));
        let at = b.index_of(last);
        assert(b.remove(at).to_multiset() == b.to_multiset().remove(last));
        assert(a.drop_last().to_multiset() == a.to_multiset().remove(last)) by {
            assert(a.to_multiset() == a.drop_last().to_multiset().insert(last));
        }
        lemma_total_share_permutation(a.drop_last(), b.remove(at));
        lemma_total_share_remove(b, at);
        let a_front = a.drop_last();
        let b_rest = b.remove(at);
        if shares_valid(a) {
            assert forall|i: int| 0 <= i < a_front.len() implies (#[trigger] share(a_front[i])) is Some by {
                assert(share(a[i]) is Some);
            }
            assert(share(a[a.len() - 1]) is Some);
            assert forall|i: int| 0 <= i < b.len() implies (#[trigger] share(b[i])) is Some by {
                if i < at {
                    assert(share(b_rest[i]) is Some);
                } else if i > at {
                    assert(share(b_rest[i - 1]) is Some);
                }
            }
        }
        if shares_valid(b) {
            assert forall|i: int| 0 <= i < b_rest.len() implies (#[trigger] share(b_rest[i])) is Some by {
                if i < at {
                    assert(share(b[i]) is Some);
                } else {
                    assert(share(b[i + 1]) is Some);
                }
            }
            assert(share(b[at]) is Some);
            assert forall|i: int| 0 <= i < a.len() implies (#[trigger] share(a[i])) is Some by {
                if i < a_front.len() {
                    assert(share(a_front[i]) is Some);
                }
            }
        }
    }
}

/// The timestamp does not depend on the order in which its components are
/// decoded: two runs that hold the same fields, in whatever order, fold into
/// the same timestamp, or both fail.
pub proof fn lemma_timestamp_order_independent(
    timestamp: u64,
    a: Seq<TraceParameterView>,
    b: Seq<TraceParameterView>,
)
    requires
        a.to_multiset() == b.to_multiset(),
    ensures
        gather_timestamp(timestamp, a) is Ok <==> gather_timestamp(timestamp, b) is Ok,
        gather_timestamp(timestamp, a) is Ok ==> gather_timestamp(timestamp, a) == gather_timestamp(
            timestamp,
            b,
        ),
{
    lemma_gather_is_sum(timestamp, a);
    lemma_gather_is_sum(timestamp, b);
    lemma_total_share_permutation(a, b);
}

/// Decoding a run of fields keeps what was decoded before it, and the
/// timestamp that it reaches is the fold of the fields that it added.
pub proof fn lemma_decode_gathers(record: Seq<u8>, state: RowState, parameters: Seq<ParamterView>)
    ensures
        decode_fields(record, state, parameters) matches Ok(reached) ==> {
            &&& state.decoded.len() <= reached.decoded.len()
            &&& reached.decoded.take(state.decoded.len() as int) == state.decoded
            &&& state.cursor <= reached.cursor
            &&& gather_timestamp(state.timestamp, reached.decoded.skip(state.decoded.len() as int))
                == Ok::<u64, DecodeError>(reached.timestamp)
        },
    decreases parameters.len(),
{
    if parameters.len() == 0 {
        assert(state.decoded.take(state.decoded.len() as int) == state.decoded);
        assert(state.decoded.skip(state.decoded.len() as int).len() == 0);
    } else {
        lemma_decode_gathers(record, state, parameters.drop_last());
        if let Ok(before) = decode_fields(record, state, parameters.drop_last()) {
            if let Ok(reached) = decode_step(record, before, parameters.last()) {
                let from = state.decoded.len() as int;
                if reached.decoded == before.decoded {
                    assert(reached.timestamp == before.timestamp);
                } else {
                    let field = reached.decoded.last();
                    assert(reached.decoded == before.decoded.push(field));
                    assert(reached.decoded.take(from) == before.decoded.take(from));
                    assert(reached.decoded.skip(from).drop_last() == before.decoded.skip(from));
                    assert(reached.decoded.skip(from).last() == field);
                }
            }
        }
    }
}

/// A variable-length field whose referenced parameter decoded to the
/// numeral of `n` takes exactly `n` bytes: where it decodes, the cursor has
/// moved on by `n`, a recognised field holds the text of exactly those `n`
/// bytes, and the field that follows is decoded from the byte behind them.
pub proof fn lemma_variable_length_span(
    record: Seq<u8>,
    state: RowState,
    parameter: ParamterView,
    next: ParamterView,
    n: nat,
)
    requires
        parameter.number_of_bytes == -1,
        last_named(state.decoded, parameter.related_name) matches Some(at) && state.decoded[at].value
            == crate::text::decimal_text(n),
    ensures
        n <= i64::MAX ==> resolved_length(parameter, state.decoded) == Ok::<int, DecodeError>(
            n as int,
        ),
        decode_step(record, state, parameter) matches Ok(reached) ==> {
            &&& reached.cursor == state.cursor + n
            &&& decode_fields(record, state, seq![parameter, next]) == decode_step(
                record,
                reached,
                next,
            )
            &&& kind_named(lowercase_of(parameter.param_type)) matches Some(kind)
                ==> reached.decoded.len() == state.decoded.len() + 1 && field_text(
                kind,
                record.subrange(state.cursor, state.cursor + n),
                parameter,
            ) == Ok::<Seq<char>, DecodeError>(reached.decoded.last().value)
        },
{
    crate::text::lemma_decimal_round_trip(n, true);
    let both = seq![parameter, next];
    assert(both.drop_last() == seq![parameter]);
    assert(both.last() == next);
    assert(seq![parameter].drop_last() == Seq::<ParamterView>::empty());
    assert(seq![parameter].last() == parameter);
    assert(decode_fields(record, state, seq![parameter]) == decode_step(record, state, parameter)) by {
        reveal_with_fuel(decode_fields, 2);
    }
}

} // verus!
