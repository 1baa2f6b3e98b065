//! The event catalog: event and parameter definitions, indexed by event id.

use crate::text::{
    decimal_string, decimal_text, parse_i64, parse_u64, same_text, signed_of, signed_string,
    signed_text, unsigned_of,
};
use std::collections::HashMap;
use vstd::prelude::*;
use vstd::string::StringExecFns;

verus! {

/// The length that marks a parameter whose byte count is another
/// parameter's decoded value.
pub const VARIABLE_LENGTH: i64 = -1;

/// The catalog in plain values.
pub open spec fn catalog_view(events: Map<u16, Event>) -> Map<u16, EventView> {
    events.map_values(|event: Event| event@)
}

/// The definition of one field of an event.
#[derive(Clone, Debug)]
pub struct Paramter {
    pub name: String,
    pub param_type: String,
    /// The fixed byte count, or `VARIABLE_LENGTH`.
    pub number_of_bytes: i64,
    /// For an enumeration: the label of each code.
    pub enumeration: HashMap<u8, String>,
    /// For a variable length: the name of the parameter that holds it.
    pub related_name: String,
}

/// A parameter definition as plain values.
pub struct ParamterView {
    pub name: Seq<char>,
    pub param_type: Seq<char>,
    pub number_of_bytes: int,
    pub enumeration: Map<u8, Seq<char>>,
    pub related_name: Seq<char>,
}

impl View for Paramter {
    type V = ParamterView;

    open spec fn view(&self) -> ParamterView {
        ParamterView {
            name: self.name@,
            param_type: self.param_type@,
            number_of_bytes: self.number_of_bytes as int,
            enumeration: self.enumeration@.map_values(|label: String| label@),
            related_name: self.related_name@,
        }
    }
}

/// The definition of one event: its parameters in wire order.
#[derive(Debug)]
pub struct Event {
    pub name: String,
    pub id: u16,
    /// The names of the event's parameters, in wire order.
    pub elements: Vec<String>,
    /// The definitions of the event's parameters, in wire order.
    pub parameters: Vec<Paramter>,
}

/// An event definition as plain values.
pub struct EventView {
    pub name: Seq<char>,
    pub id: u16,
    pub elements: Seq<Seq<char>>,
    pub parameters: Seq<ParamterView>,
}

impl View for Event {
    type V = EventView;

    open spec fn view(&self) -> EventView {
        EventView {
            name: self.name@,
            id: self.id,
            elements: self.elements@.map_values(|element: String| element@),
            parameters: self.parameters@.map_values(|parameter: Paramter| parameter@),
        }
    }
}

/// One line about a parameter definition: its name, type and length.
pub open spec fn paramter_description(parameter: ParamterView) -> Seq<char> {
    "name = "@ + parameter.name + ", type = "@ + parameter.param_type + ", n_bytes = "@
        + signed_text(parameter.number_of_bytes)
}

/// The parameters of an event, one to a line: name, type and length with
/// commas between them.
pub open spec fn paramters_listing(parameters: Seq<ParamterView>) -> Seq<char>
    decreases parameters.len(),
{
    if parameters.len() == 0 {
        Seq::empty()
    } else {
        let last = parameters.last();
        paramters_listing(parameters.drop_last()) + last.name + ","@ + last.param_type + ","@
            + signed_text(last.number_of_bytes) + "\n"@
    }
}

/// The description of an event: its name and id, and its parameters.
pub open spec fn event_description(event: EventView) -> Seq<char> {
    "name = "@ + event.name + " id = "@ + decimal_text(event.id as nat) + " params = \n"@
        + paramters_listing(event.parameters)
}

impl Paramter {
    /// One line that tells the parameter's name, type and length.
    pub fn describe(&self) -> (text: String)
        ensures
            text@ == paramter_description(self@),
    {
        let mut text = "name = ".to_owned();
        text.append(self.name.as_str());
        text.append(", type = ");
        text.append(self.param_type.as_str());
        text.append(", n_bytes = ");
        text.append(signed_string(self.number_of_bytes).as_str());
        text
    }
}

impl Event {
    /// The event's name and id, and its parameters one to a line.
    pub fn describe(&self) -> (text: String)
        ensures
            text@ == event_description(self@),
    {
        let ghost definitions = self@.parameters;
        let mut params = String::new();
        let mut i: usize = 0;
        proof {
            assert(definitions.take(0) == Seq::<ParamterView>::empty());
        }
        while i < self.parameters.len()
            invariant
                i <= self.parameters@.len(),
                definitions == self@.parameters,
                params@ == paramters_listing(definitions.take(i as int)),
            decreases self.parameters@.len() - i,
        {
            proof {
                let next = definitions.take(i + 1);
                assert(next.drop_last() == definitions.take(i as int));
                assert(next.last() == self.parameters@[i as int]@);
            }
            let element = &self.parameters[i];
            params.append(element.name.as_str());
            params.append(",");
            params.append(element.param_type.as_str());
            params.append(",");
            params.append(signed_string(element.number_of_bytes).as_str());
            params.append("\n");
            i = i + 1;
        }
        proof {
            assert(definitions.take(i as int) == definitions);
        }
        let mut text = "name = ".to_owned();
        text.append(self.name.as_str());
        text.append(" id = ");
        text.append(decimal_string(self.id as u64).as_str());
        text.append(" params = \n");
        text.append(params.as_str());
        text
    }

    /// An event that has its parameter names but not yet their definitions.
    pub fn new(name: String, id: u16, elements: Vec<String>) -> (event: Event)
        ensures
            event.name == name,
            event.id == id,
            event.elements == elements,
            event.parameters@.len() == 0,
    {
        Event { name, id, elements, parameters: Vec::new() }
    }
}

/// One item of a catalog document, as a reader of the document hands it
/// over: the opening of an element with the values of its attributes, the
/// close of an element, a run of text, the end of the document, or anything
/// else.
#[derive(Debug)]
pub enum SchemaToken {
    Start { name: String, attributes: Vec<String> },
    End { name: String },
    Text(String),
    EndDocument,
    Other,
}

/// An item of a catalog document as plain values.
pub enum SchemaTokenView {
    Start { name: Seq<char>, attributes: Seq<Seq<char>> },
    End { name: Seq<char> },
    Text(Seq<char>),
    EndDocument,
    Other,
}

impl View for SchemaToken {
    type V = SchemaTokenView;

    open spec fn view(&self) -> SchemaTokenView {
        match *self {
            SchemaToken::Start { name, attributes } => SchemaTokenView::Start {
                name: name@,
                attributes: attributes@.map_values(|value: String| value@),
            },
            SchemaToken::End { name } => SchemaTokenView::End { name: name@ },
            SchemaToken::Text(text) => SchemaTokenView::Text(text@),
            SchemaToken::EndDocument => SchemaTokenView::EndDocument,
            SchemaToken::Other => SchemaTokenView::Other,
        }
    }
}

/// Why a catalog document does not give a catalog.
#[derive(Clone, Copy, Debug, PartialEq, Eq, Structural)]
pub enum SchemaError {
    /// The document ends inside an event or a parameter, or without its
    /// end-of-document item.
    UnexpectedEnd,
    /// An event's id is not a number of 16 bits.
    InvalidId,
    /// An enumeration entry lacks its two attributes, or its code is not a
    /// number of 8 bits.
    InvalidEnumeration,
    /// An event names a parameter that the document does not define.
    MissingParameter,
}

/// The views of a run of document items.
pub open spec fn tokens_view(tokens: Seq<SchemaToken>) -> Seq<SchemaTokenView> {
    tokens.map_values(|token: SchemaToken| token@)
}

/// The views of a run of texts.
pub open spec fn texts_view(texts: Seq<String>) -> Seq<Seq<char>> {
    texts.map_values(|text: String| text@)
}

/// The views of a run of parameter definitions.
pub open spec fn paramters_view(parameters: Seq<Paramter>) -> Seq<ParamterView> {
    parameters.map_values(|parameter: Paramter| parameter@)
}

/// The views of a run of event definitions.
pub open spec fn skeletons_view(events: Seq<Event>) -> Seq<EventView> {
    events.map_values(|event: Event| event@)
}

/// The 16-bit number that a text writes, if it writes one.
pub open spec fn id_of(text: Seq<char>) -> Option<u16> {
    match unsigned_of(text) {
        Some(value) => if value <= u16::MAX {
            Some(value as u16)
        } else {
            None
        },
        None => None,
    }
}

/// The 8-bit number that a text writes, if it writes one.
pub open spec fn code_of(text: Seq<char>) -> Option<u8> {
    match unsigned_of(text) {
        Some(value) => if value <= u8::MAX {
            Some(value as u8)
        } else {
            None
        },
        None => None,
    }
}

/// An event's part of the document, read as far as `at`: the text seen
/// last, and what the event has got so far.
pub struct EventDraft {
    pub data: Seq<char>,
    pub name: Seq<char>,
    pub id: u16,
    pub elements: Seq<Seq<char>>,
}

/// A parameter's part of the document, read as far as `at`.
pub struct ParamterDraft {
    pub data: Seq<char>,
    pub definition: ParamterView,
}

/// The event that the items from `at` on describe, and the position behind
/// its closing item. Text is remembered; the close of `name`, `id` and
/// `param` takes the text seen last as the event's name, its id, and one
/// more of its parameter names; the close of `event` ends the event. All
/// other items are passed over.
pub open spec fn event_section(tokens: Seq<SchemaTokenView>, at: int, draft: EventDraft) -> Result<
    (EventView, int),
    SchemaError,
>
    decreases tokens.len() - at,
{
    if at < 0 || at >= tokens.len() {
        Err(SchemaError::UnexpectedEnd)
    } else {
        match tokens[at] {
            SchemaTokenView::Text(text) => event_section(
                tokens,
                at + 1,
                EventDraft { data: text, ..draft },
            ),
            SchemaTokenView::End { name } => if name == "name"@ {
                event_section(tokens, at + 1, EventDraft { name: draft.data, ..draft })
            } else if name == "id"@ {
                match id_of(draft.data) {
                    Some(id) => event_section(tokens, at + 1, EventDraft { id, ..draft }),
                    None => Err(SchemaError::InvalidId),
                }
            } else if name == "param"@ {
                event_section(
                    tokens,
                    at + 1,
                    EventDraft { elements: draft.elements.push(draft.data), ..draft },
                )
            } else if name == "event"@ {
                Ok(
                    (
                        EventView {
                            name: draft.name,
                            id: draft.id,
                            elements: draft.elements,
                            parameters: Seq::empty(),
                        },
                        at + 1,
                    ),
                )
            } else {
                event_section(tokens, at + 1, draft)
            },
            _ => event_section(tokens, at + 1, draft),
        }
    }
}

/// The parameter that the items from `at` on describe, and the position
/// behind its closing item. The close of `name` and `type` takes the text
/// seen last; the close of `numberofbytes` takes it as the fixed length
/// where it writes an integer, and else as the name of the parameter that
/// holds the length; the opening of `enum` adds a label, its first
/// attribute, under a code, its second; the close of `parametertype` ends
/// the parameter.
pub open spec fn parameter_section(
    tokens: Seq<SchemaTokenView>,
    at: int,
    draft: ParamterDraft,
) -> Result<(ParamterView, int), SchemaError>
    decreases tokens.len() - at,
{
    let definition = draft.definition;
    if at < 0 || at >= tokens.len() {
        Err(SchemaError::UnexpectedEnd)
    } else {
        match tokens[at] {
            SchemaTokenView::Text(text) => parameter_section(
                tokens,
                at + 1,
                ParamterDraft { data: text, ..draft },
            ),
            SchemaTokenView::End { name } => if name == "name"@ {
                parameter_section(
                    tokens,
                    at + 1,
                    ParamterDraft {
                        definition: ParamterView { name: draft.data, ..definition },
                        ..draft
                    },
                )
            } else if name == "type"@ {
                parameter_section(
                    tokens,
                    at + 1,
                    ParamterDraft {
                        definition: ParamterView { param_type: draft.data, ..definition },
                        ..draft
                    },
                )
            } else if name == "numberofbytes"@ {
                match signed_of(draft.data) {
                    Some(length) => parameter_section(
                        tokens,
                        at + 1,
                        ParamterDraft {
                            definition: ParamterView {
                                number_of_bytes: length as int,
                                ..definition
                            },
                            ..draft
                        },
                    ),
                    None => parameter_section(
                        tokens,
                        at + 1,
                        ParamterDraft {
                            definition: ParamterView {
                                number_of_bytes: VARIABLE_LENGTH as int,
                                related_name: draft.data,
                                ..definition
                            },
                            ..draft
                        },
                    ),
                }
            } else if name == "parametertype"@ {
                Ok((definition, at + 1))
            } else {
                parameter_section(tokens, at + 1, draft)
            },
            SchemaTokenView::Start { name, attributes } => if name == "enum"@ {
                if attributes.len() < 2 {
                    Err(SchemaError::InvalidEnumeration)
                } else {
                    match code_of(attributes[1]) {
                        Some(code) => parameter_section(
                            tokens,
                            at + 1,
                            ParamterDraft {
                                definition: ParamterView {
                                    enumeration: definition.enumeration.insert(
                                        code,
                                        attributes[0],
                                    ),
                                    ..definition
                                },
                                ..draft
                            },
                        ),
                        None => Err(SchemaError::InvalidEnumeration),
                    }
                }
            } else {
                parameter_section(tokens, at + 1, draft)
            },
            _ => parameter_section(tokens, at + 1, draft),
        }
    }
}

/// An event that has nothing yet.
pub open spec fn empty_event() -> EventDraft {
    EventDraft { data: Seq::empty(), name: Seq::empty(), id: 0, elements: Seq::empty() }
}

/// A parameter that has nothing yet.
pub open spec fn empty_parameter() -> ParamterDraft {
    ParamterDraft {
        data: Seq::empty(),
        definition: ParamterView {
            name: Seq::empty(),
            param_type: Seq::empty(),
            number_of_bytes: 0,
            enumeration: Map::empty(),
            related_name: Seq::empty(),
        },
    }
}

/// What a catalog document defines: its events, without the definitions of
/// their parameters, and its parameters, both in document order.
pub struct Definitions {
    pub events: Seq<EventView>,
    pub parameters: Seq<ParamterView>,
}

/// The events and parameters that the items from `at` on define, after
/// `found`. The opening of `event` and of `parametertype` begins an event
/// and a parameter; the end of the document ends the reading; all other
/// items between them are passed over.
pub open spec fn document_sections(tokens: Seq<SchemaTokenView>, at: int, found: Definitions) -> Result<
    Definitions,
    SchemaError,
>
    decreases tokens.len() - at,
{
    if at < 0 || at >= tokens.len() {
        Err(SchemaError::UnexpectedEnd)
    } else {
        match tokens[at] {
            SchemaTokenView::Start { name, attributes } => if name == "event"@ {
                match event_section(tokens, at + 1, empty_event()) {
                    Ok((event, next)) => if at < next <= tokens.len() {
                        document_sections(
                            tokens,
                            next,
                            Definitions { events: found.events.push(event), ..found },
                        )
                    } else {
                        Err(SchemaError::UnexpectedEnd)
                    },
                    Err(error) => Err(error),
                }
            } else if name == "parametertype"@ {
                match parameter_section(tokens, at + 1, empty_parameter()) {
                    Ok((parameter, next)) => if at < next <= tokens.len() {
                        document_sections(
                            tokens,
                            next,
                            Definitions { parameters: found.parameters.push(parameter), ..found },
                        )
                    } else {
                        Err(SchemaError::UnexpectedEnd)
                    },
                    Err(error) => Err(error),
                }
            } else {
                document_sections(tokens, at + 1, found)
            },
            SchemaTokenView::EndDocument => Ok(found),
            _ => document_sections(tokens, at + 1, found),
        }
    }
}

/// The definition of the parameter called `name`: the last one of that name
/// in the document.
pub open spec fn definition_of(parameters: Seq<ParamterView>, name: Seq<char>) -> Option<
    ParamterView,
>
    decreases parameters.len(),
{
    if parameters.len() == 0 {
        None
    } else if parameters.last().name == name {
        Some(parameters.last())
    } else {
        definition_of(parameters.drop_last(), name)
    }
}

/// The definitions of the parameters that `elements` name, in that order;
/// `None` where one of them has no definition.
pub open spec fn definitions_of(parameters: Seq<ParamterView>, elements: Seq<Seq<char>>) -> Option<
    Seq<ParamterView>,
>
    decreases elements.len(),
{
    if elements.len() == 0 {
        Some(Seq::empty())
    } else {
        match (
            definitions_of(parameters, elements.drop_last()),
            definition_of(parameters, elements.last()),
        ) {
            (Some(front), Some(last)) => Some(front.push(last)),
            _ => None,
        }
    }
}

/// The catalog of the events of a document from position `from` on. Of
/// two events with one id the later one stands in the catalog. An event
/// that stands in it gets, behind the parameters that it has, the
/// definitions of the parameters that it names.
pub open spec fn catalog_of(events: Seq<EventView>, parameters: Seq<ParamterView>, from: int) -> Result<
    Map<u16, EventView>,
    SchemaError,
>
    decreases events.len() - from,
{
    if from < 0 || from >= events.len() {
        Ok(Map::empty())
    } else {
        match catalog_of(events, parameters, from + 1) {
            Err(error) => Err(error),
            Ok(catalog) => {
                let event = events[from];
                if catalog.contains_key(event.id) {
                    Ok(catalog)
                } else {
                    match definitions_of(parameters, event.elements) {
                        None => Err(SchemaError::MissingParameter),
                        Some(definitions) => Ok(
                            catalog.insert(
                                event.id,
                                EventView { parameters: event.parameters + definitions, ..event },
                            ),
                        ),
                    }
                }
            },
        }
    }
}

/// The catalog that a document gives.
pub open spec fn catalog_from(tokens: Seq<SchemaTokenView>) -> Result<
    Map<u16, EventView>,
    SchemaError,
> {
    match document_sections(
        tokens,
        0,
        Definitions { events: Seq::empty(), parameters: Seq::empty() },
    ) {
        Err(error) => Err(error),
        Ok(found) => catalog_of(found.events, found.parameters, 0),
    }
}

/// A copy of a parameter definition.
pub fn copy_paramter(parameter: &Paramter) -> (copy: Paramter)
    ensures
        copy@ == parameter@,
{
    Paramter {
        name: parameter.name.clone(),
        param_type: parameter.param_type.clone(),
        number_of_bytes: parameter.number_of_bytes,
        enumeration: parameter.enumeration.clone(),
        related_name: parameter.related_name.clone(),
    }
}

/// Reads one event's part of a document, which begins at `start`, and
/// appends the event. Gives the position behind the part.
#[verifier::loop_isolation(false)]
pub fn parse_event(tokens: &[SchemaToken], start: usize, events: &mut Vec<Event>) -> (result: Result<
    usize,
    SchemaError,
>)
    ensures
        match event_section(tokens_view(tokens@), start as int, empty_event()) {
            Ok((event, next)) => result == Ok::<usize, SchemaError>(next as usize) && start < next
                <= tokens@.len() && skeletons_view(final(events)@) == skeletons_view(
                old(events)@,
            ).push(event),
            Err(error) => result == Err::<usize, SchemaError>(error) && final(events)@ == old(
                events,
            )@,
        },
{
    let ghost items = tokens_view(tokens@);
    let mut data = String::new();
    let mut name = String::new();
    let mut id: u16 = 0;
    let mut elements: Vec<String> = Vec::new();
    let mut at: usize = start;
    proof {
        assert(texts_view(elements@) == Seq::<Seq<char>>::empty());
    }
    while at < tokens.len()
        invariant
            start <= at,
            *events == *old(events),
            event_section(
                items,
                at as int,
                EventDraft { data: data@, name: name@, id, elements: texts_view(elements@) },
            ) == event_section(items, start as int, empty_event()),
        decreases tokens@.len() - at,
    {
        assert(items[at as int] == tokens@[at as int]@);
        match &tokens[at] {
            SchemaToken::Text(text) => {
                data = text.clone();
            },
            SchemaToken::End { name: closed } => {
                if same_text(closed.as_str(), "name") {
                    name = data.clone();
                } else if same_text(closed.as_str(), "id") {
                    match parse_u64(data.as_str()) {
                        Some(value) => {
                            if value > 65535 {
                                return Err(SchemaError::InvalidId);
                            }
                            id = value as u16;
                        },
                        None => {
                            return Err(SchemaError::InvalidId);
                        },
                    }
                } else if same_text(closed.as_str(), "param") {
                    proof {
                        assert(texts_view(elements@.push(data)) == texts_view(elements@).push(
                            data@,
                        ));
                    }
                    elements.push(data.clone());
                } else if same_text(closed.as_str(), "event") {
                    let ghost names = texts_view(elements@);
                    let event = Event::new(name, id, elements);
                    proof {
                        assert(event@.parameters =~= Seq::<ParamterView>::empty());
                        assert(event@.elements =~= names);
                        assert(skeletons_view(events@.push(event)) == skeletons_view(events@).push(
                            event@,
                        ));
                    }
                    events.push(event);
                    return Ok(at + 1);
                }
            },
            _ => {},
        }
        at = at + 1;
    }
    proof {
        assert(event_section(
            items,
            at as int,
            EventDraft { data: data@, name: name@, id, elements: texts_view(elements@) },
        ) is Err);
    }
    Err(SchemaError::UnexpectedEnd)
}

/// Reads one parameter's part of a document, which begins at `start`, and
/// appends the parameter. Gives the position behind the part.
#[verifier::loop_isolation(false)]
pub fn parse_parameter(tokens: &[SchemaToken], start: usize, parameters: &mut Vec<Paramter>) -> (result:
    Result<usize, SchemaError>)
    ensures
        match parameter_section(tokens_view(tokens@), start as int, empty_parameter()) {
            Ok((parameter, next)) => result == Ok::<usize, SchemaError>(next as usize) && start
                < next <= tokens@.len() && paramters_view(final(parameters)@) == paramters_view(
                old(parameters)@,
            ).push(parameter),
            Err(error) => result == Err::<usize, SchemaError>(error) && final(parameters)@ == old(
                parameters,
            )@,
        },
{
    let ghost items = tokens_view(tokens@);
    let mut data = String::new();
    let mut draft = Paramter {
        name: String::new(),
        param_type: String::new(),
        number_of_bytes: 0,
        enumeration: HashMap::new(),
        related_name: String::new(),
    };
    let mut at: usize = start;
    proof {
        assert(draft@.enumeration == Map::<u8, Seq<char>>::empty());
    }
    while at < tokens.len()
        invariant
            start <= at,
            *parameters == *old(parameters),
            parameter_section(items, at as int, ParamterDraft { data: data@, definition: draft@ })
                == parameter_section(items, start as int, empty_parameter()),
        decreases tokens@.len() - at,
    {
        assert(items[at as int] == tokens@[at as int]@);
        match &tokens[at] {
            SchemaToken::Text(text) => {
                data = text.clone();
            },
            SchemaToken::End { name: closed } => {
                if same_text(closed.as_str(), "name") {
                    draft.name = data.clone();
                } else if same_text(closed.as_str(), "type") {
                    draft.param_type = data.clone();
                } else if same_text(closed.as_str(), "numberofbytes") {
                    match parse_i64(data.as_str()) {
                        Some(length) => {
                            draft.number_of_bytes = length;
                        },
                        None => {
                            draft.related_name = data.clone();
                            draft.number_of_bytes = VARIABLE_LENGTH;
                        },
                    }
                } else if same_text(closed.as_str(), "parametertype") {
                    proof {
                        assert(paramters_view(parameters@.push(draft)) == paramters_view(
                            parameters@,
                        ).push(draft@));
                    }
                    parameters.push(draft);
                    return Ok(at + 1);
                }
            },
            SchemaToken::Start { name: opened, attributes } => {
                if same_text(opened.as_str(), "enum") {
                    if attributes.len() < 2 {
                        return Err(SchemaError::InvalidEnumeration);
                    }
                    let code: u8 = match parse_u64(attributes[1].as_str()) {
                        Some(value) => {
                            if value > 255 {
                                return Err(SchemaError::InvalidEnumeration);
                            }
                            value as u8
                        },
                        None => {
                            return Err(SchemaError::InvalidEnumeration);
                        },
                    };
                    let label = attributes[0].clone();
                    proof {
                        assert(draft.enumeration@.insert(code, label).map_values(
                            |label: String| label@,
                        ) == draft@.enumeration.insert(code, label@));
                    }
                    draft.enumeration.insert(code, label);
                }
            },
            _ => {},
        }
        at = at + 1;
    }
    proof {
        assert(parameter_section(
            items,
            at as int,
            ParamterDraft { data: data@, definition: draft@ },
        ) is Err);
    }
    Err(SchemaError::UnexpectedEnd)
}

/// The definition of the parameter called `name`: the last one of that name.
pub fn find_paramter<'a>(parameters: &'a Vec<Paramter>, name: &str) -> (found: Option<&'a Paramter>)
    ensures
        match definition_of(paramters_view(parameters@), name@) {
            Some(definition) => found matches Some(parameter) && parameter@ == definition,
            None => found is None,
        },
{
    let ghost views = paramters_view(parameters@);
    let mut i: usize = parameters.len();
    proof {
        assert(views.take(i as int) == views);
    }
    while i > 0
        invariant
            i <= parameters@.len(),
            views == paramters_view(parameters@),
            definition_of(views, name@) == definition_of(views.take(i as int), name@),
        decreases i,
    {
        proof {
            let seen = views.take(i as int);
            assert(seen.drop_last() == views.take(i - 1));
            assert(seen.last() == parameters@[i - 1]@);
        }
        i = i - 1;
        if same_text(parameters[i].name.as_str(), name) {
            return Some(&parameters[i]);
        }
    }
    None
}

/// Joins events with the definitions of the parameters that they name, and
/// puts them under their ids.
#[verifier::loop_isolation(false)]
pub fn fill_events_with_paramters(events: Vec<Event>, parameters: &Vec<Paramter>) -> (result: Result<
    HashMap<u16, Event>,
    SchemaError,
>)
    ensures
        match catalog_of(skeletons_view(events@), paramters_view(parameters@), 0) {
            Ok(catalog) => result matches Ok(filled) && catalog_view(filled@) == catalog,
            Err(error) => result matches Err(told) && told == error,
        },
{
    let ghost all = skeletons_view(events@);
    let ghost definitions = paramters_view(parameters@);
    let mut events = events;
    let mut catalog: HashMap<u16, Event> = HashMap::new();
    proof {
        assert(catalog_view(catalog@) == Map::<u16, EventView>::empty());
    }
    while events.len() > 0
        invariant
            events@.len() <= all.len(),
            skeletons_view(events@) == all.take(events@.len() as int),
            catalog_of(all, definitions, events@.len() as int) == Ok::<
                Map<u16, EventView>,
                SchemaError,
            >(catalog_view(catalog@)),
        decreases events@.len(),
    {
        let ghost rest = events@;
        let mut event = events.pop().unwrap();
        let ghost skeleton = event@;
        proof {
            assert(skeleton == all[events@.len() as int]) by {
                assert(skeletons_view(rest)[rest.len() - 1] == all.take(rest.len() as int)[rest.len()
                    - 1]);
            }
            assert(skeletons_view(events@) == all.take(events@.len() as int)) by {
                assert(skeletons_view(events@) == skeletons_view(rest).take(events@.len() as int));
            }
        }
        if !catalog.contains_key(&event.id) {
            let ghost names = texts_view(event.elements@);
            let mut i: usize = 0;
            proof {
                assert(names.take(0) == Seq::<Seq<char>>::empty());
                assert(event@.parameters == skeleton.parameters + Seq::<ParamterView>::empty());
            }
            while i < event.elements.len()
                invariant
                    i <= event.elements@.len(),
                    names == texts_view(event.elements@),
                    event@.name == skeleton.name,
                    event@.id == skeleton.id,
                    event@.elements == skeleton.elements,
                    definitions_of(definitions, names.take(i as int)) matches Some(found)
                        && event@.parameters == skeleton.parameters + found,
                decreases event.elements@.len() - i,
            {
                proof {
                    let next = names.take(i + 1);
                    assert(next.drop_last() == names.take(i as int));
                    assert(next.last() == event.elements@[i as int]@);
                }
                match find_paramter(parameters, event.elements[i].as_str()) {
                    Some(parameter) => {
                        let copy = copy_paramter(parameter);
                        let ghost before = event@.parameters;
                        event.parameters.push(copy);
                        proof {
                            assert(event@.parameters == before.push(copy@));
                            let found = definitions_of(definitions, names.take(i as int))->Some_0;
                            assert(skeleton.parameters + found.push(copy@) == (skeleton.parameters
                                + found).push(copy@));
                        }
                    },
                    None => {
                        proof {
                            lemma_missing_stays(definitions, names, i + 1);
                            assert(catalog_of(all, definitions, events@.len() as int) is Err);
                            lemma_catalog_failure_stays(all, definitions, events@.len() as int);
                        }
                        return Err(SchemaError::MissingParameter);
                    },
                }
                i = i + 1;
            }
            proof {
                assert(names.take(i as int) == names);
                assert(catalog@.insert(event.id, event).map_values(|event: Event| event@)
                    == catalog_view(catalog@).insert(event.id, event@));
            }
            catalog.insert(event.id, event);
        }
    }
    Ok(catalog)
}

/// Once a name among the first `n` has no definition, the whole run of
/// names has none.
pub proof fn lemma_missing_stays(parameters: Seq<ParamterView>, elements: Seq<Seq<char>>, n: int)
    requires
        0 <= n <= elements.len(),
        definitions_of(parameters, elements.take(n)) is None,
    ensures
        definitions_of(parameters, elements) is None,
    decreases elements.len(),
{
    if n < elements.len() {
        assert(elements.drop_last().take(n) == elements.take(n));
        lemma_missing_stays(parameters, elements.drop_last(), n);
    } else {
        assert(elements.take(n) == elements);
    }
}

/// Once the events from some position on give no catalog, the whole run of
/// events gives none.
pub proof fn lemma_catalog_failure_stays(
    events: Seq<EventView>,
    parameters: Seq<ParamterView>,
    from: int,
)
    requires
        0 <= from,
        catalog_of(events, parameters, from) is Err,
    ensures
        catalog_of(events, parameters, 0) == catalog_of(events, parameters, from),
    decreases from,
{
    if from > 0 {
        assert(catalog_of(events, parameters, from - 1) == catalog_of(events, parameters, from));
        lemma_catalog_failure_stays(events, parameters, from - 1);
    }
}

/// Builds the catalog that a document gives: first its events and its
/// parameters are read, then every event is joined with the definitions of
/// the parameters that it names.
#[verifier::loop_isolation(false)]
pub fn parse_xml(tokens: &[SchemaToken]) -> (result: Result<HashMap<u16, Event>, SchemaError>)
    ensures
        match catalog_from(tokens_view(tokens@)) {
            Ok(catalog) => result matches Ok(filled) && catalog_view(filled@) == catalog,
            Err(error) => result matches Err(told) && told == error,
        },
{
    let ghost items = tokens_view(tokens@);
    let ghost nothing = Definitions { events: Seq::empty(), parameters: Seq::empty() };
    let mut events: Vec<Event> = Vec::new();
    let mut paramters: Vec<Paramter> = Vec::new();
    let mut at: usize = 0;
    proof {
        assert(skeletons_view(events@) == Seq::<EventView>::empty());
        assert(paramters_view(paramters@) == Seq::<ParamterView>::empty());
    }
    while at < tokens.len()
        invariant
            document_sections(
                items,
                at as int,
                Definitions {
                    events: skeletons_view(events@),
                    parameters: paramters_view(paramters@),
                },
            ) == document_sections(items, 0, nothing),
        decreases tokens@.len() - at,
    {
        assert(items[at as int] == tokens@[at as int]@);
        match &tokens[at] {
            SchemaToken::Start { name, attributes } => {
                if same_text(name.as_str(), "event") {
                    match parse_event(tokens, at + 1, &mut events) {
                        Ok(next) => {
                            at = next;
                        },
                        Err(error) => {
                            return Err(error);
                        },
                    }
                } else if same_text(name.as_str(), "parametertype") {
                    match parse_parameter(tokens, at + 1, &mut paramters) {
                        Ok(next) => {
                            at = next;
                        },
                        Err(error) => {
                            return Err(error);
                        },
                    }
                } else {
                    at = at + 1;
                }
            },
            SchemaToken::EndDocument => {
                return fill_events_with_paramters(events, &paramters);
            },
            _ => {
                at = at + 1;
            },
        }
    }
    Err(SchemaError::UnexpectedEnd)
}

} // verus!
