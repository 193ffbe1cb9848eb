//! A document as the sequence of events that a pull reader reports for it,
//! and the questions the response parsers ask of such a sequence.
//!
//! Response bodies are matched by local tag name only. A field's text is the
//! text seen while its element was open; elements are tracked by name, one
//! flag for each, without a stack. A document that is not well-formed is
//! read up to the fault, and the fault is reported with what was read.

use crate::error::UpnpError;
use crate::text::text_eq;
use vstd::prelude::*;
use xml::reader::{EventReader, XmlEvent};

verus! {

/// An attribute of a start tag: its local name and its unescaped value.
#[derive(Clone, Debug, PartialEq, Eq)]
pub struct Attribute {
    pub name: String,
    pub value: String,
}

/// One event of a document, as far as the parsers look at it.
#[derive(Clone, Debug, PartialEq, Eq)]
pub enum Event {
    /// A start tag, or the start of an empty-element tag.
    Start { name: String, attributes: Vec<Attribute> },
    /// An end tag, or the end of an empty-element tag.
    End { name: String },
    /// Character data between tags that is not white space only, unescaped.
    Text(String),
    /// Anything else: the start of the document, a comment, a processing
    /// instruction, a CDATA section, white space between tags.
    Other,
}

/// An [`Attribute`] by its characters.
pub struct AttributeView {
    pub name: Seq<char>,
    pub value: Seq<char>,
}

/// An [`Event`] by its characters.
pub enum EventView {
    Start { name: Seq<char>, attributes: Seq<AttributeView> },
    End { name: Seq<char> },
    Text(Seq<char>),
    Other,
}

impl DeepView for Attribute {
    type V = AttributeView;

    open spec fn deep_view(&self) -> AttributeView {
        AttributeView { name: self.name@, value: self.value@ }
    }
}

impl DeepView for Event {
    type V = EventView;

    open spec fn deep_view(&self) -> EventView {
        match *self {
            Event::Start { name, attributes } => EventView::Start {
                name: name@,
                attributes: attributes.deep_view(),
            },
            Event::End { name } => EventView::End { name: name@ },
            Event::Text(text) => EventView::Text(text@),
            Event::Other => EventView::Other,
        }
    }
}

/// What reading a document gives: its events and whether it is well-formed.
#[derive(Clone, Debug, PartialEq, Eq)]
pub struct Reading {
    /// The events of the document, in order: all of them where the document
    /// is well-formed, else those that precede the fault.
    pub events: Vec<Event>,
    /// The reader found the document not well-formed and stopped at the
    /// fault.
    pub fault: bool,
}

/// A [`Reading`] by its characters.
pub struct ReadingView {
    pub events: Seq<EventView>,
    pub fault: bool,
}

impl DeepView for Reading {
    type V = ReadingView;

    open spec fn deep_view(&self) -> ReadingView {
        ReadingView { events: self.events.deep_view(), fault: self.fault }
    }
}

/// What reading the document `text` gives: what `xml::reader::EventReader`
/// with its default configuration reports for `text`. The events are those
/// it reports before it reports `EndDocument` or an error; the fault is that
/// it reports an error. Whether a text is well-formed is the reader's
/// judgement throughout this crate.
pub uninterp spec fn document_reading(text: Seq<char>) -> ReadingView;

/// A reader over one document: an `xml::reader::EventReader` over the bytes
/// of a text. Nothing is known of it but what [`pending_events`] and
/// [`ends_in_fault`] name.
#[verifier::external_body]
pub struct EventStream<'a> {
    reader: EventReader<&'a [u8]>,
}

/// The events that `stream` has yet to report.
pub uninterp spec fn pending_events(stream: EventStream) -> Seq<EventView>;

/// Whether `stream`, once it has reported its events, reports an error
/// rather than the end of the document.
pub uninterp spec fn ends_in_fault(stream: EventStream) -> bool;

/// What a reader hands out when it is asked for the next event.
enum Pulled {
    /// One more event.
    Event(Event),
    /// The document has ended, well-formed.
    End,
    /// The document is not well-formed here.
    Fault,
}

/// `xml::reader::EventReader::from_str`: a reader at the start of `text`,
/// which has all of `text` before it.
#[verifier::external_body]
fn open_stream<'a>(text: &'a str) -> (stream: EventStream<'a>)
    ensures
        pending_events(stream) == document_reading(text@).events,
        ends_in_fault(stream) == document_reading(text@).fault,
{
    EventStream { reader: EventReader::from_str(text) }
}

/// `xml::reader::EventReader::next`: the next event, with the local names of
/// its tag and attributes; the end for `EndDocument`; a fault for an error.
/// The reader repeats `EndDocument` and an error on every later call, so
/// after the end or a fault nothing is pending and the outcome stays.
#[verifier::external_body]
fn next_event(stream: &mut EventStream) -> (pulled: Pulled)
    ensures
        ends_in_fault(*final(stream)) == ends_in_fault(*old(stream)),
        match pulled {
            Pulled::Event(e) => {
                &&& pending_events(*old(stream)).len() > 0
                &&& e.deep_view() == pending_events(*old(stream))[0]
                &&& pending_events(*final(stream)) == pending_events(*old(stream)).drop_first()
            },
            Pulled::End => {
                &&& pending_events(*old(stream)).len() == 0
                &&& pending_events(*final(stream)).len() == 0
                &&& !ends_in_fault(*old(stream))
            },
            Pulled::Fault => {
                &&& pending_events(*old(stream)).len() == 0
                &&& pending_events(*final(stream)).len() == 0
                &&& ends_in_fault(*old(stream))
            },
        },
{
    match stream.reader.next() {
        Ok(XmlEvent::StartElement { name, attributes, .. }) => Pulled::Event(
            Event::Start {
                name: name.local_name,
                attributes: attributes.into_iter().map(
                    |a| Attribute { name: a.name.local_name, value: a.value },
                ).collect(),
            },
        ),
        Ok(XmlEvent::EndElement { name }) => Pulled::Event(Event::End { name: name.local_name }),
        Ok(XmlEvent::Characters(text)) => Pulled::Event(Event::Text(text)),
        Ok(XmlEvent::EndDocument) => Pulled::End,
        Ok(_) => Pulled::Event(Event::Other),
        Err(_) => Pulled::Fault,
    }
}

/// Reads the document `text` to its end or to the first place where it is
/// not well-formed. The events that precede a fault are kept, so that a
/// parser can report an error that stands before the fault.
pub fn read_document(text: &str) -> (reading: Reading)
    ensures
        reading.deep_view() == document_reading(text@),
{
    let mut stream = open_stream(text);
    let mut events: Vec<Event> = Vec::new();
    let mut fault = false;
    assert(events.deep_view() =~= Seq::<EventView>::empty());
    loop
        invariant
            events.deep_view() + pending_events(stream) == document_reading(text@).events,
            ends_in_fault(stream) == document_reading(text@).fault,
        ensures
            events.deep_view() == document_reading(text@).events,
            fault == document_reading(text@).fault,
        decreases pending_events(stream).len(),
    {
        let ghost seen = events.deep_view();
        let ghost pending = pending_events(stream);
        match next_event(&mut stream) {
            Pulled::Event(event) => {
                events.push(event);
                assert(events.deep_view() =~= seen.push(pending[0]));
                assert(seen.push(pending[0]) + pending.drop_first() =~= seen + pending);
            },
            Pulled::End => {
                assert(seen + pending =~= seen);
                fault = false;
                break ;
            },
            Pulled::Fault => {
                assert(seen + pending =~= seen);
                fault = true;
                break ;
            },
        }
    }
    Reading { events, fault }
}

/// The events of the document `text`; `MalformedXml` where the reader finds
/// the document not well-formed.
pub fn read_events(text: &str) -> (events: Result<Vec<Event>, UpnpError>)
    ensures
        match events {
            Ok(found) => !document_reading(text@).fault && found.deep_view() == document_reading(
                text@,
            ).events,
            Err(error) => error == UpnpError::MalformedXml && document_reading(text@).fault,
        },
{
    let reading = read_document(text);
    if reading.fault {
        Err(UpnpError::MalformedXml)
    } else {
        Ok(reading.events)
    }
}

/// `event` is a start tag named `name`.
pub open spec fn opens(event: EventView, name: Seq<char>) -> bool {
    event matches EventView::Start { name: n, .. } && n == name
}

/// `event` is an end tag named `name`.
pub open spec fn closes(event: EventView, name: Seq<char>) -> bool {
    event matches EventView::End { name: n } && n == name
}

/// Whether an element named `name` is open after `event`, given whether one
/// was open before it.
pub open spec fn inside_after(was: bool, event: EventView, name: Seq<char>) -> bool {
    if opens(event, name) {
        true
    } else if closes(event, name) {
        false
    } else {
        was
    }
}

/// Whether an element named `name` is open at the end of `events`: the last
/// tag of that name is a start tag.
pub open spec fn inside(events: Seq<EventView>, name: Seq<char>) -> bool
    decreases events.len(),
{
    if events.len() == 0 {
        false
    } else {
        inside_after(inside(events.drop_last(), name), events.last(), name)
    }
}

/// The texts of `events` that stand while an element named `name` is open, in
/// document order.
pub open spec fn texts_inside(events: Seq<EventView>, name: Seq<char>) -> Seq<Seq<char>>
    decreases events.len(),
{
    if events.len() == 0 {
        Seq::empty()
    } else {
        let before = texts_inside(events.drop_last(), name);
        match events.last() {
            EventView::Text(text) => if inside(events.drop_last(), name) {
                before.push(text)
            } else {
                before
            },
            _ => before,
        }
    }
}

/// The values of the attributes named `name` among `attributes`, in order.
pub open spec fn attribute_values(attributes: Seq<AttributeView>, name: Seq<char>) -> Seq<
    Seq<char>,
>
    decreases attributes.len(),
{
    if attributes.len() == 0 {
        Seq::empty()
    } else {
        let before = attribute_values(attributes.drop_last(), name);
        if attributes.last().name == name {
            before.push(attributes.last().value)
        } else {
            before
        }
    }
}

/// The values of the attributes named `attribute` on the start tags named
/// `element`, in document order.
pub open spec fn start_values(
    events: Seq<EventView>,
    element: Seq<char>,
    attribute: Seq<char>,
) -> Seq<Seq<char>>
    decreases events.len(),
{
    if events.len() == 0 {
        Seq::empty()
    } else {
        let before = start_values(events.drop_last(), element, attribute);
        match events.last() {
            EventView::Start { name, attributes } => if name == element {
                before + attribute_values(attributes, attribute)
            } else {
                before
            },
            _ => before,
        }
    }
}

/// The number of start tags named `name` among `events`.
pub open spec fn count_starts(events: Seq<EventView>, name: Seq<char>) -> nat
    decreases events.len(),
{
    if events.len() == 0 {
        0
    } else if opens(events.last(), name) {
        count_starts(events.drop_last(), name) + 1
    } else {
        count_starts(events.drop_last(), name)
    }
}

/// The last of `values`, where there is one.
pub open spec fn last_of(values: Seq<Seq<char>>) -> Option<Seq<char>> {
    if values.len() > 0 {
        Some(values.last())
    } else {
        None
    }
}

/// The last of `values`, or the empty text.
pub open spec fn last_or_empty(values: Seq<Seq<char>>) -> Seq<char> {
    if values.len() > 0 {
        values.last()
    } else {
        Seq::empty()
    }
}

/// The events before position `i + 1` are those before `i` and the one at
/// `i`.
pub proof fn lemma_prefix_step(events: &Vec<Event>, i: int)
    requires
        0 <= i < events.len(),
    ensures
        events.deep_view().take(i + 1).drop_last() == events.deep_view().take(i),
        events.deep_view().take(i + 1).last() == events[i].deep_view(),
        events.deep_view().take(i + 1) == events.deep_view().take(i).push(events[i].deep_view()),
{
    assert(events.deep_view().take(i + 1).drop_last() =~= events.deep_view().take(i));
    assert(events.deep_view().take(i + 1) =~= events.deep_view().take(i).push(
        events[i].deep_view(),
    ));
}

/// Whether an element named `name` is open after `event`, given whether one
/// was open before it.
pub fn next_inside(was: bool, event: &Event, name: &str) -> (now: bool)
    ensures
        now == inside_after(was, event.deep_view(), name@),
{
    match event {
        Event::Start { name: tag, .. } => if text_eq(tag.as_str(), name) {
            true
        } else {
            was
        },
        Event::End { name: tag } => if text_eq(tag.as_str(), name) {
            false
        } else {
            was
        },
        _ => was,
    }
}

/// The value of the last attribute named `name` among `attributes`.
pub fn last_attribute(attributes: &Vec<Attribute>, name: &str) -> (value: Option<String>)
    ensures
        value.deep_view() == last_of(attribute_values(attributes.deep_view(), name@)),
{
    let ghost all = attributes.deep_view();
    let mut value: Option<String> = None;
    let mut i: usize = 0;
    while i < attributes.len()
        invariant
            i <= attributes.len(),
            all == attributes.deep_view(),
            value.deep_view() == last_of(attribute_values(all.take(i as int), name@)),
        decreases attributes.len() - i,
    {
        assert(all.take(i + 1).drop_last() =~= all.take(i as int));
        if text_eq(attributes[i].name.as_str(), name) {
            value = Some(attributes[i].value.clone());
        }
        i += 1;
    }
    assert(all.take(attributes.len() as int) =~= all);
    value
}

/// The field of a response that one element holds as text: whether the
/// element is open, and the last text seen while it was.
pub struct TextField {
    pub inside: bool,
    pub last: Option<String>,
}

impl TextField {
    /// This field is up to date for the element named `name` at the end of
    /// `events`.
    pub open spec fn tracks(&self, events: Seq<EventView>, name: Seq<char>) -> bool {
        &&& self.inside == inside(events, name)
        &&& self.last.deep_view() == last_of(texts_inside(events, name))
    }

    /// The field before any event.
    pub fn new() -> (field: TextField)
        ensures
            !field.inside,
            field.last is None,
            forall|name: Seq<char>| field.tracks(Seq::empty(), name),
    {
        TextField { inside: false, last: None }
    }

    /// Takes one more event into account.
    pub fn feed(&mut self, event: &Event, name: &str)
        ensures
            final(self).inside == inside_after(old(self).inside, event.deep_view(), name@),
            final(self).last.deep_view() == (match event.deep_view() {
                EventView::Text(text) => if old(self).inside {
                    Some(text)
                } else {
                    old(self).last.deep_view()
                },
                _ => old(self).last.deep_view(),
            }),
            forall|before: Seq<EventView>|
                old(self).tracks(before, name@) ==> #[trigger] final(self).tracks(
                    before.push(event.deep_view()),
                    name@,
                ),
    {
        if self.inside {
            if let Event::Text(text) = event {
                self.last = Some(text.clone());
            }
        }
        self.inside = next_inside(self.inside, event, name);
        assert forall|before: Seq<EventView>| old(self).tracks(before, name@) implies #[trigger] self.tracks(
            before.push(event.deep_view()),
            name@,
        ) by {
            assert(before.push(event.deep_view()).drop_last() =~= before);
        }
    }
}

/// The last text that stands while an element named `name` is open.
pub fn last_text_inside(events: &Vec<Event>, name: &str) -> (text: Option<String>)
    ensures
        text.deep_view() == last_of(texts_inside(events.deep_view(), name@)),
{
    let ghost all = events.deep_view();
    let mut field = TextField::new();
    let mut i: usize = 0;
    while i < events.len()
        invariant
            i <= events.len(),
            all == events.deep_view(),
            field.tracks(all.take(i as int), name@),
        decreases events.len() - i,
    {
        proof {
            lemma_prefix_step(events, i as int);
        }
        field.feed(&events[i], name);
        i += 1;
    }
    assert(all.take(events.len() as int) =~= all);
    field.last
}

/// The field of a response that one element holds as an attribute: the last
/// value seen.
pub struct AttributeField {
    pub last: Option<String>,
}

impl AttributeField {
    /// This field is up to date for the attribute `attribute` of the
    /// elements named `element` at the end of `events`.
    pub open spec fn tracks(
        &self,
        events: Seq<EventView>,
        element: Seq<char>,
        attribute: Seq<char>,
    ) -> bool {
        self.last.deep_view() == last_of(start_values(events, element, attribute))
    }

    /// The field before any event.
    pub fn new() -> (field: AttributeField)
        ensures
            field.last is None,
            forall|element: Seq<char>, attribute: Seq<char>|
                field.tracks(Seq::empty(), element, attribute),
    {
        AttributeField { last: None }
    }

    /// Takes one more event into account.
    pub fn feed(&mut self, event: &Event, element: &str, attribute: &str)
        ensures
            forall|before: Seq<EventView>|
                old(self).tracks(before, element@, attribute@) ==> #[trigger] final(self).tracks(
                    before.push(event.deep_view()),
                    element@,
                    attribute@,
                ),
    {
        if let Event::Start { name, attributes } = event {
            if text_eq(name.as_str(), element) {
                if let Some(found) = last_attribute(attributes, attribute) {
                    self.last = Some(found);
                }
            }
        }
        assert forall|before: Seq<EventView>|
            old(self).tracks(before, element@, attribute@) implies #[trigger] self.tracks(
            before.push(event.deep_view()),
            element@,
            attribute@,
        ) by {
            assert(before.push(event.deep_view()).drop_last() =~= before);
        }
    }
}

/// The value of the last attribute named `attribute` on a start tag named
/// `element`.
pub fn last_start_attribute(events: &Vec<Event>, element: &str, attribute: &str) -> (value: Option<
    String,
>)
    ensures
        value.deep_view() == last_of(start_values(events.deep_view(), element@, attribute@)),
{
    let ghost all = events.deep_view();
    let mut field = AttributeField::new();
    let mut i: usize = 0;
    while i < events.len()
        invariant
            i <= events.len(),
            all == events.deep_view(),
            field.tracks(all.take(i as int), element@, attribute@),
        decreases events.len() - i,
    {
        proof {
            lemma_prefix_step(events, i as int);
        }
        field.feed(&events[i], element, attribute);
        i += 1;
    }
    assert(all.take(events.len() as int) =~= all);
    field.last
}

/// The values of the attributes named `name` among `attributes`, in order.
pub fn collect_attribute_values(attributes: &Vec<Attribute>, name: &str) -> (values: Vec<String>)
    ensures
        values.deep_view() == attribute_values(attributes.deep_view(), name@),
{
    let ghost all = attributes.deep_view();
    let mut values: Vec<String> = Vec::new();
    let mut i: usize = 0;
    assert(values.deep_view() =~= Seq::<Seq<char>>::empty());
    while i < attributes.len()
        invariant
            i <= attributes.len(),
            all == attributes.deep_view(),
            values.deep_view() == attribute_values(all.take(i as int), name@),
        decreases attributes.len() - i,
    {
        assert(all.take(i + 1).drop_last() =~= all.take(i as int));
        if text_eq(attributes[i].name.as_str(), name) {
            let ghost before = values.deep_view();
            values.push(attributes[i].value.clone());
            assert(values.deep_view() =~= before.push(attributes[i as int].value@));
        }
        i += 1;
    }
    assert(all.take(attributes.len() as int) =~= all);
    values
}

/// The texts that stand while an element named `name` is open, in document
/// order.
pub fn collect_texts(events: &Vec<Event>, name: &str) -> (texts: Vec<String>)
    ensures
        texts.deep_view() == texts_inside(events.deep_view(), name@),
{
    let ghost all = events.deep_view();
    let mut texts: Vec<String> = Vec::new();
    let mut open = false;
    let mut i: usize = 0;
    assert(texts.deep_view() =~= Seq::<Seq<char>>::empty());
    while i < events.len()
        invariant
            i <= events.len(),
            all == events.deep_view(),
            open == inside(all.take(i as int), name@),
            texts.deep_view() == texts_inside(all.take(i as int), name@),
        decreases events.len() - i,
    {
        proof {
            lemma_prefix_step(events, i as int);
        }
        if open {
            if let Event::Text(text) = &events[i] {
                let ghost before = texts.deep_view();
                texts.push(text.clone());
                assert(texts.deep_view() =~= before.push(text@));
            }
        }
        open = next_inside(open, &events[i], name);
        i += 1;
    }
    assert(all.take(events.len() as int) =~= all);
    texts
}

/// The text that `text` holds, or the empty text.
pub fn text_or_empty(text: Option<String>) -> (held: String)
    ensures
        held@ == (match text {
            Some(t) => t@,
            None => Seq::<char>::empty(),
        }),
{
    match text {
        Some(t) => t,
        None => String::new(),
    }
}

} // verus!
