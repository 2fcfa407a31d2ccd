//! The handle through which markup events reach the event writer.

use crate::value::MarkupEvent;
use vstd::prelude::*;
use xml::writer::events::StartElementBuilder;
use xml::writer::{EventWriter, XmlEvent};

verus! {

/// `xml::writer::EventWriter`, the event writer over a sink. What a writer
/// does with an event is visible through the names below alone.
#[verifier::external_type_specification]
#[verifier::external_body]
#[verifier::reject_recursive_types(W)]
pub struct ExEventWriter<W>(EventWriter<W>);

/// `xml::writer::events::StartElementBuilder`, a start-element event under
/// construction. What it holds is visible through `element_name` and
/// `element_attributes` alone.
#[verifier::external_type_specification]
#[verifier::external_body]
pub struct ExStartElementBuilder<'a>(StartElementBuilder<'a>);

/// `xml::writer::Error`, the event writer's account of a failure. Nothing
/// of what it holds is visible here.
#[verifier::external_type_specification]
#[verifier::external_body]
pub struct ExWriterError(xml::writer::Error);

/// The attributes that a start-element event under construction holds, in
/// the order in which they were added: each name as it is written, with
/// its value.
pub uninterp spec fn element_attributes(builder: StartElementBuilder) -> Seq<(Seq<char>, Seq<char>)>;

/// The name that a start-element event under construction holds, as it is
/// written.
pub uninterp spec fn element_name(builder: StartElementBuilder) -> Seq<char>;

/// The builder that `XmlEvent::start_element` returns for a name.
pub uninterp spec fn begun_element(name: Seq<char>) -> StartElementBuilder<'static>;

/// The builder that `StartElementBuilder::attr` returns for a builder, a
/// name and a value.
pub uninterp spec fn attribute_added(
    builder: StartElementBuilder,
    name: Seq<char>,
    value: Seq<char>,
) -> StartElementBuilder<'static>;

/// Whether a writer over a vector of bytes takes the start-element event
/// that a builder holds: whether `EventWriter::write` returns `Ok` for it.
pub uninterp spec fn start_taken(writer: EventWriter<Vec<u8>>, element: StartElementBuilder) -> bool;

/// The writer as `EventWriter::write` leaves it, taken or not, when it is
/// handed the start-element event that a builder holds.
pub uninterp spec fn after_start(
    writer: EventWriter<Vec<u8>>,
    element: StartElementBuilder,
) -> EventWriter<Vec<u8>>;

/// Whether a writer over a vector of bytes takes a characters event with
/// the given text.
pub uninterp spec fn characters_taken(writer: EventWriter<Vec<u8>>, text: Seq<char>) -> bool;

/// The writer as `EventWriter::write` leaves it, taken or not, when it is
/// handed a characters event with the given text.
pub uninterp spec fn after_characters(
    writer: EventWriter<Vec<u8>>,
    text: Seq<char>,
) -> EventWriter<Vec<u8>>;

/// Whether a writer over a vector of bytes takes an end-element event
/// without a name.
pub uninterp spec fn end_taken(writer: EventWriter<Vec<u8>>) -> bool;

/// The writer as `EventWriter::write` leaves it, taken or not, when it is
/// handed an end-element event without a name.
pub uninterp spec fn after_end(writer: EventWriter<Vec<u8>>) -> EventWriter<Vec<u8>>;

/// `XmlEvent::start_element`: begins a start-element event. The builder is
/// the one named for the name; it holds the given name and no attribute.
#[verifier::external_body]
fn begin_element<'a>(name: &'a str) -> (builder: StartElementBuilder<'a>)
    ensures
        builder == begun_element(name@),
        element_name(builder) == name@,
        element_attributes(builder) == Seq::<(Seq<char>, Seq<char>)>::empty(),
{
    XmlEvent::start_element(name)
}

/// `StartElementBuilder::attr`: adds one attribute to a start-element event
/// under construction. The builder is the one named for the arguments; it
/// keeps its name and its attributes, and holds the given one after them.
#[verifier::external_body]
fn add_attribute<'a>(
    builder: StartElementBuilder<'a>,
    name: &'a str,
    value: &'a str,
) -> (extended: StartElementBuilder<'a>)
    ensures
        extended == attribute_added(builder, name@, value@),
        element_name(extended) == element_name(builder),
        element_attributes(extended) == element_attributes(builder).push((name@, value@)),
{
    builder.attr(name, value)
}

/// `EventWriter::write` on a start-element event. With a vector of bytes
/// for its sink, what the writer answers and how it is left follow from
/// the writer and the event alone: the answer is `Ok` exactly where the
/// writer takes the event, and the writer is left as named.
#[verifier::external_body]
fn write_start<'a>(writer: &mut EventWriter<Vec<u8>>, element: StartElementBuilder<'a>) -> (res:
    Result<(), xml::writer::Error>)
    ensures
        res is Ok == start_taken(*old(writer), element),
        *final(writer) == after_start(*old(writer), element),
{
    writer.write(element)
}

/// `EventWriter::write` on a characters event. With a vector of bytes for
/// its sink, what the writer answers and how it is left follow from the
/// writer and the text alone: the answer is `Ok` exactly where the writer
/// takes the event, and the writer is left as named.
#[verifier::external_body]
fn write_characters(writer: &mut EventWriter<Vec<u8>>, text: &str) -> (res: Result<
    (),
    xml::writer::Error,
>)
    ensures
        res is Ok == characters_taken(*old(writer), text@),
        *final(writer) == after_characters(*old(writer), text@),
{
    writer.write(XmlEvent::Characters(text))
}

/// `EventWriter::write` on an end-element event without a name. With a
/// vector of bytes for its sink, what the writer answers and how it is
/// left follow from the writer alone: the answer is `Ok` exactly where the
/// writer takes the event, and the writer is left as named.
#[verifier::external_body]
fn write_end(writer: &mut EventWriter<Vec<u8>>) -> (res: Result<(), xml::writer::Error>)
    ensures
        res is Ok == end_taken(*old(writer)),
        *final(writer) == after_end(*old(writer)),
{
    writer.write(XmlEvent::end_element())
}

/// The texts of a list of attributes.
pub open spec fn pairs_view(pairs: Seq<(String, String)>) -> Seq<(Seq<char>, Seq<char>)> {
    pairs.map_values(|p: (String, String)| (p.0@, p.1@))
}

/// The builder that the handle makes for a name and a list of attributes:
/// begun with the name, with the attributes added one by one in order.
pub open spec fn built(name: Seq<char>, attributes: Seq<(Seq<char>, Seq<char>)>) -> StartElementBuilder<
    'static,
>
    decreases attributes.len(),
{
    if attributes.len() == 0 {
        begun_element(name)
    } else {
        attribute_added(
            built(name, attributes.drop_last()),
            attributes.last().0,
            attributes.last().1,
        )
    }
}

/// Whether the writer takes the event when it is handed it.
pub open spec fn takes(writer: EventWriter<Vec<u8>>, event: MarkupEvent) -> bool {
    match event {
        MarkupEvent::StartElement { name, attributes } => start_taken(
            writer,
            built(name, attributes),
        ),
        MarkupEvent::Characters(text) => characters_taken(writer, text),
        MarkupEvent::EndElement => end_taken(writer),
    }
}

/// The writer as it is left when it is handed the event, taken or not.
pub open spec fn after(writer: EventWriter<Vec<u8>>, event: MarkupEvent) -> EventWriter<Vec<u8>> {
    match event {
        MarkupEvent::StartElement { name, attributes } => after_start(
            writer,
            built(name, attributes),
        ),
        MarkupEvent::Characters(text) => after_characters(writer, text),
        MarkupEvent::EndElement => after_end(writer),
    }
}

/// The writer as it is left when it is handed the events one after the
/// other.
pub open spec fn after_all(writer: EventWriter<Vec<u8>>, events: Seq<MarkupEvent>) -> EventWriter<
    Vec<u8>,
>
    decreases events.len(),
{
    if events.len() == 0 {
        writer
    } else {
        after(after_all(writer, events.drop_last()), events.last())
    }
}

/// Whether the writer takes every one of the events when it is handed
/// them one after the other.
pub open spec fn takes_all(writer: EventWriter<Vec<u8>>, events: Seq<MarkupEvent>) -> bool
    decreases events.len(),
{
    events.len() > 0 ==> takes_all(writer, events.drop_last()) && takes(
        after_all(writer, events.drop_last()),
        events.last(),
    )
}

/// An event that the writer was handed, with the writer's account of the
/// failure where it refused the event.
pub ghost struct Offer {
    pub event: MarkupEvent,
    pub refusal: Option<xml::writer::Error>,
}

/// The offers of events that the writer took, one for each event.
pub open spec fn taken(events: Seq<MarkupEvent>) -> Seq<Offer> {
    events.map_values(|event: MarkupEvent| Offer { event, refusal: None })
}

/// A failure of the event writer to take an event.
#[derive(Debug)]
pub struct WriteError {
    /// The writer's own account of the failure.
    pub cause: xml::writer::Error,
}

impl WriteError {
    /// What the library reports of the writer's answer to an event: success
    /// where the writer took the event, and where it failed the failure
    /// that holds the writer's own account.
    pub fn from_outcome(outcome: Result<(), xml::writer::Error>) -> (res: Result<(), WriteError>)
        ensures
            outcome is Ok ==> res is Ok,
            outcome matches Err(cause) ==> res == Err::<(), WriteError>(WriteError { cause }),
    {
        match outcome {
            Ok(()) => Ok(()),
            Err(cause) => Err(WriteError { cause }),
        }
    }
}

/// An event writer together with the record of what it was handed.
///
/// Every event goes to the writer through the handle: the name, the
/// attributes and the text are handed on as they were given. The record
/// grows by an offer with each event handed to the writer, and the list of
/// events taken grows by an event exactly when the writer has taken it.
pub struct TreeWriter {
    inner: EventWriter<Vec<u8>>,
    accepted: Ghost<Seq<MarkupEvent>>,
    offers: Ghost<Seq<Offer>>,
}

impl TreeWriter {
    /// The events that the writer has taken through this handle, in order.
    pub closed spec fn accepted(&self) -> Seq<MarkupEvent> {
        self.accepted@
    }

    /// The events that the writer was handed through this handle, in
    /// order, each with the failure where the writer refused it.
    pub closed spec fn offers(&self) -> Seq<Offer> {
        self.offers@
    }

    /// The writer behind the handle.
    pub closed spec fn writer(&self) -> EventWriter<Vec<u8>> {
        self.inner
    }

    /// The handle went from `self` to `next` by handing the writer one
    /// event, with the outcome `res`: the writer was handed the event and
    /// is left as that leaves it, the outcome is the writer's answer, and
    /// the record holds the offer.
    pub open spec fn handed(self, next: TreeWriter, event: MarkupEvent, res: Result<(), WriteError>) -> bool {
        &&& res is Ok == takes(self.writer(), event)
        &&& next.writer() == after(self.writer(), event)
        &&& match res {
            Ok(_) => {
                &&& next.accepted() == self.accepted().push(event)
                &&& next.offers() == self.offers().push(Offer { event, refusal: None })
            },
            Err(error) => {
                &&& next.accepted() == self.accepted()
                &&& next.offers() == self.offers().push(
                    Offer { event, refusal: Some(error.cause) },
                )
            },
        }
    }

    /// The handle went from `self` to `next` by handing the writer all of
    /// `events`, one after the other: the writer took every one of them
    /// and is left as they leave it, and the record holds an offer for
    /// each.
    pub open spec fn wrote(self, next: TreeWriter, events: Seq<MarkupEvent>) -> bool {
        &&& takes_all(self.writer(), events)
        &&& next.writer() == after_all(self.writer(), events)
        &&& next.accepted() == self.accepted() + events
        &&& next.offers() == self.offers() + taken(events)
    }

    /// The handle went from `self` to `next` by handing the writer the
    /// first events of `events` until it refused the one at position `k`
    /// with the failure `cause`: the writer took the events before that
    /// one, was handed that one and refused it, and was handed nothing
    /// after it.
    pub open spec fn stopped(
        self,
        next: TreeWriter,
        events: Seq<MarkupEvent>,
        k: int,
        cause: xml::writer::Error,
    ) -> bool {
        &&& 0 <= k < events.len()
        &&& takes_all(self.writer(), events.take(k))
        &&& !takes(after_all(self.writer(), events.take(k)), events[k])
        &&& next.writer() == after_all(self.writer(), events.take(k + 1))
        &&& next.accepted() == self.accepted() + events.take(k)
        &&& next.offers() == self.offers() + taken(events.take(k)).push(
            Offer { event: events[k], refusal: Some(cause) },
        )
    }

    /// The handle went from `self` to `next` by the writing of `events`
    /// with the outcome `res`: all of them were handed over and taken
    /// where it is `Ok`, and otherwise the writing stopped at the first
    /// event that the writer refused, with the writer's failure for the
    /// outcome.
    pub open spec fn handed_all(
        self,
        next: TreeWriter,
        events: Seq<MarkupEvent>,
        res: Result<(), WriteError>,
    ) -> bool {
        match res {
            Ok(_) => self.wrote(next, events),
            Err(error) => exists|k: int| self.stopped(next, events, k, error.cause),
        }
    }

    /// A handle on `inner`, with nothing handed over through it yet.
    pub fn new(inner: EventWriter<Vec<u8>>) -> (handle: TreeWriter)
        ensures
            handle.writer() == inner,
            handle.accepted() == Seq::<MarkupEvent>::empty(),
            handle.offers() == Seq::<Offer>::empty(),
    {
        TreeWriter { inner, accepted: Ghost(Seq::empty()), offers: Ghost(Seq::empty()) }
    }

    /// Hands the writer a start-element event.
    ///
    /// The builder handed over is the one made for the name and the
    /// attributes, and holds them. The outcome is the writer's answer to
    /// it, and the failure returned is the writer's own.
    pub fn start_element(&mut self, name: &String, attributes: &Vec<(String, String)>) -> (res:
        Result<(), WriteError>)
        ensures
            element_name(built(name@, pairs_view(attributes@))) == name@,
            element_attributes(built(name@, pairs_view(attributes@))) == pairs_view(attributes@),
            old(self).handed(
                *final(self),
                MarkupEvent::StartElement { name: name@, attributes: pairs_view(attributes@) },
                res,
            ),
    {
        let mut builder = begin_element(name.as_str());
        let mut i: usize = 0;
        assert(pairs_view(attributes@.take(0)) =~= Seq::empty());
        while i < attributes.len()
            invariant
                i <= attributes.len(),
                builder == built(name@, pairs_view(attributes@.take(i as int))),
                element_name(builder) == name@,
                element_attributes(builder) == pairs_view(attributes@.take(i as int)),
            decreases attributes.len() - i,
        {
            let pair = &attributes[i];
            let ghost before = pairs_view(attributes@.take(i as int));
            builder = add_attribute(builder, pair.0.as_str(), pair.1.as_str());
            i += 1;
            assert(pairs_view(attributes@.take(i as int)) =~= before.push((pair.0@, pair.1@)));
            assert(before.push((pair.0@, pair.1@)).drop_last() =~= before);
        }
        assert(attributes@.take(i as int) =~= attributes@);
        let ghost event = MarkupEvent::StartElement {
            name: name@,
            attributes: pairs_view(attributes@),
        };
        let res = WriteError::from_outcome(write_start(&mut self.inner, builder));
        proof {
            if res is Ok {
                self.accepted@ = self.accepted@.push(event);
                self.offers@ = self.offers@.push(Offer { event, refusal: None });
            } else {
                self.offers@ = self.offers@.push(
                    Offer { event, refusal: Some(res->Err_0.cause) },
                );
            }
        }
        res
    }

    /// Hands the writer a characters event.
    ///
    /// The text handed over is the given one. The outcome is the writer's
    /// answer to it, and the failure returned is the writer's own.
    pub fn characters(&mut self, text: &String) -> (res: Result<(), WriteError>)
        ensures
            old(self).handed(*final(self), MarkupEvent::Characters(text@), res),
    {
        let ghost event = MarkupEvent::Characters(text@);
        let outcome = write_characters(&mut self.inner, text.as_str());
        let res = WriteError::from_outcome(outcome);
        proof {
            if res is Ok {
                self.accepted@ = self.accepted@.push(event);
                self.offers@ = self.offers@.push(Offer { event, refusal: None });
            } else {
                self.offers@ = self.offers@.push(
                    Offer { event, refusal: Some(res->Err_0.cause) },
                );
            }
        }
        res
    }

    /// Hands the writer an end-element event.
    ///
    /// The outcome is the writer's answer to it, and the failure returned
    /// is the writer's own.
    pub fn end_element(&mut self) -> (res: Result<(), WriteError>)
        ensures
            old(self).handed(*final(self), MarkupEvent::EndElement, res),
    {
        let ghost event = MarkupEvent::EndElement;
        let outcome = write_end(&mut self.inner);
        let res = WriteError::from_outcome(outcome);
        proof {
            if res is Ok {
                self.accepted@ = self.accepted@.push(event);
                self.offers@ = self.offers@.push(Offer { event, refusal: None });
            } else {
                self.offers@ = self.offers@.push(
                    Offer { event, refusal: Some(res->Err_0.cause) },
                );
            }
        }
        res
    }

    /// Gives the writer back.
    pub fn into_inner(self) -> (inner: EventWriter<Vec<u8>>)
        ensures
            inner == self.writer(),
    {
        self.inner
    }
}

/// Handing over two runs of events, one after the other, leaves the
/// writer as the second run leaves what the first has left, and the writer
/// takes all of them exactly when it takes the first run and then the
/// second.
pub proof fn lemma_after_all_concat(
    writer: EventWriter<Vec<u8>>,
    first: Seq<MarkupEvent>,
    second: Seq<MarkupEvent>,
)
    ensures
        after_all(writer, first + second) == after_all(after_all(writer, first), second),
        takes_all(writer, first + second) == (takes_all(writer, first) && takes_all(
            after_all(writer, first),
            second,
        )),
    decreases second.len(),
{
    if second.len() == 0 {
        assert(first + second =~= first);
    } else {
        lemma_after_all_concat(writer, first, second.drop_last());
        assert((first + second).drop_last() =~= first + second.drop_last());
    }
}

/// Handing over one event is handing over the run that holds it alone.
pub proof fn lemma_after_one(writer: EventWriter<Vec<u8>>, event: MarkupEvent)
    ensures
        after_all(writer, seq![event]) == after(writer, event),
        takes_all(writer, seq![event]) == takes(writer, event),
{
    reveal_with_fuel(after_all, 2);
    reveal_with_fuel(takes_all, 2);
    assert(seq![event].drop_last() =~= Seq::empty());
}

/// A writer that takes all of a run of events takes each of them in its
/// turn.
pub proof fn lemma_takes_each(writer: EventWriter<Vec<u8>>, events: Seq<MarkupEvent>, k: int)
    requires
        0 <= k < events.len(),
        takes_all(writer, events),
    ensures
        takes_all(writer, events.take(k)),
        takes(after_all(writer, events.take(k)), events[k]),
{
    let head = events.take(k + 1);
    assert(events =~= head + events.skip(k + 1));
    lemma_after_all_concat(writer, head, events.skip(k + 1));
    assert(head.drop_last() =~= events.take(k));
}

/// The offers of two runs of events taken are those of the first run and
/// then those of the second.
pub proof fn lemma_taken_concat(first: Seq<MarkupEvent>, second: Seq<MarkupEvent>)
    ensures
        taken(first + second) == taken(first) + taken(second),
{
    assert(taken(first + second) =~= taken(first) + taken(second));
}

impl TreeWriter {
    /// Handing over no event at all leaves the handle as it is.
    pub proof fn lemma_wrote_nothing(self)
        ensures
            self.wrote(self, Seq::empty()),
            self.handed_all(self, Seq::empty(), Ok::<(), WriteError>(())),
    {
        assert(self.accepted() + Seq::<MarkupEvent>::empty() =~= self.accepted());
        assert(self.offers() + taken(Seq::empty()) =~= self.offers());
    }

    /// The handing over of one event is the writing of the run that holds
    /// it alone.
    pub proof fn lemma_handed_one(self, next: TreeWriter, event: MarkupEvent, res: Result<(), WriteError>)
        requires
            self.handed(next, event, res),
        ensures
            self.handed_all(next, seq![event], res),
    {
        let events = seq![event];
        lemma_after_one(self.writer(), event);
        if res is Ok {
            assert(self.accepted().push(event) =~= self.accepted() + events);
            assert(self.offers().push(Offer { event, refusal: None }) =~= self.offers() + taken(
                events,
            ));
        } else {
            let cause = res->Err_0.cause;
            assert(events.take(0) =~= Seq::empty());
            assert(events.take(1) =~= events);
            assert(self.accepted() + events.take(0) =~= self.accepted());
            assert(self.offers() + taken(events.take(0)).push(
                Offer { event, refusal: Some(cause) },
            ) =~= self.offers().push(Offer { event, refusal: Some(cause) }));
            assert(self.stopped(next, events, 0, cause));
        }
    }

    /// A run of events written in full and then a second run, written with
    /// whatever outcome, are the writing of both runs with that outcome.
    pub proof fn lemma_wrote_then(
        self,
        middle: TreeWriter,
        next: TreeWriter,
        first: Seq<MarkupEvent>,
        second: Seq<MarkupEvent>,
        res: Result<(), WriteError>,
    )
        requires
            self.wrote(middle, first),
            middle.handed_all(next, second, res),
        ensures
            self.handed_all(next, first + second, res),
    {
        let both = first + second;
        lemma_after_all_concat(self.writer(), first, second);
        if res is Ok {
            lemma_taken_concat(first, second);
            assert(next.accepted() =~= self.accepted() + both);
            assert(next.offers() =~= self.offers() + taken(both));
        } else {
            let cause = res->Err_0.cause;
            let k = choose|k: int| middle.stopped(next, second, k, cause);
            let stop = first.len() + k;
            assert(both.take(stop) =~= first + second.take(k));
            assert(both.take(stop + 1) =~= first + second.take(k + 1));
            lemma_after_all_concat(self.writer(), first, second.take(k));
            lemma_after_all_concat(self.writer(), first, second.take(k + 1));
            lemma_taken_concat(first, second.take(k));
            assert(next.accepted() =~= self.accepted() + both.take(stop));
            assert(next.offers() =~= self.offers() + taken(both.take(stop)).push(
                Offer { event: both[stop as int], refusal: Some(cause) },
            ));
            assert(self.stopped(next, both, stop as int, cause));
        }
    }

    /// A writing that stopped within a run of events stopped, at the same
    /// event, within every run that begins with that one.
    pub proof fn lemma_stopped_within_longer(
        self,
        next: TreeWriter,
        first: Seq<MarkupEvent>,
        rest: Seq<MarkupEvent>,
        res: Result<(), WriteError>,
    )
        requires
            res is Err,
            self.handed_all(next, first, res),
        ensures
            self.handed_all(next, first + rest, res),
    {
        let cause = res->Err_0.cause;
        let k = choose|k: int| self.stopped(next, first, k, cause);
        let both = first + rest;
        assert(both.take(k) =~= first.take(k));
        assert(both.take(k + 1) =~= first.take(k + 1));
        assert(self.stopped(next, both, k, cause));
    }

    /// A writing ends well exactly when the writer takes every event: one
    /// that stopped has met an event that the writer does not take.
    pub proof fn lemma_well_exactly_when_all_taken(
        self,
        next: TreeWriter,
        events: Seq<MarkupEvent>,
        res: Result<(), WriteError>,
    )
        requires
            self.handed_all(next, events, res),
        ensures
            res is Ok <==> takes_all(self.writer(), events),
    {
        if res is Err {
            let cause = res->Err_0.cause;
            let k = choose|k: int| self.stopped(next, events, k, cause);
            if takes_all(self.writer(), events) {
                lemma_takes_each(self.writer(), events, k);
            }
        }
    }
}

} // verus!
