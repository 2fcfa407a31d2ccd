//! Record instances as values, and the markup events that an emission
//! procedure produces from them.

use crate::emit::{AttributeStep, Body, Procedure};
use crate::stringify::{boolean_text, integer_text, stringify_boolean, stringify_integer};
use crate::writer::{pairs_view, takes_all, TreeWriter, WriteError};
use vstd::prelude::*;

verus! {

/// The value of a field of a record instance.
#[derive(Debug, PartialEq, Eq)]
pub enum Value {
    /// A scalar, already rendered as text.
    Scalar(String),
    /// An optional value that is absent.
    Absent,
    /// An optional value that is present.
    Present(Box<Value>),
    /// The items of a sequence.
    Sequence(Vec<Value>),
    /// A nested record, which writes itself by its own procedure.
    Record(Node),
}

/// A record instance together with the procedure that writes it: the
/// values of its fields, in declaration order.
#[derive(Debug, PartialEq, Eq)]
pub struct Node {
    pub procedure: Procedure,
    pub values: Vec<Value>,
}

/// An event handed to the markup writer.
pub ghost enum MarkupEvent {
    StartElement { name: Seq<char>, attributes: Seq<(Seq<char>, Seq<char>)> },
    Characters(Seq<char>),
    EndElement,
}

impl Value {
    /// The text that the value gives: that of a scalar, or where `optional`
    /// is set that of a present scalar. An absent value gives none.
    pub open spec fn text(self, optional: bool) -> Option<Seq<char>> {
        match self {
            Value::Scalar(text) => if optional {
                None
            } else {
                Some(text@)
            },
            Value::Present(inner) => match *inner {
                Value::Scalar(text) => if optional {
                    Some(text@)
                } else {
                    None
                },
                _ => None,
            },
            _ => None,
        }
    }

    /// The value is one that text can be read from: a scalar, or where
    /// `optional` is set an optional scalar, absent or present.
    pub open spec fn holds_text(self, optional: bool) -> bool {
        if optional {
            self is Absent || self.text(true) is Some
        } else {
            self.text(false) is Some
        }
    }

    /// The value is a nested record that conforms to its own procedure.
    pub open spec fn holds_record(self) -> bool
        decreases self,
    {
        match self {
            Value::Record(node) => node.conforms(),
            _ => false,
        }
    }

    /// The value is a sequence of conforming records, or where `optional`
    /// is set an optional one, absent or present.
    pub open spec fn holds_records(self, optional: bool) -> bool
        decreases self,
    {
        match self {
            Value::Absent => optional,
            Value::Sequence(items) => !optional && all_hold_records(items@),
            Value::Present(inner) => match *inner {
                Value::Sequence(items) => optional && all_hold_records(items@),
                _ => false,
            },
            _ => false,
        }
    }

    /// The events of the child element that the value writes: those of the
    /// record it holds.
    pub open spec fn child_events(self) -> Seq<MarkupEvent>
        decreases self,
    {
        match self {
            Value::Record(node) => node.events(),
            _ => Seq::empty(),
        }
    }

    /// The events of the child elements written for the items of the
    /// value: a sequence, or where `optional` is set an optional sequence,
    /// which writes nothing when it is absent.
    pub open spec fn each_events(self, optional: bool) -> Seq<MarkupEvent>
        decreases self,
    {
        match self {
            Value::Sequence(items) => if optional {
                Seq::empty()
            } else {
                children_events(items@)
            },
            Value::Present(inner) => match *inner {
                Value::Sequence(items) => if optional {
                    children_events(items@)
                } else {
                    Seq::empty()
                },
                _ => Seq::empty(),
            },
            _ => Seq::empty(),
        }
    }
}

/// Every item is a nested record that conforms to its own procedure.
pub open spec fn all_hold_records(items: Seq<Value>) -> bool
    decreases items,
{
    forall|i: int| 0 <= i < items.len() ==> (#[trigger] items[i]).holds_record()
}

/// The events of the child elements written for `items`, in sequence order.
pub open spec fn children_events(items: Seq<Value>) -> Seq<MarkupEvent>
    decreases items,
{
    if items.len() == 0 {
        Seq::empty()
    } else {
        children_events(items.drop_last()) + items.last().child_events()
    }
}

impl AttributeStep {
    /// The value that the step reads can be read as text.
    pub open spec fn readable(self, values: Seq<Value>) -> bool {
        self.index < values.len() && values[self.index as int].holds_text(self.optional)
    }

    /// The text that the step reads, if the value is present.
    pub open spec fn text(self, values: Seq<Value>) -> Option<Seq<char>> {
        if self.index < values.len() {
            values[self.index as int].text(self.optional)
        } else {
            None
        }
    }
}

/// The attributes that `steps` write from `values`: one for each step whose
/// value is present, in the order of the steps.
pub open spec fn attribute_pairs(steps: Seq<AttributeStep>, values: Seq<Value>) -> Seq<
    (Seq<char>, Seq<char>),
>
    decreases steps.len(),
{
    if steps.len() == 0 {
        Seq::empty()
    } else {
        let before = attribute_pairs(steps.drop_last(), values);
        match steps.last().text(values) {
            Some(text) => before.push((steps.last().markup_name@, text)),
            None => before,
        }
    }
}

impl Node {
    /// The instance conforms to its procedure: every value that a step
    /// reads is there and of the kind that the step reads, and so on
    /// through the nested records.
    pub open spec fn conforms(self) -> bool
        decreases self,
    {
        &&& forall|k: int|
            0 <= k < self.procedure.attributes@.len() ==> (
            #[trigger] self.procedure.attributes@[k]).readable(self.values@)
        &&& match self.procedure.body {
            Body::Empty => true,
            Body::Text { index, optional, .. } => index < self.values@.len()
                && self.values@[index as int].holds_text(optional),
            Body::Each { index, optional, .. } => index < self.values@.len()
                && self.values@[index as int].holds_records(optional),
            Body::Delegate { index, .. } => index < self.values@.len()
                && self.values@[index as int].holds_record(),
        }
    }

    /// The start-element event: the element's name and its attributes.
    pub open spec fn start_event(self) -> MarkupEvent {
        MarkupEvent::StartElement {
            name: self.procedure.element_name@,
            attributes: attribute_pairs(self.procedure.attributes@, self.values@),
        }
    }

    /// The events of the body.
    pub open spec fn body_events(self) -> Seq<MarkupEvent>
        decreases self, 0int,
    {
        match self.procedure.body {
            Body::Empty => Seq::empty(),
            Body::Text { index, optional, .. } => if index < self.values@.len() {
                match self.values@[index as int].text(optional) {
                    Some(text) => seq![MarkupEvent::Characters(text)],
                    None => Seq::empty(),
                }
            } else {
                Seq::empty()
            },
            Body::Each { index, optional, .. } => if index < self.values@.len() {
                self.values@[index as int].each_events(optional)
            } else {
                Seq::empty()
            },
            Body::Delegate { index, .. } => if index < self.values@.len() {
                self.values@[index as int].child_events()
            } else {
                Seq::empty()
            },
        }
    }

    /// The events that writing the record produces: the start of the
    /// element, its body, and its end.
    pub open spec fn events(self) -> Seq<MarkupEvent>
        decreases self, 1int,
    {
        seq![self.start_event()] + self.body_events() + seq![MarkupEvent::EndElement]
    }
}

/// The events written for the first `i` items are the beginning of the
/// events written for all of them.
pub proof fn lemma_children_prefix(items: Seq<Value>, i: int)
    requires
        0 <= i <= items.len(),
    ensures
        children_events(items.take(i)).len() <= children_events(items).len(),
        children_events(items.take(i)) == children_events(items).take(
            children_events(items.take(i)).len() as int,
        ),
    decreases items.len(),
{
    if i == items.len() {
        assert(items.take(i) =~= items);
        assert(children_events(items) =~= children_events(items).take(
            children_events(items).len() as int,
        ));
    } else {
        let shorter = items.drop_last();
        lemma_children_prefix(shorter, i);
        assert(shorter.take(i) =~= items.take(i));
        let head = children_events(items.take(i));
        assert(head =~= children_events(items).take(head.len() as int));
    }
}

impl Value {
    /// The scalar value of a string: the string itself.
    pub fn from_text(text: String) -> (value: Value)
        ensures
            value == Value::Scalar(text),
    {
        Value::Scalar(text)
    }

    /// The scalar value of an integer: its decimal text.
    pub fn from_integer(i: i32) -> (value: Value)
        ensures
            value is Scalar,
            value.text(false) == Some(integer_text(i as int)),
    {
        Value::Scalar(stringify_integer(i))
    }

    /// The scalar value of a boolean: `true` or `false`.
    pub fn from_boolean(b: bool) -> (value: Value)
        ensures
            value is Scalar,
            value.text(false) == Some(boolean_text(b)),
    {
        Value::Scalar(stringify_boolean(b))
    }

    /// The text that the value gives, as `text` does.
    pub fn read_text(&self, optional: bool) -> (found: Option<&String>)
        ensures
            match found {
                Some(text) => self.text(optional) == Some(text@),
                None => self.text(optional) is None,
            },
    {
        match self {
            Value::Scalar(text) => if optional {
                None
            } else {
                Some(text)
            },
            Value::Present(inner) => match &**inner {
                Value::Scalar(text) => if optional {
                    Some(text)
                } else {
                    None
                },
                _ => None,
            },
            _ => None,
        }
    }
}

impl Node {
    /// The attributes of the start tag: for each attribute step, in order,
    /// the markup name and the text of the value, where the value is
    /// present.
    pub fn collect_attributes(&self) -> (pairs: Vec<(String, String)>)
        ensures
            pairs_view(pairs@) == attribute_pairs(self.procedure.attributes@, self.values@),
    {
        let mut pairs: Vec<(String, String)> = Vec::new();
        let mut i: usize = 0;
        proof {
            assert(pairs_view(pairs@) =~= Seq::empty());
        }
        while i < self.procedure.attributes.len()
            invariant
                i <= self.procedure.attributes.len(),
                pairs_view(pairs@) == attribute_pairs(
                    self.procedure.attributes@.take(i as int),
                    self.values@,
                ),
            decreases self.procedure.attributes.len() - i,
        {
            let step = &self.procedure.attributes[i];
            let ghost before = pairs@;
            proof {
                assert(self.procedure.attributes@.take(i + 1).drop_last()
                    =~= self.procedure.attributes@.take(i as int));
            }
            if step.index < self.values.len() {
                match self.values[step.index].read_text(step.optional) {
                    Some(text) => {
                        pairs.push((step.markup_name.clone(), text.clone()));
                        proof {
                            assert(pairs_view(pairs@) =~= pairs_view(before).push(
                                (step.markup_name@, text@),
                            ));
                        }
                    },
                    None => {},
                }
            }
            i += 1;
        }
        proof {
            assert(self.procedure.attributes@.take(i as int) =~= self.procedure.attributes@);
        }
        pairs
    }
}

/// Whether every item is a nested record that conforms to its own
/// procedure.
fn all_records_conform(items: &Vec<Value>) -> (r: bool)
    ensures
        r == all_hold_records(items@),
    decreases items,
{
    let mut i: usize = 0;
    while i < items.len()
        invariant
            i <= items.len(),
            forall|j: int| 0 <= j < i ==> (#[trigger] items@[j]).holds_record(),
        decreases items.len() - i,
    {
        if !items[i].is_conforming_record() {
            return false;
        }
        i += 1;
    }
    true
}

impl Value {
    /// Whether text can be read from the value, as `holds_text` says.
    pub fn can_give_text(&self, optional: bool) -> (r: bool)
        ensures
            r == self.holds_text(optional),
    {
        match self {
            Value::Absent => optional,
            _ => self.read_text(optional).is_some(),
        }
    }

    /// Whether the value is a nested record that conforms to its own
    /// procedure.
    fn is_conforming_record(&self) -> (r: bool)
        ensures
            r == self.holds_record(),
        decreases self,
    {
        match self {
            Value::Record(node) => node.is_conforming(),
            _ => false,
        }
    }

    /// Whether the value is a sequence of conforming records, or where
    /// `optional` is set an optional one.
    fn are_conforming_records(&self, optional: bool) -> (r: bool)
        ensures
            r == self.holds_records(optional),
        decreases self,
    {
        match self {
            Value::Absent => optional,
            Value::Sequence(items) => !optional && all_records_conform(items),
            Value::Present(inner) => match &**inner {
                Value::Sequence(items) => optional && all_records_conform(items),
                _ => false,
            },
            _ => false,
        }
    }
}

impl Node {
    /// Whether the instance conforms to its procedure.
    pub fn is_conforming(&self) -> (r: bool)
        ensures
            r == self.conforms(),
        decreases self,
    {
        let mut k: usize = 0;
        while k < self.procedure.attributes.len()
            invariant
                k <= self.procedure.attributes.len(),
                forall|j: int|
                    0 <= j < k ==> (#[trigger] self.procedure.attributes@[j]).readable(
                        self.values@,
                    ),
            decreases self.procedure.attributes.len() - k,
        {
            let step = &self.procedure.attributes[k];
            if !(step.index < self.values.len() && self.values[step.index].can_give_text(
                step.optional,
            )) {
                return false;
            }
            k += 1;
        }
        match &self.procedure.body {
            Body::Empty => true,
            Body::Text { index, optional, .. } => *index < self.values.len()
                && self.values[*index].can_give_text(*optional),
            Body::Each { index, optional, .. } => *index < self.values.len()
                && self.values[*index].are_conforming_records(*optional),
            Body::Delegate { index, .. } => *index < self.values.len()
                && self.values[*index].is_conforming_record(),
        }
    }
}

/// Writes the child elements of `items`, in sequence order, until the
/// writer refuses an event.
fn write_children(items: &Vec<Value>, writer: &mut TreeWriter) -> (res: Result<(), WriteError>)
    ensures
        old(writer).handed_all(*final(writer), children_events(items@), res),
    decreases items,
{
    let ghost before = *writer;
    let mut i: usize = 0;
    proof {
        assert(items@.take(0) =~= Seq::empty());
        before.lemma_wrote_nothing();
    }
    while i < items.len()
        invariant
            i <= items.len(),
            before == *old(writer),
            before.wrote(*writer, children_events(items@.take(i as int))),
        decreases items.len() - i,
    {
        let ghost done = children_events(items@.take(i as int));
        let ghost child = items@[i as int].child_events();
        let ghost middle = *writer;
        proof {
            assert(items@.take(i + 1).drop_last() =~= items@.take(i as int));
            lemma_children_prefix(items@, i + 1);
        }
        let res = items[i].write_child(writer);
        proof {
            before.lemma_wrote_then(middle, *writer, done, child, res);
        }
        if res.is_err() {
            proof {
                let all = children_events(items@);
                let head = done + child;
                assert(all =~= head + all.skip(head.len() as int));
                before.lemma_stopped_within_longer(
                    *writer,
                    head,
                    all.skip(head.len() as int),
                    res,
                );
            }
            return res;
        }
        i += 1;
    }
    proof {
        assert(items@.take(i as int) =~= items@);
    }
    Ok(())
}

impl Value {
    /// Writes the child element of the value: the nested record it holds.
    fn write_child(&self, writer: &mut TreeWriter) -> (res: Result<(), WriteError>)
        ensures
            old(writer).handed_all(*final(writer), self.child_events(), res),
        decreases self,
    {
        match self {
            Value::Record(node) => node.write_xml(writer),
            _ => {
                proof {
                    writer.lemma_wrote_nothing();
                }
                Ok(())
            },
        }
    }

    /// Writes one child element for each item of the value.
    fn write_each(&self, optional: bool, writer: &mut TreeWriter) -> (res: Result<
        (),
        WriteError,
    >)
        ensures
            old(writer).handed_all(*final(writer), self.each_events(optional), res),
        decreases self,
    {
        proof {
            writer.lemma_wrote_nothing();
        }
        match self {
            Value::Sequence(items) => if optional {
                Ok(())
            } else {
                write_children(items, writer)
            },
            Value::Present(inner) => match &**inner {
                Value::Sequence(items) => if optional {
                    write_children(items, writer)
                } else {
                    Ok(())
                },
                _ => Ok(()),
            },
            _ => Ok(()),
        }
    }
}

impl Node {
    /// Writes the body of the element.
    fn write_body(&self, writer: &mut TreeWriter) -> (res: Result<(), WriteError>)
        ensures
            old(writer).handed_all(*final(writer), self.body_events(), res),
        decreases self, 0int,
    {
        let ghost before = *writer;
        proof {
            before.lemma_wrote_nothing();
        }
        match &self.procedure.body {
            Body::Empty => Ok(()),
            Body::Text { index, optional, .. } => {
                if *index < self.values.len() {
                    match self.values[*index].read_text(*optional) {
                        Some(text) => {
                            let res = writer.characters(text);
                            proof {
                                before.lemma_handed_one(
                                    *writer,
                                    MarkupEvent::Characters(text@),
                                    res,
                                );
                            }
                            res
                        },
                        None => Ok(()),
                    }
                } else {
                    Ok(())
                }
            },
            Body::Each { index, optional, .. } => {
                if *index < self.values.len() {
                    self.values[*index].write_each(*optional, writer)
                } else {
                    Ok(())
                }
            },
            Body::Delegate { index, .. } => {
                if *index < self.values.len() {
                    self.values[*index].write_child(writer)
                } else {
                    Ok(())
                }
            },
        }
    }

    /// Writes the start tag, the body and the end tag, and stops at the
    /// first event that the writer refuses.
    fn write_element(&self, writer: &mut TreeWriter) -> (res: Result<(), WriteError>)
        ensures
            old(writer).handed_all(*final(writer), self.events(), res),
        decreases self, 1int,
    {
        let ghost before = *writer;
        let ghost start = seq![self.start_event()];
        let ghost body = self.body_events();
        let ghost end = seq![MarkupEvent::EndElement];
        let attributes = self.collect_attributes();
        let res = writer.start_element(&self.procedure.element_name, &attributes);
        proof {
            before.lemma_handed_one(*writer, self.start_event(), res);
        }
        if res.is_err() {
            proof {
                before.lemma_stopped_within_longer(*writer, start, body + end, res);
                assert(self.events() =~= start + (body + end));
            }
            return res;
        }
        let ghost started = *writer;
        let res = self.write_body(writer);
        proof {
            before.lemma_wrote_then(started, *writer, start, body, res);
        }
        if res.is_err() {
            proof {
                before.lemma_stopped_within_longer(*writer, start + body, end, res);
            }
            return res;
        }
        let ghost filled = *writer;
        let res = writer.end_element();
        proof {
            filled.lemma_handed_one(*writer, MarkupEvent::EndElement, res);
            before.lemma_wrote_then(filled, *writer, start + body, end, res);
        }
        res
    }

    /// Writes the record as one element: the start tag with its attributes,
    /// the body, the end tag.
    ///
    /// The events are handed to the writer one after the other, each as
    /// the writer was left by the one before. The writing ends well exactly
    /// when the writer takes every one of them. The first event that the
    /// writer refuses ends the writing: the failure returned is the
    /// writer's own for that event, and the writer is handed nothing after
    /// it.
    pub fn write_xml(&self, writer: &mut TreeWriter) -> (res: Result<(), WriteError>)
        ensures
            old(writer).handed_all(*final(writer), self.events(), res),
            res is Ok <==> takes_all(old(writer).writer(), self.events()),
        decreases self, 2int,
    {
        let ghost before = *writer;
        let res = self.write_element(writer);
        proof {
            before.lemma_well_exactly_when_all_taken(*writer, self.events(), res);
        }
        res
    }
}

} // verus!
