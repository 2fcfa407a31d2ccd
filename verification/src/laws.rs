//! What holds of every record and every instance: the laws that relate the
//! declaration of a record to the events written for its instances.

use crate::classify::{attributes_upto, nested_upto, text_upto};
use crate::emit::{derivable, steps_of, Body};
use crate::schema::{FieldDecl, ItemDecl};
use crate::value::{attribute_pairs, children_events, MarkupEvent, Node, Value};
use crate::writer::{lemma_takes_each, TreeWriter, WriteError};
use vstd::prelude::*;

verus! {

impl FieldDecl {
    /// The value is present for the field: it is not the absent value of an
    /// optional scalar.
    pub open spec fn value_present(self, value: Value) -> bool {
        !(self.ty.shape().optional_scalar() && value is Absent)
    }

    /// The value is one that the field, as an attribute, can render: a
    /// scalar, or for an optional scalar an absent or present one.
    pub open spec fn renders(self, value: Value) -> bool {
        value.holds_text(self.ty.shape().optional_scalar())
    }

    /// The attribute that the field writes for the value: its markup name
    /// and the value's text, where the field is an attribute and the value
    /// gives a text.
    pub open spec fn attribute_written(self, value: Value) -> Option<(Seq<char>, Seq<char>)> {
        match self.attribute_name() {
            Some(name) => match value.text(self.ty.shape().optional_scalar()) {
                Some(text) => Some((name@, text)),
                None => None,
            },
            None => None,
        }
    }
}

/// The attributes that the first `n` fields write for their values, field
/// by field in declaration order.
pub open spec fn declared_pairs(fields: Seq<FieldDecl>, values: Seq<Value>, n: nat) -> Seq<
    (Seq<char>, Seq<char>),
>
    decreases n,
{
    if n == 0 {
        Seq::empty()
    } else {
        let before = declared_pairs(fields, values, (n - 1) as nat);
        if n - 1 < values.len() {
            match fields[n - 1].attribute_written(values[n - 1]) {
                Some(pair) => before.push(pair),
                None => before,
            }
        } else {
            before
        }
    }
}

/// The number of fields, among the first `n`, that are marked as attributes
/// and whose value is present.
pub open spec fn present_attributes(fields: Seq<FieldDecl>, values: Seq<Value>, n: nat) -> nat
    decreases n,
{
    if n == 0 {
        0
    } else {
        let before = present_attributes(fields, values, (n - 1) as nat);
        if fields[n - 1].attribute_name() is Some && fields[n - 1].value_present(values[n - 1]) {
            before + 1
        } else {
            before
        }
    }
}

/// Every attribute field among `fields` has a value that it can render.
pub open spec fn attributes_render(fields: Seq<FieldDecl>, values: Seq<Value>) -> bool {
    forall|i: int|
        0 <= i < fields.len() && (#[trigger] fields[i]).attribute_name() is Some ==> i
            < values.len() && fields[i].renders(values[i])
}

/// The attribute fields found by classification stand in declaration
/// order: each describes the field at its index, and the indices increase.
pub proof fn lemma_attributes_in_declaration_order(fields: Seq<FieldDecl>, n: nat)
    requires
        n <= fields.len() <= usize::MAX,
    ensures
        forall|k: int|
            0 <= k < attributes_upto(fields, n).len() ==> {
                let d = #[trigger] attributes_upto(fields, n)[k];
                &&& d.index < n
                &&& fields[d.index as int].attribute_name() is Some
                &&& d == fields[d.index as int].as_attribute(d.index as int)
            },
        forall|a: int, b: int|
            0 <= a < b < attributes_upto(fields, n).len() ==> attributes_upto(fields, n)[a].index
                < attributes_upto(fields, n)[b].index,
    decreases n,
{
    if n > 0 {
        lemma_attributes_in_declaration_order(fields, (n - 1) as nat);
    }
}

/// The attributes written by the steps of the first `n` fields are those
/// that the fields write, field by field in declaration order.
pub proof fn lemma_steps_write_declared_pairs(fields: Seq<FieldDecl>, values: Seq<Value>, n: nat)
    requires
        n <= fields.len() <= usize::MAX,
    ensures
        attribute_pairs(steps_of(attributes_upto(fields, n)), values) == declared_pairs(
            fields,
            values,
            n,
        ),
    decreases n,
{
    if n > 0 {
        let before = attributes_upto(fields, (n - 1) as nat);
        lemma_steps_write_declared_pairs(fields, values, (n - 1) as nat);
        if fields[n - 1].attribute_name() is Some {
            let d = fields[n - 1].as_attribute(n - 1);
            assert(steps_of(before.push(d)) =~= steps_of(before).push(d.attribute_step()));
            assert(steps_of(before).push(d.attribute_step()).drop_last() =~= steps_of(before));
        }
    } else {
        assert(steps_of(attributes_upto(fields, 0)) =~= Seq::empty());
    }
}

/// Where every attribute field has a value it can render, the attributes
/// written are as many as the attribute fields whose value is present.
pub proof fn lemma_declared_pairs_count(fields: Seq<FieldDecl>, values: Seq<Value>, n: nat)
    requires
        n <= fields.len(),
        attributes_render(fields, values),
    ensures
        declared_pairs(fields, values, n).len() == present_attributes(fields, values, n),
    decreases n,
{
    if n > 0 {
        lemma_declared_pairs_count(fields, values, (n - 1) as nat);
        if fields[n - 1].attribute_name() is Some {
            assert(fields[n - 1].renders(values[n - 1]));
        }
    }
}

/// The attributes of the start tag are written in the declaration order of
/// the attribute fields: they are the attributes that the record's fields
/// write for their values, field by field.
pub proof fn lemma_attribute_order(item: ItemDecl, node: Node)
    requires
        derivable(item),
        node.procedure.derived_from(item),
    ensures
        node.events()[0] == node.start_event(),
        node.start_event()->attributes == declared_pairs(
            item.fields@,
            node.values@,
            item.fields@.len(),
        ),
{
    assert(item.fields@.len() == item.fields.len());
    lemma_steps_write_declared_pairs(item.fields@, node.values@, item.fields@.len());
}

/// The start tag has as many attributes as the record has attribute fields
/// whose value is present: every one that is not optional, and every
/// optional one that is not absent.
pub proof fn lemma_attribute_count(item: ItemDecl, node: Node)
    requires
        derivable(item),
        node.procedure.derived_from(item),
        node.conforms(),
    ensures
        node.events()[0] == node.start_event(),
        node.start_event()->attributes.len() == present_attributes(
            item.fields@,
            node.values@,
            item.fields@.len(),
        ),
{
    lemma_attribute_order(item, node);
    lemma_conforming_attributes_render(item, node);
    lemma_declared_pairs_count(item.fields@, node.values@, item.fields@.len());
}

/// Every attribute field has a step of its own among the steps of the
/// first `n` fields.
pub proof fn lemma_attribute_field_has_step(fields: Seq<FieldDecl>, n: nat, i: int)
    requires
        0 <= i < n <= fields.len(),
        fields[i].attribute_name() is Some,
    ensures
        exists|k: int|
            0 <= k < attributes_upto(fields, n).len() && #[trigger] attributes_upto(fields, n)[k]
                == fields[i].as_attribute(i),
    decreases n,
{
    if i == n - 1 {
        let k = attributes_upto(fields, n).len() - 1;
        assert(attributes_upto(fields, n)[k] == fields[i].as_attribute(i));
    } else {
        lemma_attribute_field_has_step(fields, (n - 1) as nat, i);
        let k = choose|k: int|
            0 <= k < attributes_upto(fields, (n - 1) as nat).len() && #[trigger] attributes_upto(
                fields,
                (n - 1) as nat,
            )[k] == fields[i].as_attribute(i);
        assert(attributes_upto(fields, n)[k] == fields[i].as_attribute(i));
    }
}

/// An instance that conforms to the procedure derived from a record has,
/// for every attribute field, a value that the field can render.
pub proof fn lemma_conforming_attributes_render(item: ItemDecl, node: Node)
    requires
        derivable(item),
        node.procedure.derived_from(item),
        node.conforms(),
    ensures
        attributes_render(item.fields@, node.values@),
{
    let fields = item.fields@;
    assert(fields.len() == item.fields.len());
    assert forall|i: int| 0 <= i < fields.len() && (#[trigger] fields[i]).attribute_name() is Some
        implies i < node.values@.len() && fields[i].renders(node.values@[i]) by {
        lemma_attribute_field_has_step(fields, fields.len(), i);
        let k = choose|k: int|
            0 <= k < attributes_upto(fields, fields.len()).len() && #[trigger] attributes_upto(
                fields,
                fields.len(),
            )[k] == fields[i].as_attribute(i);
        assert(node.procedure.attributes@[k] == fields[i].as_attribute(i).attribute_step());
        assert(node.procedure.attributes@[k].readable(node.values@));
    }
}

/// The field in the text slot is the last field that bears text: it
/// describes the field at its index, and no later field bears text. The
/// slot is empty exactly when no field bears text.
pub proof fn lemma_last_text_field_wins(fields: Seq<FieldDecl>, n: nat)
    requires
        n <= fields.len() <= usize::MAX,
    ensures
        match text_upto(fields, n) {
            Some(d) => {
                &&& d.index < n
                &&& fields[d.index as int].bears_text()
                &&& d == fields[d.index as int].as_text(d.index as int)
                &&& d.role == fields[d.index as int].content_role()
                &&& forall|j: int| d.index < j < n ==> !(#[trigger] fields[j]).bears_text()
            },
            None => forall|j: int| 0 <= j < n ==> !(#[trigger] fields[j]).bears_text(),
        },
    decreases n,
{
    if n > 0 {
        lemma_last_text_field_wins(fields, (n - 1) as nat);
    }
}

/// The field in the nested slot is the last field that bears nested
/// content: it describes the field at its index, and no later field bears
/// nested content. The slot is empty exactly when no field bears nested
/// content.
pub proof fn lemma_last_nested_field_wins(fields: Seq<FieldDecl>, n: nat)
    requires
        n <= fields.len() <= usize::MAX,
    ensures
        match nested_upto(fields, n) {
            Some(d) => {
                &&& d.index < n
                &&& fields[d.index as int].bears_nested()
                &&& d == fields[d.index as int].as_nested(d.index as int)
                &&& d.role == fields[d.index as int].content_role()
                &&& forall|j: int| d.index < j < n ==> !(#[trigger] fields[j]).bears_nested()
            },
            None => forall|j: int| 0 <= j < n ==> !(#[trigger] fields[j]).bears_nested(),
        },
    decreases n,
{
    if n > 0 {
        lemma_last_nested_field_wins(fields, (n - 1) as nat);
    }
}

/// A field that bears neither marker is left out: no attribute describes
/// it, and neither content slot holds it.
pub proof fn lemma_ignored_field_is_left_out(fields: Seq<FieldDecl>, i: int)
    requires
        0 <= i < fields.len() <= usize::MAX,
        fields[i].ignored(),
    ensures
        forall|k: int|
            0 <= k < attributes_upto(fields, fields.len()).len() ==> (#[trigger] attributes_upto(
                fields,
                fields.len(),
            )[k]).index != i,
        text_upto(fields, fields.len()) matches Some(d) ==> d.index != i,
        nested_upto(fields, fields.len()) matches Some(d) ==> d.index != i,
{
    lemma_attributes_in_declaration_order(fields, fields.len());
    lemma_last_text_field_wins(fields, fields.len());
    lemma_last_nested_field_wins(fields, fields.len());
}

/// A record whose text field is an optional scalar writes, for an instance
/// in which that value is absent, the start and the end of the element and
/// nothing between them: no characters and no child element.
pub proof fn lemma_absent_text_writes_no_body(item: ItemDecl, node: Node)
    requires
        derivable(item),
        node.procedure.derived_from(item),
        text_upto(item.fields@, item.fields@.len()) matches Some(d) && d.shape.optional_scalar()
            && d.index < node.values@.len() && node.values@[d.index as int] is Absent,
    ensures
        node.events() == seq![node.start_event(), MarkupEvent::EndElement],
{
    assert(node.body_events() =~= Seq::empty());
    assert(node.events() =~= seq![node.start_event(), MarkupEvent::EndElement]);
}

/// A record whose nested field is an optional sequence writes, for an
/// instance in which that value is absent, no child element: nothing in
/// the body starts an element, and where the record has no text field the
/// start and the end of the element are all that is written.
pub proof fn lemma_absent_sequence_writes_no_children(item: ItemDecl, node: Node)
    requires
        derivable(item),
        node.procedure.derived_from(item),
        nested_upto(item.fields@, item.fields@.len()) matches Some(d)
            && d.shape.optional_sequence() && d.index < node.values@.len()
            && node.values@[d.index as int] is Absent,
    ensures
        forall|k: int|
            0 <= k < node.body_events().len() ==> !(#[trigger] node.body_events()[k]
                is StartElement),
        text_upto(item.fields@, item.fields@.len()) is None ==> node.events()
            == seq![node.start_event(), MarkupEvent::EndElement],
{
    if text_upto(item.fields@, item.fields@.len()) is None {
        assert(node.body_events() =~= Seq::empty());
        assert(node.events() =~= seq![node.start_event(), MarkupEvent::EndElement]);
    }
}

/// By how much an event changes the number of open elements.
pub open spec fn opens(event: MarkupEvent) -> int {
    match event {
        MarkupEvent::StartElement { .. } => 1,
        MarkupEvent::Characters(_) => 0,
        MarkupEvent::EndElement => -1,
    }
}

/// The number of elements that `events` leave open.
pub open spec fn depth(events: Seq<MarkupEvent>) -> int
    decreases events.len(),
{
    if events.len() == 0 {
        0
    } else {
        depth(events.drop_last()) + opens(events.last())
    }
}

/// The events close every element they open, and none that they have not
/// opened.
pub open spec fn balanced(events: Seq<MarkupEvent>) -> bool {
    &&& depth(events) == 0
    &&& forall|k: int| 0 <= k <= events.len() ==> depth(#[trigger] events.take(k)) >= 0
}

/// The events are those of one well-formed element: they begin with its
/// start, end with its end, and the element stays open in between.
pub open spec fn is_element(events: Seq<MarkupEvent>) -> bool {
    &&& events.len() >= 2
    &&& events.first() is StartElement
    &&& events.last() is EndElement
    &&& depth(events) == 0
    &&& forall|k: int| 0 < k < events.len() ==> depth(#[trigger] events.take(k)) > 0
}

/// The events of the child elements written for each of `items`.
pub open spec fn child_trees(items: Seq<Value>) -> Seq<Seq<MarkupEvent>> {
    items.map_values(|item: Value| item.child_events())
}

/// The depth after two runs of events is the sum of their depths.
pub proof fn lemma_depth_concat(a: Seq<MarkupEvent>, b: Seq<MarkupEvent>)
    ensures
        depth(a + b) == depth(a) + depth(b),
    decreases b.len(),
{
    if b.len() == 0 {
        assert(a + b =~= a);
    } else {
        lemma_depth_concat(a, b.drop_last());
        assert((a + b).drop_last() =~= a + b.drop_last());
    }
}

/// Two balanced runs of events, one after the other, are balanced.
pub proof fn lemma_balanced_concat(a: Seq<MarkupEvent>, b: Seq<MarkupEvent>)
    requires
        balanced(a),
        balanced(b),
    ensures
        balanced(a + b),
{
    lemma_depth_concat(a, b);
    assert forall|k: int| 0 <= k <= (a + b).len() implies depth(#[trigger] (a + b).take(k))
        >= 0 by {
        if k <= a.len() {
            assert((a + b).take(k) =~= a.take(k));
        } else {
            assert((a + b).take(k) =~= a + b.take(k - a.len()));
            lemma_depth_concat(a, b.take(k - a.len()));
        }
    }
}

/// A balanced run of events between a start and an end is one well-formed
/// element.
pub proof fn lemma_wrapped_is_element(start: MarkupEvent, body: Seq<MarkupEvent>)
    requires
        start is StartElement,
        balanced(body),
    ensures
        is_element(seq![start] + body + seq![MarkupEvent::EndElement]),
{
    let end = seq![MarkupEvent::EndElement];
    let all = seq![start] + body + end;
    assert(depth(seq![start]) == 1) by {
        reveal_with_fuel(depth, 2);
        assert(seq![start].drop_last() =~= Seq::empty());
    }
    assert(depth(end) == -1) by {
        reveal_with_fuel(depth, 2);
        assert(end.drop_last() =~= Seq::empty());
    }
    lemma_depth_concat(seq![start], body);
    lemma_depth_concat(seq![start] + body, end);
    assert forall|k: int| 0 < k < all.len() implies depth(#[trigger] all.take(k)) > 0 by {
        assert(all.take(k) =~= seq![start] + body.take(k - 1));
        lemma_depth_concat(seq![start], body.take(k - 1));
    }
}

/// One well-formed element is a balanced run of events.
pub proof fn lemma_element_is_balanced(events: Seq<MarkupEvent>)
    requires
        is_element(events),
    ensures
        balanced(events),
{
    assert forall|k: int| 0 <= k <= events.len() implies depth(#[trigger] events.take(k))
        >= 0 by {
        if k == events.len() {
            assert(events.take(k) =~= events);
        }
    }
}

/// The events written for a sequence of items are the events of the child
/// elements of the items, one after the other in sequence order.
pub proof fn lemma_children_are_concatenated(items: Seq<Value>)
    ensures
        children_events(items) == child_trees(items).flatten(),
    decreases items.len(),
{
    let trees = child_trees(items);
    trees.lemma_flatten_and_flatten_alt_are_equivalent();
    if items.len() > 0 {
        lemma_children_are_concatenated(items.drop_last());
        assert(child_trees(items.drop_last()) =~= trees.drop_last());
        trees.drop_last().lemma_flatten_and_flatten_alt_are_equivalent();
    }
}

/// The events of every instance are those of one well-formed element.
pub proof fn lemma_events_form_element(node: Node)
    ensures
        is_element(node.events()),
    decreases node, 1int,
{
    lemma_body_is_balanced(node);
    lemma_wrapped_is_element(node.start_event(), node.body_events());
}

/// The events of the body of every instance are balanced.
pub proof fn lemma_body_is_balanced(node: Node)
    ensures
        balanced(node.body_events()),
    decreases node, 0int,
{
    lemma_nothing_is_balanced();
    match node.procedure.body {
        Body::Empty => {},
        Body::Text { index, optional, .. } => {
            if index < node.values@.len() {
                match node.values@[index as int].text(optional) {
                    Some(text) => {
                        let events = seq![MarkupEvent::Characters(text)];
                        assert(events.drop_last() =~= Seq::empty());
                        assert forall|k: int| 0 <= k <= events.len() implies depth(
                            #[trigger] events.take(k),
                        ) >= 0 by {
                            if k == 1 {
                                assert(events.take(k) =~= events);
                            }
                        }
                    },
                    None => {},
                }
            }
        },
        Body::Each { index, optional, .. } => {
            if index < node.values@.len() {
                match node.values@[index as int] {
                    Value::Sequence(items) => {
                        lemma_children_are_balanced(items@);
                    },
                    Value::Present(inner) => match *inner {
                        Value::Sequence(items) => {
                            lemma_children_are_balanced(items@);
                        },
                        _ => {},
                    },
                    _ => {},
                }
            }
        },
        Body::Delegate { index, .. } => {
            if index < node.values@.len() {
                lemma_child_is_balanced(node.values@[index as int]);
            }
        },
    }
}

/// No events at all are balanced.
pub proof fn lemma_nothing_is_balanced()
    ensures
        balanced(Seq::<MarkupEvent>::empty()),
{
    assert forall|k: int| 0 <= k <= 0 implies depth(
        #[trigger] Seq::<MarkupEvent>::empty().take(k),
    ) >= 0 by {
        assert(Seq::<MarkupEvent>::empty().take(k) =~= Seq::empty());
    }
}

/// The events written for a value as a child are balanced; those of a
/// nested record are one well-formed element.
pub proof fn lemma_child_is_balanced(value: Value)
    ensures
        balanced(value.child_events()),
        value is Record ==> is_element(value.child_events()),
    decreases value,
{
    lemma_nothing_is_balanced();
    match value {
        Value::Record(node) => {
            lemma_events_form_element(node);
            lemma_element_is_balanced(node.events());
        },
        _ => {},
    }
}

/// The events written for a sequence of items are balanced.
pub proof fn lemma_children_are_balanced(items: Seq<Value>)
    ensures
        balanced(children_events(items)),
    decreases items,
{
    lemma_nothing_is_balanced();
    if items.len() > 0 {
        lemma_children_are_balanced(items.drop_last());
        lemma_child_is_balanced(items.last());
        lemma_balanced_concat(children_events(items.drop_last()), items.last().child_events());
    }
}

/// A record without a text field whose nested field is a sequence writes,
/// for an instance in which that sequence holds `n` nested records, `n`
/// child elements between the start and the end of its own: one for each
/// item, each well-formed by itself, in sequence order.
pub proof fn lemma_sequence_writes_one_child_per_item(
    item: ItemDecl,
    node: Node,
    items: Seq<Value>,
)
    requires
        derivable(item),
        node.procedure.derived_from(item),
        text_upto(item.fields@, item.fields@.len()) is None,
        nested_upto(item.fields@, item.fields@.len()) matches Some(d) && d.shape.sequence()
            && d.index < node.values@.len() && (node.values@[d.index as int] matches Value::Sequence(
            held,
        ) && held@ == items),
        forall|i: int| 0 <= i < items.len() ==> (#[trigger] items[i]) is Record,
    ensures
        child_trees(items).len() == items.len(),
        forall|i: int|
            0 <= i < items.len() ==> is_element(#[trigger] child_trees(items)[i])
                && child_trees(items)[i] == items[i]->Record_0.events(),
        node.body_events() == child_trees(items).flatten(),
        node.events() == seq![node.start_event()] + child_trees(items).flatten()
            + seq![MarkupEvent::EndElement],
{
    lemma_children_are_concatenated(items);
    assert forall|i: int| 0 <= i < items.len() implies is_element(#[trigger] child_trees(items)[i])
        && child_trees(items)[i] == items[i]->Record_0.events() by {
        lemma_child_is_balanced(items[i]);
    }
}

/// Writing is a function of the instance and the writer alone: two
/// writings of one instance, each begun with the writer in the same state,
/// end alike, both well or both at the same event, leave the writer in the
/// same state, and have it take the same events in the same order.
pub proof fn lemma_writing_twice_writes_the_same(
    node: Node,
    first_before: TreeWriter,
    first_after: TreeWriter,
    first_res: Result<(), WriteError>,
    second_before: TreeWriter,
    second_after: TreeWriter,
    second_res: Result<(), WriteError>,
)
    requires
        first_before.handed_all(first_after, node.events(), first_res),
        second_before.handed_all(second_after, node.events(), second_res),
        first_before.writer() == second_before.writer(),
    ensures
        first_res is Ok <==> second_res is Ok,
        first_after.writer() == second_after.writer(),
        first_after.accepted().skip(first_before.accepted().len() as int)
            == second_after.accepted().skip(second_before.accepted().len() as int),
        first_res is Ok ==> first_after.accepted().skip(first_before.accepted().len() as int)
            == node.events(),
{
    let events = node.events();
    let writer = first_before.writer();
    first_before.lemma_well_exactly_when_all_taken(first_after, events, first_res);
    second_before.lemma_well_exactly_when_all_taken(second_after, events, second_res);
    if first_res is Ok {
        assert(first_after.accepted().skip(first_before.accepted().len() as int) =~= events);
        assert(second_after.accepted().skip(second_before.accepted().len() as int) =~= events);
    } else {
        let i = choose|i: int| first_before.stopped(first_after, events, i, first_res->Err_0.cause);
        let j = choose|j: int|
            second_before.stopped(second_after, events, j, second_res->Err_0.cause);
        if i < j {
            lemma_takes_each(writer, events.take(j), i);
            assert(events.take(j).take(i) =~= events.take(i));
        }
        if j < i {
            lemma_takes_each(writer, events.take(i), j);
            assert(events.take(i).take(j) =~= events.take(j));
        }
        assert(i == j);
        assert(first_after.accepted().skip(first_before.accepted().len() as int)
            =~= events.take(i));
        assert(second_after.accepted().skip(second_before.accepted().len() as int)
            =~= events.take(j));
    }
}

} // verus!
