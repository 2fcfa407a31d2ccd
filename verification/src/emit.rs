//! The serializer emitter: from a classification to the procedure that
//! writes an instance of the record as one element.

use crate::classify::{
    all_named, attributes_upto, classify, nested_upto, text_upto, ClassificationResult,
    FieldDescriptor, GenerationError,
};
use crate::schema::{ItemDecl, ItemKind};
use vstd::prelude::*;

verus! {

/// One attribute of the start tag: where its value is read and under which
/// name it is written.
#[derive(Debug, PartialEq, Eq)]
pub struct AttributeStep {
    /// The position of the field that holds the value.
    pub index: usize,
    /// The name of that field.
    pub field: String,
    pub markup_name: String,
    /// The value is optional, and the attribute is left out when it is
    /// absent.
    pub optional: bool,
}

/// What is written between the start tag and the end tag.
#[derive(Debug, PartialEq, Eq)]
pub enum Body {
    /// Nothing.
    Empty,
    /// The text of one field; where `optional`, only when it is present.
    Text { index: usize, field: String, optional: bool },
    /// One child element for each item of a sequence; where `optional`, none
    /// when the sequence is absent.
    Each { index: usize, field: String, optional: bool },
    /// The one child element that a nested record writes.
    Delegate { index: usize, field: String },
}

/// The procedure that writes a record: the element's name, the attributes
/// of its start tag in order, and its body.
#[derive(Debug, PartialEq, Eq)]
pub struct Procedure {
    pub element_name: String,
    pub attributes: Vec<AttributeStep>,
    pub body: Body,
}

impl FieldDescriptor {
    /// The step that writes the field as an attribute. The attribute is
    /// conditional exactly when the field is an optional scalar.
    pub open spec fn attribute_step(self) -> AttributeStep {
        AttributeStep {
            index: self.index,
            field: self.name,
            markup_name: self.markup_name,
            optional: self.shape.optional_scalar(),
        }
    }

    /// The body that writes the field as text. The text is conditional
    /// exactly when the field is an optional scalar.
    pub open spec fn text_body(self) -> Body {
        Body::Text { index: self.index, field: self.name, optional: self.shape.optional_scalar() }
    }

    /// The body that writes the field as nested content: item by item for a
    /// sequence or an optional sequence, by one delegation otherwise.
    pub open spec fn nested_body(self) -> Body {
        if self.shape.sequence() || self.shape.optional_sequence() {
            Body::Each {
                index: self.index,
                field: self.name,
                optional: self.shape.optional_sequence(),
            }
        } else {
            Body::Delegate { index: self.index, field: self.name }
        }
    }
}

/// The steps that write the given attribute fields, in order.
pub open spec fn steps_of(attributes: Seq<FieldDescriptor>) -> Seq<AttributeStep> {
    attributes.map_values(|d: FieldDescriptor| d.attribute_step())
}

/// The body of an element with the given content slots: the text field's
/// where there is one, else the nested field's where there is one, else
/// nothing.
pub open spec fn body_of(text: Option<FieldDescriptor>, nested: Option<FieldDescriptor>) -> Body {
    match text {
        Some(text) => text.text_body(),
        None => match nested {
            Some(nested) => nested.nested_body(),
            None => Body::Empty,
        },
    }
}

impl ClassificationResult {
    /// The steps that write the attributes, in order.
    pub open spec fn attribute_steps(self) -> Seq<AttributeStep> {
        steps_of(self.attributes@)
    }

    /// The body of the element.
    pub open spec fn body(self) -> Body {
        body_of(self.text_field, self.nested_field)
    }
}

impl Procedure {
    /// The procedure is the one emitted for a record named `name` with the
    /// classification `classification`.
    pub open spec fn emitted_from(self, classification: ClassificationResult, name: String) -> bool {
        &&& self.element_name == name
        &&& self.attributes@ == classification.attribute_steps()
        &&& self.body == classification.body()
    }
}

/// The procedure for a record named `name` whose fields are classified as
/// `classification`.
pub fn emit(classification: &ClassificationResult, name: &String) -> (procedure: Procedure)
    ensures
        procedure.emitted_from(*classification, *name),
{
    let mut attributes: Vec<AttributeStep> = Vec::new();
    let mut i: usize = 0;
    while i < classification.attributes.len()
        invariant
            i <= classification.attributes.len(),
            attributes@ == classification.attribute_steps().take(i as int),
        decreases classification.attributes.len() - i,
    {
        let descriptor = &classification.attributes[i];
        attributes.push(
            AttributeStep {
                index: descriptor.index,
                field: descriptor.name.clone(),
                markup_name: descriptor.markup_name.clone(),
                optional: descriptor.shape.is_optional_scalar(),
            },
        );
        proof {
            assert(attributes@ =~= classification.attribute_steps().take(i + 1));
        }
        i += 1;
    }
    proof {
        assert(attributes@ =~= classification.attribute_steps());
    }
    let body = match &classification.text_field {
        Some(text) => Body::Text {
            index: text.index,
            field: text.name.clone(),
            optional: text.shape.is_optional_scalar(),
        },
        None => match &classification.nested_field {
            Some(nested) => {
                let optional = nested.shape.is_optional_sequence();
                if optional || nested.shape.is_sequence() {
                    Body::Each { index: nested.index, field: nested.name.clone(), optional }
                } else {
                    Body::Delegate { index: nested.index, field: nested.name.clone() }
                }
            },
            None => Body::Empty,
        },
    };
    Procedure { element_name: name.clone(), attributes, body }
}

/// The item is one from which an emitter can be derived: a record whose
/// fields all have names.
pub open spec fn derivable(item: ItemDecl) -> bool {
    item.kind == ItemKind::Struct && all_named(item.fields@)
}

impl Procedure {
    /// The procedure is the one derived from the record `item`: named after
    /// it, with one attribute step for each of its attribute fields in
    /// declaration order, and the body of its content slots.
    pub open spec fn derived_from(self, item: ItemDecl) -> bool {
        let fields = item.fields@;
        &&& self.element_name == item.name
        &&& self.attributes@ == steps_of(attributes_upto(fields, fields.len()))
        &&& self.body == body_of(text_upto(fields, fields.len()), nested_upto(fields, fields.len()))
    }
}

/// Derives the emission procedure of a declared item.
///
/// The item must be a record, and each of its fields must have a name; the
/// first of these that fails is reported.
pub fn to_twiml_derive(item: &ItemDecl) -> (res: Result<Procedure, GenerationError>)
    ensures
        derivable(*item) ==> res is Ok && res->Ok_0.derived_from(*item),
        item.kind != ItemKind::Struct ==> res == Err::<Procedure, GenerationError>(
            GenerationError::NotARecord,
        ),
        item.kind == ItemKind::Struct && !all_named(item.fields@) ==> res == Err::<
            Procedure,
            GenerationError,
        >(GenerationError::UnnamedField),
{
    match item.kind {
        ItemKind::Struct => {},
        _ => {
            return Err(GenerationError::NotARecord);
        },
    }
    match classify(&item.fields) {
        Ok(classification) => Ok(emit(&classification, &item.name)),
        Err(error) => Err(error),
    }
}

} // verus!
