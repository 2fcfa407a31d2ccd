//! The field classifier: one pass over a record's fields, in declaration
//! order, that assigns each field its roles.

use crate::schema::FieldDecl;
use crate::shape::{classify_shape, Shape};
use vstd::prelude::*;

verus! {

/// The purpose a field serves in the markup.
#[derive(Debug, PartialEq, Eq)]
pub enum Role {
    /// An attribute of the element, under the given markup name.
    Attribute(String),
    /// The element's text.
    TextContent,
    /// The element's child elements.
    NestedContent,
    /// Nothing: the field bears neither marker and is left out of the
    /// markup. Classification makes no descriptor for such a field.
    Ignored,
}

/// A field in one of its roles.
#[derive(Debug, PartialEq, Eq)]
pub struct FieldDescriptor {
    /// The field's position in the declaration.
    pub index: usize,
    pub name: String,
    pub shape: Shape,
    /// The name under which the field appears in the markup: the name given
    /// to an attribute, the field's own name otherwise.
    pub markup_name: String,
    pub role: Role,
}

/// What classification found in a record: its attribute fields in
/// declaration order, and the field in each of the two content slots.
#[derive(Debug, PartialEq, Eq)]
pub struct ClassificationResult {
    pub attributes: Vec<FieldDescriptor>,
    pub text_field: Option<FieldDescriptor>,
    pub nested_field: Option<FieldDescriptor>,
}

/// Why no emitter can be derived from a declaration.
#[derive(Clone, Copy, Debug, PartialEq, Eq, Structural)]
pub enum GenerationError {
    /// The declared item is not a record.
    NotARecord,
    /// A field of the record has no name.
    UnnamedField,
}

impl GenerationError {
    /// The text of the failure.
    pub open spec fn text(self) -> Seq<char> {
        match self {
            GenerationError::NotARecord => "ToTwiML can only be derived for structs"@,
            GenerationError::UnnamedField => "Fields must be named"@,
        }
    }

    /// The failure in words.
    pub fn message(&self) -> (text: String)
        ensures
            text@ == self.text(),
    {
        match self {
            GenerationError::NotARecord => "ToTwiML can only be derived for structs".to_owned(),
            GenerationError::UnnamedField => "Fields must be named".to_owned(),
        }
    }
}

impl FieldDecl {
    /// The role that the field's markers and shape give it in the content
    /// slots, and `Ignored` where it is not marked as content.
    pub open spec fn content_role(self) -> Role {
        if self.bears_text() {
            Role::TextContent
        } else if self.bears_nested() {
            Role::NestedContent
        } else {
            Role::Ignored
        }
    }

    /// The field is marked as content and its shape makes it text.
    pub open spec fn bears_text(self) -> bool {
        self.content_marked() && !self.ty.shape().bears_nested()
    }

    /// The field is marked as content and its shape makes it nested content.
    pub open spec fn bears_nested(self) -> bool {
        self.content_marked() && self.ty.shape().bears_nested()
    }

    /// The field bears no role at all.
    pub open spec fn ignored(self) -> bool {
        self.attribute_name() is None && !self.content_marked()
    }

    /// The field, at position `index`, as an attribute.
    pub open spec fn as_attribute(self, index: int) -> FieldDescriptor {
        FieldDescriptor {
            index: index as usize,
            name: self.name->Some_0,
            shape: self.ty.shape(),
            markup_name: self.attribute_name()->Some_0,
            role: Role::Attribute(self.attribute_name()->Some_0),
        }
    }

    /// The field, at position `index`, as the text content.
    pub open spec fn as_text(self, index: int) -> FieldDescriptor {
        FieldDescriptor {
            index: index as usize,
            name: self.name->Some_0,
            shape: self.ty.shape(),
            markup_name: self.name->Some_0,
            role: Role::TextContent,
        }
    }

    /// The field, at position `index`, as the nested content.
    pub open spec fn as_nested(self, index: int) -> FieldDescriptor {
        FieldDescriptor {
            index: index as usize,
            name: self.name->Some_0,
            shape: self.ty.shape(),
            markup_name: self.name->Some_0,
            role: Role::NestedContent,
        }
    }
}

/// Every field has a name.
pub open spec fn all_named(fields: Seq<FieldDecl>) -> bool {
    forall|i: int| 0 <= i < fields.len() ==> (#[trigger] fields[i]).name is Some
}

/// The attribute fields among the first `n` fields, in declaration order.
pub open spec fn attributes_upto(fields: Seq<FieldDecl>, n: nat) -> Seq<FieldDescriptor>
    decreases n,
{
    if n == 0 {
        Seq::empty()
    } else {
        let before = attributes_upto(fields, (n - 1) as nat);
        if fields[n - 1].attribute_name() is Some {
            before.push(fields[n - 1].as_attribute(n - 1))
        } else {
            before
        }
    }
}

/// The last of the first `n` fields that bears text.
pub open spec fn text_upto(fields: Seq<FieldDecl>, n: nat) -> Option<FieldDescriptor>
    decreases n,
{
    if n == 0 {
        None
    } else if fields[n - 1].bears_text() {
        Some(fields[n - 1].as_text(n - 1))
    } else {
        text_upto(fields, (n - 1) as nat)
    }
}

/// The last of the first `n` fields that bears nested content.
pub open spec fn nested_upto(fields: Seq<FieldDecl>, n: nat) -> Option<FieldDescriptor>
    decreases n,
{
    if n == 0 {
        None
    } else if fields[n - 1].bears_nested() {
        Some(fields[n - 1].as_nested(n - 1))
    } else {
        nested_upto(fields, (n - 1) as nat)
    }
}

impl ClassificationResult {
    /// The result is the classification of `fields`.
    pub open spec fn classifies(self, fields: Seq<FieldDecl>) -> bool {
        &&& self.attributes@ == attributes_upto(fields, fields.len())
        &&& self.text_field == text_upto(fields, fields.len())
        &&& self.nested_field == nested_upto(fields, fields.len())
    }
}

impl FieldDecl {
    /// Whether the field bears no role at all.
    pub fn is_ignored(&self) -> (r: bool)
        ensures
            r == self.ignored(),
    {
        !self.has_content_marker() && self.read_attribute_name().is_none()
    }
}

/// Classifies the fields of a record, in declaration order.
///
/// A field with an `attribute` option is listed among the attributes, once,
/// under the last name given to it. A field with the `content` marker takes
/// the nested slot if its shape is a sequence, an optional sequence or a
/// nested record, and the text slot otherwise; in each slot the last field
/// marked wins. A field may be an attribute and bear content at once. The
/// classification fails only when a field has no name.
pub fn classify(fields: &Vec<FieldDecl>) -> (res: Result<ClassificationResult, GenerationError>)
    ensures
        all_named(fields@) ==> res is Ok && res->Ok_0.classifies(fields@),
        !all_named(fields@) ==> res == Err::<ClassificationResult, GenerationError>(
            GenerationError::UnnamedField,
        ),
{
    let mut attributes: Vec<FieldDescriptor> = Vec::new();
    let mut text_field: Option<FieldDescriptor> = None;
    let mut nested_field: Option<FieldDescriptor> = None;
    let mut i: usize = 0;
    while i < fields.len()
        invariant
            i <= fields.len(),
            forall|j: int| 0 <= j < i ==> (#[trigger] fields@[j]).name is Some,
            attributes@ == attributes_upto(fields@, i as nat),
            text_field == text_upto(fields@, i as nat),
            nested_field == nested_upto(fields@, i as nat),
        decreases fields.len() - i,
    {
        let field = &fields[i];
        let name = match &field.name {
            Some(name) => name,
            None => {
                return Err(GenerationError::UnnamedField);
            },
        };
        if field.has_content_marker() {
            let shape = classify_shape(&field.ty);
            if shape.is_nested_eligible() {
                nested_field = Some(
                    FieldDescriptor {
                        index: i,
                        name: name.clone(),
                        shape,
                        markup_name: name.clone(),
                        role: Role::NestedContent,
                    },
                );
            } else {
                text_field = Some(
                    FieldDescriptor {
                        index: i,
                        name: name.clone(),
                        shape,
                        markup_name: name.clone(),
                        role: Role::TextContent,
                    },
                );
            }
        }
        match field.read_attribute_name() {
            Some(markup_name) => {
                attributes.push(
                    FieldDescriptor {
                        index: i,
                        name: name.clone(),
                        shape: classify_shape(&field.ty),
                        markup_name: markup_name.clone(),
                        role: Role::Attribute(markup_name),
                    },
                );
            },
            None => {},
        }
        i += 1;
    }
    Ok(ClassificationResult { attributes, text_field, nested_field })
}

} // verus!
