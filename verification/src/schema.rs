//! The declaration of a record type, as derivation reads it: the item, its
//! fields in declaration order, and the annotations on each field.

use crate::shape::TypeExpr;
use crate::text::same_text;
use vstd::prelude::*;

verus! {

/// The value given to a named option of an annotation.
#[derive(Debug, PartialEq, Eq)]
pub enum OptionValue {
    /// A string literal.
    Text(String),
    /// A literal of any other kind.
    Other,
}

/// One entry of an annotation's list.
#[derive(Debug, PartialEq, Eq)]
pub enum MetaOption {
    /// `key = value`.
    NameValue { key: String, value: OptionValue },
    /// A bare `key`.
    Flag { key: String },
    /// Anything else: a literal, or a list inside the list.
    Other,
}

/// The form of an annotation's content.
#[derive(Debug, PartialEq, Eq)]
pub enum MetaForm {
    /// A parenthesised list of options.
    List(Vec<MetaOption>),
    /// A bare path, a single `name = value`, or content that is no
    /// well-formed annotation.
    Other,
}

/// An annotation on a field: its path, written out, and its content.
#[derive(Debug, PartialEq, Eq)]
pub struct Annotation {
    pub path: String,
    pub form: MetaForm,
}

/// A field of the declared item.
#[derive(Debug, PartialEq, Eq)]
pub struct FieldDecl {
    /// The field's name; `None` for a positional field.
    pub name: Option<String>,
    pub ty: TypeExpr,
    pub annotations: Vec<Annotation>,
}

/// The kind of the declared item.
#[derive(Clone, Copy, Debug, PartialEq, Eq, Structural)]
pub enum ItemKind {
    Struct,
    Enum,
    Union,
}

/// The declared item.
#[derive(Debug, PartialEq, Eq)]
pub struct ItemDecl {
    pub name: String,
    pub kind: ItemKind,
    pub fields: Vec<FieldDecl>,
}

impl MetaOption {
    /// The markup name that the option gives, if it is `attribute` with a
    /// string value.
    pub open spec fn attribute_text(self) -> Option<String> {
        match self {
            MetaOption::NameValue { key, value: OptionValue::Text(text) } => if key@
                == "attribute"@ {
                Some(text)
            } else {
                None
            },
            _ => None,
        }
    }

    /// The option is the bare marker `content`.
    pub open spec fn marks_content(self) -> bool {
        match self {
            MetaOption::Flag { key } => key@ == "content"@,
            _ => false,
        }
    }
}

/// The markup name given by the last option of `items` that gives one.
pub open spec fn last_attribute_in(items: Seq<MetaOption>) -> Option<String>
    decreases items.len(),
{
    if items.len() == 0 {
        None
    } else {
        match items.last().attribute_text() {
            Some(text) => Some(text),
            None => last_attribute_in(items.drop_last()),
        }
    }
}

/// Some option of `items` is the marker `content`.
pub open spec fn content_marked_in(items: Seq<MetaOption>) -> bool {
    exists|k: int| 0 <= k < items.len() && (#[trigger] items[k]).marks_content()
}

impl Annotation {
    /// The options that derivation reads from the annotation: those of its
    /// list where its path is `xml` and its content is a list, none
    /// otherwise.
    pub open spec fn options(self) -> Seq<MetaOption> {
        match self.form {
            MetaForm::List(items) => if self.path@ == "xml"@ {
                items@
            } else {
                Seq::empty()
            },
            MetaForm::Other => Seq::empty(),
        }
    }
}

/// The markup name given by the last option, over the first `n`
/// annotations, that gives one.
pub open spec fn attribute_name_upto(annotations: Seq<Annotation>, n: nat) -> Option<String>
    decreases n,
{
    if n == 0 {
        None
    } else {
        match last_attribute_in(annotations[n - 1].options()) {
            Some(text) => Some(text),
            None => attribute_name_upto(annotations, (n - 1) as nat),
        }
    }
}

impl FieldDecl {
    /// The markup name under which the field is an attribute, if it is one.
    pub open spec fn attribute_name(self) -> Option<String> {
        attribute_name_upto(self.annotations@, self.annotations@.len())
    }

    /// The field is marked as bearing the content.
    pub open spec fn content_marked(self) -> bool {
        exists|a: int|
            0 <= a < self.annotations@.len() && content_marked_in(
                (#[trigger] self.annotations@[a]).options(),
            )
    }
}

/// The markup name given by the last option of `items` that gives one.
fn scan_attribute(items: &Vec<MetaOption>) -> (found: Option<String>)
    ensures
        found == last_attribute_in(items@),
{
    let mut found: Option<String> = None;
    let mut k: usize = 0;
    while k < items.len()
        invariant
            k <= items.len(),
            found == last_attribute_in(items@.take(k as int)),
        decreases items.len() - k,
    {
        proof {
            assert(items@.take(k + 1).drop_last() =~= items@.take(k as int));
        }
        match &items[k] {
            MetaOption::NameValue { key, value: OptionValue::Text(text) } => {
                if same_text(key, "attribute") {
                    found = Some(text.clone());
                }
            },
            _ => {},
        }
        k += 1;
    }
    proof {
        assert(items@.take(k as int) =~= items@);
    }
    found
}

/// Whether some option of `items` is the marker `content`.
fn scan_content(items: &Vec<MetaOption>) -> (marked: bool)
    ensures
        marked == content_marked_in(items@),
{
    let mut k: usize = 0;
    while k < items.len()
        invariant
            k <= items.len(),
            forall|j: int| 0 <= j < k ==> !(#[trigger] items@[j]).marks_content(),
        decreases items.len() - k,
    {
        match &items[k] {
            MetaOption::Flag { key } => {
                if same_text(key, "content") {
                    return true;
                }
            },
            _ => {},
        }
        k += 1;
    }
    false
}

impl FieldDecl {
    /// The markup name under which the field is an attribute, if it is one.
    pub fn read_attribute_name(&self) -> (found: Option<String>)
        ensures
            found == self.attribute_name(),
    {
        let mut found: Option<String> = None;
        let mut a: usize = 0;
        while a < self.annotations.len()
            invariant
                a <= self.annotations.len(),
                found == attribute_name_upto(self.annotations@, a as nat),
            decreases self.annotations.len() - a,
        {
            let annotation = &self.annotations[a];
            if same_text(&annotation.path, "xml") {
                match &annotation.form {
                    MetaForm::List(items) => {
                        match scan_attribute(items) {
                            Some(text) => {
                                found = Some(text);
                            },
                            None => {},
                        }
                    },
                    MetaForm::Other => {},
                }
            }
            a += 1;
        }
        found
    }

    /// Whether the field is marked as bearing the content.
    pub fn has_content_marker(&self) -> (marked: bool)
        ensures
            marked == self.content_marked(),
    {
        let mut a: usize = 0;
        while a < self.annotations.len()
            invariant
                a <= self.annotations.len(),
                forall|j: int|
                    0 <= j < a ==> !content_marked_in((#[trigger] self.annotations@[j]).options()),
            decreases self.annotations.len() - a,
        {
            let annotation = &self.annotations[a];
            if same_text(&annotation.path, "xml") {
                match &annotation.form {
                    MetaForm::List(items) => {
                        if scan_content(items) {
                            return true;
                        }
                    },
                    MetaForm::Other => {},
                }
            }
            a += 1;
        }
        false
    }
}

} // verus!
