//! The shape inspector: from a field's declared type to its structural shape.

use crate::text::same_text;
use vstd::prelude::*;

verus! {

/// A declared type, reduced to what shape inspection reads of it.
///
/// `Path` is a named type: `name` is the identifier of the last segment of
/// its path, and `first_arg` is the first of its angle-bracketed arguments,
/// if it has any. Everything that is not a named type (a reference, a tuple,
/// an array, a lifetime standing as an argument) is `Other`.
#[derive(Debug, PartialEq, Eq)]
pub enum TypeExpr {
    Path { name: String, first_arg: Option<Box<TypeExpr>> },
    Other,
}

/// The structural classification of a declared type.
#[derive(Debug, PartialEq, Eq)]
pub enum Shape {
    Scalar,
    Optional(Box<Shape>),
    Sequence(Box<Shape>),
    NestedRecord,
}

/// Whether `name` is the name of the optional container.
pub open spec fn names_optional(name: Seq<char>) -> bool {
    name == "Option"@
}

/// Whether `name` is the name of the sequence container.
pub open spec fn names_sequence(name: Seq<char>) -> bool {
    name == "Vec"@
}

/// Whether `name` is one of the known scalar names.
pub open spec fn names_scalar(name: Seq<char>) -> bool {
    name == "String"@ || name == "i32"@ || name == "bool"@
}

impl TypeExpr {
    /// The type is the optional container, whatever it contains.
    pub open spec fn optional(self) -> bool {
        match self {
            TypeExpr::Path { name, .. } => names_optional(name@),
            TypeExpr::Other => false,
        }
    }

    /// The type is the sequence container, whatever it contains.
    pub open spec fn sequence(self) -> bool {
        match self {
            TypeExpr::Path { name, .. } => names_sequence(name@),
            TypeExpr::Other => false,
        }
    }

    /// The type is repeatable: a sequence, or an optional whose first
    /// argument is a sequence.
    pub open spec fn repeatable(self) -> bool {
        match self {
            TypeExpr::Path { name, first_arg } => names_sequence(name@) || (names_optional(name@)
                && first_arg is Some && first_arg->Some_0.sequence()),
            TypeExpr::Other => false,
        }
    }

    /// The type is taken for a record of its own: it is not a named type, or
    /// its name is none of the known scalar and container names.
    pub open spec fn custom(self) -> bool {
        match self {
            TypeExpr::Path { name, .. } => !names_scalar(name@) && !names_optional(name@)
                && !names_sequence(name@),
            TypeExpr::Other => true,
        }
    }

    /// The shape of the type. A container without a first argument has the
    /// shape of a container of something that is not a named type.
    pub open spec fn shape(self) -> Shape
        decreases self,
    {
        match self {
            TypeExpr::Path { name, first_arg } => {
                if names_optional(name@) {
                    Shape::Optional(Box::new(Self::argument_shape(first_arg)))
                } else if names_sequence(name@) {
                    Shape::Sequence(Box::new(Self::argument_shape(first_arg)))
                } else if names_scalar(name@) {
                    Shape::Scalar
                } else {
                    Shape::NestedRecord
                }
            },
            TypeExpr::Other => Shape::NestedRecord,
        }
    }

    /// The shape of a container's first argument.
    pub open spec fn argument_shape(arg: Option<Box<TypeExpr>>) -> Shape
        decreases arg,
    {
        match arg {
            Some(inner) => inner.shape(),
            None => Shape::NestedRecord,
        }
    }
}

/// Whether the declared type is the optional container.
pub fn is_optional(ty: &TypeExpr) -> (r: bool)
    ensures
        r == ty.optional(),
{
    match ty {
        TypeExpr::Path { name, .. } => same_text(name, "Option"),
        TypeExpr::Other => false,
    }
}

/// Whether the declared type is a sequence, or an optional whose first
/// argument is a sequence.
pub fn is_vec_or_option_vec(ty: &TypeExpr) -> (r: bool)
    ensures
        r == ty.repeatable(),
{
    match ty {
        TypeExpr::Path { name, first_arg } => {
            if same_text(name, "Vec") {
                true
            } else if same_text(name, "Option") {
                match first_arg {
                    Some(inner) => match &**inner {
                        TypeExpr::Path { name: inner_name, .. } => same_text(inner_name, "Vec"),
                        TypeExpr::Other => false,
                    },
                    None => false,
                }
            } else {
                false
            }
        },
        TypeExpr::Other => false,
    }
}

/// Whether the declared type is taken for a record of its own.
pub fn is_custom_type(ty: &TypeExpr) -> (r: bool)
    ensures
        r == ty.custom(),
{
    match ty {
        TypeExpr::Path { name, .. } => !(same_text(name, "String") || same_text(name, "i32")
            || same_text(name, "bool") || same_text(name, "Option") || same_text(name, "Vec")),
        TypeExpr::Other => true,
    }
}

/// The shape of a declared type.
pub fn classify_shape(ty: &TypeExpr) -> (shape: Shape)
    ensures
        shape == ty.shape(),
    decreases *ty,
{
    match ty {
        TypeExpr::Path { name, first_arg } => {
            if same_text(name, "Option") {
                Shape::Optional(Box::new(argument_shape(first_arg)))
            } else if same_text(name, "Vec") {
                Shape::Sequence(Box::new(argument_shape(first_arg)))
            } else if same_text(name, "String") || same_text(name, "i32") || same_text(
                name,
                "bool",
            ) {
                Shape::Scalar
            } else {
                Shape::NestedRecord
            }
        },
        TypeExpr::Other => Shape::NestedRecord,
    }
}

/// The shape of a container's first argument.
fn argument_shape(arg: &Option<Box<TypeExpr>>) -> (shape: Shape)
    ensures
        shape == TypeExpr::argument_shape(*arg),
    decreases *arg,
{
    match arg {
        Some(inner) => classify_shape(inner),
        None => Shape::NestedRecord,
    }
}

impl Shape {
    /// The shape is an optional scalar.
    pub open spec fn optional_scalar(self) -> bool {
        self matches Shape::Optional(inner) && *inner is Scalar
    }

    /// The shape is a sequence.
    pub open spec fn sequence(self) -> bool {
        self is Sequence
    }

    /// The shape is an optional sequence.
    pub open spec fn optional_sequence(self) -> bool {
        self matches Shape::Optional(inner) && *inner is Sequence
    }

    /// The shape can bear nested content: a sequence, an optional sequence,
    /// or a nested record.
    pub open spec fn bears_nested(self) -> bool {
        self.sequence() || self.optional_sequence() || self is NestedRecord
    }

    /// Whether the shape is an optional scalar.
    pub fn is_optional_scalar(&self) -> (r: bool)
        ensures
            r == self.optional_scalar(),
    {
        match self {
            Shape::Optional(inner) => match &**inner {
                Shape::Scalar => true,
                _ => false,
            },
            _ => false,
        }
    }

    /// Whether the shape is a sequence.
    pub fn is_sequence(&self) -> (r: bool)
        ensures
            r == self.sequence(),
    {
        match self {
            Shape::Sequence(_) => true,
            _ => false,
        }
    }

    /// Whether the shape is an optional sequence.
    pub fn is_optional_sequence(&self) -> (r: bool)
        ensures
            r == self.optional_sequence(),
    {
        match self {
            Shape::Optional(inner) => match &**inner {
                Shape::Sequence(_) => true,
                _ => false,
            },
            _ => false,
        }
    }

    /// Whether the shape can bear nested content.
    pub fn is_nested_eligible(&self) -> (r: bool)
        ensures
            r == self.bears_nested(),
    {
        match self {
            Shape::NestedRecord => true,
            _ => self.is_sequence() || self.is_optional_sequence(),
        }
    }

    /// A copy of the shape.
    pub fn duplicate(&self) -> (copy: Shape)
        ensures
            copy == *self,
        decreases *self,
    {
        match self {
            Shape::Scalar => Shape::Scalar,
            Shape::Optional(inner) => Shape::Optional(Box::new(inner.duplicate())),
            Shape::Sequence(inner) => Shape::Sequence(Box::new(inner.duplicate())),
            Shape::NestedRecord => Shape::NestedRecord,
        }
    }
}

/// The container names differ from each other and from the scalar names.
pub proof fn lemma_names_distinct()
    ensures
        !names_sequence("Option"@),
        !names_scalar("Option"@),
        !names_scalar("Vec"@),
{
    reveal_strlit("Option");
    reveal_strlit("Vec");
    reveal_strlit("String");
    reveal_strlit("i32");
    reveal_strlit("bool");
    assert("Option"@.len() == 6);
    assert("Vec"@.len() == 3);
    assert("String"@.len() == 6);
    assert("i32"@.len() == 3);
    assert("bool"@.len() == 4);
    assert("Option"@[0] == 'O');
    assert("String"@[0] == 'S');
    assert("Vec"@[0] == 'V');
    assert("i32"@[0] == 'i');
}

/// The shape of a type is a sequence exactly when the type is the sequence
/// container.
pub proof fn lemma_sequence_shape(ty: TypeExpr)
    ensures
        ty.shape().sequence() <==> ty.sequence(),
{
    lemma_names_distinct();
}

/// The shape of a type and the three tests on the type agree: the shape is
/// optional exactly when the type is the optional container, it is
/// repeatable exactly when the type is, and it bears nested content exactly
/// when the type is repeatable or taken for a record of its own.
pub proof fn lemma_shape_agrees_with_tests(ty: TypeExpr)
    ensures
        ty.shape() is Optional <==> ty.optional(),
        ty.shape().sequence() || ty.shape().optional_sequence() <==> ty.repeatable(),
        ty.shape().bears_nested() <==> ty.repeatable() || ty.custom(),
        ty.shape() is NestedRecord <==> ty.custom(),
{
    lemma_names_distinct();
    match ty {
        TypeExpr::Path { name, first_arg } => {
            match first_arg {
                Some(inner) => {
                    lemma_sequence_shape(*inner);
                },
                None => {},
            }
        },
        TypeExpr::Other => {},
    }
}

} // verus!
