use twiml_derive::classify::{classify, ClassificationResult, FieldDescriptor, GenerationError, Role};
use twiml_derive::emit::{emit, to_twiml_derive, AttributeStep, Body, Procedure};
use twiml_derive::schema::{Annotation, FieldDecl, ItemDecl, ItemKind, MetaForm, MetaOption, OptionValue};
use twiml_derive::shape::{classify_shape, is_custom_type, is_optional, is_vec_or_option_vec, Shape, TypeExpr};
use twiml_derive::text::same_text;

fn ty(name: &str) -> TypeExpr {
    TypeExpr::Path { name: name.to_string(), first_arg: None }
}

fn ty_of(name: &str, arg: TypeExpr) -> TypeExpr {
    TypeExpr::Path { name: name.to_string(), first_arg: Some(Box::new(arg)) }
}

fn list(path: &str, options: Vec<MetaOption>) -> Annotation {
    Annotation { path: path.to_string(), form: MetaForm::List(options) }
}

fn flag(key: &str) -> MetaOption {
    MetaOption::Flag { key: key.to_string() }
}

fn text_option(key: &str, value: &str) -> MetaOption {
    MetaOption::NameValue { key: key.to_string(), value: OptionValue::Text(value.to_string()) }
}

fn decl(name: &str, ty: TypeExpr, annotations: Vec<Annotation>) -> FieldDecl {
    FieldDecl { name: Some(name.to_string()), ty, annotations }
}

fn attribute_field(name: &str, ty: TypeExpr, markup: &str) -> FieldDecl {
    decl(name, ty, vec![list("xml", vec![text_option("attribute", markup)])])
}

fn content_field(name: &str, ty: TypeExpr) -> FieldDecl {
    decl(name, ty, vec![list("xml", vec![flag("content")])])
}

fn descriptor(index: usize, name: &str, shape: Shape, markup: &str, role: Role) -> FieldDescriptor {
    FieldDescriptor { index, name: name.to_string(), shape, markup_name: markup.to_string(), role }
}

fn optional(inner: Shape) -> Shape {
    Shape::Optional(Box::new(inner))
}

fn sequence(inner: Shape) -> Shape {
    Shape::Sequence(Box::new(inner))
}

#[test]
fn same_text_compares_whole_texts() {
    assert!(same_text(&"Option".to_string(), "Option"));
    assert!(!same_text(&"Option".to_string(), "Optio"));
    assert!(!same_text(&"option".to_string(), "Option"));
    assert!(same_text(&String::new(), ""));
}

#[test]
fn optional_is_told_by_the_name_alone() {
    assert!(is_optional(&ty_of("Option", ty("String"))));
    assert!(is_optional(&ty("Option")));
    assert!(is_optional(&ty_of("Option", ty_of("Vec", ty("Number")))));
    assert!(!is_optional(&ty("String")));
    assert!(!is_optional(&ty_of("Vec", ty("String"))));
    assert!(!is_optional(&TypeExpr::Other));
}

#[test]
fn repeatable_is_a_sequence_or_an_optional_sequence() {
    assert!(is_vec_or_option_vec(&ty_of("Vec", ty("Number"))));
    assert!(is_vec_or_option_vec(&ty("Vec")));
    assert!(is_vec_or_option_vec(&ty_of("Option", ty_of("Vec", ty("Number")))));
    assert!(!is_vec_or_option_vec(&ty_of("Option", ty("String"))));
    assert!(!is_vec_or_option_vec(&ty_of("Option", TypeExpr::Other)));
    assert!(!is_vec_or_option_vec(&ty("Option")));
    assert!(!is_vec_or_option_vec(&ty_of("Option", ty_of("Option", ty_of("Vec", ty("i32"))))));
    assert!(!is_vec_or_option_vec(&ty("Number")));
    assert!(!is_vec_or_option_vec(&TypeExpr::Other));
}

#[test]
fn custom_is_every_name_outside_the_known_set() {
    assert!(is_custom_type(&ty("Number")));
    assert!(is_custom_type(&ty("u32")));
    assert!(is_custom_type(&ty("string")));
    assert!(is_custom_type(&TypeExpr::Other));
    assert!(!is_custom_type(&ty("String")));
    assert!(!is_custom_type(&ty("i32")));
    assert!(!is_custom_type(&ty("bool")));
    assert!(!is_custom_type(&ty("Option")));
    assert!(!is_custom_type(&ty("Vec")));
    assert!(!is_custom_type(&ty_of("Option", ty("Number"))));
}

#[test]
fn shapes_of_scalars_and_records() {
    assert_eq!(classify_shape(&ty("String")), Shape::Scalar);
    assert_eq!(classify_shape(&ty("i32")), Shape::Scalar);
    assert_eq!(classify_shape(&ty("bool")), Shape::Scalar);
    assert_eq!(classify_shape(&ty("Number")), Shape::NestedRecord);
    assert_eq!(classify_shape(&ty("i64")), Shape::NestedRecord);
    assert_eq!(classify_shape(&TypeExpr::Other), Shape::NestedRecord);
}

#[test]
fn shapes_of_containers() {
    assert_eq!(classify_shape(&ty_of("Option", ty("String"))), optional(Shape::Scalar));
    assert_eq!(classify_shape(&ty_of("Vec", ty("Number"))), sequence(Shape::NestedRecord));
    assert_eq!(classify_shape(&ty_of("Vec", ty("String"))), sequence(Shape::Scalar));
    assert_eq!(
        classify_shape(&ty_of("Option", ty_of("Vec", ty("Number")))),
        optional(sequence(Shape::NestedRecord))
    );
    assert_eq!(classify_shape(&ty_of("Option", ty("Number"))), optional(Shape::NestedRecord));
    assert_eq!(classify_shape(&ty("Option")), optional(Shape::NestedRecord));
    assert_eq!(classify_shape(&ty_of("Vec", TypeExpr::Other)), sequence(Shape::NestedRecord));
}

#[test]
fn shape_tests_tell_the_shapes_apart() {
    assert!(optional(Shape::Scalar).is_optional_scalar());
    assert!(!optional(Shape::NestedRecord).is_optional_scalar());
    assert!(!Shape::Scalar.is_optional_scalar());
    assert!(sequence(Shape::Scalar).is_sequence());
    assert!(!optional(sequence(Shape::Scalar)).is_sequence());
    assert!(optional(sequence(Shape::Scalar)).is_optional_sequence());
    assert!(!optional(Shape::Scalar).is_optional_sequence());
    assert!(Shape::NestedRecord.is_nested_eligible());
    assert!(sequence(Shape::Scalar).is_nested_eligible());
    assert!(optional(sequence(Shape::NestedRecord)).is_nested_eligible());
    assert!(!Shape::Scalar.is_nested_eligible());
    assert!(!optional(Shape::Scalar).is_nested_eligible());
    assert!(!optional(Shape::NestedRecord).is_nested_eligible());
}

#[test]
fn duplicate_copies_the_whole_shape() {
    let shape = optional(sequence(optional(Shape::NestedRecord)));
    assert_eq!(shape.duplicate(), shape);
    assert_eq!(Shape::Scalar.duplicate(), Shape::Scalar);
}

#[test]
fn attribute_name_is_the_last_one_given() {
    let field = decl(
        "to",
        ty("String"),
        vec![
            list("xml", vec![text_option("attribute", "first"), flag("content")]),
            list("doc", vec![text_option("attribute", "elsewhere")]),
            list("xml", vec![text_option("attribute", "second"), text_option("rename", "third")]),
        ],
    );
    assert_eq!(field.read_attribute_name(), Some("second".to_string()));
    assert!(field.has_content_marker());
    assert!(!field.is_ignored());
}

#[test]
fn annotations_of_other_forms_are_passed_over() {
    let field = decl(
        "to",
        ty("String"),
        vec![
            Annotation { path: "xml".to_string(), form: MetaForm::Other },
            list("serde", vec![flag("content"), text_option("attribute", "to")]),
            list("xml", vec![MetaOption::Other, flag("attribute"), text_option("content", "x")]),
        ],
    );
    assert_eq!(field.read_attribute_name(), None);
    assert!(!field.has_content_marker());
    assert!(field.is_ignored());
}

#[test]
fn attribute_with_a_value_that_is_no_string_is_skipped() {
    let field = decl(
        "timeout",
        ty("i32"),
        vec![list(
            "xml",
            vec![MetaOption::NameValue { key: "attribute".to_string(), value: OptionValue::Other }],
        )],
    );
    assert_eq!(field.read_attribute_name(), None);
    assert!(field.is_ignored());
    let result = classify(&vec![field]).unwrap();
    assert!(result.attributes.is_empty());
    assert_eq!(result.text_field, None);
    assert_eq!(result.nested_field, None);
}

#[test]
fn attributes_keep_declaration_order() {
    let fields = vec![
        attribute_field("voice", ty_of("Option", ty("String")), "voice"),
        decl("note", ty("String"), vec![]),
        attribute_field("repeat", ty("i32"), "loop"),
        attribute_field("language", ty("String"), "language"),
    ];
    let result = classify(&fields).unwrap();
    assert_eq!(
        result.attributes,
        vec![
            descriptor(0, "voice", optional(Shape::Scalar), "voice", Role::Attribute("voice".to_string())),
            descriptor(2, "repeat", Shape::Scalar, "loop", Role::Attribute("loop".to_string())),
            descriptor(3, "language", Shape::Scalar, "language", Role::Attribute("language".to_string())),
        ]
    );
    assert_eq!(result.text_field, None);
    assert_eq!(result.nested_field, None);
}

#[test]
fn content_goes_to_the_slot_that_the_shape_names() {
    let fields = vec![
        content_field("text", ty_of("Option", ty("String"))),
        content_field("numbers", ty_of("Vec", ty("Number"))),
    ];
    let result = classify(&fields).unwrap();
    assert!(result.attributes.is_empty());
    assert_eq!(
        result.text_field,
        Some(descriptor(0, "text", optional(Shape::Scalar), "text", Role::TextContent))
    );
    assert_eq!(
        result.nested_field,
        Some(descriptor(1, "numbers", sequence(Shape::NestedRecord), "numbers", Role::NestedContent))
    );
}

#[test]
fn last_content_field_wins_each_slot() {
    let fields = vec![
        content_field("first_text", ty("String")),
        content_field("first_nested", ty("Number")),
        content_field("second_text", ty_of("Option", ty("Number"))),
        content_field("second_nested", ty_of("Option", ty_of("Vec", ty("Number")))),
        decl("plain", ty("String"), vec![]),
    ];
    let result = classify(&fields).unwrap();
    assert_eq!(
        result.text_field,
        Some(descriptor(2, "second_text", optional(Shape::NestedRecord), "second_text", Role::TextContent))
    );
    assert_eq!(
        result.nested_field,
        Some(descriptor(
            3,
            "second_nested",
            optional(sequence(Shape::NestedRecord)),
            "second_nested",
            Role::NestedContent
        ))
    );
}

#[test]
fn a_field_may_be_attribute_and_content_at_once() {
    let fields = vec![decl(
        "body",
        ty("String"),
        vec![list("xml", vec![text_option("attribute", "label"), flag("content")])],
    )];
    let result = classify(&fields).unwrap();
    assert_eq!(
        result.attributes,
        vec![descriptor(0, "body", Shape::Scalar, "label", Role::Attribute("label".to_string()))]
    );
    assert_eq!(result.text_field, Some(descriptor(0, "body", Shape::Scalar, "body", Role::TextContent)));
    assert_eq!(result.nested_field, None);
}

#[test]
fn record_without_fields_classifies_to_nothing() {
    let result = classify(&Vec::new()).unwrap();
    assert_eq!(
        result,
        ClassificationResult { attributes: Vec::new(), text_field: None, nested_field: None }
    );
}

#[test]
fn field_without_a_name_fails_classification() {
    let fields = vec![
        attribute_field("voice", ty("String"), "voice"),
        FieldDecl { name: None, ty: ty("String"), annotations: vec![] },
    ];
    assert_eq!(classify(&fields), Err(GenerationError::UnnamedField));
}

#[test]
fn emit_resolves_the_steps() {
    let classification = ClassificationResult {
        attributes: vec![
            descriptor(1, "voice", optional(Shape::Scalar), "voice", Role::Attribute("voice".to_string())),
            descriptor(2, "repeat", Shape::Scalar, "loop", Role::Attribute("loop".to_string())),
            descriptor(4, "who", optional(Shape::NestedRecord), "who", Role::Attribute("who".to_string())),
        ],
        text_field: None,
        nested_field: None,
    };
    let procedure = emit(&classification, &"Say".to_string());
    assert_eq!(
        procedure,
        Procedure {
            element_name: "Say".to_string(),
            attributes: vec![
                AttributeStep { index: 1, field: "voice".to_string(), markup_name: "voice".to_string(), optional: true },
                AttributeStep { index: 2, field: "repeat".to_string(), markup_name: "loop".to_string(), optional: false },
                AttributeStep { index: 4, field: "who".to_string(), markup_name: "who".to_string(), optional: false },
            ],
            body: Body::Empty,
        }
    );
}

#[test]
fn emit_prefers_text_to_nested_content() {
    let classification = ClassificationResult {
        attributes: Vec::new(),
        text_field: Some(descriptor(0, "text", Shape::Scalar, "text", Role::TextContent)),
        nested_field: Some(descriptor(1, "items", sequence(Shape::NestedRecord), "items", Role::NestedContent)),
    };
    let procedure = emit(&classification, &"Mixed".to_string());
    assert_eq!(procedure.body, Body::Text { index: 0, field: "text".to_string(), optional: false });
}

#[test]
fn emit_tells_the_nested_bodies_apart() {
    let with = |shape: Shape| ClassificationResult {
        attributes: Vec::new(),
        text_field: None,
        nested_field: Some(descriptor(3, "inner", shape, "inner", Role::NestedContent)),
    };
    let name = "Outer".to_string();
    assert_eq!(
        emit(&with(sequence(Shape::NestedRecord)), &name).body,
        Body::Each { index: 3, field: "inner".to_string(), optional: false }
    );
    assert_eq!(
        emit(&with(optional(sequence(Shape::NestedRecord))), &name).body,
        Body::Each { index: 3, field: "inner".to_string(), optional: true }
    );
    assert_eq!(
        emit(&with(Shape::NestedRecord), &name).body,
        Body::Delegate { index: 3, field: "inner".to_string() }
    );
}

#[test]
fn emit_makes_optional_text_conditional() {
    let with = |shape: Shape| ClassificationResult {
        attributes: Vec::new(),
        text_field: Some(descriptor(0, "text", shape, "text", Role::TextContent)),
        nested_field: None,
    };
    let name = "Say".to_string();
    assert_eq!(
        emit(&with(optional(Shape::Scalar)), &name).body,
        Body::Text { index: 0, field: "text".to_string(), optional: true }
    );
    assert_eq!(
        emit(&with(optional(Shape::NestedRecord)), &name).body,
        Body::Text { index: 0, field: "text".to_string(), optional: false }
    );
}

#[test]
fn derivation_of_a_record() {
    let item = ItemDecl {
        name: "Dial".to_string(),
        kind: ItemKind::Struct,
        fields: vec![
            attribute_field("timeout", ty_of("Option", ty("i32")), "timeout"),
            content_field("numbers", ty_of("Vec", ty("Number"))),
            decl("internal", ty("bool"), vec![]),
        ],
    };
    assert_eq!(
        to_twiml_derive(&item),
        Ok(Procedure {
            element_name: "Dial".to_string(),
            attributes: vec![AttributeStep {
                index: 0,
                field: "timeout".to_string(),
                markup_name: "timeout".to_string(),
                optional: true,
            }],
            body: Body::Each { index: 1, field: "numbers".to_string(), optional: false },
        })
    );
}

#[test]
fn derivation_refuses_what_is_no_record() {
    let item = |kind: ItemKind| ItemDecl {
        name: "Verb".to_string(),
        kind,
        fields: vec![FieldDecl { name: None, ty: ty("String"), annotations: vec![] }],
    };
    assert_eq!(to_twiml_derive(&item(ItemKind::Enum)), Err(GenerationError::NotARecord));
    assert_eq!(to_twiml_derive(&item(ItemKind::Union)), Err(GenerationError::NotARecord));
    assert_eq!(to_twiml_derive(&item(ItemKind::Struct)), Err(GenerationError::UnnamedField));
}

#[test]
fn generation_errors_in_words() {
    assert_eq!(GenerationError::NotARecord.message(), "ToTwiML can only be derived for structs");
    assert_eq!(GenerationError::UnnamedField.message(), "Fields must be named");
}
