use twiml_derive::emit::to_twiml_derive;
use twiml_derive::schema::{Annotation, FieldDecl, ItemDecl, ItemKind, MetaForm, MetaOption, OptionValue};
use twiml_derive::shape::TypeExpr;
use twiml_derive::value::{Node, Value};
use twiml_derive::writer::{TreeWriter, WriteError};
use xml::writer::EmitterConfig;

fn named(name: &str) -> TypeExpr {
    TypeExpr::Path { name: name.to_string(), first_arg: None }
}

fn generic(name: &str, arg: TypeExpr) -> TypeExpr {
    TypeExpr::Path { name: name.to_string(), first_arg: Some(Box::new(arg)) }
}

fn xml(options: Vec<MetaOption>) -> Annotation {
    Annotation { path: "xml".to_string(), form: MetaForm::List(options) }
}

fn content() -> MetaOption {
    MetaOption::Flag { key: "content".to_string() }
}

fn attribute(name: &str) -> MetaOption {
    MetaOption::NameValue {
        key: "attribute".to_string(),
        value: OptionValue::Text(name.to_string()),
    }
}

fn field(name: &str, ty: TypeExpr, annotations: Vec<Annotation>) -> FieldDecl {
    FieldDecl { name: Some(name.to_string()), ty, annotations }
}

fn record(name: &str, fields: Vec<FieldDecl>) -> ItemDecl {
    ItemDecl { name: name.to_string(), kind: ItemKind::Struct, fields }
}

fn scalar(text: &str) -> Value {
    Value::Scalar(text.to_string())
}

fn present(value: Value) -> Value {
    Value::Present(Box::new(value))
}

fn render(node: &Node) -> String {
    let config = EmitterConfig::new()
        .write_document_declaration(false)
        .normalize_empty_elements(false);
    let mut writer = TreeWriter::new(config.create_writer(Vec::new()));
    node.write_xml(&mut writer).expect("the writer takes every event");
    String::from_utf8(writer.into_inner().into_inner()).expect("the writer writes UTF-8")
}

fn say() -> ItemDecl {
    record(
        "Say",
        vec![
            field("text", generic("Option", named("String")), vec![xml(vec![content()])]),
            field("voice", generic("Option", named("String")), vec![xml(vec![attribute("voice")])]),
        ],
    )
}

fn number(text: &str) -> Value {
    let item = record("Number", vec![field("value", named("String"), vec![xml(vec![content()])])]);
    Value::Record(Node { procedure: to_twiml_derive(&item).unwrap(), values: vec![scalar(text)] })
}

#[test]
fn say_with_text_and_no_voice() {
    let node = Node {
        procedure: to_twiml_derive(&say()).unwrap(),
        values: vec![present(scalar("Hello")), Value::Absent],
    };
    assert_eq!(render(&node), "<Say>Hello</Say>");
}

#[test]
fn say_with_voice_and_no_text() {
    let node = Node {
        procedure: to_twiml_derive(&say()).unwrap(),
        values: vec![Value::Absent, present(scalar("alice"))],
    };
    assert_eq!(render(&node), "<Say voice=\"alice\"></Say>");
}

#[test]
fn dial_with_two_numbers() {
    let item = record(
        "Dial",
        vec![field("numbers", generic("Vec", named("Number")), vec![xml(vec![content()])])],
    );
    let node = Node {
        procedure: to_twiml_derive(&item).unwrap(),
        values: vec![Value::Sequence(vec![number("1"), number("2")])],
    };
    assert_eq!(render(&node), "<Dial><Number>1</Number><Number>2</Number></Dial>");
}

fn bytes_of(writer: TreeWriter) -> String {
    String::from_utf8(writer.into_inner().into_inner()).expect("the writer writes UTF-8")
}

fn plain_writer() -> TreeWriter {
    let config = EmitterConfig::new()
        .write_document_declaration(false)
        .normalize_empty_elements(false);
    TreeWriter::new(config.create_writer(Vec::new()))
}

fn nameless_writer() -> TreeWriter {
    let config = EmitterConfig::new()
        .write_document_declaration(false)
        .normalize_empty_elements(false)
        .keep_element_names_stack(false);
    TreeWriter::new(config.create_writer(Vec::new()))
}

fn dial(numbers: Value) -> Node {
    let item = record(
        "Dial",
        vec![
            field("timeout", generic("Option", named("i32")), vec![xml(vec![attribute("timeout")])]),
            field(
                "numbers",
                generic("Option", generic("Vec", named("Number"))),
                vec![xml(vec![content()])],
            ),
            field("caller", named("String"), vec![xml(vec![attribute("callerId")])]),
        ],
    );
    Node {
        procedure: to_twiml_derive(&item).unwrap(),
        values: vec![present(scalar("30")), numbers, scalar("+15550100")],
    }
}

#[test]
fn say_with_text_and_voice() {
    let node = Node {
        procedure: to_twiml_derive(&say()).unwrap(),
        values: vec![present(scalar("Hello")), present(scalar("alice"))],
    };
    assert_eq!(render(&node), "<Say voice=\"alice\">Hello</Say>");
}

#[test]
fn say_with_neither_text_nor_voice() {
    let node = Node {
        procedure: to_twiml_derive(&say()).unwrap(),
        values: vec![Value::Absent, Value::Absent],
    };
    assert_eq!(render(&node), "<Say></Say>");
}

#[test]
fn attributes_come_out_in_declaration_order() {
    let node = dial(present(Value::Sequence(vec![number("1")])));
    assert_eq!(
        render(&node),
        "<Dial timeout=\"30\" callerId=\"+15550100\"><Number>1</Number></Dial>"
    );
}

#[test]
fn absent_optional_attribute_is_left_out() {
    let mut node = dial(Value::Absent);
    node.values[0] = Value::Absent;
    assert_eq!(render(&node), "<Dial callerId=\"+15550100\"></Dial>");
}

#[test]
fn absent_optional_sequence_writes_no_children() {
    assert_eq!(render(&dial(Value::Absent)), "<Dial timeout=\"30\" callerId=\"+15550100\"></Dial>");
}

#[test]
fn empty_sequence_writes_no_children() {
    assert_eq!(
        render(&dial(present(Value::Sequence(Vec::new())))),
        "<Dial timeout=\"30\" callerId=\"+15550100\"></Dial>"
    );
}

#[test]
fn sequence_writes_one_child_per_item_in_order() {
    let node = dial(present(Value::Sequence(vec![number("3"), number("1"), number("2")])));
    assert_eq!(
        render(&node),
        "<Dial timeout=\"30\" callerId=\"+15550100\"><Number>3</Number><Number>1</Number><Number>2</Number></Dial>"
    );
}

#[test]
fn nested_record_is_written_once() {
    let item = record("Gather", vec![field("prompt", named("Say"), vec![xml(vec![content()])])]);
    let prompt = Node {
        procedure: to_twiml_derive(&say()).unwrap(),
        values: vec![present(scalar("Press 1")), present(scalar("bob"))],
    };
    let node = Node { procedure: to_twiml_derive(&item).unwrap(), values: vec![Value::Record(prompt)] };
    assert_eq!(render(&node), "<Gather><Say voice=\"bob\">Press 1</Say></Gather>");
}

#[test]
fn record_without_content_is_an_empty_element() {
    let item = record(
        "Hangup",
        vec![field("reason", named("String"), vec![]), field("code", named("i32"), vec![])],
    );
    let node = Node {
        procedure: to_twiml_derive(&item).unwrap(),
        values: vec![scalar("busy"), scalar("486")],
    };
    assert_eq!(render(&node), "<Hangup></Hangup>");
}

#[test]
fn text_takes_the_body_where_both_slots_are_filled() {
    let item = record(
        "Mixed",
        vec![
            field("items", generic("Vec", named("Number")), vec![xml(vec![content()])]),
            field("text", named("String"), vec![xml(vec![content()])]),
        ],
    );
    let node = Node {
        procedure: to_twiml_derive(&item).unwrap(),
        values: vec![Value::Sequence(vec![number("1")]), scalar("words")],
    };
    assert_eq!(render(&node), "<Mixed>words</Mixed>");
}

#[test]
fn writing_twice_gives_the_same_bytes() {
    let node = dial(present(Value::Sequence(vec![number("1"), number("2")])));
    let first = render(&node);
    let second = render(&node);
    assert_eq!(first, second);
    assert_eq!(
        first,
        "<Dial timeout=\"30\" callerId=\"+15550100\"><Number>1</Number><Number>2</Number></Dial>"
    );
}

#[test]
fn writing_twice_through_one_handle_appends_the_same_bytes() {
    let node = Node {
        procedure: to_twiml_derive(&say()).unwrap(),
        values: vec![present(scalar("Hi")), Value::Absent],
    };
    let mut writer = plain_writer();
    node.write_xml(&mut writer).unwrap();
    node.write_xml(&mut writer).unwrap();
    assert_eq!(bytes_of(writer), "<Say>Hi</Say><Say>Hi</Say>");
}

#[test]
fn writer_escapes_what_it_is_handed() {
    let node = Node {
        procedure: to_twiml_derive(&say()).unwrap(),
        values: vec![present(scalar("a < b & c")), present(scalar("\"al\""))],
    };
    assert_eq!(render(&node), "<Say voice=\"&quot;al&quot;\">a &lt; b &amp; c</Say>");
}

#[test]
fn write_failure_ends_the_writing() {
    let node = Node {
        procedure: to_twiml_derive(&say()).unwrap(),
        values: vec![present(scalar("Hello")), Value::Absent],
    };
    let mut writer = nameless_writer();
    let outcome = node.write_xml(&mut writer);
    assert!(matches!(
        outcome.unwrap_err().cause,
        xml::writer::Error::EndElementNameIsNotSpecified
    ));
    assert_eq!(bytes_of(writer), "<Say>Hello");
}

#[test]
fn write_failure_of_a_child_is_handed_up() {
    let node = dial(present(Value::Sequence(vec![number("1"), number("2")])));
    let mut writer = nameless_writer();
    let outcome = node.write_xml(&mut writer);
    assert!(matches!(
        outcome.unwrap_err().cause,
        xml::writer::Error::EndElementNameIsNotSpecified
    ));
    assert_eq!(bytes_of(writer), "<Dial timeout=\"30\" callerId=\"+15550100\"><Number>1");
}

#[test]
fn handle_passes_single_events_on() {
    let mut writer = plain_writer();
    let attributes = vec![
        ("a".to_string(), "1".to_string()),
        ("b".to_string(), "2".to_string()),
    ];
    writer.start_element(&"Outer".to_string(), &attributes).unwrap();
    writer.characters(&"text".to_string()).unwrap();
    writer.end_element().unwrap();
    assert_eq!(bytes_of(writer), "<Outer a=\"1\" b=\"2\">text</Outer>");
}

#[test]
fn handle_reports_an_end_without_a_start() {
    let mut writer = plain_writer();
    let outcome = writer.end_element();
    assert!(matches!(
        outcome.unwrap_err().cause,
        xml::writer::Error::LastElementNameNotAvailable
    ));
    assert_eq!(bytes_of(writer), "");
}

#[test]
fn collected_attributes_are_those_present() {
    let mut node = dial(Value::Absent);
    assert_eq!(
        node.collect_attributes(),
        vec![
            ("timeout".to_string(), "30".to_string()),
            ("callerId".to_string(), "+15550100".to_string()),
        ]
    );
    node.values[0] = Value::Absent;
    assert_eq!(node.collect_attributes(), vec![("callerId".to_string(), "+15550100".to_string())]);
}

#[test]
fn text_is_read_by_the_kind_of_the_step() {
    let text = "x".to_string();
    assert_eq!(scalar("x").read_text(false), Some(&text));
    assert_eq!(scalar("x").read_text(true), None);
    assert_eq!(present(scalar("x")).read_text(true), Some(&text));
    assert_eq!(present(scalar("x")).read_text(false), None);
    assert_eq!(Value::Absent.read_text(true), None);
    assert_eq!(Value::Sequence(Vec::new()).read_text(false), None);
    assert!(Value::Absent.can_give_text(true));
    assert!(!Value::Absent.can_give_text(false));
    assert!(scalar("x").can_give_text(false));
    assert!(!scalar("x").can_give_text(true));
    assert!(present(scalar("x")).can_give_text(true));
    assert!(!present(Value::Absent).can_give_text(true));
}

#[test]
fn conforming_instances_are_told_from_others() {
    assert!(dial(Value::Absent).is_conforming());
    assert!(dial(present(Value::Sequence(vec![number("1"), number("2")]))).is_conforming());
    assert!(!dial(Value::Sequence(vec![number("1")])).is_conforming());
    assert!(!dial(present(Value::Sequence(vec![scalar("1")]))).is_conforming());
    let mut short = dial(Value::Absent);
    short.values.pop();
    assert!(!short.is_conforming());
    let mut mistyped = dial(Value::Absent);
    mistyped.values[2] = Value::Absent;
    assert!(!mistyped.is_conforming());
    let broken_child = Value::Record(Node {
        procedure: to_twiml_derive(&say()).unwrap(),
        values: vec![scalar("not optional"), Value::Absent],
    });
    assert!(!dial(present(Value::Sequence(vec![number("1"), broken_child]))).is_conforming());
}

#[test]
fn values_of_another_kind_write_nothing() {
    let mut node = dial(present(Value::Sequence(vec![scalar("stray"), number("7")])));
    node.values[2] = Value::Absent;
    assert_eq!(render(&node), "<Dial timeout=\"30\"><Number>7</Number></Dial>");
}

#[test]
fn integers_are_written_in_decimal() {
    assert_eq!(twiml_derive::stringify::stringify_integer(0), "0");
    assert_eq!(twiml_derive::stringify::stringify_integer(7), "7");
    assert_eq!(twiml_derive::stringify::stringify_integer(10), "10");
    assert_eq!(twiml_derive::stringify::stringify_integer(30), "30");
    assert_eq!(twiml_derive::stringify::stringify_integer(-1), "-1");
    assert_eq!(twiml_derive::stringify::stringify_integer(-405), "-405");
    assert_eq!(twiml_derive::stringify::stringify_integer(2147483647), "2147483647");
    assert_eq!(twiml_derive::stringify::stringify_integer(-2147483648), "-2147483648");
    for i in [-1000001, -99, -10, -9, 9, 99, 100, 101, 65536, 1234567890] {
        assert_eq!(twiml_derive::stringify::stringify_integer(i), i.to_string());
    }
}

#[test]
fn booleans_are_written_in_words() {
    assert_eq!(twiml_derive::stringify::stringify_boolean(true), "true");
    assert_eq!(twiml_derive::stringify::stringify_boolean(false), "false");
}

#[test]
fn scalars_of_each_kind_become_attributes() {
    let item = record(
        "Record",
        vec![
            field("timeout", named("i32"), vec![xml(vec![attribute("timeout")])]),
            field("trim", named("bool"), vec![xml(vec![attribute("trim")])]),
            field("action", named("String"), vec![xml(vec![attribute("action")])]),
        ],
    );
    let node = Node {
        procedure: to_twiml_derive(&item).unwrap(),
        values: vec![
            Value::from_integer(-5),
            Value::from_boolean(true),
            Value::from_text("/done".to_string()),
        ],
    };
    assert!(node.is_conforming());
    assert_eq!(render(&node), "<Record timeout=\"-5\" trim=\"true\" action=\"/done\"></Record>");
}

#[test]
fn handle_hands_names_on_as_they_are_written() {
    let mut writer = plain_writer();
    let attributes = vec![
        ("xml:lang".to_string(), "en".to_string()),
        ("plain".to_string(), "".to_string()),
        ("a:b:c".to_string(), "x".to_string()),
    ];
    writer.start_element(&"tw:Say".to_string(), &attributes).unwrap();
    writer.end_element().unwrap();
    assert_eq!(bytes_of(writer), "<tw:Say xml:lang=\"en\" plain=\"\" a:b:c=\"x\"></tw:Say>");
}

#[test]
fn handle_hands_every_attribute_on_in_order() {
    let mut writer = plain_writer();
    let attributes: Vec<(String, String)> =
        (0..12).map(|i| (format!("a{}", i), format!("{}", 11 - i))).collect();
    writer.start_element(&"Many".to_string(), &attributes).unwrap();
    let expected: String =
        (0..12).map(|i| format!(" a{}=\"{}\"", i, 11 - i)).collect::<Vec<String>>().concat();
    assert_eq!(bytes_of(writer), format!("<Many{}>", expected));
}

#[test]
fn answer_of_the_writer_is_reported_as_it_came() {
    assert!(WriteError::from_outcome(Ok(())).is_ok());
    let unnamed = WriteError::from_outcome(Err(xml::writer::Error::EndElementNameIsNotSpecified));
    assert!(matches!(unnamed.unwrap_err().cause, xml::writer::Error::EndElementNameIsNotSpecified));
    let unopened = WriteError::from_outcome(Err(xml::writer::Error::LastElementNameNotAvailable));
    assert!(matches!(unopened.unwrap_err().cause, xml::writer::Error::LastElementNameNotAvailable));
    let full = std::io::Error::new(std::io::ErrorKind::WriteZero, "sink is full");
    let failed = WriteError::from_outcome(Err(xml::writer::Error::Io(full)));
    match failed.unwrap_err().cause {
        xml::writer::Error::Io(inner) => assert_eq!(inner.kind(), std::io::ErrorKind::WriteZero),
        other => panic!("another failure came back: {:?}", other),
    }
}
