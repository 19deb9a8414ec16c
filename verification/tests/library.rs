//! Edge cases, error variants and laws of the library, on concrete values.
use serde_kdl2::bare_defaults::bool::{bare_false, bare_true};
use serde_kdl2::content::Content;
use serde_kdl2::de::document::map_keys;
use serde_kdl2::de::field::{
    field_any_plan, field_enum_plan, field_holds_none, field_map_plan, field_seq_plan, first_arg,
    first_node, only_node,
};
use serde_kdl2::de::node::{
    dash_nodes, first_arg_of, is_dash_name, node_args, node_enum_plan, node_holds_none,
    node_props, node_seq_plan, nodes_named, variant_args, variant_value, AnyPlan, EnumPlan,
    SeqPlan,
};
use serde_kdl2::de::value::{
    float_of, integer_of, scalar_shape_error, to_i16, to_i32, to_i64, to_i8, to_u128, to_u16,
    to_u32, to_u64, to_u8, value_any, value_bool, value_char, value_text, value_unit, Number,
};
use serde_kdl2::error::{Error, Found};
use serde_kdl2::model::{Doc, Entry, Node, Value};
use serde_kdl2::parse::parse_document;
use serde_kdl2::{from_doc, from_str};

fn doc(text: &str) -> Doc {
    parse_document(text).unwrap()
}

fn field(doc: &Doc, name: &str) -> Vec<usize> {
    nodes_named(&doc.nodes, &name.to_string())
}

fn entry<'a>(c: &'a Content, key: &str) -> &'a Content {
    match c {
        Content::Mapping(entries) => &entries.iter().find(|(k, _)| k == key).unwrap().1,
        _ => panic!("expected a map"),
    }
}

fn keys(c: &Content) -> Vec<&str> {
    match c {
        Content::Mapping(entries) => entries.iter().map(|(k, _)| k.as_str()).collect(),
        _ => panic!("expected a map"),
    }
}

fn ints(c: &Content) -> Vec<i128> {
    match c {
        Content::Sequence(items) => items
            .iter()
            .map(|i| match i {
                Content::Int(n) => *n,
                _ => panic!("expected an integer"),
            })
            .collect(),
        _ => panic!("expected a sequence"),
    }
}

fn node(name: &str, entries: Vec<Entry>, children: Option<Doc>) -> Node {
    Node { name: name.to_string(), entries, children }
}

fn arg(value: Value) -> Entry {
    Entry { name: None, value }
}

fn prop(name: &str, value: Value) -> Entry {
    Entry { name: Some(name.to_string()), value }
}

#[test]
fn parse_reads_names_entries_and_children() {
    let d = doc("server port=80 \"main\" {\n    host \"a\"\n}\nflag #true\n");
    assert_eq!(d.nodes.len(), 2);
    let server = &d.nodes[0];
    assert_eq!(server.name, "server");
    assert_eq!(server.entries.len(), 2);
    assert_eq!(server.entries[0].name.as_deref(), Some("port"));
    assert!(matches!(server.entries[0].value, Value::Integer(80)));
    assert!(server.entries[1].name.is_none());
    assert!(matches!(&server.entries[1].value, Value::String(s) if s == "main"));
    let children = server.children.as_ref().unwrap();
    assert_eq!(children.nodes[0].name, "host");
    assert!(matches!(d.nodes[1].entries[0].value, Value::Bool(true)));
    assert!(d.nodes[1].children.is_none());
}

#[test]
fn parse_reads_floats_and_nulls() {
    let d = doc("x 2.5 #null");
    assert!(matches!(d.nodes[0].entries[0].value, Value::Float(b) if f64::from_bits(b) == 2.5));
    assert!(matches!(d.nodes[0].entries[1].value, Value::Null));
}

#[test]
fn parse_error_is_reported() {
    assert!(matches!(parse_document("a {"), Err(Error::Parse(_))));
    assert!(matches!(from_str("a \"unterminated"), Err(Error::Parse(_))));
}

#[test]
fn from_doc_on_built_document() {
    let d = Doc { nodes: vec![node("n", vec![arg(Value::Integer(7))], None)] };
    let c = from_doc(&d).unwrap();
    assert!(matches!(entry(&c, "n"), Content::Int(7)));
}

#[test]
fn empty_document_reads_as_empty_map() {
    let c = from_str("").unwrap();
    assert!(keys(&c).is_empty());
}

#[test]
fn document_keys_are_distinct_names_in_first_appearance_order() {
    let c = from_str("b 1\na 2\nb 3\n").unwrap();
    assert_eq!(keys(&c), vec!["b", "a"]);
    assert!(matches!(entry(&c, "b"), Content::Int(1)));
}

#[test]
fn map_keys_point_at_first_nodes() {
    let d = doc("x 1\ny 2\nx 3\nz 4\ny 5\n");
    assert_eq!(map_keys(&d), vec![0, 1, 3]);
}

#[test]
fn field_holds_every_node_of_its_name_in_order() {
    let d = doc("x 1\ny 2\nx 3\nz 4\nx 5\n");
    assert_eq!(field(&d, "x"), vec![0, 2, 4]);
    assert_eq!(field(&d, "w"), Vec::<usize>::new());
}

#[test]
fn sequence_from_multiple_arguments() {
    let c = from_str("tags \"web\" \"rust\" \"config\"").unwrap();
    match entry(&c, "tags") {
        Content::Sequence(items) => {
            let names: Vec<&str> = items
                .iter()
                .map(|i| match i {
                    Content::Str(s) => s.as_str(),
                    _ => panic!("expected a string"),
                })
                .collect();
            assert_eq!(names, vec!["web", "rust", "config"]);
        },
        _ => panic!("expected a sequence"),
    }
}

#[test]
fn sequence_from_repeated_nodes_reads_each_node() {
    let c = from_str("p 1 2\np 3 4\n").unwrap();
    match entry(&c, "p") {
        Content::Sequence(items) => {
            assert_eq!(ints(&items[0]), vec![1, 2]);
            assert_eq!(ints(&items[1]), vec![3, 4]);
        },
        _ => panic!("expected a sequence"),
    }
}

#[test]
fn repeated_single_argument_reads_first_node() {
    let c = from_str("a 1\na 2\n").unwrap();
    assert!(matches!(entry(&c, "a"), Content::Int(1)));
}

#[test]
fn nested_children_read_as_nested_maps() {
    let c = from_str("middle {\n    inner {\n        value \"deep\"\n    }\n}\n").unwrap();
    assert!(matches!(entry(entry(entry(&c, "middle"), "inner"), "value"), Content::Str(s) if s == "deep"));
}

#[test]
fn properties_read_as_map_with_repeats_kept() {
    let c = from_str("item k=1 k=2").unwrap();
    match entry(&c, "item") {
        Content::Mapping(entries) => {
            assert_eq!(entries.len(), 2);
            assert!(matches!(entries[1], (ref k, Content::Int(2)) if k == "k"));
        },
        _ => panic!("expected a map"),
    }
}

#[test]
fn duplicate_map_nodes_are_refused() {
    let r = from_str("a {\n    b 1\n}\na {\n    c 2\n}\n");
    assert!(matches!(r, Err(Error::DuplicateNode { ref name, count: 2 }) if name == "a"));
}

#[test]
fn any_null_and_unit() {
    let c = from_str("n #null\nu\n").unwrap();
    assert!(matches!(entry(&c, "n"), Content::Null));
    assert!(matches!(entry(&c, "u"), Content::Unit));
}

#[test]
fn no_node_error() {
    let d = doc("a 1");
    assert!(matches!(first_node(&d, &vec![]), Err(Error::NoNode)));
    assert!(matches!(field_any_plan(&d, &vec![]), Err(Error::NoNode)));
    assert!(matches!(field_seq_plan(&d, &vec![]), Err(Error::NoNode)));
}

#[test]
fn scalar_field_refuses_duplicates() {
    let d = doc("a 1\na 2\n");
    let picks = field(&d, "a");
    assert!(matches!(only_node(&d, &picks), Err(Error::DuplicateNode { ref name, count: 2 }) if name == "a"));
    assert!(matches!(first_arg(&d, &picks), Err(Error::DuplicateNode { count: 2, .. })));
    assert!(matches!(field_map_plan(&d, &picks), Err(Error::DuplicateNode { .. })));
    assert!(matches!(field_enum_plan(&d, &picks), Err(Error::DuplicateNode { .. })));
}

#[test]
fn node_without_arguments_error() {
    let d = doc("value");
    let r = first_arg(&d, &field(&d, "value"));
    assert!(matches!(
        r,
        Err(Error::TypeMismatch { expected: "a value argument", got: Found::NodeWithoutArgs(ref n) })
            if n == "value"
    ));
}

#[test]
fn first_argument_skips_properties() {
    let d = doc("n k=1 2");
    assert!(matches!(first_arg_of(&d.nodes[0]).unwrap(), Value::Integer(2)));
    assert_eq!(node_args(&d.nodes[0]).len(), 1);
    assert_eq!(node_props(&d.nodes[0]).len(), 1);
}

#[test]
fn integer_narrowing() {
    assert_eq!(to_i8(-128).unwrap(), -128);
    assert!(matches!(to_i8(999), Err(Error::IntegerOutOfRange(999))));
    assert!(matches!(to_i8(128), Err(Error::IntegerOutOfRange(128))));
    assert_eq!(to_i16(-32768).unwrap(), i16::MIN);
    assert!(to_i16(32768).is_err());
    assert_eq!(to_i32(2147483647).unwrap(), i32::MAX);
    assert!(to_i32(-2147483649).is_err());
    assert_eq!(to_i64(-9223372036854775808).unwrap(), i64::MIN);
    assert!(to_i64(9223372036854775808).is_err());
    assert_eq!(to_u8(255).unwrap(), 255);
    assert!(matches!(to_u8(-1), Err(Error::IntegerOutOfRange(-1))));
    assert_eq!(to_u16(65535).unwrap(), u16::MAX);
    assert!(to_u16(65536).is_err());
    assert_eq!(to_u32(4294967295).unwrap(), u32::MAX);
    assert!(to_u32(4294967296).is_err());
    assert_eq!(to_u64(18446744073709551615).unwrap(), u64::MAX);
    assert!(to_u64(18446744073709551616).is_err());
    assert_eq!(to_u128(i128::MAX).unwrap(), i128::MAX as u128);
    assert!(matches!(to_u128(-1), Err(Error::IntegerOutOfRange(-1))));
}

#[test]
fn numbers_of_values() {
    assert!(matches!(integer_of(&Value::Integer(5)), Ok(Number::Int(5))));
    assert!(matches!(integer_of(&Value::Float(7)), Ok(Number::FloatBits(7))));
    assert!(matches!(
        integer_of(&Value::String("x".into())),
        Err(Error::TypeMismatch { expected: "integer", got: Found::Value(Value::String(_)) })
    ));
    assert!(matches!(float_of(&Value::Integer(5)), Ok(Number::Int(5))));
    assert!(matches!(float_of(&Value::Bool(true)), Err(Error::TypeMismatch { expected: "float", .. })));
}

#[test]
fn scalar_kinds() {
    assert!(matches!(value_bool(&Value::Bool(false)), Ok(false)));
    assert!(matches!(value_bool(&Value::String("no".into())), Err(Error::TypeMismatch { expected: "bool", .. })));
    assert_eq!(value_char(&Value::String("A".into())).unwrap(), 'A');
    assert_eq!(value_char(&Value::String("é".into())).unwrap(), 'é');
    assert!(matches!(value_char(&Value::String("abc".into())), Err(Error::TypeMismatch { expected: "single character", .. })));
    assert!(value_char(&Value::Integer(65)).is_err());
    assert_eq!(value_text(&Value::String("s".into()), "string").unwrap(), "s");
    assert!(matches!(value_text(&Value::Integer(42), "string"), Err(Error::TypeMismatch { expected: "string", .. })));
    assert!(value_unit(&Value::Null).is_ok());
    assert!(matches!(value_unit(&Value::Integer(42)), Err(Error::TypeMismatch { expected: "null", .. })));
    assert!(matches!(
        scalar_shape_error(&Value::Integer(1), "sequence"),
        Error::TypeMismatch { expected: "sequence", got: Found::ScalarValue(Value::Integer(1)) }
    ));
    assert!(matches!(value_any(&Value::Integer(3)), Content::Int(3)));
    assert!(matches!(value_any(&Value::Null), Content::Null));
}

#[test]
fn option_reading() {
    let d = doc("a #null\nb 1\nc #null {\n}\nd #null #null\n");
    assert!(field_holds_none(&d, &field(&d, "a")).unwrap());
    assert!(!field_holds_none(&d, &field(&d, "b")).unwrap());
    assert!(!node_holds_none(&d.nodes[2]));
    assert!(!node_holds_none(&d.nodes[3]));
}

#[test]
fn dash_children_take_priority() {
    assert!(is_dash_name(&"-".to_string()));
    assert!(!is_dash_name(&"--".to_string()));
    let d = doc("items {\n    x 1\n    - 2\n    y 3\n    - 4\n}\n");
    let children = d.nodes[0].children.as_ref().unwrap();
    assert_eq!(dash_nodes(&children.nodes), vec![1, 3]);
    match node_seq_plan(&d.nodes[0]) {
        SeqPlan::Nodes { picks, .. } => assert_eq!(picks, vec![1, 3]),
        _ => panic!("expected dash nodes"),
    }
}

#[test]
fn plain_children_and_arguments_as_sequence() {
    let d = doc("a {\n    x 1\n    x 2\n}\nb 1 2\nc {\n}\n");
    assert!(matches!(node_seq_plan(&d.nodes[0]), SeqPlan::Children(c) if c.nodes.len() == 2));
    assert!(matches!(node_seq_plan(&d.nodes[1]), SeqPlan::Args(ref a) if a.len() == 2));
    assert!(matches!(node_seq_plan(&d.nodes[2]), SeqPlan::Args(ref a) if a.is_empty()));
}

#[test]
fn enum_errors() {
    let d = doc("color 42\nshape {\n}\n");
    assert!(matches!(node_enum_plan(&d.nodes[0]), Err(Error::NotAnEnum { ref node }) if node == "color"));
    assert!(matches!(node_enum_plan(&d.nodes[1]), Err(Error::NotAnEnum { .. })));
    let d = doc("v \"Wrap\" 1 2");
    assert!(matches!(node_enum_plan(&d.nodes[0]), Ok(EnumPlan::Unit { variant, .. }) if variant == "Wrap"));
    assert!(matches!(variant_value(&d.nodes[0], 3), Err(Error::MissingVariantValue)));
    assert_eq!(variant_args(&d.nodes[0], 1).len(), 2);
    assert_eq!(variant_args(&d.nodes[0], 3).len(), 0);
}

#[test]
fn any_plan_branches() {
    let d = doc("a {\n}\nb k=1\nc 1\nd 1 2\ne\n");
    assert!(matches!(field_any_plan(&d, &vec![0]).unwrap(), AnyPlan::Mapping));
    assert!(matches!(field_any_plan(&d, &vec![1]).unwrap(), AnyPlan::Mapping));
    assert!(matches!(field_any_plan(&d, &vec![2]).unwrap(), AnyPlan::Value(Value::Integer(1))));
    assert!(matches!(field_any_plan(&d, &vec![3]).unwrap(), AnyPlan::Sequence));
    assert!(matches!(field_any_plan(&d, &vec![4]).unwrap(), AnyPlan::Unit));
}

#[test]
fn bare_defaults_refuse_other_values() {
    assert_eq!(bare_true(&Content::Int(1)), None);
    assert_eq!(bare_false(&Content::Str("x".into())), None);
    assert_eq!(bare_false(&Content::Bool(true)), Some(true));
    assert_eq!(bare_true(&Content::Unit), Some(true));
}

#[test]
fn built_props_and_args() {
    let n = node("n", vec![prop("a", Value::Integer(1)), arg(Value::Bool(true)), prop("b", Value::Null)], None);
    assert_eq!(node_args(&n).len(), 1);
    let props = node_props(&n);
    assert_eq!(props.len(), 2);
    assert_eq!(props[1].0, "b");
}

#[test]
fn every_node_in_one_field() {
    let d = doc("x 1\ny 2\nx 3\nz 4\ny 5\n");
    let mut seen = vec![0usize; d.nodes.len()];
    for k in map_keys(&d) {
        for i in nodes_named(&d.nodes, &d.nodes[k].name) {
            seen[i] += 1;
        }
    }
    assert_eq!(seen, vec![1, 1, 1, 1, 1]);
}

#[test]
fn from_str_never_panics() {
    let inputs = [
        "", "\n", "{", "}", "a {", "a }", "\"", "a \"", "a b=", "= 1", "-", "- - -",
        "a #", "#true", "a 1.2.3", "a 0x", "a {\n- 1\n- {\n}\n}", "a b c d", "/-", "a /- b",
        "é ü", "a \"\\u{0}\"", "a #null #nan", "a 99999999999999999999999999999999999999999",
        "a\u{0}b", "r#\"x\"#", "a ;", ";;;", "a {;}", "a { b { c { d } } }",
    ];
    for input in inputs.iter() {
        let _ = from_str(input);
    }
}

#[test]
fn children_of_several_names_are_one_element() {
    let d = doc("server {\n    host \"a\"\n    port 1\n}\n");
    assert!(matches!(node_seq_plan(&d.nodes[0]), SeqPlan::Itself(n) if n.name == "server"));
    let d = doc("one {\n    x 1\n}\n");
    assert!(matches!(node_seq_plan(&d.nodes[0]), SeqPlan::Children(c) if c.nodes.len() == 1));
}
