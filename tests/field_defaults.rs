use avdl_parser::json::{JsonEntry, JsonValue};
use avdl_parser::lex::ParseError;
use avdl_parser::parser::{parse_field_annotations, parse_record_field};
use avdl_parser::schema::{FieldOrder, Schema, UnionSchema};

fn chars(s: &str) -> Vec<char> {
    s.chars().collect()
}

fn field(input: &str) -> (Schema, Option<JsonValue>, FieldOrder, Option<Vec<String>>, String) {
    let s = chars(input);
    let (end, f) = parse_record_field(&s, 0, 0).unwrap();
    assert_eq!(end, s.len(), "input: {input}");
    (f.schema, f.default, f.order, f.aliases, f.name)
}

fn default_of(input: &str) -> Option<JsonValue> {
    field(input).1
}

fn fails(input: &str) -> ParseError {
    parse_record_field(&chars(input), 0, 0).map(|_| ()).unwrap_err()
}

#[test]
fn int_default_at_the_32_bit_limit() {
    let (schema, default, _, _, name) = field("int age = 2147483647;");
    assert_eq!(schema, Schema::Int);
    assert_eq!(name, "age");
    assert_eq!(default, Some(JsonValue::Number(2147483647)));
}

#[test]
fn int_default_beyond_32_bits_fails() {
    assert_eq!(fails("int age = 9223372036854775807;"), ParseError::Invalid);
    assert_eq!(fails("int age = 2147483648;"), ParseError::Invalid);
    assert_eq!(fails("time_ms age = 9223372036854775807;"), ParseError::Invalid);
}

#[test]
fn long_default_at_the_64_bit_limit() {
    assert_eq!(default_of("long stock = 9223372036854775807;"), Some(JsonValue::Number(9223372036854775807)));
    assert_eq!(fails("long stock = 9223372036854775808;"), ParseError::Invalid);
    assert_eq!(default_of("timestamp_ms t = 12;"), Some(JsonValue::Number(12)));
}

#[test]
fn syntax_errors_in_fields() {
    for input in ["int age", r#"int age = "false""#, "int age = 123", "string message", r#"string message = "holis"#, r#"string message = "holis""#, "boolean message", r#"boolean message = "false""#] {
        assert!(parse_record_field(&chars(input), 0, 0).is_err(), "input: {input}");
    }
}

#[test]
fn primitive_defaults() {
    assert_eq!(default_of("boolean   active   =   false ;"), Some(JsonValue::Bool(false)));
    assert_eq!(default_of(r#"string message = "holis how are you";"#), Some(JsonValue::Str("holis how are you".to_string())));
    assert_eq!(default_of(r#"string message = "a\"b\nc";"#), Some(JsonValue::Str("a\"b\nc".to_string())));
    assert_eq!(default_of("double stock = 123.456;"), Some(JsonValue::Double("123.456".to_string())));
    assert_eq!(default_of("float age = .0;"), Some(JsonValue::Float(".0".to_string())));
    assert_eq!(default_of("string message;"), None);
}

#[test]
fn malformed_float_literals_fail() {
    for input in ["float age = .;", "float age = 1.2.3;", "float age = 1e;", "float age = 1ee2;", "double d = e5;"] {
        assert_eq!(fails(input), ParseError::Syntax, "input: {input}");
    }
}

#[test]
fn float_literal_at_the_32_bit_maximum_is_kept() {
    let d = default_of("float age = 3.40282347e38;");
    assert_eq!(d, Some(JsonValue::Float("3.40282347e38".to_string())));
    if let Some(JsonValue::Float(t)) = d {
        let v: f32 = t.parse().unwrap();
        assert_eq!(v as f64, f32::MAX as f64);
    }
}

#[test]
fn bytes_default_is_its_utf8_bytes() {
    let expected: Vec<JsonValue> = [104, 111, 108, 105, 115].iter().map(|b| JsonValue::Number(*b)).collect();
    assert_eq!(default_of(r#"bytes message = "holis";"#), Some(JsonValue::Array(expected)));
    let (schema, d, order, _, _) = field(r#"bytes @order("ignore") message = "é";"#);
    assert_eq!(schema, Schema::Bytes);
    assert_eq!(order, FieldOrder::Ignore);
    assert_eq!(d, Some(JsonValue::Array(vec![JsonValue::Number(0xc3), JsonValue::Number(0xa9)])));
}

#[test]
fn uuid_default_is_hyphenated() {
    assert_eq!(
        default_of(r#"uuid pk = "a1a2a3a4b1b2c1c2d1d2d3d4d5d6d7d8";"#),
        Some(JsonValue::Str("a1a2a3a4-b1b2-c1c2-d1d2-d3d4d5d6d7d8".to_string()))
    );
    assert_eq!(fails(r#"uuid pk = "asd";"#), ParseError::Invalid);
}

#[test]
fn array_defaults_recurse() {
    let (schema, d, _, _, _) = field(r#"array<string> stock = ["cacao nibs"];"#);
    assert_eq!(schema, Schema::Array(Box::new(Schema::String)));
    assert_eq!(d, Some(JsonValue::Array(vec![JsonValue::Str("cacao nibs".to_string())])));
    let (schema, d, _, _, _) = field(r#"array<array<string>> stock = [["cacao"]];"#);
    assert_eq!(schema, Schema::Array(Box::new(Schema::Array(Box::new(Schema::String)))));
    assert_eq!(d, Some(JsonValue::Array(vec![JsonValue::Array(vec![JsonValue::Str("cacao".to_string())])])));
    assert_eq!(default_of("array<string> stock = [];"), Some(JsonValue::Array(vec![])));
    assert_eq!(default_of("array<int> xs = [1, 2 ,3];"), Some(JsonValue::Array(vec![JsonValue::Number(1), JsonValue::Number(2), JsonValue::Number(3)])));
    assert_eq!(fails("array<int> xs = [1, x];"), ParseError::Syntax);
}

#[test]
fn map_default_is_an_object() {
    let (schema, d, _, _, _) = field(r#"map<string> stock = {"hey": "hello"};"#);
    assert_eq!(schema, Schema::MapOf(Box::new(Schema::String)));
    assert_eq!(d, Some(JsonValue::Object(vec![JsonEntry { key: "hey".to_string(), value: JsonValue::Str("hello".to_string()) }])));
    assert_eq!(default_of("map<int> foo2 = {};"), Some(JsonValue::Object(vec![])));
}

#[test]
fn map_default_with_a_repeated_key_keeps_one_entry() {
    let d = default_of(r#"map<int> m = {"a": 1, "b": 2, "a": 3};"#);
    assert_eq!(
        d,
        Some(JsonValue::Object(vec![
            JsonEntry { key: "a".to_string(), value: JsonValue::Number(3) },
            JsonEntry { key: "b".to_string(), value: JsonValue::Number(2) },
        ]))
    );
}

#[test]
fn union_default_follows_its_first_variant() {
    let (schema, d, _, _, name) = field("union { null, string } item_id = null;");
    assert_eq!(schema, Schema::Union(UnionSchema::new(vec![Schema::Null, Schema::String]).unwrap()));
    assert_eq!(name, "item_id");
    assert_eq!(d, Some(JsonValue::Null));
    assert_eq!(default_of("union { int, string } item = 1;"), Some(JsonValue::Number(1)));
    assert_eq!(default_of(r#"union { string, int } item = "1";"#), Some(JsonValue::Str("1".to_string())));
    assert_eq!(fails(r#"union { int, string } item = "1";"#), ParseError::Syntax);
}

#[test]
fn union_rules_are_checked() {
    assert_eq!(fails("union { int, int } item;"), ParseError::Union(avdl_parser::schema::UnionError::Duplicate));
    assert_eq!(fails("union { null, union { int } } item;"), ParseError::Union(avdl_parser::schema::UnionError::Nested));
}

#[test]
fn logical_types() {
    let (schema, d, _, _, _) = field("@logicalType(\"timestamp-micros\")\nlong ts = 12;");
    assert_eq!(schema, Schema::TimestampMicros);
    assert_eq!(d, Some(JsonValue::Number(12)));
    assert_eq!(field("@logicalType(\"time-micros\") long t;").0, Schema::TimeMicros);
    assert_eq!(fails("@logicalType(\"duration\") fixed d = 1;"), ParseError::Syntax);
    assert_eq!(fails("@logicalType(\"duration\") long d = 1;"), ParseError::Unsupported);
    assert_eq!(fails("@logicalType(\"big-decimal\") long d;"), ParseError::Unsupported);
    assert_eq!(field("date age = 12;").1, Some(JsonValue::Number(12)));
}

#[test]
fn decimal_type_and_default() {
    let (schema, d, _, _, _) = field(r#"decimal(4, 2) price = "ab";"#);
    assert_eq!(schema.to_json(), r#"{"type":"bytes","logicalType":"decimal","scale":2,"precision":4}"#);
    assert_eq!(d, Some(JsonValue::Array(vec![JsonValue::Number(97), JsonValue::Number(98)])));
    assert_eq!(fails("decimal(0, 2) price;"), ParseError::Invalid);
}

#[test]
fn annotations_in_either_order_parse_identically() {
    let a = field(r#"string @order("ignore") @aliases(["old", "older"]) name;"#);
    let b = field(r#"string @aliases(["old", "older"]) @order("ignore") name;"#);
    assert_eq!(a.2, FieldOrder::Ignore);
    assert_eq!(a.3, Some(vec!["old".to_string(), "older".to_string()]));
    assert_eq!((a.2, a.3, a.4), (b.2, b.3, b.4));
}

#[test]
fn repeated_annotation_fails() {
    let s = chars(r#" @order("ignore") @order("ascending") name"#);
    assert_eq!(parse_field_annotations(&s, 0).map(|_| ()), Err(ParseError::Syntax));
}

#[test]
fn comments_around_a_field() {
    let (_, d, _, _, name) = field("/* lead */ int /* mid */ age /* x */ = 4 // trailing\n;");
    assert_eq!(name, "age");
    assert_eq!(d, Some(JsonValue::Number(4)));
}

#[test]
fn test_parse_float_fail() {
    for input in ["float age", "float age = \"false", "float age = 123", "float age = 3.50282347e40;"] {
        assert!(parse_record_field(&chars(input), 0, 0).is_err(), "input: {input}");
    }
}

#[test]
fn float_defaults_must_stay_finite() {
    assert_eq!(fails("float age = 3.50282347e40;"), ParseError::Invalid);
    assert_eq!(fails("double d = 1.7976931348623159e308;"), ParseError::Invalid);
    assert_eq!(default_of("double d = 1.7976931348623157e308;"), Some(JsonValue::Double("1.7976931348623157e308".to_string())));
    assert_eq!(fails("float f = 340282356779733661637539395458142568448;"), ParseError::Invalid);
    assert!(default_of("float f = 340282356779733661637539395458142568447;").is_some());
    assert!(default_of("float f = 0e99999999999999999999999;").is_some());
    assert_eq!(fails("float f = 1e99999999999999999999999;"), ParseError::Invalid);
}

#[test]
fn float_range_agrees_with_std() {
    let literals = [
        "0", ".0", "12.", "3.40282347e38", "3.4028235e38", "3.40282357e38", "3.4028236e38", "3.50282347e40",
        "0.0000034028236e44", "340282356779733661637539395458142568447.999", "00000340282356779733661637539395458142568448",
        "1e38", "1e39", "99999e34", "1.7976931348623157e308", "1.7976931348623158e308", "1.797693134862315807937e308",
        "1.7976931348623159e308", "1e308", "1e309", "0.1e310", "123456789012345678901234567890e280",
    ];
    for lit in literals {
        let f32_ok = lit.parse::<f32>().unwrap().is_finite();
        let f64_ok = lit.parse::<f64>().unwrap().is_finite();
        let f = parse_record_field(&chars(&format!("float x = {lit};")), 0, 0).is_ok();
        let d = parse_record_field(&chars(&format!("double x = {lit};")), 0, 0).is_ok();
        assert_eq!(f, f32_ok, "float {lit}");
        assert_eq!(d, f64_ok, "double {lit}");
    }
}
