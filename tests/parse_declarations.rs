use avdl_parser::json::JsonValue;
use avdl_parser::lex::ParseError;
use avdl_parser::parser::{parse_enum, parse_enum_declaration, parse_enum_default, parse_enum_item, parse_enum_symbols, parse_record, parse_record_field};
use avdl_parser::schema::{Name, Schema};

fn chars(s: &str) -> Vec<char> {
    s.chars().collect()
}

fn shapes(aliases: Option<Vec<String>>) -> Schema {
    Schema::Enum {
        name: Name { name: "Shapes".to_string(), namespace: None },
        aliases,
        doc: None,
        symbols: vec![
            String::from("SQUARE"),
            String::from("TRIANGLE"),
            String::from("CIRCLE"),
            String::from("OVAL"),
        ],
    }
}

fn check_items() {
    let items = ["   CIRCLE  ", "\nCIRCLE\n\n"];
    for item in items {
        let s = chars(item);
        assert_eq!(parse_enum_item(&s, 0), Some((s.len(), "CIRCLE".to_string())));
    }
}

#[test]
fn test_parse_item() {
    check_items();
}

#[test]
fn parser_test_parse_item() {
    check_items();
}

fn check_enum_bodies() {
    let bodies = [
        "{ SQUARE, TRIANGLE, CIRCLE, OVAL }",
        "{SQUARE,TRIANGLE, CIRCLE,OVAL }",
        "{ SQUARE,TRIANGLE,CIRCLE,OVAL}",
        "{SQUARE,TRIANGLE,CIRCLE,OVAL}",
    ];
    let expected: Vec<String> = vec!["SQUARE", "TRIANGLE", "CIRCLE", "OVAL"].into_iter().map(String::from).collect();
    for body in bodies {
        let s = chars(body);
        assert_eq!(parse_enum_symbols(&s, 0), Ok((s.len(), expected.clone())));
    }
}

#[test]
fn test_enum_body() {
    check_enum_bodies();
}

#[test]
fn parser_test_enum_body() {
    check_enum_bodies();
}

fn check_enum() {
    let input = "enum Shapes {
            SQUARE, TRIANGLE, CIRCLE, OVAL
        }";
    let s = chars(input);
    assert_eq!(parse_enum(&s, 0), Ok((s.len(), shapes(None))));
}

#[test]
fn test_parse_enum() {
    check_enum();
}

#[test]
fn parser_test_parse_enum() {
    check_enum();
}

fn check_enum_with_alias(input: &str) {
    let s = chars(input);
    let (end, schema) = parse_enum(&s, 0).unwrap();
    assert_eq!(end, s.len());
    let aliases = vec![String::from("org.old.OldRecord"), String::from("org.ancient.AncientRecord")];
    assert_eq!(schema, shapes(Some(aliases.clone())));
    match schema {
        Schema::Enum { aliases: found, .. } => assert_eq!(found, Some(aliases)),
        other => panic!("not an enum: {:?}", other),
    }
}

#[test]
fn test_parse_enum_with_alias() {
    check_enum_with_alias(
        r#"@aliases(["org.old.OldRecord", "org.ancient.AncientRecord"])
        enum Shapes {
            SQUARE, TRIANGLE, CIRCLE, OVAL
        }"#,
    );
}

#[test]
fn parser_test_parse_enum_with_alias() {
    test_parse_enum_with_alias();
}

#[test]
fn test_parse_enum_with_alias_and_default() {
    check_enum_with_alias(
        r#"@aliases(["org.old.OldRecord", "org.ancient.AncientRecord"])
        enum Shapes {
            SQUARE, TRIANGLE, CIRCLE, OVAL
        } = SQUARE;"#,
    );
}

#[test]
fn parser_test_parse_enum_with_alias_and_default() {
    test_parse_enum_with_alias_and_default();
}

fn check_record() {
    let sample = r#"record Employee {
            string name;
            boolean active = true;
            long salary;
        }"#;
    let (_tail, schema) = parse_record(&chars(sample), 0).unwrap();
    let expected = r#"{"name":"Employee","type":"record","fields":[{"name":"name","type":"string"},{"name":"active","type":"boolean"},{"name":"salary","type":"long"}]}"#;
    assert_eq!(schema.canonical_form(), expected);
}

#[test]
fn test_parse_record() {
    check_record();
}

#[test]
fn parser_test_parse_record() {
    check_record();
}

fn field(name: &str, doc: Option<&str>, default: Option<JsonValue>, schema: Schema, position: usize) -> avdl_parser::schema::RecordField {
    avdl_parser::schema::RecordField {
        name: name.to_string(),
        doc: doc.map(String::from),
        default,
        schema,
        order: avdl_parser::schema::FieldOrder::Ascending,
        aliases: None,
        position,
    }
}

fn check_record_alias() {
    let sample = r#"@aliases(["org.old.OldRecord", "org.ancient.AncientRecord"])
        record Employee {
            string name;
        }"#;
    let (_tail, schema) = parse_record(&chars(sample), 0).unwrap();
    let expected = Schema::Record {
        name: Name { name: "Employee".into(), namespace: None },
        aliases: Some(vec![String::from("org.old.OldRecord"), String::from("org.ancient.AncientRecord")]),
        doc: None,
        fields: vec![field("name", None, None, Schema::String, 0)],
    };
    println!("{schema:#?}");
    assert_eq!(schema, expected);
}

#[test]
fn test_parse_record_alias() {
    check_record_alias();
}

#[test]
fn parser_test_parse_record_alias() {
    check_record_alias();
}

fn check_big_record() {
    let input_schema = r#"@namespace("org.apache.avro.someOtherNamespace")
        @aliases(["org.old.OldRecord", "org.ancient.AncientRecord"])
        record Employee {
            /** person fullname */
            string name;
            string @aliases(["item"]) item_id = "ABC123";
            int age;
        }"#;
    let (_tail, schema) = parse_record(&chars(input_schema), 0).unwrap();
    let out = schema.to_json();
    println!("{out}");
    let expected = Schema::Record {
        name: Name {
            name: "Employee".into(),
            namespace: Some("org.apache.avro.someOtherNamespace".into()),
        },
        aliases: Some(vec![String::from("org.old.OldRecord"), String::from("org.ancient.AncientRecord")]),
        doc: None,
        fields: vec![
            field("name", Some("person fullname"), None, Schema::String, 0),
            field("item_id", None, Some(JsonValue::Str(String::from("ABC123"))), Schema::String, 1),
            field("age", None, None, Schema::Int, 2),
        ],
    };
    assert_eq!(schema, expected);
}

#[test]
fn test_parse_big_record() {
    check_big_record();
}

#[test]
fn parser_test_parse_big_record() {
    check_big_record();
}

#[test]
fn test_parse_double_fail() {
    for input in ["double stock", "double stock = \"false", "double stock = 123"] {
        assert!(parse_record_field(&chars(input), 0, 0).is_err(), "input: {input}");
    }
}

#[test]
fn big_record_serializes_with_namespace_doc_and_aliases() {
    let input = r#"@namespace("org.apache.avro.someOtherNamespace")
        @aliases(["org.old.OldRecord"])
        record Employee {
            /** person fullname */
            string name;
            string @aliases(["item"]) item_id = "ABC123";
        }"#;
    let (_tail, schema) = parse_record(&chars(input), 0).unwrap();
    assert_eq!(
        schema.to_json(),
        r#"{"type":"record","name":"Employee","namespace":"org.apache.avro.someOtherNamespace","aliases":["org.old.OldRecord"],"fields":[{"name":"name","type":"string"},{"name":"item_id","type":"string","default":"ABC123","aliases":["item"]}]}"#
    );
    match schema {
        Schema::Record { fields, .. } => {
            assert_eq!(fields[0].doc, Some(" person fullname ".to_string()));
            assert_eq!(fields[1].position, 1);
        },
        _ => panic!("not a record"),
    }
}

#[test]
fn enum_alias_must_be_a_full_name() {
    let s = chars(r#"@aliases(["org..old"]) enum E { A }"#);
    assert_eq!(parse_enum(&s, 0).map(|_| ()), Err(ParseError::Invalid));
    let s = chars(r#"@aliases(["1abc"]) enum E { A }"#);
    assert_eq!(parse_enum(&s, 0).map(|_| ()), Err(ParseError::Invalid));
}

#[test]
fn enum_default_symbol_is_read() {
    for (input, expected) in [("= holis;", "holis"), ("= holis ;", "holis"), ("= CIRCLE;", "CIRCLE")] {
        let s = chars(input);
        assert_eq!(parse_enum_default(&s, 0), Some((s.len(), expected.to_string())));
    }
    assert_eq!(parse_enum_default(&chars("= 1abc;"), 0), None);
}

#[test]
fn annotation_values() {
    let ns_cases = [
        r#"@namespace("org.apache.avro.test")"#,
        r#"@namespace  ( "org.apache.avro.test" )"#,
        "@namespace  (\n        \"org.apache.avro.test\"\n    )",
    ];
    for input in ns_cases {
        let s = chars(input);
        assert_eq!(avdl_parser::parser::parse_namespace(&s, 0), Ok((s.len(), "org.apache.avro.test".to_string())));
    }
    let order_cases = [
        (r#"@order("ascending")"#, avdl_parser::schema::FieldOrder::Ascending),
        ("@order(\n        \"ascending\"\n    )", avdl_parser::schema::FieldOrder::Ascending),
        (r#"@order("descending")"#, avdl_parser::schema::FieldOrder::Descending),
        (r#"@order("ignore")"#, avdl_parser::schema::FieldOrder::Ignore),
    ];
    for (input, expected) in order_cases {
        let s = chars(input);
        assert_eq!(avdl_parser::parser::parse_order(&s, 0), Ok((s.len(), expected)));
    }
    assert!(avdl_parser::parser::parse_order(&chars(r#"@order("Ascending")"#), 0).is_err());
    let alias_cases = [
        (r#"@aliases(["oldField", "ancientField"])"#, vec!["oldField", "ancientField"]),
        (r#"@aliases(["oldField","ancientField"])"#, vec!["oldField", "ancientField"]),
        (r#"@aliases(["org.old.OldRecord","org.ancient.AncientRecord"])"#, vec!["org.old.OldRecord", "org.ancient.AncientRecord"]),
    ];
    for (input, expected) in alias_cases {
        let s = chars(input);
        let expected: Vec<String> = expected.into_iter().map(String::from).collect();
        assert_eq!(avdl_parser::parser::parse_aliases(&s, 0), Ok((s.len(), expected)));
    }
    let s = chars("/** Documentation for the enum type Kind */");
    assert_eq!(avdl_parser::parser::parse_doc(&s, 0), Some((s.len(), " Documentation for the enum type Kind ".to_string())));
}

#[test]
fn comments_are_skipped() {
    for input in ["// holis\n", "/*Som343f */", "//Som343f\n", "/* holis */", "  /* TODO: Move to another place, etc. */  "] {
        let s = chars(input);
        assert_eq!(avdl_parser::lex::skip_spaces_comment(&s, 0), s.len(), "{input:?}");
    }
    assert_eq!(avdl_parser::lex::skip_spaces_comment(&chars("/* open"), 0), 0);
}

#[test]
fn enum_declaration_returns_its_default() {
    let s = chars("enum Shapes { SQUARE, CIRCLE } = CIRCLE;");
    let (end, schema, default) = parse_enum_declaration(&s, 0).unwrap();
    assert_eq!(end, s.len());
    assert_eq!(default, Some("CIRCLE".to_string()));
    assert_eq!(schema.to_json(), r#"{"type":"enum","name":"Shapes","symbols":["SQUARE","CIRCLE"]}"#);
    let s = chars("enum Shapes { SQUARE }");
    assert_eq!(parse_enum_declaration(&s, 0).map(|(_, _, d)| d), Ok(None));
}
