use avdl_parser::json::JsonValue;
use avdl_parser::lex::{var_name, ParseError};
use avdl_parser::parser::{parse, parse_fixed, parse_protocol, parse_record, parse_record_field, EnumDefault};
use avdl_parser::schema::{Name, Schema, SchemaKind, UnionError, UnionSchema};

fn chars(s: &str) -> Vec<char> {
    s.chars().collect()
}

#[test]
fn union_schema_rules() {
    assert_eq!(UnionSchema::new(vec![]).map(|_| ()).unwrap_err(), UnionError::Empty);
    assert_eq!(
        UnionSchema::new(vec![Schema::Null, Schema::Int, Schema::Null]).map(|_| ()).unwrap_err(),
        UnionError::Duplicate
    );
    let inner = Schema::Union(UnionSchema::new(vec![Schema::Int]).unwrap());
    assert_eq!(UnionSchema::new(vec![Schema::Null, inner]).map(|_| ()).unwrap_err(), UnionError::Nested);
    let named = |n: &str| Schema::Fixed { name: Name { name: n.to_string(), namespace: None }, aliases: None, doc: None, size: 4 };
    let u = UnionSchema::new(vec![named("A"), named("B"), Schema::Null]).unwrap();
    assert_eq!(u.variants().len(), 3);
    assert_eq!(u.variants()[2].kind(), SchemaKind::Null);
}

#[test]
fn record_round_trip() {
    let text = "record Employee { string name; boolean active = true; long salary; }";
    let (end, schema) = parse_record(&chars(text), 0).unwrap();
    assert_eq!(end, text.chars().count());
    assert_eq!(
        schema.to_json(),
        r#"{"type":"record","name":"Employee","fields":[{"name":"name","type":"string"},{"name":"active","type":"boolean","default":true},{"name":"salary","type":"long"}]}"#
    );
}

#[test]
fn differently_annotated_records_compare_equal() {
    let a = r#"@aliases(["x.Y"]) record R { /** d */ string @order("ignore") name = "n"; int age; }"#;
    let b = "record R { string name; int age = 3; }";
    let (_, a) = parse_record(&chars(a), 0).unwrap();
    let (_, b) = parse_record(&chars(b), 0).unwrap();
    assert_eq!(a, b);
}

#[test]
fn records_differing_in_field_order_or_type_compare_unequal() {
    let base = parse_record(&chars("record R { string name; int age; }"), 0).unwrap().1;
    let swapped = parse_record(&chars("record R { int age; string name; }"), 0).unwrap().1;
    let retyped = parse_record(&chars("record R { string name; long age; }"), 0).unwrap().1;
    assert_ne!(base, swapped);
    assert_ne!(base, retyped);
}

#[test]
fn fixed_with_and_without_doc() {
    let s = chars("fixed MD5(16);");
    let (end, schema) = parse_fixed(&s, 0).unwrap();
    assert_eq!(end, s.len());
    assert_eq!(schema.to_json(), r#"{"type":"fixed","name":"MD5","size":16}"#);
    let s = chars("/** my hash */ \nfixed MD5(16);");
    let (_, schema) = parse_fixed(&s, 0).unwrap();
    match schema {
        Schema::Fixed { name, doc, size, aliases } => {
            assert_eq!(name.name, "MD5");
            assert_eq!(doc, Some(" my hash ".to_string()));
            assert_eq!(size, 16);
            assert_eq!(aliases, None);
        },
        other => panic!("not fixed: {:?}", other),
    }
    let s = chars(r#"fixed @aliases(["md1"]) MD5(16);"#);
    assert!(parse_fixed(&s, 0).is_ok());
    assert_eq!(parse_fixed(&chars("fixed Z(0);"), 0).map(|_| ()), Err(ParseError::Invalid));
}

#[test]
fn protocol_holds_records_enums_and_fixed() {
    let text = r#"protocol MyProtocol {
        // hashes
        fixed MD5(16);
        enum Kind { A, B } = A;
        record Hello {
            string name;
        }
    }"#;
    let (end, v, _) = parse_protocol(&chars(text), 0).unwrap();
    assert_eq!(end, text.chars().count());
    assert_eq!(v.len(), 3);
    assert_eq!(v[0].kind(), SchemaKind::Fixed);
    assert_eq!(v[1].kind(), SchemaKind::Enum);
    assert_eq!(v[2].kind(), SchemaKind::Record);
}

#[test]
fn document_is_a_protocol_or_a_record() {
    let (rest, v, _) = parse("protocol P { record A { int x; } } tail").unwrap();
    assert_eq!(rest, " tail");
    assert_eq!(v.len(), 1);
    let (rest, v, _) = parse("@namespace(\"a.b\") record A { int x; }").unwrap();
    assert_eq!(rest, "");
    assert_eq!(v[0].canonical_form(), r#"{"name":"a.b.A","type":"record","fields":[{"name":"x","type":"int"}]}"#);
    assert_eq!(parse("nothing here").map(|_| ()), Err(ParseError::Syntax));
}

#[test]
fn logical_types_serialize_with_their_base_type() {
    let cases = [
        ("uuid u;", r#"{"type":"string","logicalType":"uuid"}"#, r#"{"type":"string"}"#),
        ("date d;", r#"{"type":"int","logicalType":"date"}"#, r#"{"type":"int"}"#),
        ("time_ms t;", r#"{"type":"int","logicalType":"time-millis"}"#, r#"{"type":"int"}"#),
        ("timestamp_ms t;", r#"{"type":"long","logicalType":"timestamp-millis"}"#, r#"{"type":"long"}"#),
        ("@logicalType(\"duration\") long d;", r#"{"type":{"type":"fixed","name":"duration","size":12},"logicalType":"duration"}"#, r#"{"type":{"name":"duration","type":"fixed","size":12}}"#),
    ];
    for (text, json, canonical) in cases {
        let (_, f) = parse_record_field(&chars(text), 0, 0).unwrap();
        assert_eq!(f.schema.to_json(), json, "{text}");
        assert_eq!(f.schema.canonical_form(), canonical, "{text}");
    }
}

#[test]
fn containers_serialize() {
    let (_, f) = parse_record_field(&chars(r#"map<array<int>> m = {"k": [1]};"#), 0, 0).unwrap();
    assert_eq!(f.schema.to_json(), r#"{"type":"map","values":{"type":"array","items":"int"}}"#);
    let (_, f) = parse_record_field(&chars("union { null, string, bytes } u = null;"), 0, 0).unwrap();
    assert_eq!(f.schema.to_json(), r#"["null","string","bytes"]"#);
}

#[test]
fn defaults_serialize_as_json() {
    let text = r#"record R {
        float f = .5;
        double d = 12.;
        double z = 007.5e3;
        string s = "q\"t";
        bytes b = "hi";
    }"#;
    let (_, r) = parse_record(&chars(text), 0).unwrap();
    assert_eq!(
        r.to_json(),
        r#"{"type":"record","name":"R","fields":[{"name":"f","type":"float","default":0.5},{"name":"d","type":"double","default":12.0},{"name":"z","type":"double","default":7.5e3},{"name":"s","type":"string","default":"q\"t"},{"name":"b","type":"bytes","default":[104,105]}]}"#
    );
}

#[test]
fn enum_serializes_with_symbols_and_namespace_free_name() {
    let (_, v, _) = parse_protocol(&chars(r#"protocol P { @aliases(["old.E"]) enum E { A, B } }"#), 0).unwrap();
    assert_eq!(v[0].to_json(), r#"{"type":"enum","name":"E","symbols":["A","B"],"aliases":["old.E"]}"#);
    assert_eq!(v[0].canonical_form(), r#"{"name":"E","type":"enum","symbols":["A","B"]}"#);
}

#[test]
fn names_follow_the_identifier_grammar() {
    for ok in ["my_name", "myname", "numbers3", "numbers3_", "n20umbers3", "_n20umbers3", "_n20umbers3_"] {
        let s = chars(ok);
        assert_eq!(var_name(&s, 0), Some((s.len(), ok.to_string())));
    }
    for bad in ["1var_name", "-1var_name", "$0_1var_name", "1_n20umbers3", "1_n20umbers3_", ""] {
        assert_eq!(var_name(&chars(bad), 0), None, "{bad}");
    }
}

#[test]
fn negative_numbers_serialize() {
    let r = Schema::Record {
        name: Name { name: "R".to_string(), namespace: None },
        aliases: None,
        doc: None,
        fields: vec![avdl_parser::schema::RecordField {
            name: "n".to_string(),
            doc: None,
            default: Some(JsonValue::Number(-42)),
            schema: Schema::Int,
            order: avdl_parser::schema::FieldOrder::Ascending,
            aliases: None,
            position: 0,
        }],
    };
    assert_eq!(r.to_json(), r#"{"type":"record","name":"R","fields":[{"name":"n","type":"int","default":-42}]}"#);
}

#[test]
fn field_positions_follow_declaration_order() {
    let (_, r) = parse_record(&chars("record R { string a; int b; long c; }"), 0).unwrap();
    assert_eq!(r.field_position("a"), Some(0));
    assert_eq!(r.field_position("c"), Some(2));
    assert_eq!(r.field_position("d"), None);
    assert_eq!(Schema::Int.field_position("a"), None);
    match r {
        Schema::Record { fields, .. } => {
            for (k, f) in fields.iter().enumerate() {
                assert_eq!(f.position, k);
            }
        },
        _ => panic!("not a record"),
    }
}

#[test]
fn protocol_name_may_hold_underscores() {
    let text = "protocol My_P { fixed MD5(16); }";
    let (end, v, _) = parse_protocol(&chars(text), 0).unwrap();
    assert_eq!(end, text.chars().count());
    assert_eq!(v.len(), 1);
    assert_eq!(v[0].kind(), SchemaKind::Fixed);
    let (rest, v, _) = parse("protocol _p1 { record A { int x; } }").unwrap();
    assert_eq!(rest, "");
    assert_eq!(v.len(), 1);
    assert_eq!(parse_protocol(&chars("protocol 1P { fixed MD5(16); }"), 0).map(|_| ()), Err(ParseError::Syntax));
}

#[test]
fn errors_inside_a_record_keep_their_kind() {
    let cases = [
        ("record R { int a = 2147483648; }", ParseError::Invalid),
        (r#"record R { uuid u = "nope"; }"#, ParseError::Invalid),
        ("record R { @logicalType(\"big\") long a; }", ParseError::Unsupported),
        ("record R { union { int, int } u; }", ParseError::Union(UnionError::Duplicate)),
        ("record R { int a }", ParseError::Syntax),
    ];
    for (text, expected) in cases {
        assert_eq!(parse_record(&chars(text), 0).map(|_| ()), Err(expected), "{text}");
        let protocol = format!("protocol P {{ {text} }}");
        assert_eq!(parse_protocol(&chars(&protocol), 0).map(|_| ()), Err(expected), "{protocol}");
    }
    assert_eq!(parse("protocol P { fixed Z(0); }").map(|_| ()), Err(ParseError::Invalid));
}

#[test]
fn namespaces_must_be_full_names() {
    for ns in ["", "a..b", "1a", "a."] {
        let text = format!("@namespace(\"{ns}\") record R {{ int x; }}");
        assert_eq!(parse_record(&chars(&text), 0).map(|_| ()), Err(ParseError::Invalid), "{ns:?}");
    }
    let s = chars(r#"@namespace("a.b_c.D1")"#);
    assert_eq!(avdl_parser::parser::parse_namespace(&s, 0), Ok((s.len(), "a.b_c.D1".to_string())));
}

#[test]
fn fixed_annotations_in_either_order() {
    for text in [r#"fixed @order("ignore") @aliases(["md1"]) MD5(16);"#, r#"fixed @aliases(["md1"]) @order("ignore") MD5(16);"#] {
        let s = chars(text);
        let (end, schema) = parse_fixed(&s, 0).unwrap();
        assert_eq!(end, s.len(), "{text}");
        assert_eq!(schema.to_json(), r#"{"type":"fixed","name":"MD5","size":16}"#);
    }
}

#[test]
fn reindented_documents_keep_their_key_order() {
    let (_, r) = parse_record(&chars(r#"@namespace("n") record Employee { string name; boolean active = true; }"#), 0).unwrap();
    let text = r.to_json();
    let value: serde_json::Value = serde_json::from_str(&text).unwrap();
    assert_eq!(serde_json::to_string(&value).unwrap(), text);
}

#[test]
fn enum_defaults_are_reported_beside_the_schemas() {
    let text = "protocol P { enum Kind { A, B } = B; enum Plain { X } fixed F(2); }";
    let (_, v, notes) = parse(text).unwrap();
    assert_eq!(v.len(), 3);
    assert_eq!(notes, vec![EnumDefault { enum_name: "Kind".to_string(), symbol: "B".to_string() }]);
    let (_, _, notes) = parse("record R { int x; }").unwrap();
    assert!(notes.is_empty());
}

#[test]
fn empty_records_and_protocols_parse() {
    let s = chars("record R { }");
    let (end, r) = parse_record(&s, 0).unwrap();
    assert_eq!(end, s.len());
    assert_eq!(r.to_json(), r#"{"type":"record","name":"R","fields":[]}"#);
    let s = chars("protocol P { }");
    let (end, v, notes) = parse_protocol(&s, 0).unwrap();
    assert_eq!(end, s.len());
    assert!(v.is_empty() && notes.is_empty());
}

#[test]
fn fixed_keeps_its_doc_inside_a_protocol() {
    let text = "protocol P {\n  /** d */ fixed F(16);\n  /** second */\n  fixed G(4);\n}";
    let (_, v, _) = parse_protocol(&chars(text), 0).unwrap();
    let docs: Vec<Option<String>> = v
        .iter()
        .map(|t| match t {
            Schema::Fixed { doc, .. } => doc.clone(),
            other => panic!("not fixed: {:?}", other),
        })
        .collect();
    assert_eq!(docs, vec![Some(" d ".to_string()), Some(" second ".to_string())]);
    let (_, alone) = parse_fixed(&chars("/** d */ fixed F(16);"), 0).unwrap();
    assert_eq!(alone.to_json(), v[0].to_json());
}

#[test]
fn every_field_keeps_its_doc() {
    let text = "record R {\n  /** first */ string a;\n  /** second */ int b;\n  // plain\n  long c;\n}";
    let (_, r) = parse_record(&chars(text), 0).unwrap();
    match r {
        Schema::Record { fields, .. } => {
            let docs: Vec<Option<String>> = fields.iter().map(|f| f.doc.clone()).collect();
            assert_eq!(docs, vec![Some(" first ".to_string()), Some(" second ".to_string()), None]);
        },
        _ => panic!("not a record"),
    }
}

#[test]
fn doc_comments_before_enums_and_records_are_skipped() {
    let text = "protocol P { /** e */ enum E { A } /** r */ record R { int x; } }";
    let (_, v, _) = parse_protocol(&chars(text), 0).unwrap();
    assert_eq!(v.len(), 2);
    assert_eq!(v[0].kind(), SchemaKind::Enum);
    assert_eq!(v[1].kind(), SchemaKind::Record);
}
