use enum_codec::ser::serialize;
use enum_codec::shape::{EnumShape, EnumValue, TagType, Variant, VariantShape};
use enum_codec::value::Value;

fn to_json(v: &Value) -> String {
    match v {
        Value::Null => "null".to_string(),
        Value::Bool(b) => {
            if *b {
                "true".to_string()
            } else {
                "false".to_string()
            }
        }
        Value::Int(i) => format!("{}", i),
        Value::Str(s) => format!("\"{}\"", s),
        Value::Arr(items) => {
            let mut out = String::from("[");
            for (i, item) in items.iter().enumerate() {
                if i > 0 {
                    out.push(',');
                }
                out.push_str(&to_json(item));
            }
            out.push(']');
            out
        }
        Value::Obj(entries) => {
            let mut out = String::from("{");
            for (i, entry) in entries.iter().enumerate() {
                if i > 0 {
                    out.push(',');
                }
                out.push_str(&format!("\"{}\":{}", entry.0, to_json(&entry.1)));
            }
            out.push('}');
            out
        }
    }
}

fn to_json_list(shape: &EnumShape, values: Vec<EnumValue>) -> String {
    let mut parts: Vec<String> = Vec::new();
    for v in values {
        parts.push(to_json(&serialize(shape, v)));
    }
    format!("[{}]", parts.join(","))
}

fn example_variants() -> Vec<Variant> {
    vec![
        Variant {
            name: "A".to_string(),
            shape: VariantShape::Tuple { arity: 1 },
        },
        Variant {
            name: "renamedB".to_string(),
            shape: VariantShape::Tuple { arity: 2 },
        },
        Variant {
            name: "C".to_string(),
            shape: VariantShape::Named {
                fields: vec!["x".to_string()],
            },
        },
        Variant {
            name: "D".to_string(),
            shape: VariantShape::Unit,
        },
    ]
}

fn example_values() -> Vec<EnumValue> {
    vec![
        EnumValue {
            variant: 0,
            fields: vec![Value::Int(21)],
        },
        EnumValue {
            variant: 1,
            fields: vec![Value::Int(42), Value::Str("everything".to_string())],
        },
        EnumValue {
            variant: 2,
            fields: vec![Value::Int(2)],
        },
        EnumValue {
            variant: 3,
            fields: vec![],
        },
    ]
}

#[test]
fn serialize_test_internal() {
    let shape = EnumShape::new(
        TagType::Internal {
            tag: "type".to_string(),
        },
        vec![
            Variant {
                name: "A".to_string(),
                shape: VariantShape::Unit,
            },
            Variant {
                name: "renamedB".to_string(),
                shape: VariantShape::Unit,
            },
            Variant {
                name: "C".to_string(),
                shape: VariantShape::Named {
                    fields: vec!["x".to_string()],
                },
            },
        ],
    )
    .unwrap();
    let values = vec![
        EnumValue {
            variant: 0,
            fields: vec![],
        },
        EnumValue {
            variant: 1,
            fields: vec![],
        },
        EnumValue {
            variant: 2,
            fields: vec![Value::Int(2)],
        },
    ];
    let actual = to_json_list(&shape, values);
    let expected = r#"[{"type":"A"},{"type":"renamedB"},{"type":"C","x":2}]"#;
    assert_eq!(actual, expected);
}

#[test]
fn serialize_test_external() {
    let shape = EnumShape::new(TagType::External, example_variants()).unwrap();
    let actual = to_json_list(&shape, example_values());
    let expected = r#"[{"A":21},{"renamedB":[42,"everything"]},{"C":{"x":2}},"D"]"#;
    assert_eq!(actual, expected);
}

#[test]
fn test_untagged() {
    let shape = EnumShape::new(TagType::Untagged, example_variants()).unwrap();
    let actual = to_json_list(&shape, example_values());
    let expected = r#"[21,[42,"everything"],{"x":2},"D"]"#;
    assert_eq!(actual, expected);
}

#[test]
fn generic_named() {
    let shape = EnumShape::new(
        TagType::External,
        vec![
            Variant {
                name: "A".to_string(),
                shape: VariantShape::Named {
                    fields: vec!["t".to_string()],
                },
            },
            Variant {
                name: "B".to_string(),
                shape: VariantShape::Unit,
            },
        ],
    )
    .unwrap();
    let values = vec![
        EnumValue {
            variant: 0,
            fields: vec![Value::Str("abc".to_string())],
        },
        EnumValue {
            variant: 1,
            fields: vec![],
        },
    ];
    let actual = to_json_list(&shape, values);
    let expected = r#"[{"A":{"t":"abc"}},"B"]"#;
    assert_eq!(actual, expected);
}

#[test]
fn generic_unnamed() {
    let shape = EnumShape::new(
        TagType::External,
        vec![
            Variant {
                name: "A".to_string(),
                shape: VariantShape::Tuple { arity: 1 },
            },
            Variant {
                name: "B".to_string(),
                shape: VariantShape::Unit,
            },
        ],
    )
    .unwrap();
    let values = vec![
        EnumValue {
            variant: 0,
            fields: vec![Value::Str("abc".to_string())],
        },
        EnumValue {
            variant: 1,
            fields: vec![],
        },
    ];
    let actual = to_json_list(&shape, values);
    let expected = r#"[{"A":"abc"},"B"]"#;
    assert_eq!(actual, expected);
}
