use enum_codec::de::deserialize;
use enum_codec::shape::{EnumShape, EnumValue, TagType, Variant, VariantShape};
use enum_codec::value::Value;

fn s(text: &str) -> String {
    text.to_string()
}

fn example_variants() -> Vec<Variant> {
    vec![
        Variant {
            name: s("A"),
            shape: VariantShape::Tuple { arity: 1 },
        },
        Variant {
            name: s("renamedB"),
            shape: VariantShape::Tuple { arity: 2 },
        },
        Variant {
            name: s("C"),
            shape: VariantShape::Named {
                fields: vec![s("x")],
            },
        },
        Variant {
            name: s("D"),
            shape: VariantShape::Unit,
        },
    ]
}

fn example_values() -> Vec<EnumValue> {
    vec![
        EnumValue {
            variant: 0,
            fields: vec![Value::Int(21)],
        },
        EnumValue {
            variant: 1,
            fields: vec![Value::Int(42), Value::Str(s("everything"))],
        },
        EnumValue {
            variant: 2,
            fields: vec![Value::Int(2)],
        },
        EnumValue {
            variant: 3,
            fields: vec![],
        },
    ]
}

fn decode_all(shape: &EnumShape, inputs: Vec<Value>) -> Vec<EnumValue> {
    let mut out = Vec::new();
    for input in inputs {
        out.push(deserialize(shape, input).unwrap());
    }
    out
}

#[test]
fn deserialize_test_external() {
    let shape = EnumShape::new(TagType::External, example_variants()).unwrap();
    // [{"A":21},{"renamedB":[42,"everything"]},{"C":{"x":2}},"D"]
    let inputs = vec![
        Value::Obj(vec![(s("A"), Value::Int(21))]),
        Value::Obj(vec![(
            s("renamedB"),
            Value::Arr(vec![Value::Int(42), Value::Str(s("everything"))]),
        )]),
        Value::Obj(vec![(s("C"), Value::Obj(vec![(s("x"), Value::Int(2))]))]),
        Value::Str(s("D")),
    ];
    let actual = decode_all(&shape, inputs);
    assert_eq!(actual, example_values());
}

#[test]
fn test_adjacent() {
    let shape = EnumShape::new(
        TagType::Adjacent {
            tag: s("type"),
            content: s("content"),
        },
        example_variants(),
    )
    .unwrap();
    // [{"type":"A","content":21},{"type":"renamedB","content":[42,"everything"]},
    //  {"type":"C","content":{"x":2}},{"type":"D"}]
    let inputs = vec![
        Value::Obj(vec![
            (s("type"), Value::Str(s("A"))),
            (s("content"), Value::Int(21)),
        ]),
        Value::Obj(vec![
            (s("type"), Value::Str(s("renamedB"))),
            (
                s("content"),
                Value::Arr(vec![Value::Int(42), Value::Str(s("everything"))]),
            ),
        ]),
        Value::Obj(vec![
            (s("type"), Value::Str(s("C"))),
            (s("content"), Value::Obj(vec![(s("x"), Value::Int(2))])),
        ]),
        Value::Obj(vec![(s("type"), Value::Str(s("D")))]),
    ];
    let actual = decode_all(&shape, inputs);
    assert_eq!(actual, example_values());
}

#[test]
fn deserialize_test_internal() {
    let shape = EnumShape::new(
        TagType::Internal { tag: s("type") },
        vec![
            Variant {
                name: s("renamedB"),
                shape: VariantShape::Unit,
            },
            Variant {
                name: s("C"),
                shape: VariantShape::Named {
                    fields: vec![s("x")],
                },
            },
            Variant {
                name: s("D"),
                shape: VariantShape::Unit,
            },
        ],
    )
    .unwrap();
    // [{"type":"renamedB"},{"type":"C","x":2},{"type":"D"}]
    let inputs = vec![
        Value::Obj(vec![(s("type"), Value::Str(s("renamedB")))]),
        Value::Obj(vec![
            (s("type"), Value::Str(s("C"))),
            (s("x"), Value::Int(2)),
        ]),
        Value::Obj(vec![(s("type"), Value::Str(s("D")))]),
    ];
    let actual = decode_all(&shape, inputs);
    let expected = vec![
        EnumValue {
            variant: 0,
            fields: vec![],
        },
        EnumValue {
            variant: 1,
            fields: vec![Value::Int(2)],
        },
        EnumValue {
            variant: 2,
            fields: vec![],
        },
    ];
    assert_eq!(actual, expected);
}
