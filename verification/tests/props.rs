use enum_codec::attr::{attr_rename, name_of_field, name_of_variant, tag_type, Directive};
use enum_codec::de::{derive_deserialize, deserialize, DecodeError};
use enum_codec::ser::{derive_serialize, serialize};
use enum_codec::shape::{DefError, EnumShape, EnumValue, TagType, Variant, VariantShape};
use enum_codec::value::Value;

fn s(text: &str) -> String {
    text.to_string()
}

fn example_variants() -> Vec<Variant> {
    vec![
        Variant {
            name: s("A"),
            shape: VariantShape::Tuple { arity: 1 },
        },
        Variant {
            name: s("renamedB"),
            shape: VariantShape::Tuple { arity: 2 },
        },
        Variant {
            name: s("C"),
            shape: VariantShape::Named {
                fields: vec![s("x")],
            },
        },
        Variant {
            name: s("D"),
            shape: VariantShape::Unit,
        },
    ]
}

fn external_shape() -> EnumShape {
    EnumShape::new(TagType::External, example_variants()).unwrap()
}

fn internal_shape() -> EnumShape {
    EnumShape::new(
        TagType::Internal { tag: s("type") },
        vec![
            Variant {
                name: s("C"),
                shape: VariantShape::Named {
                    fields: vec![s("x")],
                },
            },
            Variant {
                name: s("D"),
                shape: VariantShape::Unit,
            },
        ],
    )
    .unwrap()
}

fn adjacent_shape() -> EnumShape {
    EnumShape::new(
        TagType::Adjacent {
            tag: s("type"),
            content: s("content"),
        },
        example_variants(),
    )
    .unwrap()
}

#[test]
fn external_unit_round_trip() {
    let shape = external_shape();
    let encoded = serialize(
        &shape,
        EnumValue {
            variant: 3,
            fields: vec![],
        },
    );
    assert_eq!(encoded, Value::Str(s("D")));
    let decoded = deserialize(&shape, Value::Str(s("D"))).unwrap();
    assert_eq!(
        decoded,
        EnumValue {
            variant: 3,
            fields: vec![],
        }
    );
}

#[test]
fn external_named_encoding() {
    let shape = external_shape();
    let encoded = serialize(
        &shape,
        EnumValue {
            variant: 2,
            fields: vec![Value::Int(2)],
        },
    );
    let expected = Value::Obj(vec![(s("C"), Value::Obj(vec![(s("x"), Value::Int(2))]))]);
    assert_eq!(encoded, expected);
}

#[test]
fn internal_named_encoding_is_flat_tag_first() {
    let shape = internal_shape();
    let encoded = serialize(
        &shape,
        EnumValue {
            variant: 0,
            fields: vec![Value::Int(2)],
        },
    );
    let expected = Value::Obj(vec![
        (s("type"), Value::Str(s("C"))),
        (s("x"), Value::Int(2)),
    ]);
    assert_eq!(encoded, expected);
    let decoded = deserialize(&shape, expected).unwrap();
    assert_eq!(
        decoded,
        EnumValue {
            variant: 0,
            fields: vec![Value::Int(2)],
        }
    );
}

#[test]
fn internal_tag_must_precede_fields() {
    let shape = internal_shape();
    let reversed = Value::Obj(vec![
        (s("x"), Value::Int(2)),
        (s("type"), Value::Str(s("C"))),
    ]);
    assert_eq!(deserialize(&shape, reversed), Err(DecodeError));
}

#[test]
fn adjacent_tuple_round_trip_with_rename() {
    let shape = adjacent_shape();
    let value = EnumValue {
        variant: 1,
        fields: vec![Value::Int(42), Value::Str(s("s"))],
    };
    let encoded = serialize(&shape, value);
    let expected = Value::Obj(vec![
        (s("type"), Value::Str(s("renamedB"))),
        (
            s("content"),
            Value::Arr(vec![Value::Int(42), Value::Str(s("s"))]),
        ),
    ]);
    assert_eq!(encoded, expected);
    let decoded = deserialize(&shape, expected).unwrap();
    assert_eq!(
        decoded,
        EnumValue {
            variant: 1,
            fields: vec![Value::Int(42), Value::Str(s("s"))],
        }
    );
}

#[test]
fn adjacent_content_must_follow_tag() {
    let shape = adjacent_shape();
    let reversed = Value::Obj(vec![
        (
            s("content"),
            Value::Arr(vec![Value::Int(42), Value::Str(s("s"))]),
        ),
        (s("type"), Value::Str(s("renamedB"))),
    ]);
    assert_eq!(deserialize(&shape, reversed), Err(DecodeError));
}

#[test]
fn untagged_encodings_carry_no_marker() {
    let shape = EnumShape::new(TagType::Untagged, example_variants()).unwrap();
    let encoded_a = serialize(
        &shape,
        EnumValue {
            variant: 0,
            fields: vec![Value::Int(21)],
        },
    );
    assert_eq!(encoded_a, Value::Int(21));
    let encoded_c = serialize(
        &shape,
        EnumValue {
            variant: 2,
            fields: vec![Value::Int(2)],
        },
    );
    assert_eq!(encoded_c, Value::Obj(vec![(s("x"), Value::Int(2))]));
    let encoded_d = serialize(
        &shape,
        EnumValue {
            variant: 3,
            fields: vec![],
        },
    );
    assert_eq!(encoded_d, Value::Str(s("D")));
}

#[test]
fn untagged_decoder_is_a_definition_error() {
    let shape = EnumShape::new(TagType::Untagged, example_variants()).unwrap();
    assert_eq!(derive_deserialize(&shape), Err(DefError::UntaggedDecoder));
    assert_eq!(derive_serialize(&shape), Ok(()));
}

#[test]
fn external_unknown_key_still_fails_at_finish() {
    let shape = external_shape();
    let input = Value::Obj(vec![(s("Z"), Value::Int(1))]);
    assert_eq!(deserialize(&shape, input), Err(DecodeError));
}

#[test]
fn adjacent_unknown_key_fails_at_once() {
    let shape = adjacent_shape();
    let input = Value::Obj(vec![
        (s("type"), Value::Str(s("A"))),
        (s("zzz"), Value::Int(1)),
    ]);
    assert_eq!(deserialize(&shape, input), Err(DecodeError));
}

fn round_trip_values() -> Vec<EnumValue> {
    vec![
        EnumValue {
            variant: 0,
            fields: vec![Value::Int(21)],
        },
        EnumValue {
            variant: 1,
            fields: vec![Value::Int(42), Value::Str(s("everything"))],
        },
        EnumValue {
            variant: 2,
            fields: vec![Value::Int(2)],
        },
        EnumValue {
            variant: 3,
            fields: vec![],
        },
    ]
}

#[test]
fn external_round_trip_all_variants() {
    let shape = external_shape();
    for (value, expected) in round_trip_values()
        .into_iter()
        .zip(round_trip_values().into_iter())
    {
        let encoded = serialize(&shape, value);
        assert_eq!(deserialize(&shape, encoded).unwrap(), expected);
    }
}

#[test]
fn adjacent_round_trip_all_variants() {
    let shape = adjacent_shape();
    for (value, expected) in round_trip_values()
        .into_iter()
        .zip(round_trip_values().into_iter())
    {
        let encoded = serialize(&shape, value);
        assert_eq!(deserialize(&shape, encoded).unwrap(), expected);
    }
}

#[test]
fn internally_tagged_tuple_is_a_definition_error() {
    let result = EnumShape::new(TagType::Internal { tag: s("type") }, example_variants());
    assert_eq!(result, Err(DefError::InternallyTaggedTuple));
}

#[test]
fn external_empty_map_fails() {
    let shape = external_shape();
    assert_eq!(deserialize(&shape, Value::Obj(vec![])), Err(DecodeError));
}

#[test]
fn external_wrong_nested_shape_fails_at_once() {
    // a matching variant key whose value has the wrong shape is a hard
    // mismatch, not an ignored key
    let shape = external_shape();
    let input = Value::Obj(vec![(s("C"), Value::Int(5))]);
    assert_eq!(deserialize(&shape, input), Err(DecodeError));
}

#[test]
fn external_missing_field_fails() {
    let shape = external_shape();
    let input = Value::Obj(vec![(s("C"), Value::Obj(vec![]))]);
    assert_eq!(deserialize(&shape, input), Err(DecodeError));
}

#[test]
fn external_unknown_field_is_ignored_inside_variant() {
    let shape = external_shape();
    let input = Value::Obj(vec![(
        s("C"),
        Value::Obj(vec![(s("x"), Value::Int(2)), (s("y"), Value::Int(9))]),
    )]);
    let decoded = deserialize(&shape, input).unwrap();
    assert_eq!(
        decoded,
        EnumValue {
            variant: 2,
            fields: vec![Value::Int(2)],
        }
    );
}

#[test]
fn external_repeated_field_takes_the_last_value() {
    let shape = external_shape();
    let input = Value::Obj(vec![(
        s("C"),
        Value::Obj(vec![(s("x"), Value::Int(1)), (s("x"), Value::Int(2))]),
    )]);
    let decoded = deserialize(&shape, input).unwrap();
    assert_eq!(
        decoded,
        EnumValue {
            variant: 2,
            fields: vec![Value::Int(2)],
        }
    );
}

#[test]
fn external_tuple_arity_mismatch_fails() {
    let shape = external_shape();
    let input = Value::Obj(vec![(s("renamedB"), Value::Arr(vec![Value::Int(42)]))]);
    assert_eq!(deserialize(&shape, input), Err(DecodeError));
}

#[test]
fn external_two_filled_variants_fail_at_finish() {
    let shape = external_shape();
    let input = Value::Obj(vec![
        (s("A"), Value::Int(21)),
        (s("C"), Value::Obj(vec![(s("x"), Value::Int(2))])),
    ]);
    assert_eq!(deserialize(&shape, input), Err(DecodeError));
}

#[test]
fn internal_rejects_bare_string() {
    let shape = internal_shape();
    assert_eq!(deserialize(&shape, Value::Str(s("D"))), Err(DecodeError));
}

#[test]
fn internal_unit_round_trip() {
    let shape = internal_shape();
    let encoded = serialize(
        &shape,
        EnumValue {
            variant: 1,
            fields: vec![],
        },
    );
    assert_eq!(
        encoded,
        Value::Obj(vec![(s("type"), Value::Str(s("D")))])
    );
    let decoded = deserialize(&shape, encoded).unwrap();
    assert_eq!(
        decoded,
        EnumValue {
            variant: 1,
            fields: vec![],
        }
    );
}

#[test]
fn internal_unknown_tag_value_fails() {
    let shape = internal_shape();
    let input = Value::Obj(vec![(s("type"), Value::Str(s("Z")))]);
    assert_eq!(deserialize(&shape, input), Err(DecodeError));
}

#[test]
fn adjacent_unit_needs_no_content_key() {
    let shape = adjacent_shape();
    let encoded = serialize(
        &shape,
        EnumValue {
            variant: 3,
            fields: vec![],
        },
    );
    assert_eq!(
        encoded,
        Value::Obj(vec![(s("type"), Value::Str(s("D")))])
    );
    let decoded = deserialize(&shape, encoded).unwrap();
    assert_eq!(
        decoded,
        EnumValue {
            variant: 3,
            fields: vec![],
        }
    );
}

#[test]
fn internal_zero_field_data_variant_fails_to_decode() {
    // With no fields, the encoding holds only the tag entry, and the
    // decoder, which dispatches on the first field key, never opens the
    // nested value: the round trip stops at decoding.
    let shape = EnumShape::new(
        TagType::Internal { tag: s("type") },
        vec![Variant {
            name: s("E"),
            shape: VariantShape::Named { fields: vec![] },
        }],
    )
    .unwrap();
    let encoded = serialize(
        &shape,
        EnumValue {
            variant: 0,
            fields: vec![],
        },
    );
    assert_eq!(
        encoded,
        Value::Obj(vec![(s("type"), Value::Str(s("E")))])
    );
    assert_eq!(deserialize(&shape, encoded), Err(DecodeError));
}

#[test]
fn untagged_values_never_decode() {
    let shape = EnumShape::new(TagType::Untagged, example_variants()).unwrap();
    assert_eq!(deserialize(&shape, Value::Int(21)), Err(DecodeError));
    assert_eq!(deserialize(&shape, Value::Str(s("D"))), Err(DecodeError));
}

#[test]
fn tag_type_defaults_to_external() {
    let variants = example_variants();
    assert_eq!(tag_type(&vec![], &variants), Ok(TagType::External));
}

#[test]
fn tag_type_resolves_each_strategy() {
    let unit_variants = vec![Variant {
        name: s("D"),
        shape: VariantShape::Unit,
    }];
    assert_eq!(
        tag_type(&vec![Directive::Tag(s("type"))], &unit_variants),
        Ok(TagType::Internal { tag: s("type") })
    );
    assert_eq!(
        tag_type(
            &vec![Directive::Tag(s("type")), Directive::Content(s("content"))],
            &unit_variants,
        ),
        Ok(TagType::Adjacent {
            tag: s("type"),
            content: s("content"),
        })
    );
    assert_eq!(
        tag_type(&vec![Directive::Untagged], &unit_variants),
        Ok(TagType::Untagged)
    );
}

#[test]
fn tag_type_rejects_bad_declarations() {
    let variants = example_variants();
    assert_eq!(
        tag_type(
            &vec![Directive::Tag(s("a")), Directive::Tag(s("b"))],
            &variants,
        ),
        Err(DefError::DuplicateTag)
    );
    assert_eq!(
        tag_type(
            &vec![
                Directive::Tag(s("a")),
                Directive::Content(s("b")),
                Directive::Content(s("c")),
            ],
            &variants,
        ),
        Err(DefError::DuplicateContent)
    );
    assert_eq!(
        tag_type(&vec![Directive::Untagged, Directive::Untagged], &variants),
        Err(DefError::DuplicateTag)
    );
    assert_eq!(
        tag_type(&vec![Directive::Content(s("c"))], &variants),
        Err(DefError::ContentWithoutTag)
    );
    assert_eq!(
        tag_type(&vec![Directive::Rename(s("r"))], &variants),
        Err(DefError::UnsupportedDirective)
    );
    // a tag directive alone is internal tagging, which tuple variants refuse
    assert_eq!(
        tag_type(&vec![Directive::Tag(s("type"))], &variants),
        Err(DefError::InternallyTaggedTuple)
    );
}

#[test]
fn rename_directives_pick_display_names() {
    assert_eq!(
        name_of_variant(&s("B"), &vec![Directive::Rename(s("renamedB"))]),
        Ok(s("renamedB"))
    );
    assert_eq!(name_of_variant(&s("B"), &vec![]), Ok(s("B")));
    assert_eq!(
        name_of_field(&s("x"), &vec![Directive::Rename(s("ex"))]),
        Ok(s("ex"))
    );
    assert_eq!(name_of_field(&s("x"), &vec![]), Ok(s("x")));
    assert_eq!(
        attr_rename(&vec![
            Directive::Rename(s("a")),
            Directive::Rename(s("b")),
        ]),
        Err(DefError::DuplicateRename)
    );
    assert_eq!(
        name_of_field(&s("x"), &vec![Directive::Untagged]),
        Err(DefError::UnsupportedDirective)
    );
}
