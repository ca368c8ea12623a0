//! The encoder: given one variant's display name and field payloads, build
//! the wire value that the chosen tag representation calls for. The tag key,
//! when there is one, always comes first; fields follow in declaration order.

use vstd::prelude::*;

use crate::shape::{
    DefError, EnumShape, EnumValue, TagType, VariantShape, shape_ok, spec_valid_value,
};
use crate::value::{
    SpecValue, Value, lemma_view_pairs, view_entries, view_strings, view_value, view_values,
};

verus! {

/// The keyed entries of a named field set: each field's display name beside
/// its payload, in declaration order.
pub open spec fn zip_entries(names: Seq<Seq<char>>, fields: Seq<SpecValue>) -> Seq<
    (Seq<char>, SpecValue),
> {
    Seq::new(names.len(), |i: int| (names[i], fields[i]))
}

/// How a variant's own data looks on the wire, with no tag around it: named
/// fields become a keyed map, a single positional field stands bare, and any
/// other positional field set becomes a sequence.
pub open spec fn spec_product_encode(shape: VariantShape, fields: Seq<SpecValue>) -> SpecValue {
    match shape {
        VariantShape::Unit => SpecValue::Null,
        VariantShape::Named { fields: names } => SpecValue::Obj(
            zip_entries(view_strings(names@), fields),
        ),
        VariantShape::Tuple { arity } => if arity == 1 {
            fields[0]
        } else {
            SpecValue::Arr(fields)
        },
    }
}

/// The wire value of one variant value under each tag representation.
pub open spec fn spec_serialize(shape: EnumShape, variant: int, fields: Seq<SpecValue>) -> SpecValue {
    let var = shape.variants@[variant];
    match shape.tag {
        TagType::External => match var.shape {
            VariantShape::Unit => SpecValue::Str(var.name@),
            _ => SpecValue::Obj(seq![(var.name@, spec_product_encode(var.shape, fields))]),
        },
        TagType::Internal { tag } => match var.shape {
            VariantShape::Unit => SpecValue::Obj(seq![(tag@, SpecValue::Str(var.name@))]),
            VariantShape::Named { fields: names } => SpecValue::Obj(
                seq![(tag@, SpecValue::Str(var.name@))] + zip_entries(view_strings(names@), fields),
            ),
            // rejected at definition time; no encoder is ever built for it
            VariantShape::Tuple { .. } => SpecValue::Null,
        },
        TagType::Adjacent { tag, content } => match var.shape {
            VariantShape::Unit => SpecValue::Obj(seq![(tag@, SpecValue::Str(var.name@))]),
            _ => SpecValue::Obj(
                seq![
                    (tag@, SpecValue::Str(var.name@)),
                    (content@, spec_product_encode(var.shape, fields)),
                ],
            ),
        },
        TagType::Untagged => match var.shape {
            VariantShape::Unit => SpecValue::Str(var.name@),
            _ => spec_product_encode(var.shape, fields),
        },
    }
}

/// Pairs each field name with its payload, in declaration order.
fn encode_named_entries(names: &Vec<String>, fields: Vec<Value>) -> (r: Vec<(String, Value)>)
    requires
        names@.len() == fields@.len(),
    ensures
        view_entries(r@) == zip_entries(view_strings(names@), view_values(fields@)),
{
    let ghost orig = fields@;
    let mut fields = fields;
    let mut out: Vec<(String, Value)> = Vec::new();
    let n = names.len();
    let mut i: usize = 0;
    while i < n
        invariant
            0 <= i <= n,
            n == names@.len(),
            orig.len() == n,
            fields@ == orig.subrange(i as int, n as int),
            out@.len() == i,
            forall|j: int|
                0 <= j < i ==> (#[trigger] out@[j]).0@ == names@[j]@ && view_value(out@[j].1)
                    == view_value(orig[j]),
        decreases n - i,
    {
        let val = fields.remove(0);
        proof {
            assert(orig.subrange(i as int, n as int).remove(0) =~= orig.subrange(
                i as int + 1,
                n as int,
            ));
            assert(val == orig[i as int]);
        }
        out.push((names[i].clone(), val));
        i = i + 1;
    }
    assert(view_entries(out@) =~= zip_entries(view_strings(names@), view_values(orig)));
    out
}

/// Encodes a unit variant: its bare name externally or untagged, a
/// single-entry map `tag -> name` when a tag key is designated.
fn serialize_unit(variant_name: &String, tag: &TagType) -> (r: Value)
    ensures
        view_value(r) == match *tag {
            TagType::Internal { tag: t } => SpecValue::Obj(
                seq![(t@, SpecValue::Str(variant_name@))],
            ),
            TagType::Adjacent { tag: t, .. } => SpecValue::Obj(
                seq![(t@, SpecValue::Str(variant_name@))],
            ),
            _ => SpecValue::Str(variant_name@),
        },
{
    match tag {
        TagType::Internal { tag: t } => {
            let entries: Vec<(String, Value)> = vec![
                (t.clone(), Value::Str(variant_name.clone())),
            ];
            proof {
                lemma_view_pairs(entries@);
                assert(view_entries(entries@) =~= seq![(t@, SpecValue::Str(variant_name@))]);
            }
            Value::Obj(entries)
        },
        TagType::Adjacent { tag: t, .. } => {
            let entries: Vec<(String, Value)> = vec![
                (t.clone(), Value::Str(variant_name.clone())),
            ];
            proof {
                lemma_view_pairs(entries@);
                assert(view_entries(entries@) =~= seq![(t@, SpecValue::Str(variant_name@))]);
            }
            Value::Obj(entries)
        },
        _ => Value::Str(variant_name.clone()),
    }
}

/// Encodes a named-field variant: a nested map under the variant key
/// externally, the tag entry followed by the flat fields internally, the tag
/// and content entries adjacently, and the bare field map untagged.
fn serialize_named(
    names: &Vec<String>,
    fields: Vec<Value>,
    variant_name: &String,
    tag: &TagType,
) -> (r: Value)
    requires
        names@.len() == fields@.len(),
    ensures
        view_value(r) == {
            let nested = SpecValue::Obj(zip_entries(view_strings(names@), view_values(fields@)));
            match *tag {
                TagType::External => SpecValue::Obj(seq![(variant_name@, nested)]),
                TagType::Internal { tag: t } => SpecValue::Obj(
                    seq![(t@, SpecValue::Str(variant_name@))] + zip_entries(
                        view_strings(names@),
                        view_values(fields@),
                    ),
                ),
                TagType::Adjacent { tag: t, content: c } => SpecValue::Obj(
                    seq![(t@, SpecValue::Str(variant_name@)), (c@, nested)],
                ),
                TagType::Untagged => nested,
            }
        },
{
    let ghost fields_view = view_values(fields@);
    match tag {
        TagType::External => {
            let inner_entries = encode_named_entries(names, fields);
            proof {
                lemma_view_pairs(inner_entries@);
            }
            let inner = Value::Obj(inner_entries);
            let entries: Vec<(String, Value)> = vec![(variant_name.clone(), inner)];
            proof {
                lemma_view_pairs(entries@);
                assert(view_entries(entries@) =~= seq![
                    (variant_name@, SpecValue::Obj(zip_entries(view_strings(names@), fields_view))),
                ]);
            }
            Value::Obj(entries)
        },
        TagType::Internal { tag: t } => {
            let mut entries = encode_named_entries(names, fields);
            entries.insert(0, (t.clone(), Value::Str(variant_name.clone())));
            proof {
                lemma_view_pairs(entries@);
                assert(view_entries(entries@) =~= seq![(t@, SpecValue::Str(variant_name@))]
                    + zip_entries(view_strings(names@), fields_view));
            }
            Value::Obj(entries)
        },
        TagType::Adjacent { tag: t, content: c } => {
            let inner_entries = encode_named_entries(names, fields);
            proof {
                lemma_view_pairs(inner_entries@);
            }
            let inner = Value::Obj(inner_entries);
            let entries: Vec<(String, Value)> = vec![
                (t.clone(), Value::Str(variant_name.clone())),
                (c.clone(), inner),
            ];
            proof {
                lemma_view_pairs(entries@);
                assert(view_entries(entries@) =~= seq![
                    (t@, SpecValue::Str(variant_name@)),
                    (c@, SpecValue::Obj(zip_entries(view_strings(names@), fields_view))),
                ]);
            }
            Value::Obj(entries)
        },
        TagType::Untagged => {
            let entries = encode_named_entries(names, fields);
            proof {
                lemma_view_pairs(entries@);
            }
            Value::Obj(entries)
        },
    }
}

/// Encodes a positional-field variant. One field stands bare; more become a
/// sequence. Internal tagging never reaches here: it rejects tuple variants
/// at definition time.
fn serialize_unnamed(fields: Vec<Value>, variant_name: &String, tag: &TagType) -> (r: Value)
    requires
        !(*tag is Internal),
    ensures
        view_value(r) == {
            let nested = if fields@.len() == 1 {
                view_value(fields@[0])
            } else {
                SpecValue::Arr(view_values(fields@))
            };
            match *tag {
                TagType::External => SpecValue::Obj(seq![(variant_name@, nested)]),
                TagType::Adjacent { tag: t, content: c } => SpecValue::Obj(
                    seq![(t@, SpecValue::Str(variant_name@)), (c@, nested)],
                ),
                _ => nested,
            }
        },
{
    let ghost fields_view = view_values(fields@);
    let nested: Value = if fields.len() == 1 {
        let mut fields = fields;
        fields.remove(0)
    } else {
        let v = Value::Arr(fields);
        proof {
            crate::value::lemma_view_list(v->Arr_0@);
        }
        v
    };
    let ghost nested_view = if fields_view.len() == 1 {
        fields_view[0]
    } else {
        SpecValue::Arr(fields_view)
    };
    assert(view_value(nested) == nested_view);
    match tag {
        TagType::External => {
            let entries: Vec<(String, Value)> = vec![(variant_name.clone(), nested)];
            proof {
                lemma_view_pairs(entries@);
                assert(view_entries(entries@) =~= seq![(variant_name@, nested_view)]);
            }
            Value::Obj(entries)
        },
        TagType::Adjacent { tag: t, content: c } => {
            let entries: Vec<(String, Value)> = vec![
                (t.clone(), Value::Str(variant_name.clone())),
                (c.clone(), nested),
            ];
            proof {
                lemma_view_pairs(entries@);
                assert(view_entries(entries@) =~= seq![
                    (t@, SpecValue::Str(variant_name@)),
                    (c@, nested_view),
                ]);
            }
            Value::Obj(entries)
        },
        _ => nested,
    }
}

/// Encodes one variant value under its descriptor's representation. The
/// result is exactly the wire value `spec_serialize` describes.
pub fn serialize(shape: &EnumShape, value: EnumValue) -> (r: Value)
    requires
        shape_ok(*shape),
        spec_valid_value(*shape, value.variant as int, value.fields@.len() as int),
    ensures
        view_value(r) == spec_serialize(*shape, value.variant as int, view_values(value.fields@)),
{
    let var = &shape.variants[value.variant];
    match &var.shape {
        VariantShape::Unit => serialize_unit(&var.name, &shape.tag),
        VariantShape::Named { fields: names } => serialize_named(
            names,
            value.fields,
            &var.name,
            &shape.tag,
        ),
        VariantShape::Tuple { .. } => {
            proof {
                if shape.tag is Internal {
                    assert(crate::shape::spec_has_tuple(shape.variants@)) by {
                        assert(shape.variants@[value.variant as int].shape is Tuple);
                    }
                }
            }
            serialize_unnamed(value.fields, &var.name, &shape.tag)
        },
    }
}

/// The definition-time gate for building an encoder: every representation
/// encodes, save that internal tagging rejects tuple variants.
pub fn derive_serialize(shape: &EnumShape) -> (r: Result<(), DefError>)
    ensures
        r is Ok <==> shape_ok(*shape),
        r is Err ==> r->Err_0 == DefError::InternallyTaggedTuple,
{
    if matches!(shape.tag, TagType::Internal { .. }) && crate::shape::has_tuple_variant(
        &shape.variants,
    ) {
        Err(DefError::InternallyTaggedTuple)
    } else {
        Ok(())
    }
}

} // verus!
