//! The agreement between the two sides of the codec: decoding an encoded
//! variant value gives that value back, for every representation that has a
//! decoder.

use vstd::prelude::*;

use crate::de::{
    AdjacentState, InternalState, adj_init, adj_run, adj_step, all_filled, empty_slots, ext_run,
    ext_step, find_data_variant, find_field, find_filled, find_unit_variant, int_init, int_run,
    int_step, named_run, named_step, spec_decode_named, spec_decode_product, spec_deserialize,
    unwrap_slots,
};
use crate::ser::{spec_product_encode, spec_serialize, zip_entries};
use crate::shape::{
    EnumShape, TagType, Variant, VariantShape, distinct_names, shape_arity, shape_field_names,
    shape_wf, spec_valid_value, variant_names,
};
use crate::value::SpecValue;

verus! {

/// Scanning for a name among pairwise distinct names finds exactly the
/// position it was taken from.
proof fn lemma_find_field_from(names: Seq<Seq<char>>, j: int, i: int)
    requires
        0 <= i <= j < names.len(),
        forall|m: int| i <= m < j ==> names[m] != names[j],
    ensures
        find_field(names, names[j], i) == Some(j),
    decreases j - i,
{
    if i < j {
        lemma_find_field_from(names, j, i + 1);
    }
}

/// Scanning for a unit variant finds the one bearing the name when no
/// earlier variant bears it.
proof fn lemma_find_unit_from(variants: Seq<Variant>, j: int, i: int)
    requires
        0 <= i <= j < variants.len(),
        variants[j].shape is Unit,
        forall|m: int| i <= m < j ==> variants[m].name@ != variants[j].name@,
    ensures
        find_unit_variant(variants, variants[j].name@, i) == Some(j),
    decreases j - i,
{
    if i < j {
        lemma_find_unit_from(variants, j, i + 1);
    }
}

/// No unit variant bears the name, so the scan comes up empty.
proof fn lemma_find_unit_none(variants: Seq<Variant>, name: Seq<char>, i: int)
    requires
        forall|m: int|
            i <= m < variants.len() ==> !((#[trigger] variants[m].shape) is Unit && variants[m].name@
                == name),
    ensures
        find_unit_variant(variants, name, i) is None,
    decreases variants.len() - i,
{
    if 0 <= i < variants.len() {
        lemma_find_unit_none(variants, name, i + 1);
    }
}

/// Scanning for a data-carrying variant finds the one bearing the name
/// when no earlier variant bears it.
proof fn lemma_find_data_from(variants: Seq<Variant>, j: int, i: int)
    requires
        0 <= i <= j < variants.len(),
        !(variants[j].shape is Unit),
        forall|m: int| i <= m < j ==> variants[m].name@ != variants[j].name@,
    ensures
        find_data_variant(variants, variants[j].name@, i) == Some(j),
    decreases j - i,
{
    if i < j {
        lemma_find_data_from(variants, j, i + 1);
    }
}

/// A scan among all-empty slots, one of which was just filled, finds that
/// slot.
proof fn lemma_find_filled_from(slots: Seq<Option<Seq<SpecValue>>>, v: int, i: int)
    requires
        0 <= i <= v < slots.len(),
        slots[v] is Some,
        forall|m: int| i <= m < v ==> slots[m] is None,
    ensures
        find_filled(slots, i) == Some(v),
    decreases v - i,
{
    if i < v {
        lemma_find_filled_from(slots, v, i + 1);
    }
}

/// With pairwise distinct display names, no variant but `v` bears `v`'s
/// name.
proof fn lemma_distinct_variant_names(variants: Seq<Variant>, v: int)
    requires
        distinct_names(variant_names(variants)),
        0 <= v < variants.len(),
    ensures
        forall|m: int|
            0 <= m < variants.len() && m != v ==> (#[trigger] variants[m].name@)
                != variants[v].name@,
{
    assert forall|m: int|
        0 <= m < variants.len() && m != v implies (#[trigger] variants[m].name@)
        != variants[v].name@ by {
        assert(variant_names(variants)[m] == variants[m].name@);
        assert(variant_names(variants)[v] == variants[v].name@);
        if m < v {
            assert(variant_names(variants)[m] != variant_names(variants)[v]);
        } else {
            assert(variant_names(variants)[v] != variant_names(variants)[m]);
        }
    }
}

/// Feeding a named-field machine the entries that pair each remaining name
/// with its payload, in order, fills every remaining slot with its payload.
proof fn lemma_named_fill(
    names: Seq<Seq<char>>,
    fields: Seq<SpecValue>,
    slots: Seq<Option<SpecValue>>,
    j: int,
)
    requires
        distinct_names(names),
        names.len() == fields.len(),
        slots.len() == names.len(),
        0 <= j <= names.len(),
        forall|m: int| 0 <= m < j ==> slots[m] == Some(fields[m]),
    ensures
        named_run(slots, names, zip_entries(names, fields).subrange(j, names.len() as int))
            == Seq::new(names.len(), |m: int| Some(fields[m])),
    decreases names.len() - j,
{
    let entries = zip_entries(names, fields).subrange(j, names.len() as int);
    if j == names.len() {
        assert(entries.len() == 0);
        assert(slots =~= Seq::new(names.len(), |m: int| Some(fields[m])));
    } else {
        assert(entries[0] == (names[j], fields[j]));
        lemma_find_field_from(names, j, 0);
        let slots2 = named_step(slots, names, names[j], fields[j]);
        assert(slots2 == slots.update(j, Some(fields[j])));
        assert(entries.drop_first() =~= zip_entries(names, fields).subrange(
            j + 1,
            names.len() as int,
        ));
        lemma_named_fill(names, fields, slots2, j + 1);
    }
}

/// A named-field product decodes its own encoding back to the same
/// payloads.
proof fn lemma_decode_named_zip(names: Seq<Seq<char>>, fields: Seq<SpecValue>)
    requires
        distinct_names(names),
        names.len() == fields.len(),
    ensures
        spec_decode_named(names, zip_entries(names, fields)) == Some(fields),
{
    lemma_named_fill(names, fields, empty_slots(names.len()), 0);
    assert(zip_entries(names, fields).subrange(0, names.len() as int) =~= zip_entries(
        names,
        fields,
    ));
    let filled = Seq::new(names.len(), |m: int| Some(fields[m]));
    assert(all_filled(filled));
    assert(unwrap_slots(filled) =~= fields);
}

/// A variant's data decodes its own encoding back to the same payloads,
/// for any data-carrying shape.
proof fn lemma_product_round_trip(shape: VariantShape, fields: Seq<SpecValue>)
    requires
        !(shape is Unit),
        fields.len() == shape_arity(shape),
        distinct_names(shape_field_names(shape)),
    ensures
        spec_decode_product(shape, spec_product_encode(shape, fields)) == Some(fields),
{
    match shape {
        VariantShape::Named { fields: names } => {
            lemma_decode_named_zip(crate::value::view_strings(names@), fields);
        },
        VariantShape::Tuple { arity } => {
            if arity == 1 {
                assert(seq![fields[0]] =~= fields);
            }
        },
        VariantShape::Unit => {},
    }
}

/// Externally tagged round trip.
proof fn lemma_round_trip_external(shape: EnumShape, variant: int, fields: Seq<SpecValue>)
    requires
        shape_wf(shape),
        spec_valid_value(shape, variant, fields.len() as int),
        shape.tag is External,
    ensures
        spec_deserialize(shape, spec_serialize(shape, variant, fields)) == Some((variant, fields)),
{
    reveal_with_fuel(ext_run, 3);
    let variants = shape.variants@;
    let var = variants[variant];
    lemma_distinct_variant_names(variants, variant);
    if var.shape is Unit {
        lemma_find_unit_from(variants, variant, 0);
        assert(fields =~= Seq::<SpecValue>::empty());
    } else {
        let nested = spec_product_encode(var.shape, fields);
        let entries = seq![(var.name@, nested)];
        lemma_find_data_from(variants, variant, 0);
        lemma_product_round_trip(var.shape, fields);
        let slots0 = empty_slots::<Seq<SpecValue>>(variants.len());
        let slots1 = slots0.update(variant, Some(fields));
        assert(ext_step(variants, slots0, var.name@, nested) == Some(slots1));
        assert(entries.drop_first().len() == 0);
        assert(ext_run(variants, slots0, entries) == Some(slots1));
        lemma_find_filled_from(slots1, variant, 0);
        assert(slots1[variant]->0 =~= fields);
    }
}

/// Once the internal machine has dispatched, entries that never name the
/// tag key again are forwarded entry for entry to the named-field machine.
proof fn lemma_int_run_dispatched(
    variants: Seq<Variant>,
    tagk: Seq<char>,
    st: InternalState,
    entries: Seq<(Seq<char>, SpecValue)>,
)
    requires
        st.dispatched matches Some(i) && 0 <= i < variants.len(),
        forall|m: int| 0 <= m < entries.len() ==> (#[trigger] entries[m]).0 != tagk,
    ensures
        int_run(variants, tagk, st, entries) == Some(
            InternalState {
                pending_tag: st.pending_tag,
                dispatched: st.dispatched,
                dfields: named_run(
                    st.dfields,
                    shape_field_names(variants[st.dispatched->0].shape),
                    entries,
                ),
            },
        ),
    decreases entries.len(),
{
    if entries.len() == 0 {
        let i = st.dispatched->0;
        assert(int_run(variants, tagk, st, entries) == Some(st));
        assert(st == InternalState {
            pending_tag: st.pending_tag,
            dispatched: st.dispatched,
            dfields: named_run(st.dfields, shape_field_names(variants[i].shape), entries),
        });
    } else {
        let i = st.dispatched->0;
        let names = shape_field_names(variants[i].shape);
        let st2 = InternalState {
            pending_tag: st.pending_tag,
            dispatched: st.dispatched,
            dfields: named_step(st.dfields, names, entries[0].0, entries[0].1),
        };
        assert(entries[0].0 != tagk);
        assert(int_step(variants, tagk, st, entries[0].0, entries[0].1) == Some(st2));
        lemma_int_run_dispatched(variants, tagk, st2, entries.drop_first());
    }
}

/// Internally tagged round trip; a data-carrying variant must bring at
/// least one field, for only a field key can dispatch the nested machine.
proof fn lemma_round_trip_internal(shape: EnumShape, variant: int, fields: Seq<SpecValue>)
    requires
        shape_wf(shape),
        spec_valid_value(shape, variant, fields.len() as int),
        shape.tag matches TagType::Internal { tag },
        shape.variants@[variant].shape is Named ==> fields.len() > 0,
    ensures
        spec_deserialize(shape, spec_serialize(shape, variant, fields)) == Some((variant, fields)),
{
    reveal_with_fuel(int_run, 4);
    let variants = shape.variants@;
    let var = variants[variant];
    let tagk = shape.tag->Internal_tag@;
    let tag_entry = (tagk, SpecValue::Str(var.name@));
    lemma_distinct_variant_names(variants, variant);
    match var.shape {
        VariantShape::Unit => {
            let entries = seq![tag_entry];
            let st1 = InternalState {
                pending_tag: Some(var.name@),
                dispatched: None,
                dfields: int_init().dfields,
            };
            assert(int_step(variants, tagk, int_init(), entries[0].0, entries[0].1) == Some(st1));
            assert(entries.drop_first().len() == 0);
            assert(int_run(variants, tagk, int_init(), entries) == Some(st1));
            lemma_find_unit_from(variants, variant, 0);
            assert(fields =~= Seq::<SpecValue>::empty());
        },
        VariantShape::Named { fields: names } => {
            let names_v = crate::value::view_strings(names@);
            let zipped = zip_entries(names_v, fields);
            let entries = seq![tag_entry] + zipped;
            assert(shape_field_names(var.shape) == names_v);
            // no field name collides with the tag key
            assert(forall|m: int| 0 <= m < names_v.len() ==> names_v[m] != tagk) by {
                assert(!shape_field_names(var.shape).contains(tagk));
            }
            // the tag entry comes first and sets the pending tag
            let st1 = InternalState {
                pending_tag: Some(var.name@),
                dispatched: None,
                dfields: int_init().dfields,
            };
            assert(entries[0] == tag_entry);
            assert(int_step(variants, tagk, int_init(), entries[0].0, entries[0].1) == Some(st1));
            assert(entries.drop_first() =~= zipped);
            // the first field entry dispatches to this variant
            lemma_find_data_from(variants, variant, 0);
            assert(zipped[0] == (names_v[0], fields[0]));
            assert(zipped[0].0 != tagk);
            let st2 = InternalState {
                pending_tag: Some(var.name@),
                dispatched: Some(variant),
                dfields: named_step(empty_slots(names_v.len()), names_v, names_v[0], fields[0]),
            };
            assert(int_step(variants, tagk, st1, zipped[0].0, zipped[0].1) == Some(st2));
            // the rest forward to the named-field machine
            assert(forall|m: int|
                0 <= m < zipped.drop_first().len() ==> (#[trigger] zipped.drop_first()[m]).0
                    != tagk);
            lemma_int_run_dispatched(variants, tagk, st2, zipped.drop_first());
            let dfinal = named_run(st2.dfields, names_v, zipped.drop_first());
            // the run over all field entries fills every slot
            lemma_named_fill(names_v, fields, empty_slots(names_v.len()), 0);
            assert(zip_entries(names_v, fields).subrange(0, names_v.len() as int) =~= zipped);
            assert(named_run(empty_slots(names_v.len()), names_v, zipped) == Seq::new(
                names_v.len(),
                |m: int| Some(fields[m]),
            ));
            assert(named_run(empty_slots(names_v.len()), names_v, zipped) == dfinal) by {
                assert(zipped.len() > 0);
                assert(named_step(empty_slots(names_v.len()), names_v, zipped[0].0, zipped[0].1)
                    == st2.dfields);
            }
            let filled = Seq::new(names_v.len(), |m: int| Some(fields[m]));
            // closing the map: the tag names no unit variant, the dispatched
            // variant's fields are complete, and the tag still selects it
            assert(forall|m: int|
                0 <= m < variants.len() ==> !((#[trigger] variants[m].shape) is Unit
                    && variants[m].name@ == var.name@)) by {
                assert(forall|m: int|
                    0 <= m < variants.len() && m != variant ==> variant_names(variants)[m]
                        != variant_names(variants)[variant]);
            }
            lemma_find_unit_none(variants, var.name@, 0);
            assert(all_filled(filled));
            assert(unwrap_slots(filled) =~= fields);
            assert(int_run(variants, tagk, int_init(), entries) == Some(
                InternalState {
                    pending_tag: Some(var.name@),
                    dispatched: Some(variant),
                    dfields: dfinal,
                },
            ));
        },
        VariantShape::Tuple { .. } => {
            // internal tagging rejects tuple variants at definition time
            assert(false) by {
                assert(variants[variant].shape is Tuple);
            }
        },
    }
}

/// Adjacently tagged round trip.
proof fn lemma_round_trip_adjacent(shape: EnumShape, variant: int, fields: Seq<SpecValue>)
    requires
        shape_wf(shape),
        spec_valid_value(shape, variant, fields.len() as int),
        shape.tag is Adjacent,
    ensures
        spec_deserialize(shape, spec_serialize(shape, variant, fields)) == Some((variant, fields)),
{
    reveal_with_fuel(adj_run, 4);
    let variants = shape.variants@;
    let var = variants[variant];
    let tagk = shape.tag->Adjacent_tag@;
    let contentk = shape.tag->Adjacent_content@;
    let tag_entry = (tagk, SpecValue::Str(var.name@));
    lemma_distinct_variant_names(variants, variant);
    let st0 = adj_init(variants.len());
    let st1 = AdjacentState { pending_tag: Some(var.name@), slots: st0.slots };
    if var.shape is Unit {
        let entries = seq![tag_entry];
        assert(adj_step(variants, tagk, contentk, st0, entries[0].0, entries[0].1) == Some(st1));
        assert(entries.drop_first().len() == 0);
        assert(adj_run(variants, tagk, contentk, st0, entries) == Some(st1));
        lemma_find_unit_from(variants, variant, 0);
        assert(fields =~= Seq::<SpecValue>::empty());
    } else {
        let nested = spec_product_encode(var.shape, fields);
        let entries = seq![tag_entry, (contentk, nested)];
        assert(adj_step(variants, tagk, contentk, st0, entries[0].0, entries[0].1) == Some(st1));
        lemma_find_data_from(variants, variant, 0);
        lemma_product_round_trip(var.shape, fields);
        let st2 = AdjacentState {
            pending_tag: Some(var.name@),
            slots: st1.slots.update(variant, Some(fields)),
        };
        assert(entries[1].0 != tagk);
        assert(adj_step(variants, tagk, contentk, st1, entries[1].0, entries[1].1) == Some(st2));
        assert(entries.drop_first() =~= seq![(contentk, nested)]);
        assert(entries.drop_first().drop_first().len() == 0);
        assert(adj_run(variants, tagk, contentk, st0, entries) == Some(st2));
        assert(forall|m: int|
            0 <= m < variants.len() ==> !((#[trigger] variants[m].shape) is Unit
                && variants[m].name@ == var.name@)) by {
            assert(forall|m: int|
                0 <= m < variants.len() && m != variant ==> variant_names(variants)[m]
                    != variant_names(variants)[variant]);
        }
        lemma_find_unit_none(variants, var.name@, 0);
        assert(st2.slots[variant] == Some(fields));
    }
}

/// Round trip: for every representation that has a decoder, decoding the
/// encoding of any well-formed variant value yields exactly that value.
/// The untagged representation has no decoder, and an internally tagged
/// data variant must bring at least one field: with none, its encoding
/// holds only the tag entry, and the decoder, which dispatches on the
/// first field key, correctly reports the nested value missing.
pub proof fn lemma_round_trip(shape: EnumShape, variant: int, fields: Seq<SpecValue>)
    requires
        shape_wf(shape),
        spec_valid_value(shape, variant, fields.len() as int),
        !(shape.tag is Untagged),
        (shape.tag is Internal && shape.variants@[variant].shape is Named) ==> fields.len() > 0,
    ensures
        spec_deserialize(shape, spec_serialize(shape, variant, fields)) == Some((variant, fields)),
{
    match shape.tag {
        TagType::External => lemma_round_trip_external(shape, variant, fields),
        TagType::Internal { .. } => lemma_round_trip_internal(shape, variant, fields),
        TagType::Adjacent { .. } => lemma_round_trip_adjacent(shape, variant, fields),
        TagType::Untagged => {},
    }
}

} // verus!
