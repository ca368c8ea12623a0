//! The decoders: one incremental state machine per tag representation, each
//! driven one keyed entry at a time over a wire value, reconstructing exactly
//! one variant or failing with a decode mismatch.

use vstd::prelude::*;

use crate::shape::{
    DefError, EnumShape, EnumValue, TagType, Variant, VariantShape, shape_field_names, shape_ok,
};
use crate::value::{
    SpecValue, Value, lemma_view_list, lemma_view_pairs, view_entries, view_strings, view_value,
    view_values,
};

verus! {

/// The single runtime error of this layer: an input token did not match any
/// expected key, shape or tag value, or something required was missing when
/// its container closed.
#[derive(Debug, Clone, Copy, PartialEq, Eq, Structural)]
pub struct DecodeError;

/// The first position at or after `i` whose name equals `k`.
pub open spec fn find_field(names: Seq<Seq<char>>, k: Seq<char>, i: int) -> Option<int>
    decreases names.len() - i,
{
    if i < 0 || i >= names.len() {
        None
    } else if names[i] == k {
        Some(i)
    } else {
        find_field(names, k, i + 1)
    }
}

/// The first unit variant at or after `i` whose display name equals `name`.
pub open spec fn find_unit_variant(variants: Seq<Variant>, name: Seq<char>, i: int) -> Option<int>
    decreases variants.len() - i,
{
    if i < 0 || i >= variants.len() {
        None
    } else if variants[i].shape is Unit && variants[i].name@ == name {
        Some(i)
    } else {
        find_unit_variant(variants, name, i + 1)
    }
}

/// The first data-carrying (non-unit) variant at or after `i` whose display
/// name equals `name`.
pub open spec fn find_data_variant(variants: Seq<Variant>, name: Seq<char>, i: int) -> Option<int>
    decreases variants.len() - i,
{
    if i < 0 || i >= variants.len() {
        None
    } else if !(variants[i].shape is Unit) && variants[i].name@ == name {
        Some(i)
    } else {
        find_data_variant(variants, name, i + 1)
    }
}

/// One pending slot per expected item, all still empty.
pub open spec fn empty_slots<T>(n: nat) -> Seq<Option<T>> {
    Seq::new(n, |i: int| None)
}

/// One keyed entry arriving at a named-field product: a matching field name
/// fills (or refills) that field's slot; an unknown key is ignored.
pub open spec fn named_step(
    slots: Seq<Option<SpecValue>>,
    names: Seq<Seq<char>>,
    k: Seq<char>,
    v: SpecValue,
) -> Seq<Option<SpecValue>> {
    match find_field(names, k, 0) {
        Some(j) => slots.update(j, Some(v)),
        None => slots,
    }
}

/// The named-field product machine run over a whole entry list.
pub open spec fn named_run(
    slots: Seq<Option<SpecValue>>,
    names: Seq<Seq<char>>,
    entries: Seq<(Seq<char>, SpecValue)>,
) -> Seq<Option<SpecValue>>
    decreases entries.len(),
{
    if entries.len() == 0 {
        slots
    } else {
        named_run(named_step(slots, names, entries[0].0, entries[0].1), names, entries.drop_first())
    }
}

/// Whether every pending slot has been filled.
pub open spec fn all_filled<T>(slots: Seq<Option<T>>) -> bool {
    forall|j: int| 0 <= j < slots.len() ==> slots[j] is Some
}

/// The contents of a fully filled slot list.
pub open spec fn unwrap_slots(slots: Seq<Option<SpecValue>>) -> Seq<SpecValue> {
    Seq::new(slots.len(), |j: int| slots[j]->0)
}

/// Decoding a keyed map as a named-field product: run the machine over the
/// entries in order, then require every field filled.
pub open spec fn spec_decode_named(names: Seq<Seq<char>>, entries: Seq<(Seq<char>, SpecValue)>) -> Option<
    Seq<SpecValue>,
> {
    let slots = named_run(empty_slots(names.len()), names, entries);
    if all_filled(slots) {
        Some(unwrap_slots(slots))
    } else {
        None
    }
}

/// Decoding a variant's own data as an anonymous product: named fields from
/// a keyed map; one positional field from the bare value; any other
/// positional count from a sequence of exactly that length.
pub open spec fn spec_decode_product(shape: VariantShape, v: SpecValue) -> Option<Seq<SpecValue>> {
    match shape {
        VariantShape::Unit => None,
        VariantShape::Named { fields: names } => match v {
            SpecValue::Obj(entries) => spec_decode_named(view_strings(names@), entries),
            _ => None,
        },
        VariantShape::Tuple { arity } => if arity == 1 {
            Some(seq![v])
        } else {
            match v {
                SpecValue::Arr(elems) => if elems.len() == arity {
                    Some(elems)
                } else {
                    None
                },
                _ => None,
            }
        },
    }
}

/// A found field position lies in range and names its key.
pub proof fn lemma_find_field_range(names: Seq<Seq<char>>, k: Seq<char>, i: int)
    ensures
        find_field(names, k, i) matches Some(j) ==> i <= j < names.len() && names[j] == k,
    decreases names.len() - i,
{
    if 0 <= i < names.len() && names[i] != k {
        lemma_find_field_range(names, k, i + 1);
    }
}

/// A found data variant lies in range, is not a unit variant, and bears the
/// name.
pub proof fn lemma_find_data_range(variants: Seq<Variant>, name: Seq<char>, i: int)
    ensures
        find_data_variant(variants, name, i) matches Some(j) ==> i <= j < variants.len() && !(
        variants[j].shape is Unit) && variants[j].name@ == name,
    decreases variants.len() - i,
{
    if 0 <= i < variants.len() && !(!(variants[i].shape is Unit) && variants[i].name@ == name) {
        lemma_find_data_range(variants, name, i + 1);
    }
}

/// The pending-slot views of partially decoded field payloads.
pub open spec fn view_opt_values(slots: Seq<Option<Value>>) -> Seq<Option<SpecValue>> {
    Seq::new(
        slots.len(),
        |i: int| match slots[i] {
            Some(v) => Some(view_value(v)),
            None => None,
        },
    )
}

/// The first position at or after `i` whose field name equals `k`, found by
/// scanning the declared names in order.
fn find_field_index(names: &Vec<String>, k: &String) -> (r: Option<usize>)
    ensures
        match r {
            Some(j) => find_field(view_strings(names@), k@, 0) == Some(j as int),
            None => find_field(view_strings(names@), k@, 0) is None,
        },
{
    let n = names.len();
    let mut i: usize = 0;
    while i < n
        invariant
            0 <= i <= n,
            n == names@.len(),
            find_field(view_strings(names@), k@, 0) == find_field(view_strings(names@), k@, i as int),
        decreases n - i,
    {
        if names[i] == *k {
            return Some(i);
        }
        i = i + 1;
    }
    None
}

/// The first unit variant with the given display name, scanning in
/// declaration order.
fn find_unit_index(variants: &Vec<Variant>, name: &String) -> (r: Option<usize>)
    ensures
        match r {
            Some(j) => find_unit_variant(variants@, name@, 0) == Some(j as int),
            None => find_unit_variant(variants@, name@, 0) is None,
        },
{
    let n = variants.len();
    let mut i: usize = 0;
    while i < n
        invariant
            0 <= i <= n,
            n == variants@.len(),
            find_unit_variant(variants@, name@, 0) == find_unit_variant(variants@, name@, i as int),
        decreases n - i,
    {
        if matches!(variants[i].shape, VariantShape::Unit) && variants[i].name == *name {
            return Some(i);
        }
        i = i + 1;
    }
    None
}

/// The first data-carrying variant with the given display name, scanning in
/// declaration order.
fn find_data_index(variants: &Vec<Variant>, name: &String) -> (r: Option<usize>)
    ensures
        match r {
            Some(j) => find_data_variant(variants@, name@, 0) == Some(j as int),
            None => find_data_variant(variants@, name@, 0) is None,
        },
{
    let n = variants.len();
    let mut i: usize = 0;
    while i < n
        invariant
            0 <= i <= n,
            n == variants@.len(),
            find_data_variant(variants@, name@, 0) == find_data_variant(variants@, name@, i as int),
        decreases n - i,
    {
        if !matches!(variants[i].shape, VariantShape::Unit) && variants[i].name == *name {
            return Some(i);
        }
        i = i + 1;
    }
    None
}

/// Drains a slot list whose container has closed: every slot must have been
/// filled, and the payloads come out in slot order.
fn collect_slots(slots: Vec<Option<Value>>) -> (r: Result<Vec<Value>, DecodeError>)
    ensures
        match r {
            Ok(fs) => all_filled(view_opt_values(slots@)) && view_values(fs@) == unwrap_slots(
                view_opt_values(slots@),
            ),
            Err(_) => !all_filled(view_opt_values(slots@)),
        },
{
    let ghost orig = slots@;
    let mut rest = slots;
    let mut out: Vec<Value> = Vec::new();
    while rest.len() > 0
        invariant
            orig == slots@,
            out@.len() + rest@.len() == orig.len(),
            rest@ == orig.subrange(out@.len() as int, orig.len() as int),
            forall|j: int|
                0 <= j < out@.len() ==> (#[trigger] orig[j]) is Some && view_value(out@[j])
                    == view_value(orig[j]->0),
        decreases rest@.len(),
    {
        let ghost i = out@.len() as int;
        let slot = rest.remove(0);
        proof {
            assert(orig.subrange(i, orig.len() as int).remove(0) =~= orig.subrange(
                i + 1,
                orig.len() as int,
            ));
            assert(slot == orig[i]);
        }
        match slot {
            Some(v) => {
                out.push(v);
            },
            None => {
                proof {
                    assert(!all_filled(view_opt_values(orig))) by {
                        assert(view_opt_values(orig)[i] is None);
                    }
                }
                return Err(DecodeError);
            },
        }
    }
    proof {
        assert(all_filled(view_opt_values(orig))) by {
            assert forall|j: int| 0 <= j < orig.len() implies view_opt_values(orig)[j] is Some by {
                assert(orig[j] is Some);
            }
        }
        assert(view_values(out@) =~= unwrap_slots(view_opt_values(orig)));
    }
    Ok(out)
}

/// Decodes a keyed map as a named-field product: matching keys fill their
/// field's slot, unknown keys are ignored, and every field must be present
/// when the map closes.
pub fn named_fields_as_struct(names: &Vec<String>, entries: Vec<(String, Value)>) -> (r: Result<
    Vec<Value>,
    DecodeError,
>)
    ensures
        match r {
            Ok(fs) => spec_decode_named(view_strings(names@), view_entries(entries@)) == Some(
                view_values(fs@),
            ),
            Err(_) => spec_decode_named(view_strings(names@), view_entries(entries@)) is None,
        },
{
    let ghost entries0 = view_entries(entries@);
    let ghost names_v = view_strings(names@);
    let n = names.len();
    let mut slots: Vec<Option<Value>> = Vec::new();
    let mut j: usize = 0;
    while j < n
        invariant
            0 <= j <= n,
            slots@.len() == j,
            forall|m: int| 0 <= m < j ==> slots@[m] is None,
        decreases n - j,
    {
        slots.push(None);
        j = j + 1;
    }
    proof {
        assert(view_opt_values(slots@) =~= empty_slots::<SpecValue>(names_v.len()));
    }
    let mut entries = entries;
    while entries.len() > 0
        invariant
            n == names@.len(),
            slots@.len() == n,
            named_run(empty_slots(names_v.len()), names_v, entries0) == named_run(
                view_opt_values(slots@),
                names_v,
                view_entries(entries@),
            ),
            names_v == view_strings(names@),
        decreases entries@.len(),
    {
        let ghost pre_entries = entries@;
        let ghost pre_slots = view_opt_values(slots@);
        let (k, v) = entries.remove(0);
        proof {
            assert(view_entries(pre_entries).drop_first() =~= view_entries(pre_entries.drop_first()));
            assert(pre_entries.remove(0) =~= pre_entries.drop_first());
            assert(view_entries(pre_entries)[0] == (k@, view_value(v)));
        }
        match find_field_index(names, &k) {
            Some(idx) => {
                proof {
                    lemma_find_field_range(names_v, k@, 0);
                }
                slots.set(idx, Some(v));
                proof {
                    assert(view_opt_values(slots@) =~= named_step(
                        pre_slots,
                        names_v,
                        k@,
                        view_value(v),
                    ));
                }
            },
            None => {
                proof {
                    assert(view_opt_values(slots@) =~= named_step(
                        pre_slots,
                        names_v,
                        k@,
                        view_value(v),
                    ));
                }
            },
        }
    }
    proof {
        assert(view_entries(entries@) =~= Seq::<(Seq<char>, SpecValue)>::empty());
    }
    collect_slots(slots)
}

/// Decodes a variant's own data as an anonymous positional product: one
/// field takes the bare value; otherwise a sequence of exactly the declared
/// length is required, one element per position.
pub fn unnamed_fields_as_struct(arity: usize, v: Value) -> (r: Result<Vec<Value>, DecodeError>)
    ensures
        match r {
            Ok(fs) => spec_decode_product(VariantShape::Tuple { arity }, view_value(v)) == Some(
                view_values(fs@),
            ),
            Err(_) => spec_decode_product(VariantShape::Tuple { arity }, view_value(v)) is None,
        },
{
    if arity == 1 {
        let mut fs: Vec<Value> = Vec::new();
        fs.push(v);
        proof {
            assert(view_values(fs@) =~= seq![view_value(fs@[0])]);
        }
        Ok(fs)
    } else {
        match v {
            Value::Arr(elems) => {
                proof {
                    lemma_view_list(elems@);
                }
                if elems.len() == arity {
                    Ok(elems)
                } else {
                    Err(DecodeError)
                }
            },
            _ => Err(DecodeError),
        }
    }
}

/// Decodes a variant's data by treating its fields as an anonymous product
/// type, named or positional.
pub fn variant_as_struct(shape: &VariantShape, v: Value) -> (r: Result<Vec<Value>, DecodeError>)
    ensures
        match r {
            Ok(fs) => spec_decode_product(*shape, view_value(v)) == Some(view_values(fs@)),
            Err(_) => spec_decode_product(*shape, view_value(v)) is None,
        },
{
    match shape {
        VariantShape::Unit => Err(DecodeError),
        VariantShape::Named { fields: names } => match v {
            Value::Obj(entries) => {
                proof {
                    lemma_view_pairs(entries@);
                }
                named_fields_as_struct(names, entries)
            },
            _ => Err(DecodeError),
        },
        VariantShape::Tuple { arity } => unnamed_fields_as_struct(*arity, v),
    }
}

/// The views of per-variant pending slots, each holding a decoded field
/// list.
pub open spec fn view_slot_lists(slots: Seq<Option<Vec<Value>>>) -> Seq<Option<Seq<SpecValue>>> {
    Seq::new(
        slots.len(),
        |i: int| match slots[i] {
            Some(fs) => Some(view_values(fs@)),
            None => None,
        },
    )
}

/// One keyed entry arriving at the external machine: a key equal to a
/// data-carrying variant's display name decodes the nested value into that
/// variant's slot; any other key is ignored together with its value.
pub open spec fn ext_step(
    variants: Seq<Variant>,
    slots: Seq<Option<Seq<SpecValue>>>,
    k: Seq<char>,
    v: SpecValue,
) -> Option<Seq<Option<Seq<SpecValue>>>> {
    match find_data_variant(variants, k, 0) {
        Some(i) => match spec_decode_product(variants[i].shape, v) {
            Some(fs) => Some(slots.update(i, Some(fs))),
            None => None,
        },
        None => Some(slots),
    }
}

/// The external machine run over a whole entry list; a nested decode
/// failure fails the run at once.
pub open spec fn ext_run(
    variants: Seq<Variant>,
    slots: Seq<Option<Seq<SpecValue>>>,
    entries: Seq<(Seq<char>, SpecValue)>,
) -> Option<Seq<Option<Seq<SpecValue>>>>
    decreases entries.len(),
{
    if entries.len() == 0 {
        Some(slots)
    } else {
        match ext_step(variants, slots, entries[0].0, entries[0].1) {
            Some(next) => ext_run(variants, next, entries.drop_first()),
            None => None,
        }
    }
}

/// The first filled slot at or after `i`.
pub open spec fn find_filled(slots: Seq<Option<Seq<SpecValue>>>, i: int) -> Option<int>
    decreases slots.len() - i,
{
    if i < 0 || i >= slots.len() {
        None
    } else if slots[i] is Some {
        Some(i)
    } else {
        find_filled(slots, i + 1)
    }
}

/// A found filled position lies in range and is filled.
pub proof fn lemma_find_filled_range(slots: Seq<Option<Seq<SpecValue>>>, i: int)
    ensures
        find_filled(slots, i) matches Some(j) ==> i <= j < slots.len() && slots[j] is Some,
    decreases slots.len() - i,
{
    if 0 <= i < slots.len() && !(slots[i] is Some) {
        lemma_find_filled_range(slots, i + 1);
    }
}

/// When the external map closes, exactly one variant slot must have been
/// filled; that slot, the first filled in declaration order, is the result.
pub open spec fn ext_finish(slots: Seq<Option<Seq<SpecValue>>>) -> Option<(int, Seq<SpecValue>)> {
    match find_filled(slots, 0) {
        Some(i) => if forall|m: int| i < m < slots.len() ==> slots[m] is None {
            Some((i, slots[i]->0))
        } else {
            None
        },
        None => None,
    }
}

/// The external machine over a whole keyed map: run every entry, then
/// close.
pub open spec fn spec_decode_external_obj(
    variants: Seq<Variant>,
    entries: Seq<(Seq<char>, SpecValue)>,
) -> Option<(int, Seq<SpecValue>)> {
    match ext_run(variants, empty_slots(variants.len()), entries) {
        Some(slots) => ext_finish(slots),
        None => None,
    }
}

/// Externally tagged decoding: a bare string commits the unit variant of
/// that name; a keyed map runs the external machine; anything else is a
/// mismatch.
pub open spec fn spec_decode_external(variants: Seq<Variant>, v: SpecValue) -> Option<
    (int, Seq<SpecValue>),
> {
    match v {
        SpecValue::Str(s) => match find_unit_variant(variants, s, 0) {
            Some(i) => Some((i, Seq::empty())),
            None => None,
        },
        SpecValue::Obj(entries) => spec_decode_external_obj(variants, entries),
        _ => None,
    }
}

/// One empty pending slot per expected item.
fn make_slots<T>(n: usize) -> (r: Vec<Option<T>>)
    ensures
        r@.len() == n,
        forall|m: int| 0 <= m < n ==> r@[m] is None,
{
    let mut slots: Vec<Option<T>> = Vec::new();
    let mut j: usize = 0;
    while j < n
        invariant
            0 <= j <= n,
            slots@.len() == j,
            forall|m: int| 0 <= m < j ==> slots@[m] is None,
        decreases n - j,
    {
        slots.push(None);
        j = j + 1;
    }
    slots
}

/// The first filled per-variant slot, in declaration order.
fn find_first_filled(slots: &Vec<Option<Vec<Value>>>) -> (r: Option<usize>)
    ensures
        match r {
            Some(i) => find_filled(view_slot_lists(slots@), 0) == Some(i as int) && i
                < slots@.len(),
            None => find_filled(view_slot_lists(slots@), 0) is None,
        },
{
    let n = slots.len();
    let mut i: usize = 0;
    while i < n
        invariant
            0 <= i <= n,
            n == slots@.len(),
            find_filled(view_slot_lists(slots@), 0) == find_filled(
                view_slot_lists(slots@),
                i as int,
            ),
        decreases n - i,
    {
        if matches!(slots[i], Option::Some(_)) {
            proof {
                assert(view_slot_lists(slots@)[i as int] is Some);
            }
            return Some(i);
        }
        i = i + 1;
    }
    None
}

/// Whether every per-variant slot after position `i` is still empty.
fn no_other_filled(slots: &Vec<Option<Vec<Value>>>, i: usize) -> (r: bool)
    requires
        i < slots@.len(),
    ensures
        r == (forall|m: int|
            i < m < view_slot_lists(slots@).len() ==> view_slot_lists(slots@)[m] is None),
{
    let n = slots.len();
    let mut m: usize = i + 1;
    while m < n
        invariant
            i < m <= n,
            n == slots@.len(),
            forall|p: int| i < p < m ==> view_slot_lists(slots@)[p] is None,
        decreases n - m,
    {
        if matches!(slots[m], Option::Some(_)) {
            proof {
                assert(view_slot_lists(slots@)[m as int] is Some);
            }
            return false;
        }
        m = m + 1;
    }
    true
}

/// Runs the external machine over a keyed map's entries and closes it.
fn deserialize_external_obj(variants: &Vec<Variant>, entries: Vec<(String, Value)>) -> (r: Result<
    EnumValue,
    DecodeError,
>)
    ensures
        match r {
            Ok(ev) => spec_decode_external_obj(variants@, view_entries(entries@)) == Some(
                (ev.variant as int, view_values(ev.fields@)),
            ),
            Err(_) => spec_decode_external_obj(variants@, view_entries(entries@)) is None,
        },
{
    let ghost entries0 = view_entries(entries@);
    let n = variants.len();
    let mut slots: Vec<Option<Vec<Value>>> = make_slots(n);
    proof {
        assert(view_slot_lists(slots@) =~= empty_slots::<Seq<SpecValue>>(variants@.len()));
    }
    let mut rest = entries;
    while rest.len() > 0
        invariant
            entries0 == view_entries(entries@),
            n == variants@.len(),
            slots@.len() == n,
            ext_run(variants@, empty_slots(variants@.len()), entries0) == ext_run(
                variants@,
                view_slot_lists(slots@),
                view_entries(rest@),
            ),
        decreases rest@.len(),
    {
        let ghost pre_entries = rest@;
        let ghost pre_slots = view_slot_lists(slots@);
        let (k, v) = rest.remove(0);
        proof {
            assert(pre_entries.remove(0) =~= pre_entries.drop_first());
            assert(view_entries(pre_entries).drop_first() =~= view_entries(
                pre_entries.drop_first(),
            ));
            assert(view_entries(pre_entries)[0] == (k@, view_value(v)));
        }
        match find_data_index(variants, &k) {
            Some(i) => {
                proof {
                    lemma_find_data_range(variants@, k@, 0);
                }
                match variant_as_struct(&variants[i].shape, v) {
                    Ok(fs) => {
                        slots.set(i, Some(fs));
                        proof {
                            assert(view_slot_lists(slots@) =~= pre_slots.update(
                                i as int,
                                Some(view_values(fs@)),
                            ));
                        }
                    },
                    Err(e) => {
                        return Err(e);
                    },
                }
            },
            None => {},
        }
    }
    proof {
        assert(view_entries(rest@) =~= Seq::<(Seq<char>, SpecValue)>::empty());
    }
    match find_first_filled(&slots) {
        Some(i) => {
            proof {
                lemma_find_filled_range(view_slot_lists(slots@), 0);
            }
            if no_other_filled(&slots, i) {
                let mut slots = slots;
                match slots.remove(i) {
                    Some(fs) => Ok(EnumValue { variant: i, fields: fs }),
                    None => Err(DecodeError),
                }
            } else {
                Err(DecodeError)
            }
        },
        None => Err(DecodeError),
    }
}

/// Decodes an externally tagged value: a bare string matches a unit
/// variant's name; inside a map, keys matching data-carrying variant names
/// fill their slots, unknown keys are ignored, and exactly one slot must be
/// filled when the map closes.
pub fn deserialize_external(variants: &Vec<Variant>, value: Value) -> (r: Result<
    EnumValue,
    DecodeError,
>)
    ensures
        match r {
            Ok(ev) => spec_decode_external(variants@, view_value(value)) == Some(
                (ev.variant as int, view_values(ev.fields@)),
            ),
            Err(_) => spec_decode_external(variants@, view_value(value)) is None,
        },
{
    match value {
        Value::Str(s) => match find_unit_index(variants, &s) {
            Some(i) => {
                let fields: Vec<Value> = Vec::new();
                proof {
                    assert(view_values(fields@) =~= Seq::<SpecValue>::empty());
                }
                Ok(EnumValue { variant: i, fields })
            },
            None => Err(DecodeError),
        },
        Value::Obj(entries) => {
            proof {
                lemma_view_pairs(entries@);
            }
            deserialize_external_obj(variants, entries)
        },
        _ => Err(DecodeError),
    }
}

/// The internal machine's state between entries: the tag value seen so far,
/// the variant already dispatched to (if any), and that variant's pending
/// field slots.
pub struct InternalState {
    pub pending_tag: Option<Seq<char>>,
    pub dispatched: Option<int>,
    pub dfields: Seq<Option<SpecValue>>,
}

/// The internal machine before any entry: no tag seen, nothing dispatched.
pub open spec fn int_init() -> InternalState {
    InternalState { pending_tag: None, dispatched: None, dfields: Seq::empty() }
}

/// One keyed entry arriving at the internal machine. The tag key routes to
/// a string slot, and may do so again later. Any other key requires the tag
/// to be known already: the first such key resolves the tag against the
/// data-carrying variant names and dispatches to that variant's named-field
/// machine; it and every later key are forwarded there.
pub open spec fn int_step(
    variants: Seq<Variant>,
    tag: Seq<char>,
    st: InternalState,
    k: Seq<char>,
    v: SpecValue,
) -> Option<InternalState> {
    if k == tag {
        match v {
            SpecValue::Str(s) => Some(
                InternalState {
                    pending_tag: Some(s),
                    dispatched: st.dispatched,
                    dfields: st.dfields,
                },
            ),
            _ => None,
        }
    } else {
        match st.dispatched {
            Some(i) => Some(
                InternalState {
                    pending_tag: st.pending_tag,
                    dispatched: st.dispatched,
                    dfields: named_step(st.dfields, shape_field_names(variants[i].shape), k, v),
                },
            ),
            None => match st.pending_tag {
                Some(t) => match find_data_variant(variants, t, 0) {
                    Some(i) => match variants[i].shape {
                        VariantShape::Named { fields: names } => Some(
                            InternalState {
                                pending_tag: st.pending_tag,
                                dispatched: Some(i),
                                dfields: named_step(
                                    empty_slots(names@.len()),
                                    view_strings(names@),
                                    k,
                                    v,
                                ),
                            },
                        ),
                        _ => None,
                    },
                    None => None,
                },
                None => None,
            },
        }
    }
}

/// The internal machine run over a whole entry list.
pub open spec fn int_run(
    variants: Seq<Variant>,
    tag: Seq<char>,
    st: InternalState,
    entries: Seq<(Seq<char>, SpecValue)>,
) -> Option<InternalState>
    decreases entries.len(),
{
    if entries.len() == 0 {
        Some(st)
    } else {
        match int_step(variants, tag, st, entries[0].0, entries[0].1) {
            Some(next) => int_run(variants, tag, next, entries.drop_first()),
            None => None,
        }
    }
}

/// When the internal map closes: the tag must have been seen; a unit
/// variant's name succeeds at once, even if no field key ever arrived;
/// otherwise the dispatched variant's fields must all be filled and the
/// final tag must still select that same variant.
pub open spec fn int_finish(variants: Seq<Variant>, st: InternalState) -> Option<
    (int, Seq<SpecValue>),
> {
    match st.pending_tag {
        Some(t) => match find_unit_variant(variants, t, 0) {
            Some(u) => Some((u, Seq::empty())),
            None => match st.dispatched {
                Some(i) => if all_filled(st.dfields) {
                    match find_data_variant(variants, t, 0) {
                        Some(j) => if j == i {
                            Some((i, unwrap_slots(st.dfields)))
                        } else {
                            None
                        },
                        None => None,
                    }
                } else {
                    None
                },
                None => None,
            },
        },
        None => None,
    }
}

/// Internally tagged decoding accepts only a keyed map.
pub open spec fn spec_decode_internal(variants: Seq<Variant>, tag: Seq<char>, v: SpecValue) -> Option<
    (int, Seq<SpecValue>),
> {
    match v {
        SpecValue::Obj(entries) => match int_run(variants, tag, int_init(), entries) {
            Some(st) => int_finish(variants, st),
            None => None,
        },
        _ => None,
    }
}

/// The machine state a running decoder's variables stand for.
pub open spec fn int_state(ptag: Option<String>, disp: Option<usize>, dslots: Seq<Option<Value>>) -> InternalState {
    InternalState {
        pending_tag: match ptag {
            Some(s) => Some(s@),
            None => None,
        },
        dispatched: match disp {
            Some(i) => Some(i as int),
            None => None,
        },
        dfields: view_opt_values(dslots),
    }
}

/// Forwards one keyed entry into a named-field product's pending slots.
fn named_forward(names: &Vec<String>, dslots: &mut Vec<Option<Value>>, k: &String, v: Value)
    requires
        old(dslots)@.len() == names@.len(),
    ensures
        view_opt_values(final(dslots)@) == named_step(
            view_opt_values(old(dslots)@),
            view_strings(names@),
            k@,
            view_value(v),
        ),
        final(dslots)@.len() == names@.len(),
{
    match find_field_index(names, k) {
        Some(j) => {
            proof {
                lemma_find_field_range(view_strings(names@), k@, 0);
            }
            dslots.set(j, Some(v));
            proof {
                assert(view_opt_values(dslots@) =~= named_step(
                    view_opt_values(old(dslots)@),
                    view_strings(names@),
                    k@,
                    view_value(v),
                ));
            }
        },
        None => {
            proof {
                assert(view_opt_values(dslots@) =~= named_step(
                    view_opt_values(old(dslots)@),
                    view_strings(names@),
                    k@,
                    view_value(v),
                ));
            }
        },
    }
}

/// Runs the internal machine over a keyed map's entries and closes it.
fn deserialize_internal_obj(
    variants: &Vec<Variant>,
    tag: &String,
    entries: Vec<(String, Value)>,
) -> (r: Result<EnumValue, DecodeError>)
    ensures
        match r {
            Ok(ev) => (match int_run(variants@, tag@, int_init(), view_entries(entries@)) {
                Some(st) => int_finish(variants@, st),
                None => None,
            }) == Some((ev.variant as int, view_values(ev.fields@))),
            Err(_) => (match int_run(variants@, tag@, int_init(), view_entries(entries@)) {
                Some(st) => int_finish(variants@, st),
                None => None,
            }) is None,
        },
{
    let ghost entries0 = view_entries(entries@);
    let mut ptag: Option<String> = None;
    let mut disp: Option<usize> = None;
    let mut dslots: Vec<Option<Value>> = Vec::new();
    proof {
        assert(int_state(ptag, disp, dslots@) == int_init()) by {
            assert(view_opt_values(Seq::<Option<Value>>::empty()) =~= Seq::<Option<
                SpecValue,
            >>::empty());
        }
    }
    let mut rest = entries;
    while rest.len() > 0
        invariant
            entries0 == view_entries(entries@),
            int_run(variants@, tag@, int_init(), entries0) == int_run(
                variants@,
                tag@,
                int_state(ptag, disp, dslots@),
                view_entries(rest@),
            ),
            disp matches Some(i) ==> 0 <= (i as int) < variants@.len() && variants@[i as int].shape
                is Named && dslots@.len() == shape_field_names(variants@[i as int].shape).len(),
        decreases rest@.len(),
    {
        let ghost pre = int_state(ptag, disp, dslots@);
        let ghost pre_entries = rest@;
        let (k, v) = rest.remove(0);
        proof {
            assert(pre_entries.remove(0) =~= pre_entries.drop_first());
            assert(view_entries(pre_entries).drop_first() =~= view_entries(
                pre_entries.drop_first(),
            ));
            assert(view_entries(pre_entries)[0] == (k@, view_value(v)));
        }
        if k == *tag {
            match v {
                Value::Str(s) => {
                    ptag = Some(s);
                    proof {
                        assert(int_step(variants@, tag@, pre, k@, view_value(v)) == Some(
                            int_state(ptag, disp, dslots@),
                        ));
                    }
                },
                _ => {
                    proof {
                        assert(int_step(variants@, tag@, pre, k@, view_value(v)) is None);
                    }
                    return Err(DecodeError);
                },
            }
        } else {
            match disp {
                Some(i) => {
                    match &variants[i].shape {
                        VariantShape::Named { fields: names } => {
                            named_forward(names, &mut dslots, &k, v);
                        },
                        _ => {
                            proof {
                                assert(false);
                            }
                            return Err(DecodeError);
                        },
                    }
                },
                None => {
                    match &ptag {
                        Some(t) => {
                            match find_data_index(variants, t) {
                                Some(i) => {
                                    proof {
                                        lemma_find_data_range(variants@, t@, 0);
                                    }
                                    match &variants[i].shape {
                                        VariantShape::Named { fields: names } => {
                                            disp = Some(i);
                                            let mut fresh: Vec<Option<Value>> = make_slots(
                                                names.len(),
                                            );
                                            proof {
                                                assert(view_opt_values(fresh@)
                                                    =~= empty_slots::<SpecValue>(names@.len()));
                                            }
                                            named_forward(names, &mut fresh, &k, v);
                                            dslots = fresh;
                                        },
                                        _ => {
                                            return Err(DecodeError);
                                        },
                                    }
                                },
                                None => {
                                    return Err(DecodeError);
                                },
                            }
                        },
                        None => {
                            return Err(DecodeError);
                        },
                    }
                },
            }
        }
    }
    proof {
        assert(view_entries(rest@) =~= Seq::<(Seq<char>, SpecValue)>::empty());
    }
    match ptag {
        None => Err(DecodeError),
        Some(t) => {
            match find_unit_index(variants, &t) {
                Some(u) => {
                    let fields: Vec<Value> = Vec::new();
                    proof {
                        assert(view_values(fields@) =~= Seq::<SpecValue>::empty());
                    }
                    Ok(EnumValue { variant: u, fields })
                },
                None => {
                    match disp {
                        None => Err(DecodeError),
                        Some(i) => {
                            match collect_slots(dslots) {
                                Ok(fs) => {
                                    match find_data_index(variants, &t) {
                                        Some(j) => {
                                            if j == i {
                                                Ok(EnumValue { variant: i, fields: fs })
                                            } else {
                                                Err(DecodeError)
                                            }
                                        },
                                        None => Err(DecodeError),
                                    }
                                },
                                Err(e) => Err(e),
                            }
                        },
                    }
                },
            }
        },
    }
}

/// Decodes an internally tagged value: only a keyed map is accepted; the
/// tag key must precede every field key, and the fields merge flat beside
/// it.
pub fn deserialize_internal(variants: &Vec<Variant>, tag: &String, value: Value) -> (r: Result<
    EnumValue,
    DecodeError,
>)
    ensures
        match r {
            Ok(ev) => spec_decode_internal(variants@, tag@, view_value(value)) == Some(
                (ev.variant as int, view_values(ev.fields@)),
            ),
            Err(_) => spec_decode_internal(variants@, tag@, view_value(value)) is None,
        },
{
    match value {
        Value::Obj(entries) => {
            proof {
                lemma_view_pairs(entries@);
            }
            deserialize_internal_obj(variants, tag, entries)
        },
        _ => Err(DecodeError),
    }
}

/// The adjacent machine's state between entries: the tag value seen so far
/// and one pending slot per variant for the content value.
pub struct AdjacentState {
    pub pending_tag: Option<Seq<char>>,
    pub slots: Seq<Option<Seq<SpecValue>>>,
}

/// The adjacent machine before any entry.
pub open spec fn adj_init(n: nat) -> AdjacentState {
    AdjacentState { pending_tag: None, slots: empty_slots(n) }
}

/// One keyed entry arriving at the adjacent machine: the tag key routes to
/// a string slot; the content key requires the tag to be known already and
/// decodes the nested value for the variant the tag names; any other key
/// fails at once.
pub open spec fn adj_step(
    variants: Seq<Variant>,
    tag: Seq<char>,
    content: Seq<char>,
    st: AdjacentState,
    k: Seq<char>,
    v: SpecValue,
) -> Option<AdjacentState> {
    if k == tag {
        match v {
            SpecValue::Str(s) => Some(AdjacentState { pending_tag: Some(s), slots: st.slots }),
            _ => None,
        }
    } else if k == content {
        match st.pending_tag {
            Some(t) => match find_data_variant(variants, t, 0) {
                Some(i) => match spec_decode_product(variants[i].shape, v) {
                    Some(fs) => Some(
                        AdjacentState {
                            pending_tag: st.pending_tag,
                            slots: st.slots.update(i, Some(fs)),
                        },
                    ),
                    None => None,
                },
                None => None,
            },
            None => None,
        }
    } else {
        None
    }
}

/// The adjacent machine run over a whole entry list.
pub open spec fn adj_run(
    variants: Seq<Variant>,
    tag: Seq<char>,
    content: Seq<char>,
    st: AdjacentState,
    entries: Seq<(Seq<char>, SpecValue)>,
) -> Option<AdjacentState>
    decreases entries.len(),
{
    if entries.len() == 0 {
        Some(st)
    } else {
        match adj_step(variants, tag, content, st, entries[0].0, entries[0].1) {
            Some(next) => adj_run(variants, tag, content, next, entries.drop_first()),
            None => None,
        }
    }
}

/// When the adjacent map closes: the tag must have been seen; a unit
/// variant's name succeeds with no content key at all; otherwise the named
/// variant's slot must hold the decoded content.
pub open spec fn adj_finish(variants: Seq<Variant>, st: AdjacentState) -> Option<
    (int, Seq<SpecValue>),
> {
    match st.pending_tag {
        Some(t) => match find_unit_variant(variants, t, 0) {
            Some(u) => Some((u, Seq::empty())),
            None => match find_data_variant(variants, t, 0) {
                Some(i) => match st.slots[i] {
                    Some(fs) => Some((i, fs)),
                    None => None,
                },
                None => None,
            },
        },
        None => None,
    }
}

/// Adjacently tagged decoding accepts only a keyed map.
pub open spec fn spec_decode_adjacent(
    variants: Seq<Variant>,
    tag: Seq<char>,
    content: Seq<char>,
    v: SpecValue,
) -> Option<(int, Seq<SpecValue>)> {
    match v {
        SpecValue::Obj(entries) => match adj_run(
            variants,
            tag,
            content,
            adj_init(variants.len()),
            entries,
        ) {
            Some(st) => adj_finish(variants, st),
            None => None,
        },
        _ => None,
    }
}

/// The machine state a running adjacent decoder's variables stand for.
pub open spec fn adj_state(ptag: Option<String>, slots: Seq<Option<Vec<Value>>>) -> AdjacentState {
    AdjacentState {
        pending_tag: match ptag {
            Some(s) => Some(s@),
            None => None,
        },
        slots: view_slot_lists(slots),
    }
}

/// Runs the adjacent machine over a keyed map's entries and closes it.
fn deserialize_adjacent_obj(
    variants: &Vec<Variant>,
    tag: &String,
    content: &String,
    entries: Vec<(String, Value)>,
) -> (r: Result<EnumValue, DecodeError>)
    ensures
        match r {
            Ok(ev) => (match adj_run(
                variants@,
                tag@,
                content@,
                adj_init(variants@.len()),
                view_entries(entries@),
            ) {
                Some(st) => adj_finish(variants@, st),
                None => None,
            }) == Some((ev.variant as int, view_values(ev.fields@))),
            Err(_) => (match adj_run(
                variants@,
                tag@,
                content@,
                adj_init(variants@.len()),
                view_entries(entries@),
            ) {
                Some(st) => adj_finish(variants@, st),
                None => None,
            }) is None,
        },
{
    let ghost entries0 = view_entries(entries@);
    let n = variants.len();
    let mut ptag: Option<String> = None;
    let mut slots: Vec<Option<Vec<Value>>> = make_slots(n);
    proof {
        assert(view_slot_lists(slots@) =~= empty_slots::<Seq<SpecValue>>(variants@.len()));
    }
    let mut rest = entries;
    while rest.len() > 0
        invariant
            entries0 == view_entries(entries@),
            n == variants@.len(),
            slots@.len() == n,
            adj_run(variants@, tag@, content@, adj_init(variants@.len()), entries0) == adj_run(
                variants@,
                tag@,
                content@,
                adj_state(ptag, slots@),
                view_entries(rest@),
            ),
        decreases rest@.len(),
    {
        let ghost pre = adj_state(ptag, slots@);
        let ghost pre_entries = rest@;
        let (k, v) = rest.remove(0);
        proof {
            assert(pre_entries.remove(0) =~= pre_entries.drop_first());
            assert(view_entries(pre_entries).drop_first() =~= view_entries(
                pre_entries.drop_first(),
            ));
            assert(view_entries(pre_entries)[0] == (k@, view_value(v)));
        }
        if k == *tag {
            match v {
                Value::Str(s) => {
                    ptag = Some(s);
                    proof {
                        assert(adj_step(variants@, tag@, content@, pre, k@, view_value(v)) == Some(
                            adj_state(ptag, slots@),
                        ));
                    }
                },
                _ => {
                    return Err(DecodeError);
                },
            }
        } else if k == *content {
            match &ptag {
                Some(t) => {
                    match find_data_index(variants, t) {
                        Some(i) => {
                            proof {
                                lemma_find_data_range(variants@, t@, 0);
                            }
                            match variant_as_struct(&variants[i].shape, v) {
                                Ok(fs) => {
                                    let ghost pre_slots = view_slot_lists(slots@);
                                    slots.set(i, Some(fs));
                                    proof {
                                        assert(view_slot_lists(slots@) =~= pre_slots.update(
                                            i as int,
                                            Some(view_values(fs@)),
                                        ));
                                    }
                                },
                                Err(e) => {
                                    return Err(e);
                                },
                            }
                        },
                        None => {
                            return Err(DecodeError);
                        },
                    }
                },
                None => {
                    return Err(DecodeError);
                },
            }
        } else {
            return Err(DecodeError);
        }
    }
    proof {
        assert(view_entries(rest@) =~= Seq::<(Seq<char>, SpecValue)>::empty());
    }
    match ptag {
        None => Err(DecodeError),
        Some(t) => {
            match find_unit_index(variants, &t) {
                Some(u) => {
                    let fields: Vec<Value> = Vec::new();
                    proof {
                        assert(view_values(fields@) =~= Seq::<SpecValue>::empty());
                    }
                    Ok(EnumValue { variant: u, fields })
                },
                None => {
                    match find_data_index(variants, &t) {
                        Some(i) => {
                            proof {
                                lemma_find_data_range(variants@, t@, 0);
                            }
                            let mut slots = slots;
                            match slots.remove(i) {
                                Some(fs) => Ok(EnumValue { variant: i, fields: fs }),
                                None => Err(DecodeError),
                            }
                        },
                        None => Err(DecodeError),
                    }
                },
            }
        },
    }
}

/// Decodes an adjacently tagged value: only a keyed map is accepted; the
/// tag key must precede the content key, and any other key is a mismatch
/// at once.
pub fn deserialize_adjacent(
    variants: &Vec<Variant>,
    tag: &String,
    content: &String,
    value: Value,
) -> (r: Result<EnumValue, DecodeError>)
    ensures
        match r {
            Ok(ev) => spec_decode_adjacent(variants@, tag@, content@, view_value(value)) == Some(
                (ev.variant as int, view_values(ev.fields@)),
            ),
            Err(_) => spec_decode_adjacent(variants@, tag@, content@, view_value(value)) is None,
        },
{
    match value {
        Value::Obj(entries) => {
            proof {
                lemma_view_pairs(entries@);
            }
            deserialize_adjacent_obj(variants, tag, content, entries)
        },
        _ => Err(DecodeError),
    }
}

/// Decoding under any representation: which machine runs is the
/// descriptor's tagging strategy; no decoder exists for the untagged
/// representation.
pub open spec fn spec_deserialize(shape: EnumShape, v: SpecValue) -> Option<(int, Seq<SpecValue>)> {
    match shape.tag {
        TagType::External => spec_decode_external(shape.variants@, v),
        TagType::Internal { tag } => spec_decode_internal(shape.variants@, tag@, v),
        TagType::Adjacent { tag, content } => spec_decode_adjacent(
            shape.variants@,
            tag@,
            content@,
            v,
        ),
        TagType::Untagged => None,
    }
}

/// Decodes one wire value against a descriptor, reconstructing exactly the
/// variant value `spec_deserialize` describes, or failing with the decode
/// mismatch it describes. An untagged descriptor has no decoder and always
/// mismatches; `derive_deserialize` rejects it up front.
pub fn deserialize(shape: &EnumShape, value: Value) -> (r: Result<EnumValue, DecodeError>)
    ensures
        match r {
            Ok(ev) => spec_deserialize(*shape, view_value(value)) == Some(
                (ev.variant as int, view_values(ev.fields@)),
            ),
            Err(_) => spec_deserialize(*shape, view_value(value)) is None,
        },
{
    match &shape.tag {
        TagType::External => deserialize_external(&shape.variants, value),
        TagType::Internal { tag } => deserialize_internal(&shape.variants, tag, value),
        TagType::Adjacent { tag, content } => deserialize_adjacent(
            &shape.variants,
            tag,
            content,
            value,
        ),
        TagType::Untagged => Err(DecodeError),
    }
}

/// The definition-time gate for building a decoder: internal tagging
/// rejects tuple variants, and the untagged representation has no decoder
/// at all.
pub fn derive_deserialize(shape: &EnumShape) -> (r: Result<(), DefError>)
    ensures
        r is Ok <==> (shape_ok(*shape) && !(shape.tag is Untagged)),
        !shape_ok(*shape) ==> r == Err::<(), DefError>(DefError::InternallyTaggedTuple),
        shape_ok(*shape) && shape.tag is Untagged ==> r == Err::<(), DefError>(
            DefError::UntaggedDecoder,
        ),
{
    if matches!(shape.tag, TagType::Internal { .. }) && crate::shape::has_tuple_variant(
        &shape.variants,
    ) {
        Err(DefError::InternallyTaggedTuple)
    } else if matches!(shape.tag, TagType::Untagged) {
        Err(DefError::UntaggedDecoder)
    } else {
        Ok(())
    }
}

} // verus!
