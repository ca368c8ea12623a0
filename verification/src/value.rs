//! The abstract streaming value model: a JSON-like tree of scalars, ordered
//! sequences and ordered keyed maps, together with its mathematical view.

use vstd::prelude::*;

verus! {

/// A wire-level value. Keyed maps keep their entries in emission order, as a
/// streaming writer or parser would see them.
#[derive(Debug, PartialEq)]
pub enum Value {
    Null,
    Bool(bool),
    Int(i64),
    Str(String),
    Arr(Vec<Value>),
    Obj(Vec<(String, Value)>),
}

/// The mathematical shape of a [`Value`]: strings become `Seq<char>`,
/// integers become `int`, and the containers become `Seq`s.
#[verifier::ext_equal]
pub enum SpecValue {
    Null,
    Bool(bool),
    Int(int),
    Str(Seq<char>),
    Arr(Seq<SpecValue>),
    Obj(Seq<(Seq<char>, SpecValue)>),
}

/// The view of a wire value, structure for structure.
pub open spec fn view_value(v: Value) -> SpecValue
    decreases v,
{
    match v {
        Value::Null => SpecValue::Null,
        Value::Bool(b) => SpecValue::Bool(b),
        Value::Int(i) => SpecValue::Int(i as int),
        Value::Str(s) => SpecValue::Str(s@),
        Value::Arr(items) => SpecValue::Arr(view_list(items@)),
        Value::Obj(entries) => SpecValue::Obj(view_pairs(entries@)),
    }
}

/// The views of a list of wire values, built element by element.
pub open spec fn view_list(items: Seq<Value>) -> Seq<SpecValue>
    decreases items,
{
    if items.len() == 0 {
        Seq::empty()
    } else {
        view_list(items.drop_last()).push(view_value(items.last()))
    }
}

/// The views of a list of keyed entries, built entry by entry.
pub open spec fn view_pairs(entries: Seq<(String, Value)>) -> Seq<(Seq<char>, SpecValue)>
    decreases entries,
{
    if entries.len() == 0 {
        Seq::empty()
    } else {
        view_pairs(entries.drop_last()).push(
            (entries.last().0@, view_value(entries.last().1)),
        )
    }
}

impl View for Value {
    type V = SpecValue;

    open spec fn view(&self) -> SpecValue {
        view_value(*self)
    }
}

/// The views of a sequence of wire values, in order.
pub open spec fn view_values(items: Seq<Value>) -> Seq<SpecValue> {
    Seq::new(items.len(), |i: int| view_value(items[i]))
}

/// The views of a sequence of keyed entries, in order.
pub open spec fn view_entries(entries: Seq<(String, Value)>) -> Seq<(Seq<char>, SpecValue)> {
    Seq::new(entries.len(), |i: int| (entries[i].0@, view_value(entries[i].1)))
}

/// The views of a sequence of strings, in order.
pub open spec fn view_strings(names: Seq<String>) -> Seq<Seq<char>> {
    Seq::new(names.len(), |i: int| names[i]@)
}

/// `view_list` is the pointwise view of a list.
pub proof fn lemma_view_list(items: Seq<Value>)
    ensures
        view_list(items) == view_values(items),
    decreases items.len(),
{
    if items.len() > 0 {
        lemma_view_list(items.drop_last());
    }
    assert(view_list(items) =~= view_values(items));
}

/// `view_pairs` is the pointwise view of an entry list.
pub proof fn lemma_view_pairs(entries: Seq<(String, Value)>)
    ensures
        view_pairs(entries) == view_entries(entries),
    decreases entries.len(),
{
    if entries.len() > 0 {
        lemma_view_pairs(entries.drop_last());
    }
    assert(view_pairs(entries) =~= view_entries(entries));
}

} // verus!
