//! Descriptors for sum types: the tagging strategy, the per-variant field
//! shapes, and concrete variant values, with their well-formedness rules.

use vstd::prelude::*;

use crate::value::Value;
use crate::value::view_strings;

verus! {

/// Where the variant marker lives relative to the variant's own data.
#[derive(Debug, Clone, PartialEq)]
pub enum TagType {
    /// The variant name wraps the data, or is the whole value for a unit
    /// variant.
    External,
    /// One designated key holds the variant name; the variant's fields are
    /// merged beside it into the same keyed map.
    Internal { tag: String },
    /// Two designated keys: `tag` holds the variant name, `content` holds the
    /// variant's data as a nested value.
    Adjacent { tag: String, content: String },
    /// No marker at all. Only encoding is supported for this representation.
    Untagged,
}

/// The field shape of one variant.
#[derive(Debug, Clone, PartialEq)]
pub enum VariantShape {
    /// No data.
    Unit,
    /// Named fields, listed by display name in declaration order.
    Named { fields: Vec<String> },
    /// Positional fields; only their count matters to the representation.
    Tuple { arity: usize },
}

/// One variant: its display name and its field shape.
#[derive(Debug, Clone, PartialEq)]
pub struct Variant {
    pub name: String,
    pub shape: VariantShape,
}

/// A whole sum type: a tagging strategy and its variants in declaration
/// order.
#[derive(Debug, Clone, PartialEq)]
pub struct EnumShape {
    pub tag: TagType,
    pub variants: Vec<Variant>,
}

/// A concrete value of a sum type: which variant it is, and the field
/// payloads in declaration order. A unit variant carries no payloads.
#[derive(Debug, PartialEq)]
pub struct EnumValue {
    pub variant: usize,
    pub fields: Vec<Value>,
}

/// A definition-time error: the declared representation itself is invalid.
/// Distinct from a runtime decode mismatch.
#[derive(Debug, Clone, Copy, PartialEq, Eq, Structural)]
pub enum DefError {
    /// The same tagging directive was declared twice.
    DuplicateTag,
    /// The `content` directive was declared twice.
    DuplicateContent,
    /// A rename directive was declared twice on one item.
    DuplicateRename,
    /// A directive that has no meaning where it stands.
    UnsupportedDirective,
    /// A `content` directive without a `tag` directive.
    ContentWithoutTag,
    /// A tuple variant's fields cannot be merged into a flat keyed map.
    InternallyTaggedTuple,
    /// No decoder exists for the untagged representation.
    UntaggedDecoder,
}

/// How many field payloads a shape calls for.
pub open spec fn shape_arity(shape: VariantShape) -> int {
    match shape {
        VariantShape::Unit => 0,
        VariantShape::Named { fields } => fields@.len() as int,
        VariantShape::Tuple { arity } => arity as int,
    }
}

/// The field display names of a shape; empty unless the shape is `Named`.
pub open spec fn shape_field_names(shape: VariantShape) -> Seq<Seq<char>> {
    match shape {
        VariantShape::Named { fields } => view_strings(fields@),
        _ => Seq::empty(),
    }
}

/// Whether any variant in the list is a tuple variant.
pub open spec fn spec_has_tuple(variants: Seq<Variant>) -> bool {
    exists|i: int| 0 <= i < variants.len() && variants[i].shape is Tuple
}

/// The combination rule a descriptor must satisfy before codecs are built:
/// an internally tagged sum type may not contain tuple variants.
pub open spec fn shape_ok(shape: EnumShape) -> bool {
    shape.tag is Internal ==> !spec_has_tuple(shape.variants@)
}

/// Distinctness of a list of names, by their character content.
pub open spec fn distinct_names(names: Seq<Seq<char>>) -> bool {
    forall|i: int, j: int| 0 <= i < j < names.len() ==> names[i] != names[j]
}

/// The display names of a variant list, in declaration order.
pub open spec fn variant_names(variants: Seq<Variant>) -> Seq<Seq<char>> {
    Seq::new(variants.len(), |i: int| variants[i].name@)
}

/// What the metadata front-end guarantees of a descriptor it hands over:
/// variant display names are distinct; each named variant's field names are
/// distinct; a designated tag key never collides with a field name or with
/// the content key; and internal tagging excludes tuple variants.
pub open spec fn shape_wf(shape: EnumShape) -> bool {
    &&& distinct_names(variant_names(shape.variants@))
    &&& forall|i: int|
        0 <= i < shape.variants@.len() ==> distinct_names(
            shape_field_names(#[trigger] shape.variants@[i].shape),
        )
    &&& shape.tag matches TagType::Internal { tag } ==> {
        &&& !spec_has_tuple(shape.variants@)
        &&& forall|i: int|
            0 <= i < shape.variants@.len() ==> !shape_field_names(
                #[trigger] shape.variants@[i].shape,
            ).contains(tag@)
    }
    &&& shape.tag matches TagType::Adjacent { tag, content } ==> tag@ != content@
}

/// A variant value that fits its descriptor: the index is in range and the
/// payload count matches the variant's shape.
pub open spec fn spec_valid_value(shape: EnumShape, variant: int, arity: int) -> bool {
    &&& 0 <= variant < shape.variants@.len()
    &&& arity == shape_arity(shape.variants@[variant].shape)
}

/// Scans a variant list for a tuple variant.
pub fn has_tuple_variant(variants: &Vec<Variant>) -> (r: bool)
    ensures
        r == spec_has_tuple(variants@),
{
    let n = variants.len();
    let mut i: usize = 0;
    while i < n
        invariant
            0 <= i <= n,
            n == variants@.len(),
            forall|j: int| 0 <= j < i ==> !(variants@[j].shape is Tuple),
        decreases n - i,
    {
        if matches!(variants[i].shape, VariantShape::Tuple { .. }) {
            proof {
                assert(variants@[i as int].shape is Tuple);
            }
            return true;
        }
        i = i + 1;
    }
    false
}

impl EnumShape {
    /// Builds a descriptor, enforcing the one combination rule the codec
    /// layer itself owns: internal tagging rejects tuple variants. Everything
    /// else about a declaration is the metadata front-end's to validate.
    pub fn new(tag: TagType, variants: Vec<Variant>) -> (r: Result<EnumShape, DefError>)
        ensures
            match r {
                Ok(shape) => {
                    &&& shape.tag == tag
                    &&& shape.variants == variants
                    &&& shape_ok(shape)
                },
                Err(e) => {
                    &&& e == DefError::InternallyTaggedTuple
                    &&& tag is Internal
                    &&& spec_has_tuple(variants@)
                },
            },
    {
        if matches!(tag, TagType::Internal { .. }) && has_tuple_variant(&variants) {
            return Err(DefError::InternallyTaggedTuple);
        }
        Ok(EnumShape { tag, variants })
    }
}

} // verus!
