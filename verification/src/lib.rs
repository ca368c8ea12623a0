//! Streaming codecs for tagged-union ("sum") types.
//!
//! A sum type is described by an [`shape::EnumShape`]: a tagging strategy
//! ([`shape::TagType`]) together with an ordered list of variants, each with a
//! display name and a field shape. Values travel as [`value::Value`], a
//! JSON-like model of scalars, ordered sequences and ordered keyed maps.
//!
//! [`attr`] resolves a declaration's directives into a descriptor. [`ser`]
//! turns one variant's field set into its wire value for the chosen
//! representation; [`de`] runs the representation's incremental decode state
//! machine over a wire value, one keyed entry at a time, and reconstructs
//! exactly one variant. [`laws`] proves that the two sides agree.

pub mod attr;
pub mod de;
pub mod laws;
pub mod ser;
pub mod shape;
pub mod value;
