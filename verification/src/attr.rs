//! Resolution of declaration directives: which tagging strategy a sum
//! type's directives select, and which display name a rename directive
//! gives an item. Duplicate or misplaced directives are definition errors.

use vstd::prelude::*;

use crate::shape::{DefError, TagType, Variant, has_tuple_variant, spec_has_tuple};

verus! {

/// One directive taken from a declaration's attributes.
#[derive(Debug, Clone, PartialEq)]
pub enum Directive {
    /// Designates the key that holds the variant name.
    Tag(String),
    /// Designates the key that holds the variant's data.
    Content(String),
    /// Selects the untagged representation.
    Untagged,
    /// Overrides an item's display name.
    Rename(String),
}

/// The enum-level directive scan from position `i` on: each directive may
/// appear once; a rename has no meaning on the sum type itself.
pub open spec fn spec_scan_tagging(
    ds: Seq<Directive>,
    i: int,
    tag: Option<String>,
    content: Option<String>,
    untagged: bool,
) -> Result<(Option<String>, Option<String>, bool), DefError>
    decreases ds.len() - i,
{
    if i < 0 || i >= ds.len() {
        Ok((tag, content, untagged))
    } else {
        match ds[i] {
            Directive::Tag(s) => if tag is Some {
                Err(DefError::DuplicateTag)
            } else {
                spec_scan_tagging(ds, i + 1, Some(s), content, untagged)
            },
            Directive::Content(s) => if content is Some {
                Err(DefError::DuplicateContent)
            } else {
                spec_scan_tagging(ds, i + 1, tag, Some(s), untagged)
            },
            Directive::Untagged => if untagged {
                Err(DefError::DuplicateTag)
            } else {
                spec_scan_tagging(ds, i + 1, tag, content, true)
            },
            Directive::Rename(_) => Err(DefError::UnsupportedDirective),
        }
    }
}

/// Which tagging strategy a declaration resolves to: untagged wins if
/// declared; a tag alone is internal, and then no variant may be a tuple; a
/// tag with a content key is adjacent; neither is external; a content key
/// alone is no valid representation.
pub open spec fn spec_tag_type(ds: Seq<Directive>, variants: Seq<Variant>) -> Result<
    TagType,
    DefError,
> {
    match spec_scan_tagging(ds, 0, None, None, false) {
        Err(e) => Err(e),
        Ok((tag, content, untagged)) => if untagged {
            Ok(TagType::Untagged)
        } else {
            match (tag, content) {
                (None, None) => Ok(TagType::External),
                (Some(t), None) => if spec_has_tuple(variants) {
                    Err(DefError::InternallyTaggedTuple)
                } else {
                    Ok(TagType::Internal { tag: t })
                },
                (Some(t), Some(c)) => Ok(TagType::Adjacent { tag: t, content: c }),
                (None, Some(_)) => Err(DefError::ContentWithoutTag),
            }
        },
    }
}

/// Resolves a sum type's tagging strategy from its directives, enforcing
/// that only one tagging directive is declared and that internal tagging
/// excludes tuple variants; declaring none selects the external strategy.
pub fn tag_type(directives: &Vec<Directive>, variants: &Vec<Variant>) -> (r: Result<
    TagType,
    DefError,
>)
    ensures
        r == spec_tag_type(directives@, variants@),
{
    let mut tag: Option<String> = None;
    let mut content: Option<String> = None;
    let mut untagged: bool = false;
    let n = directives.len();
    let mut i: usize = 0;
    while i < n
        invariant
            0 <= i <= n,
            n == directives@.len(),
            spec_scan_tagging(directives@, 0, None, None, false) == spec_scan_tagging(
                directives@,
                i as int,
                tag,
                content,
                untagged,
            ),
        decreases n - i,
    {
        match &directives[i] {
            Directive::Tag(s) => {
                if tag.is_some() {
                    return Err(DefError::DuplicateTag);
                }
                tag = Some(s.clone());
            },
            Directive::Content(s) => {
                if content.is_some() {
                    return Err(DefError::DuplicateContent);
                }
                content = Some(s.clone());
            },
            Directive::Untagged => {
                if untagged {
                    return Err(DefError::DuplicateTag);
                }
                untagged = true;
            },
            Directive::Rename(_) => {
                return Err(DefError::UnsupportedDirective);
            },
        }
        i = i + 1;
    }
    if untagged {
        return Ok(TagType::Untagged);
    }
    match (tag, content) {
        (None, None) => Ok(TagType::External),
        (Some(t), None) => {
            if has_tuple_variant(variants) {
                Err(DefError::InternallyTaggedTuple)
            } else {
                Ok(TagType::Internal { tag: t })
            }
        },
        (Some(t), Some(c)) => Ok(TagType::Adjacent { tag: t, content: c }),
        (None, Some(_)) => Err(DefError::ContentWithoutTag),
    }
}

/// The item-level directive scan from position `i` on: one rename at most,
/// and nothing but renames belongs on a variant or field.
pub open spec fn spec_scan_rename(ds: Seq<Directive>, i: int, rename: Option<String>) -> Result<
    Option<String>,
    DefError,
>
    decreases ds.len() - i,
{
    if i < 0 || i >= ds.len() {
        Ok(rename)
    } else {
        match ds[i] {
            Directive::Rename(s) => if rename is Some {
                Err(DefError::DuplicateRename)
            } else {
                spec_scan_rename(ds, i + 1, Some(s))
            },
            _ => Err(DefError::UnsupportedDirective),
        }
    }
}

/// The rename an item's directives give it, if any.
pub open spec fn spec_attr_rename(ds: Seq<Directive>) -> Result<Option<String>, DefError> {
    spec_scan_rename(ds, 0, None)
}

/// Finds the rename directive among an item's directives; at most one may
/// be declared, and no other directive belongs there.
pub fn attr_rename(directives: &Vec<Directive>) -> (r: Result<Option<String>, DefError>)
    ensures
        r == spec_attr_rename(directives@),
{
    let mut rename: Option<String> = None;
    let n = directives.len();
    let mut i: usize = 0;
    while i < n
        invariant
            0 <= i <= n,
            n == directives@.len(),
            spec_scan_rename(directives@, 0, None) == spec_scan_rename(
                directives@,
                i as int,
                rename,
            ),
        decreases n - i,
    {
        match &directives[i] {
            Directive::Rename(s) => {
                if rename.is_some() {
                    return Err(DefError::DuplicateRename);
                }
                rename = Some(s.clone());
            },
            _ => {
                return Err(DefError::UnsupportedDirective);
            },
        }
        i = i + 1;
    }
    Ok(rename)
}

/// An item's display name: its rename if one is declared, else its
/// declared identifier verbatim.
pub open spec fn spec_display_name(declared: String, ds: Seq<Directive>) -> Result<
    String,
    DefError,
> {
    match spec_attr_rename(ds) {
        Ok(Some(s)) => Ok(s),
        Ok(None) => Ok(declared),
        Err(e) => Err(e),
    }
}

/// The display name of a field, respecting a rename directive.
pub fn name_of_field(declared: &String, directives: &Vec<Directive>) -> (r: Result<
    String,
    DefError,
>)
    ensures
        r == spec_display_name(*declared, directives@),
{
    match attr_rename(directives) {
        Ok(Some(s)) => Ok(s),
        Ok(None) => Ok(declared.clone()),
        Err(e) => Err(e),
    }
}

/// The display name of a variant, respecting a rename directive.
pub fn name_of_variant(declared: &String, directives: &Vec<Directive>) -> (r: Result<
    String,
    DefError,
>)
    ensures
        r == spec_display_name(*declared, directives@),
{
    match attr_rename(directives) {
        Ok(Some(s)) => Ok(s),
        Ok(None) => Ok(declared.clone()),
        Err(e) => Err(e),
    }
}

} // verus!
