//! The documentation index as plain data: items, type expressions and
//! summaries, holding exactly what the deduction rules read.

use vstd::prelude::*;

verus! {

/// The identifier of an item, unique within one documentation index.
#[derive(Debug, Clone, Copy, PartialEq, Eq, Structural, Hash, PartialOrd, Ord)]
pub struct Id(pub u32);

/// The generic arguments written behind a path.
#[derive(Debug, PartialEq, Eq)]
pub enum GenericArgs {
    /// `<A, B, ..>`
    AngleBracketed { args: Vec<GenericArg> },
    /// `Fn(A, B) -> C`
    Parenthesized { inputs: Vec<Type> },
}

/// One generic argument.
#[derive(Debug, PartialEq, Eq)]
pub enum GenericArg {
    /// A type argument.
    Type(Type),
    /// A lifetime, a constant or an inferred argument.
    Other,
}

/// A path that was resolved to an item, with its generic arguments.
#[derive(Debug, PartialEq, Eq)]
pub struct Path {
    pub name: String,
    pub id: Id,
    pub args: Option<GenericArgs>,
}

/// A type expression.
#[derive(Debug, PartialEq, Eq)]
pub enum Type {
    /// A struct, enum or trait named by its path.
    ResolvedPath(Path),
    /// A built-in type such as `bool` or `u8`, by its name.
    Primitive(String),
    /// `(A, B, ..)`
    Tuple(Vec<Type>),
    /// `[A]`
    Slice(Box<Type>),
    /// `[A; n]`
    Array(Box<Type>),
    /// `<Type as Trait>::Name<Args>`
    QualifiedPath { name: String, args: Option<GenericArgs>, self_type: Box<Type> },
    /// Any other shape: references, pointers, function pointers, trait
    /// objects, inferred and patterned types.
    Other,
}

/// The three shapes of a struct.
#[derive(Debug, PartialEq, Eq)]
pub enum StructKind {
    Unit,
    /// Positional fields; a stripped field is `None`.
    Tuple(Vec<Option<Id>>),
    /// Named fields.
    Plain { fields: Vec<Id>, has_stripped_fields: bool },
}

/// The three shapes of an enum variant.
#[derive(Debug, PartialEq, Eq)]
pub enum VariantKind {
    Plain,
    /// Positional fields; a stripped field is `None`.
    Tuple(Vec<Option<Id>>),
    /// Named fields.
    Struct { fields: Vec<Id>, has_stripped_fields: bool },
}

/// An implementation block.
#[derive(Debug, PartialEq, Eq)]
pub struct Impl {
    pub trait_: Option<Path>,
    pub for_: Type,
    pub items: Vec<Id>,
}

/// What an item is, with the payload of its kind.
#[derive(Debug, PartialEq, Eq)]
pub enum ItemEnum {
    Module,
    Struct(StructKind),
    StructField(Type),
    Enum { variants: Vec<Id> },
    Variant(VariantKind),
    Impl(Impl),
    /// An associated item other than a type.
    AssocItem,
    AssocType { type_: Option<Type> },
    /// A kind that the rules do not read.
    Other,
}

/// One item of the index.
#[derive(Debug, PartialEq, Eq)]
pub struct Item {
    pub id: Id,
    pub crate_id: u32,
    pub name: Option<String>,
    /// The attributes as written, one string each.
    pub attrs: Vec<String>,
    pub inner: ItemEnum,
}

/// Where an item lives: the crate and the module path that leads to it.
#[derive(Debug, PartialEq, Eq)]
pub struct ItemSummary {
    pub crate_id: u32,
    pub path: Vec<String>,
}

/// A crate that the documented library depends on.
#[derive(Debug, PartialEq, Eq)]
pub struct ExternalCrate {
    pub name: String,
    pub html_root_url: Option<String>,
}

/// The text of each string of a sequence.
pub open spec fn texts(strings: Seq<String>) -> Seq<Seq<char>> {
    Seq::new(strings.len(), |i: int| strings[i]@)
}

/// The text behind an optional string.
pub open spec fn opt_text(s: Option<String>) -> Option<Seq<char>> {
    match s {
        Some(s) => Some(s@),
        None => None,
    }
}

/// The text behind an optional string slice.
pub open spec fn opt_str_text(s: Option<&str>) -> Option<Seq<char>> {
    match s {
        Some(s) => Some(s@),
        None => None,
    }
}

/// The identifiers that are present in a list of optional identifiers, in order.
pub open spec fn present_ids(ids: Seq<Option<Id>>) -> Seq<Id>
    decreases ids.len(),
{
    if ids.len() == 0 {
        Seq::empty()
    } else {
        let rest = present_ids(ids.drop_last());
        match ids.last() {
            Some(id) => rest.push(id),
            None => rest,
        }
    }
}

/// Collects the identifiers that are present, in order.
pub fn collect_present(ids: &Vec<Option<Id>>) -> (r: Vec<Id>)
    ensures
        r@ == present_ids(ids@),
{
    let mut out: Vec<Id> = Vec::new();
    let mut i: usize = 0;
    while i < ids.len()
        invariant
            i <= ids.len(),
            out@ == present_ids(ids@.take(i as int)),
        decreases ids.len() - i,
    {
        proof {
            assert(ids@.take(i as int + 1).drop_last() == ids@.take(i as int));
        }
        match ids[i] {
            Some(id) => out.push(id),
            None => {},
        }
        i += 1;
    }
    proof {
        assert(ids@.take(ids.len() as int) == ids@);
    }
    out
}

} // verus!
