//! The language-neutral descriptions of types that the registry holds.

use std::collections::BTreeMap;
use vstd::prelude::*;

verus! {

/// The description of a type, wherever one is used.
#[derive(Debug, PartialEq, Eq, PartialOrd, Ord)]
pub enum Format {
    /// A container of the registry, by its name.
    TypeName(String),
    Bool,
    I8,
    I16,
    I32,
    I64,
    I128,
    U8,
    U16,
    U32,
    U64,
    U128,
    Char,
    Str,
    Bytes,
    Option(Box<Format>),
    /// A sequence of any length.
    Sequence(Box<Format>),
    Tuple(Vec<Format>),
}

/// A value with the name it is serialized under.
#[derive(Debug, PartialEq, Eq, PartialOrd, Ord)]
pub struct Named<T> {
    pub name: String,
    pub value: T,
}

/// A value with the position of its source in the declaration.
#[derive(Debug, PartialEq, Eq, PartialOrd, Ord)]
pub struct Indexed<T> {
    pub index: u32,
    pub value: T,
}

/// The description of one variant of an enum.
#[derive(Debug, PartialEq, Eq, PartialOrd, Ord)]
pub enum VariantFormat {
    Unit,
    NewType(Box<Format>),
    Tuple(Vec<Format>),
    Struct(Vec<Named<Format>>),
}

/// The description of a struct or an enum.
#[derive(Debug, PartialEq, Eq)]
pub enum ContainerFormat {
    UnitStruct,
    NewTypeStruct(Box<Format>),
    TupleStruct(Vec<Format>),
    Struct(Vec<Named<Format>>),
    Enum(BTreeMap<u32, Named<VariantFormat>>),
}

/// What a `Format` says, with text in place of strings.
pub enum FormatModel {
    TypeName(Seq<char>),
    Bool,
    I8,
    I16,
    I32,
    I64,
    I128,
    U8,
    U16,
    U32,
    U64,
    U128,
    Char,
    Str,
    Bytes,
    Option(Box<FormatModel>),
    Sequence(Box<FormatModel>),
    Tuple(Seq<FormatModel>),
}

/// What a `Named` value says.
pub struct NamedModel<M> {
    pub name: Seq<char>,
    pub value: M,
}

/// What an `Indexed` value says.
pub struct IndexedModel<M> {
    pub index: u32,
    pub value: M,
}

/// What a `VariantFormat` says.
pub enum VariantModel {
    Unit,
    NewType(FormatModel),
    Tuple(Seq<FormatModel>),
    Struct(Seq<NamedModel<FormatModel>>),
}

/// What a `ContainerFormat` says.
pub enum ContainerModel {
    UnitStruct,
    NewTypeStruct(FormatModel),
    TupleStruct(Seq<FormatModel>),
    Struct(Seq<NamedModel<FormatModel>>),
    Enum(Map<u32, NamedModel<VariantModel>>),
}

/// What a format says.
pub open spec fn model_of(format: Format) -> FormatModel
    decreases format,
{
    match format {
        Format::TypeName(name) => FormatModel::TypeName(name@),
        Format::Bool => FormatModel::Bool,
        Format::I8 => FormatModel::I8,
        Format::I16 => FormatModel::I16,
        Format::I32 => FormatModel::I32,
        Format::I64 => FormatModel::I64,
        Format::I128 => FormatModel::I128,
        Format::U8 => FormatModel::U8,
        Format::U16 => FormatModel::U16,
        Format::U32 => FormatModel::U32,
        Format::U64 => FormatModel::U64,
        Format::U128 => FormatModel::U128,
        Format::Char => FormatModel::Char,
        Format::Str => FormatModel::Str,
        Format::Bytes => FormatModel::Bytes,
        Format::Option(inner) => FormatModel::Option(Box::new(model_of(*inner))),
        Format::Sequence(inner) => FormatModel::Sequence(Box::new(model_of(*inner))),
        Format::Tuple(parts) => FormatModel::Tuple(
            Seq::new(
                parts@.len(),
                |i: int|
                    if 0 <= i < parts@.len() {
                        model_of(parts@[i])
                    } else {
                        FormatModel::Bool
                    },
            ),
        ),
    }
}

impl View for Format {
    type V = FormatModel;

    open spec fn view(&self) -> FormatModel {
        model_of(*self)
    }
}

impl<T: View> View for Named<T> {
    type V = NamedModel<T::V>;

    open spec fn view(&self) -> NamedModel<T::V> {
        NamedModel { name: self.name@, value: self.value@ }
    }
}

impl<T: View> View for Indexed<T> {
    type V = IndexedModel<T::V>;

    open spec fn view(&self) -> IndexedModel<T::V> {
        IndexedModel { index: self.index, value: self.value@ }
    }
}

/// What each element of a sequence says.
pub open spec fn views<T: View>(items: Seq<T>) -> Seq<T::V> {
    Seq::new(items.len(), |i: int| items[i]@)
}

impl View for VariantFormat {
    type V = VariantModel;

    open spec fn view(&self) -> VariantModel {
        match self {
            VariantFormat::Unit => VariantModel::Unit,
            VariantFormat::NewType(inner) => VariantModel::NewType(inner@),
            VariantFormat::Tuple(parts) => VariantModel::Tuple(views(parts@)),
            VariantFormat::Struct(fields) => VariantModel::Struct(views(fields@)),
        }
    }
}

/// What each value of a map says, key by key.
pub open spec fn variant_views(variants: Map<u32, Named<VariantFormat>>) -> Map<
    u32,
    NamedModel<VariantModel>,
> {
    Map::new(|index: u32| variants.dom().contains(index), |index: u32| variants[index]@)
}

impl View for ContainerFormat {
    type V = ContainerModel;

    open spec fn view(&self) -> ContainerModel {
        match self {
            ContainerFormat::UnitStruct => ContainerModel::UnitStruct,
            ContainerFormat::NewTypeStruct(inner) => ContainerModel::NewTypeStruct(inner@),
            ContainerFormat::TupleStruct(parts) => ContainerModel::TupleStruct(views(parts@)),
            ContainerFormat::Struct(fields) => ContainerModel::Struct(views(fields@)),
            ContainerFormat::Enum(variants) => ContainerModel::Enum(variant_views(variants@)),
        }
    }
}

/// The view of a tuple format is the views of its parts.
pub proof fn tuple_view(parts: Vec<Format>)
    ensures
        Format::Tuple(parts)@ == FormatModel::Tuple(views(parts@)),
{
    let whole = Format::Tuple(parts);
    assert(whole->Tuple_0 == parts);
    assert(whole@->Tuple_0 =~= views(parts@));
}

impl Format {
    /// A copy of the format.
    pub fn duplicate(&self) -> (r: Format)
        ensures
            r@ == self@,
        decreases self,
    {
        match self {
            Format::TypeName(name) => Format::TypeName(name.clone()),
            Format::Bool => Format::Bool,
            Format::I8 => Format::I8,
            Format::I16 => Format::I16,
            Format::I32 => Format::I32,
            Format::I64 => Format::I64,
            Format::I128 => Format::I128,
            Format::U8 => Format::U8,
            Format::U16 => Format::U16,
            Format::U32 => Format::U32,
            Format::U64 => Format::U64,
            Format::U128 => Format::U128,
            Format::Char => Format::Char,
            Format::Str => Format::Str,
            Format::Bytes => Format::Bytes,
            Format::Option(inner) => Format::Option(Box::new(inner.duplicate())),
            Format::Sequence(inner) => Format::Sequence(Box::new(inner.duplicate())),
            Format::Tuple(parts) => {
                let mut out: Vec<Format> = Vec::new();
                let mut i: usize = 0;
                while i < parts.len()
                    invariant
                        i <= parts.len(),
                        *self is Tuple,
                        self->Tuple_0 == *parts,
                        out@.len() == i,
                        forall|k: int| 0 <= k < i ==> out@[k]@ == parts@[k]@,
                    decreases parts.len() - i,
                {
                    proof {
                        assert(decreases_to!(*self => self->Tuple_0@[i as int]));
                    }
                    out.push(parts[i].duplicate());
                    i += 1;
                }
                proof {
                    tuple_view(out);
                    tuple_view(*parts);
                    assert(views(out@) =~= views(parts@));
                }
                Format::Tuple(out)
            },
        }
    }
}

/// A copy of a list of formats.
pub fn duplicate_formats(parts: &Vec<Format>) -> (r: Vec<Format>)
    ensures
        views(r@) == views(parts@),
{
    let mut out: Vec<Format> = Vec::new();
    let mut i: usize = 0;
    while i < parts.len()
        invariant
            i <= parts.len(),
            out@.len() == i,
            forall|k: int| 0 <= k < i ==> out@[k]@ == parts@[k]@,
        decreases parts.len() - i,
    {
        out.push(parts[i].duplicate());
        i += 1;
    }
    proof {
        assert(views(out@) =~= views(parts@));
    }
    out
}

/// A copy of a list of named formats.
pub fn duplicate_named_formats(fields: &Vec<Named<Format>>) -> (r: Vec<Named<Format>>)
    ensures
        views(r@) == views(fields@),
{
    let mut out: Vec<Named<Format>> = Vec::new();
    let mut i: usize = 0;
    while i < fields.len()
        invariant
            i <= fields.len(),
            out@.len() == i,
            forall|k: int| 0 <= k < i ==> out@[k]@ == fields@[k]@,
        decreases fields.len() - i,
    {
        out.push(fields[i].duplicate());
        i += 1;
    }
    proof {
        assert(views(out@) =~= views(fields@));
    }
    out
}

impl Named<Format> {
    /// A copy of the named format.
    pub fn duplicate(&self) -> (r: Named<Format>)
        ensures
            r@ == self@,
    {
        Named { name: self.name.clone(), value: self.value.duplicate() }
    }
}

impl VariantFormat {
    /// A copy of the variant format.
    pub fn duplicate(&self) -> (r: VariantFormat)
        ensures
            r@ == self@,
    {
        match self {
            VariantFormat::Unit => VariantFormat::Unit,
            VariantFormat::NewType(inner) => VariantFormat::NewType(Box::new(inner.duplicate())),
            VariantFormat::Tuple(parts) => VariantFormat::Tuple(duplicate_formats(parts)),
            VariantFormat::Struct(fields) => VariantFormat::Struct(
                duplicate_named_formats(fields),
            ),
        }
    }
}

impl Named<VariantFormat> {
    /// A copy of the named variant format.
    pub fn duplicate(&self) -> (r: Named<VariantFormat>)
        ensures
            r@ == self@,
    {
        Named { name: self.name.clone(), value: self.value.duplicate() }
    }
}

impl<T> Indexed<T> {
    /// The value without its position.
    pub fn into_inner(self) -> (r: T)
        ensures
            r == self.value,
    {
        self.value
    }
}

} // verus!
