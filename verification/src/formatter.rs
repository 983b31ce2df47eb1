//! The format pass, rule by rule: the format of a field, of a variant, and of
//! a container.

use std::collections::BTreeMap;
use vstd::prelude::*;
use crate::attrs::{find_first_capture, first_capture, RENAME, RENAME_ALL, WITH};
use crate::case::{field_under, rule_of, variant_under, RenameRule};
use crate::format::{
    variant_views, views, ContainerFormat, ContainerModel, Format, FormatModel, Indexed,
    IndexedModel, Named, NamedModel, VariantFormat, VariantModel,
};
use crate::model::{opt_str_text, texts, Id, ItemEnum, VariantKind};
use crate::node::ItemNode;
use crate::order::{by_index, collected_views, indexed_views, sort_by_index, values};
use crate::text::str_equal;
use crate::translate::translated;

verus! {

/// Why the format pass gives up.
#[derive(Debug, Clone, Copy, PartialEq, Eq, Structural)]
pub enum FormatError {
    /// A field asks, with `#[serde(with = "..")]`, for a module other than
    /// `serde_bytes`.
    UnknownSerdeWith,
}

/// The module whose fields are byte strings.
pub const SERDE_BYTES: &'static str = "serde_bytes";

/// The name of a member: its own new name where it has one, else its declared
/// name under the rule that the enclosing item sets, else its declared name.
pub open spec fn resolved_name(
    name: Seq<char>,
    rename: Option<Seq<char>>,
    under_rule: Option<Seq<char>>,
) -> Seq<char> {
    match rename {
        Some(new_name) => new_name,
        None => match under_rule {
            Some(changed) => changed,
            None => name,
        },
    }
}

/// The name of a variant, given what its `rename` attribute and the
/// `rename_all` attribute of its enum captured.
pub open spec fn resolved_variant_name(
    name: Seq<char>,
    rename: Option<Seq<char>>,
    rename_all: Option<Seq<char>>,
) -> Seq<char> {
    resolved_name(
        name,
        rename,
        match rename_all {
            Some(token) => Some(variant_under(rule_of(token), name)),
            None => None,
        },
    )
}

/// The name of a field, given what its `rename` attribute and the
/// `rename_all` attribute of its struct captured.
pub open spec fn resolved_field_name(
    name: Seq<char>,
    rename: Option<Seq<char>>,
    rename_all: Option<Seq<char>>,
) -> Seq<char> {
    resolved_name(
        name,
        rename,
        match rename_all {
            Some(token) => Some(field_under(rule_of(token), name)),
            None => None,
        },
    )
}

/// The name of a variant, given what the attributes captured.
pub fn resolve_variant_name(name: &str, rename: Option<&str>, rename_all: Option<&str>) -> (r:
    String)
    ensures
        r@ == resolved_variant_name(name@, opt_str_text(rename), opt_str_text(rename_all)),
{
    match rename {
        Some(new_name) => new_name.to_owned(),
        None => match rename_all {
            Some(token) => RenameRule::for_token(token).apply_to_variant(name),
            None => name.to_owned(),
        },
    }
}

/// The name of a field, given what the attributes captured.
pub fn resolve_field_name(name: &str, rename: Option<&str>, rename_all: Option<&str>) -> (r:
    String)
    ensures
        r@ == resolved_field_name(name@, opt_str_text(rename), opt_str_text(rename_all)),
{
    match rename {
        Some(new_name) => new_name.to_owned(),
        None => match rename_all {
            Some(token) => RenameRule::for_token(token).apply_to_field(name),
            None => name.to_owned(),
        },
    }
}

/// The name under which a variant is serialized.
pub open spec fn variant_name_of(
    name: Seq<char>,
    variant_attrs: Seq<Seq<char>>,
    enum_attrs: Seq<Seq<char>>,
) -> Seq<char> {
    resolved_variant_name(
        name,
        first_capture(RENAME@, variant_attrs),
        first_capture(RENAME_ALL@, enum_attrs),
    )
}

/// The name under which a field is serialized.
pub open spec fn field_name_of(
    name: Seq<char>,
    field_attrs: Seq<Seq<char>>,
    struct_attrs: Seq<Seq<char>>,
) -> Seq<char> {
    resolved_field_name(
        name,
        first_capture(RENAME@, field_attrs),
        first_capture(RENAME_ALL@, struct_attrs),
    )
}

/// The name under which a variant is serialized: what its first `rename`
/// attribute gives, else the declared name under the first `rename_all` of
/// the enum, else the declared name.
pub fn variant_name(name: &str, variant_attrs: &Vec<String>, enum_attrs: &Vec<String>) -> (r:
    String)
    ensures
        r@ == variant_name_of(name@, texts(variant_attrs@), texts(enum_attrs@)),
{
    let rename = find_first_capture(RENAME, variant_attrs);
    let rename_all = find_first_capture(RENAME_ALL, enum_attrs);
    resolve_variant_name(name, rename, rename_all)
}

/// The name under which a field is serialized: what its first `rename`
/// attribute gives, else the declared name under the first `rename_all` of
/// the struct, else the declared name.
pub fn field_name(name: &str, field_attrs: &Vec<String>, struct_attrs: &Vec<String>) -> (r:
    String)
    ensures
        r@ == field_name_of(name@, texts(field_attrs@), texts(struct_attrs@)),
{
    let rename = find_first_capture(RENAME, field_attrs);
    let rename_all = find_first_capture(RENAME_ALL, struct_attrs);
    resolve_field_name(name, rename, rename_all)
}

/// `at` is the place of the first node of the list that carries the identifier.
pub open spec fn is_place(all: Seq<&ItemNode>, id: Id, at: u32) -> bool {
    at < all.len() && all[at as int].0.id == id && forall|j: int|
        0 <= j < at ==> (#[trigger] all[j]).0.id != id
}

/// The place of the first node of the list that carries the identifier, where
/// that place is a 32-bit number.
pub open spec fn place(all: Seq<&ItemNode>, id: Id) -> Option<u32> {
    if exists|at: u32| is_place(all, id, at) {
        Some(choose|at: u32| is_place(all, id, at))
    } else {
        None
    }
}

/// An identifier has at most one first place.
pub proof fn place_is_unique(all: Seq<&ItemNode>, id: Id, at: u32)
    requires
        is_place(all, id, at),
    ensures
        place(all, id) == Some(at),
{
    let chosen = choose|p: u32| is_place(all, id, p);
    assert(is_place(all, id, chosen));
    if chosen < at {
        assert(all[chosen as int].0.id != id);
    }
    if at < chosen {
        assert(all[at as int].0.id != id);
    }
}

/// The place of the first node of the list that carries the identifier.
pub fn find_place(all: &Vec<&ItemNode>, id: Id) -> (r: Option<u32>)
    ensures
        r == place(all@, id),
{
    let mut i: u32 = 0;
    while (i as usize) < all.len()
        invariant
            i <= all@.len(),
            forall|j: int| 0 <= j < i ==> (#[trigger] all@[j]).0.id != id,
        decreases all@.len() - i,
    {
        if all[i as usize].0.id == id {
            proof {
                place_is_unique(all@, id, i);
            }
            return Some(i);
        }
        if i == u32::MAX {
            proof {
                no_place_beyond(all@, id, i);
            }
            return None;
        }
        i += 1;
    }
    proof {
        no_place_beyond(all@, id, i);
    }
    None
}

/// Where no node before `upto` carries the identifier and no 32-bit place lies
/// behind `upto`, the identifier has no place.
proof fn no_place_beyond(all: Seq<&ItemNode>, id: Id, upto: u32)
    requires
        forall|j: int| 0 <= j < upto ==> (#[trigger] all[j]).0.id != id,
        upto >= all.len() || (upto == u32::MAX && all[upto as int].0.id != id),
    ensures
        place(all, id) is None,
{
    if exists|at: u32| is_place(all, id, at) {
        let at = choose|at: u32| is_place(all, id, at);
        assert(all[at as int].0.id == id);
        assert(false);
    }
}

/// The format of a field: `Bytes` where the field asks for the module
/// `serde_bytes`, an error where it asks for another one, else the format of
/// its type. Items that are no fields have none.
pub open spec fn field_format(with: Option<Seq<char>>, inner: ItemEnum) -> Result<
    Option<FormatModel>,
    FormatError,
> {
    match inner {
        ItemEnum::StructField(type_) => match with {
            Some(module) => if module == SERDE_BYTES@ {
                Ok(Some(FormatModel::Bytes))
            } else {
                Err(FormatError::UnknownSerdeWith)
            },
            None => Ok(translated(type_)),
        },
        _ => Ok(None),
    }
}

/// What the result of a format rule says.
pub open spec fn rule_model<T: View>(r: Result<Option<T>, FormatError>) -> Result<
    Option<T::V>,
    FormatError,
> {
    match r {
        Ok(Some(value)) => Ok(Some(value@)),
        Ok(None) => Ok(None),
        Err(error) => Err(error),
    }
}

/// What an optional value says.
pub open spec fn opt_view<T: View>(r: Option<T>) -> Option<T::V> {
    match r {
        Some(value) => Some(value@),
        None => None,
    }
}

/// Whether a field with this capture of its `with` attribute has a rule: it
/// asks for no module, or for `serde_bytes`.
pub fn with_is_known(with: Option<&str>, inner: &ItemEnum) -> (r: bool)
    ensures
        r == (field_format(opt_str_text(with), *inner) is Ok),
{
    match inner {
        ItemEnum::StructField(_) => match with {
            Some(module) => str_equal(module, SERDE_BYTES),
            None => true,
        },
        _ => true,
    }
}

/// The format of a field, given what its `with` attribute captured. A field
/// that asks for a module other than `serde_bytes` has no rule and must not
/// be handed in.
pub fn format_field(with: Option<&str>, inner: &ItemEnum) -> (r: Option<Format>)
    requires
        field_format(opt_str_text(with), *inner) is Ok,
    ensures
        field_format(opt_str_text(with), *inner) == Ok::<Option<FormatModel>, FormatError>(
            opt_view(r),
        ),
{
    match inner {
        ItemEnum::StructField(type_) => match with {
            Some(module) => if str_equal(module, SERDE_BYTES) {
                Some(Format::Bytes)
            } else {
                None
            },
            None => Format::from_type(type_),
        },
        _ => None,
    }
}

/// The format of a field, given what its `with` attribute captured; an error
/// where the field asks for a module other than `serde_bytes`.
pub fn try_format_field(with: Option<&str>, inner: &ItemEnum) -> (r: Result<
    Option<Format>,
    FormatError,
>)
    ensures
        rule_model(r) == field_format(opt_str_text(with), *inner),
{
    if with_is_known(with, inner) {
        Ok(format_field(with, inner))
    } else {
        Err(FormatError::UnknownSerdeWith)
    }
}

/// The format of a field with its place among the fields; nothing for a field
/// that is not among them or has no format.
pub open spec fn indexed_format(field: &ItemNode, all_fields: Seq<&ItemNode>) -> Result<
    Option<IndexedModel<FormatModel>>,
    FormatError,
> {
    match place(all_fields, field.0.id) {
        Some(index) => match field_format(
            first_capture(WITH@, texts(field.0.attrs@)),
            field.0.inner,
        ) {
            Ok(Some(value)) => Ok(Some(IndexedModel { index, value })),
            Ok(None) => Ok(None),
            Err(error) => Err(error),
        },
        None => Ok(None),
    }
}

/// The format of a field with its place among the fields of its struct or
/// variant. A field among them that asks for a module other than `serde_bytes`
/// has no rule and must not be handed in.
pub fn make_format(field: &ItemNode, all_fields: &Vec<&ItemNode>) -> (r: Option<Indexed<Format>>)
    requires
        indexed_format(field, all_fields@) is Ok,
    ensures
        indexed_format(field, all_fields@) == Ok::<
            Option<IndexedModel<FormatModel>>,
            FormatError,
        >(opt_view(r)),
{
    let index = match find_place(all_fields, field.0.id) {
        Some(index) => index,
        None => {
            return None;
        },
    };
    let with = find_first_capture(WITH, &field.0.attrs);
    match format_field(with, &field.0.inner) {
        Some(value) => Some(Indexed { index, value }),
        None => None,
    }
}

/// The format of a field with its place among the fields of its struct or
/// variant; an error where the field is among them and asks for a module other
/// than `serde_bytes`.
pub fn try_make_format(field: &ItemNode, all_fields: &Vec<&ItemNode>) -> (r: Result<
    Option<Indexed<Format>>,
    FormatError,
>)
    ensures
        rule_model(r) == indexed_format(field, all_fields@),
{
    let known = with_is_known(find_first_capture(WITH, &field.0.attrs), &field.0.inner);
    if known || find_place(all_fields, field.0.id).is_none() {
        Ok(make_format(field, all_fields))
    } else {
        Err(FormatError::UnknownSerdeWith)
    }
}

/// The named format of a field with its place among the fields; nothing for a
/// field without a name.
pub open spec fn indexed_named_format(
    field: &ItemNode,
    all_fields: Seq<&ItemNode>,
    struct_: &ItemNode,
) -> Result<Option<IndexedModel<NamedModel<FormatModel>>>, FormatError> {
    match field.serial_name() {
        Some(name) => match indexed_format(field, all_fields) {
            Ok(Some(found)) => Ok(
                Some(
                    IndexedModel {
                        index: found.index,
                        value: NamedModel {
                            name: field_name_of(
                                name,
                                texts(field.0.attrs@),
                                texts(struct_.0.attrs@),
                            ),
                            value: found.value,
                        },
                    },
                ),
            ),
            Ok(None) => Ok(None),
            Err(error) => Err(error),
        },
        None => Ok(None),
    }
}

/// The named format of a field with its place among the fields of its struct
/// or variant. A named field among them that asks for a module other than
/// `serde_bytes` has no rule and must not be handed in.
pub fn make_named_format(field: &ItemNode, all_fields: &Vec<&ItemNode>, struct_: &ItemNode) -> (r:
    Option<Indexed<Named<Format>>>)
    requires
        indexed_named_format(field, all_fields@, struct_) is Ok,
    ensures
        indexed_named_format(field, all_fields@, struct_) == Ok::<
            Option<IndexedModel<NamedModel<FormatModel>>>,
            FormatError,
        >(opt_view(r)),
{
    match field.name() {
        Some(name) => match make_format(field, all_fields) {
            Some(found) => {
                let Indexed { index, value } = found;
                Some(
                    Indexed {
                        index,
                        value: Named {
                            name: field_name(name, &field.0.attrs, &struct_.0.attrs),
                            value,
                        },
                    },
                )
            },
            None => None,
        },
        None => None,
    }
}

/// The named format of a field with its place among the fields of its struct
/// or variant; an error where the field has a name, is among them and asks for
/// a module other than `serde_bytes`.
pub fn try_make_named_format(
    field: &ItemNode,
    all_fields: &Vec<&ItemNode>,
    struct_: &ItemNode,
) -> (r: Result<Option<Indexed<Named<Format>>>, FormatError>)
    ensures
        rule_model(r) == indexed_named_format(field, all_fields@, struct_),
{
    let unknown = field.name().is_some() && try_make_format(field, all_fields).is_err();
    if unknown {
        Err(FormatError::UnknownSerdeWith)
    } else {
        Ok(make_named_format(field, all_fields, struct_))
    }
}

/// Whether the item is a variant without fields.
pub fn is_plain_variant(variant: &ItemNode) -> (r: bool)
    ensures
        r == (variant.0.inner matches ItemEnum::Variant(kind) && kind is Plain),
{
    match &variant.0.inner {
        ItemEnum::Variant(VariantKind::Plain) => true,
        _ => false,
    }
}

/// Whether the item is a variant with named fields.
pub fn is_struct_variant(variant: &ItemNode) -> (r: bool)
    ensures
        r == (variant.0.inner matches ItemEnum::Variant(kind) && kind is Struct),
{
    match &variant.0.inner {
        ItemEnum::Variant(VariantKind::Struct { .. }) => true,
        _ => false,
    }
}

/// Whether the item is a variant with positional fields.
pub fn is_tuple_variant(variant: &ItemNode) -> (r: bool)
    ensures
        r == (variant.0.inner matches ItemEnum::Variant(kind) && kind is Tuple),
{
    match &variant.0.inner {
        ItemEnum::Variant(VariantKind::Tuple(_)) => true,
        _ => false,
    }
}

/// A tuple of formats as a container: none is a unit struct, one a newtype
/// struct, more a tuple struct.
pub open spec fn tuple_container(parts: Seq<FormatModel>) -> ContainerModel {
    if parts.len() == 0 {
        ContainerModel::UnitStruct
    } else if parts.len() == 1 {
        ContainerModel::NewTypeStruct(parts[0])
    } else {
        ContainerModel::TupleStruct(parts)
    }
}

/// Named formats as a container: none is a unit struct, else a struct.
pub open spec fn plain_container(fields: Seq<NamedModel<FormatModel>>) -> ContainerModel {
    if fields.len() == 0 {
        ContainerModel::UnitStruct
    } else {
        ContainerModel::Struct(fields)
    }
}

/// A tuple of formats as a variant: none is a unit variant, one a newtype
/// variant, more a tuple variant.
pub open spec fn tuple_variant(parts: Seq<FormatModel>) -> VariantModel {
    if parts.len() == 0 {
        VariantModel::Unit
    } else if parts.len() == 1 {
        VariantModel::NewType(parts[0])
    } else {
        VariantModel::Tuple(parts)
    }
}

/// The variants by their index; of two variants with one index the later stays.
pub open spec fn variant_map(items: Seq<IndexedModel<NamedModel<VariantModel>>>) -> Map<
    u32,
    NamedModel<VariantModel>,
>
    decreases items.len(),
{
    if items.len() == 0 {
        Map::empty()
    } else {
        variant_map(items.drop_last()).insert(items.last().index, items.last().value)
    }
}

/// Copies of the values, without their indices.
pub fn copy_values(sorted: &Vec<&Indexed<Format>>) -> (r: Vec<Format>)
    ensures
        views(r@) == values(indexed_views(sorted@)),
{
    let mut out: Vec<Format> = Vec::new();
    let mut i: usize = 0;
    while i < sorted.len()
        invariant
            i <= sorted.len(),
            out@.len() == i,
            forall|k: int| 0 <= k < i ==> out@[k]@ == sorted@[k].value@,
        decreases sorted.len() - i,
    {
        out.push(sorted[i].value.duplicate());
        i += 1;
    }
    proof {
        assert(views(out@) =~= values(indexed_views(sorted@)));
    }
    out
}

/// Copies of the named values, without their indices.
pub fn copy_named_values(sorted: &Vec<&Indexed<Named<Format>>>) -> (r: Vec<Named<Format>>)
    ensures
        views(r@) == values(indexed_views(sorted@)),
{
    let mut out: Vec<Named<Format>> = Vec::new();
    let mut i: usize = 0;
    while i < sorted.len()
        invariant
            i <= sorted.len(),
            out@.len() == i,
            forall|k: int| 0 <= k < i ==> out@[k]@ == sorted@[k].value@,
        decreases sorted.len() - i,
    {
        out.push(sorted[i].value.duplicate());
        i += 1;
    }
    proof {
        assert(views(out@) =~= values(indexed_views(sorted@)));
    }
    out
}

/// The container of a unit struct.
pub fn make_struct_unit() -> (r: ContainerFormat)
    ensures
        r@ == ContainerModel::UnitStruct,
{
    ContainerFormat::UnitStruct
}

/// The container of a struct with named fields: its fields in the order of
/// their indices; a unit struct where there are none.
pub fn make_struct_plain(fields: &Vec<(&Indexed<Named<Format>>,)>) -> (r: ContainerFormat)
    ensures
        r@ == plain_container(values(by_index(collected_views(fields@)))),
{
    let sorted = sort_by_index(fields);
    if sorted.len() == 0 {
        ContainerFormat::UnitStruct
    } else {
        ContainerFormat::Struct(copy_named_values(&sorted))
    }
}

/// The container of a struct with positional fields: its fields in the order
/// of their indices; a unit struct where there are none and a newtype struct
/// where there is one.
pub fn make_struct_tuple(fields: &Vec<(&Indexed<Format>,)>) -> (r: ContainerFormat)
    ensures
        r@ == tuple_container(values(by_index(collected_views(fields@)))),
{
    let sorted = sort_by_index(fields);
    if sorted.len() == 0 {
        ContainerFormat::UnitStruct
    } else if sorted.len() == 1 {
        ContainerFormat::NewTypeStruct(Box::new(sorted[0].value.duplicate()))
    } else {
        ContainerFormat::TupleStruct(copy_values(&sorted))
    }
}

/// What the collected variants say.
pub open spec fn collected_variants(formats: Seq<(&Indexed<Named<VariantFormat>>,)>) -> Seq<
    IndexedModel<NamedModel<VariantModel>>,
> {
    collected_views(formats)
}

/// The container of an enum: its variants by their index.
pub fn make_enum(formats: &Vec<(&Indexed<Named<VariantFormat>>,)>) -> (r: ContainerFormat)
    ensures
        r@ == ContainerModel::Enum(variant_map(collected_variants(formats@))),
{
    let mut map: BTreeMap<u32, Named<VariantFormat>> = BTreeMap::new();
    let mut i: usize = 0;
    proof {
        assert(variant_views(map@) =~= variant_map(collected_variants(formats@.take(0))));
    }
    while i < formats.len()
        invariant
            i <= formats.len(),
            variant_views(map@) == variant_map(collected_variants(formats@.take(i as int))),
        decreases formats.len() - i,
    {
        let item = formats[i].0;
        let ghost before = map@;
        map.insert(item.index, item.value.duplicate());
        proof {
            let now = collected_variants(formats@.take(i as int + 1));
            assert(now.drop_last() =~= collected_variants(formats@.take(i as int)));
            assert(now.last() == IndexedModel { index: item.index, value: item.value@ });
            assert(variant_views(map@) =~= variant_views(before).insert(item.index, item.value@));
        }
        i += 1;
    }
    proof {
        assert(formats@.take(formats.len() as int) == formats@);
    }
    ContainerFormat::Enum(map)
}

/// A variant format with the name of the variant and its place among the
/// variants; nothing for an item that is not among them, has no declared name
/// or is no variant.
pub open spec fn indexed_variant(
    variant: &ItemNode,
    all_variants: Seq<&ItemNode>,
    enum_: &ItemNode,
    value: VariantModel,
) -> Option<IndexedModel<NamedModel<VariantModel>>> {
    match (place(all_variants, variant.0.id), variant.0.name) {
        (Some(index), Some(name)) => if variant.0.inner is Variant {
            Some(
                IndexedModel {
                    index,
                    value: NamedModel {
                        name: variant_name_of(
                            name@,
                            texts(variant.0.attrs@),
                            texts(enum_.0.attrs@),
                        ),
                        value,
                    },
                },
            )
        } else {
            None
        },
        _ => None,
    }
}

/// What an optional indexed variant says.
pub open spec fn opt_variant_model(r: Option<Indexed<Named<VariantFormat>>>) -> Option<
    IndexedModel<NamedModel<VariantModel>>,
> {
    match r {
        Some(found) => Some(found@),
        None => None,
    }
}

/// Puts the name of the variant and its place among the variants to a format.
pub fn name_variant(
    variant: &ItemNode,
    all_variants: &Vec<&ItemNode>,
    enum_: &ItemNode,
    value: VariantFormat,
) -> (r: Option<Indexed<Named<VariantFormat>>>)
    ensures
        opt_variant_model(r) == indexed_variant(variant, all_variants@, enum_, value@),
{
    let index = match find_place(all_variants, variant.0.id) {
        Some(index) => index,
        None => {
            return None;
        },
    };
    let name = match variant.declared_name() {
        Some(name) => name,
        None => {
            return None;
        },
    };
    match &variant.0.inner {
        ItemEnum::Variant(_) => Some(
            Indexed {
                index,
                value: Named {
                    name: variant_name(name, &variant.0.attrs, &enum_.0.attrs),
                    value,
                },
            },
        ),
        _ => None,
    }
}

/// The format of a variant without fields.
pub fn make_plain_variant_format(
    variant: &ItemNode,
    all_variants: &Vec<&ItemNode>,
    enum_: &ItemNode,
) -> (r: Option<Indexed<Named<VariantFormat>>>)
    ensures
        opt_variant_model(r) == indexed_variant(
            variant,
            all_variants@,
            enum_,
            VariantModel::Unit,
        ),
{
    name_variant(variant, all_variants, enum_, VariantFormat::Unit)
}

/// The format of a variant with named fields: its fields in the order of
/// their indices.
pub fn make_struct_variant_format(
    variant: &ItemNode,
    fields: &Vec<(&Indexed<Named<Format>>,)>,
    all_variants: &Vec<&ItemNode>,
    enum_: &ItemNode,
) -> (r: Option<Indexed<Named<VariantFormat>>>)
    ensures
        opt_variant_model(r) == indexed_variant(
            variant,
            all_variants@,
            enum_,
            VariantModel::Struct(values(by_index(collected_views(fields@)))),
        ),
{
    let sorted = sort_by_index(fields);
    let value = VariantFormat::Struct(copy_named_values(&sorted));
    name_variant(variant, all_variants, enum_, value)
}

/// The format of a variant with positional fields: its fields in the order of
/// their indices; a unit variant where there are none and a newtype variant
/// where there is one.
pub fn make_tuple_variant_format(
    variant: &ItemNode,
    fields: &Vec<(&Indexed<Format>,)>,
    all_variants: &Vec<&ItemNode>,
    enum_: &ItemNode,
) -> (r: Option<Indexed<Named<VariantFormat>>>)
    ensures
        opt_variant_model(r) == indexed_variant(
            variant,
            all_variants@,
            enum_,
            tuple_variant(values(by_index(collected_views(fields@)))),
        ),
{
    let sorted = sort_by_index(fields);
    let value = if sorted.len() == 0 {
        VariantFormat::Unit
    } else if sorted.len() == 1 {
        VariantFormat::NewType(Box::new(sorted[0].value.duplicate()))
    } else {
        VariantFormat::Tuple(copy_values(&sorted))
    };
    name_variant(variant, all_variants, enum_, value)
}

} // verus!
