//! The format pass as a whole: from the edges between items to the registry.

use vstd::prelude::*;
use crate::attrs::{find_first_capture, first_capture, last_capture, RENAME, WITH};
use crate::format::{
    views, ContainerFormat, ContainerModel, Format, FormatModel, Indexed, IndexedModel, Named,
    NamedModel, VariantFormat, VariantModel,
};
use crate::formatter::{
    field_format, indexed_format, indexed_named_format, indexed_variant, is_plain_variant,
    is_struct_variant, is_tuple_variant, make_enum, make_plain_variant_format, make_struct_plain,
    make_struct_tuple, make_struct_unit, make_struct_variant_format, make_tuple_variant_format,
    opt_variant_model, plain_container, try_make_format, try_make_named_format, tuple_container,
    tuple_variant, variant_map, with_is_known, FormatError,
};
use crate::model::{opt_text, texts, Id, ItemEnum, StructKind, VariantKind};
use crate::node::{collect, first_eligible, in_declared_order, ItemNode, PRIVATE_FIELD};
use crate::order::{by_index_keeps_sorted, collected_views, values};
use crate::registry::Registry;

verus! {

/// An edge of the format pass: an item and one of its children.
pub type ItemEdge<'a> = (&'a ItemNode, &'a ItemNode);

/// The children that the first `upto` edges give the item and that the item
/// has as fields, in the order of the edges.
pub open spec fn field_candidates<'a>(edges: Seq<ItemEdge<'a>>, item: &ItemNode, upto: nat) -> Seq<
    (&'a ItemNode,),
>
    decreases upto,
{
    if upto == 0 || upto > edges.len() {
        Seq::empty()
    } else {
        let before = field_candidates(edges, item, (upto - 1) as nat);
        let edge = edges[upto - 1];
        if edge.0.0.id == item.0.id && item.owns_field(edge.1) {
            before.push((edge.1,))
        } else {
            before
        }
    }
}

/// The children that the first `upto` edges give the item and that the item
/// has as variants, in the order of the edges.
pub open spec fn variant_candidates<'a>(edges: Seq<ItemEdge<'a>>, item: &ItemNode, upto: nat) -> Seq<
    (&'a ItemNode,),
>
    decreases upto,
{
    if upto == 0 || upto > edges.len() {
        Seq::empty()
    } else {
        let before = variant_candidates(edges, item, (upto - 1) as nat);
        let edge = edges[upto - 1];
        if edge.0.0.id == item.0.id && item.owns_variant(edge.1) {
            before.push((edge.1,))
        } else {
            before
        }
    }
}

/// The fields of the item that the edges give it, in the order in which the
/// item declares them.
pub open spec fn kept_fields<'a>(edges: Seq<ItemEdge<'a>>, item: &ItemNode) -> Seq<&'a ItemNode> {
    in_declared_order(item.field_ids(), field_candidates(edges, item, edges.len()))
}

/// The variants of the item that the edges give it, in the order in which the
/// item declares them.
pub open spec fn kept_variants<'a>(edges: Seq<ItemEdge<'a>>, item: &ItemNode) -> Seq<
    &'a ItemNode,
> {
    in_declared_order(item.variant_ids(), variant_candidates(edges, item, edges.len()))
}

/// The formats of the first `upto` fields, each with its place among the
/// fields: one for every field that has a format, at the place where the field
/// first stands.
pub open spec fn field_formats(fields: Seq<&ItemNode>, upto: nat) -> Seq<IndexedModel<FormatModel>>
    decreases upto,
{
    if upto == 0 || upto > fields.len() {
        Seq::empty()
    } else {
        let before = field_formats(fields, (upto - 1) as nat);
        match indexed_format(fields[upto - 1], fields) {
            Ok(Some(found)) => if found.index == upto - 1 {
                before.push(found)
            } else {
                before
            },
            _ => before,
        }
    }
}

/// The named formats of the first `upto` fields, each with its place among
/// the fields: one for every field that has a name and a format, at the place
/// where the field first stands.
pub open spec fn named_formats(fields: Seq<&ItemNode>, owner: &ItemNode, upto: nat) -> Seq<
    IndexedModel<NamedModel<FormatModel>>,
>
    decreases upto,
{
    if upto == 0 || upto > fields.len() {
        Seq::empty()
    } else {
        let before = named_formats(fields, owner, (upto - 1) as nat);
        match indexed_named_format(fields[upto - 1], fields, owner) {
            Ok(Some(found)) => if found.index == upto - 1 {
                before.push(found)
            } else {
                before
            },
            _ => before,
        }
    }
}

/// The format of a variant of an enum, with its name and its place among the
/// variants.
pub open spec fn variant_format<'a>(
    edges: Seq<ItemEdge<'a>>,
    enum_: &ItemNode,
    variant: &ItemNode,
    variants: Seq<&ItemNode>,
) -> Option<IndexedModel<NamedModel<VariantModel>>> {
    match variant.0.inner {
        ItemEnum::Variant(kind) => {
            let fields = kept_fields(edges, variant);
            indexed_variant(
                variant,
                variants,
                enum_,
                match kind {
                    VariantKind::Plain => VariantModel::Unit,
                    VariantKind::Tuple(_) => tuple_variant(
                        values(field_formats(fields, fields.len())),
                    ),
                    VariantKind::Struct { .. } => VariantModel::Struct(
                        values(named_formats(fields, variant, fields.len())),
                    ),
                },
            )
        },
        _ => None,
    }
}

/// The formats of the first `upto` variants: one for every variant that has a
/// format, at the place where the variant first stands.
pub open spec fn variant_formats<'a>(
    edges: Seq<ItemEdge<'a>>,
    enum_: &ItemNode,
    variants: Seq<&ItemNode>,
    upto: nat,
) -> Seq<IndexedModel<NamedModel<VariantModel>>>
    decreases upto,
{
    if upto == 0 || upto > variants.len() {
        Seq::empty()
    } else {
        let before = variant_formats(edges, enum_, variants, (upto - 1) as nat);
        match variant_format(edges, enum_, variants[upto - 1], variants) {
            Some(found) => if found.index == upto - 1 {
                before.push(found)
            } else {
                before
            },
            None => before,
        }
    }
}

/// The container of an aggregate, made of the fields and variants that the
/// edges give it; nothing for an item that is neither a struct nor an enum.
pub open spec fn container_of<'a>(edges: Seq<ItemEdge<'a>>, item: &ItemNode) -> Option<
    ContainerModel,
> {
    match item.0.inner {
        ItemEnum::Struct(kind) => {
            let fields = kept_fields(edges, item);
            Some(
                match kind {
                    StructKind::Unit => ContainerModel::UnitStruct,
                    StructKind::Plain { .. } => plain_container(
                        values(named_formats(fields, item, fields.len())),
                    ),
                    StructKind::Tuple(_) => tuple_container(
                        values(field_formats(fields, fields.len())),
                    ),
                },
            )
        },
        ItemEnum::Enum { .. } => {
            let variants = kept_variants(edges, item);
            Some(
                ContainerModel::Enum(
                    variant_map(variant_formats(edges, item, variants, variants.len())),
                ),
            )
        },
        _ => None,
    }
}

/// The items that the first `upto` edges mention: of each edge in turn the
/// parent, then the child.
pub open spec fn mentioned_upto<'a>(edges: Seq<ItemEdge<'a>>, upto: nat) -> Seq<&'a ItemNode>
    decreases upto,
{
    if upto == 0 || upto > edges.len() {
        Seq::empty()
    } else {
        mentioned_upto(edges, (upto - 1) as nat).push(edges[upto - 1].0).push(edges[upto - 1].1)
    }
}

/// The items that the edges mention.
pub open spec fn mentioned<'a>(edges: Seq<ItemEdge<'a>>) -> Seq<&'a ItemNode> {
    mentioned_upto(edges, edges.len())
}

/// Whether the item at `at` is not among the items before it.
pub open spec fn first_mention(items: Seq<&ItemNode>, at: int) -> bool {
    forall|j: int| 0 <= j < at ==> (#[trigger] items[j]).0.id != items[at].0.id
}

/// The registry after the first `upto` of the items: every aggregate among
/// them is entered once, under the name it is serialized under, where it has
/// one.
pub open spec fn registry_upto<'a>(
    edges: Seq<ItemEdge<'a>>,
    items: Seq<&ItemNode>,
    upto: nat,
) -> Map<Seq<char>, ContainerModel>
    decreases upto,
{
    if upto == 0 || upto > items.len() {
        Map::empty()
    } else {
        let before = registry_upto(edges, items, (upto - 1) as nat);
        let item = items[upto - 1];
        match (item.serial_name(), container_of(edges, item)) {
            (Some(name), Some(container)) => if first_mention(items, upto - 1) {
                before.insert(name, container)
            } else {
                before
            },
            _ => before,
        }
    }
}

/// The registry of the edges: the container of every aggregate that the
/// edges mention, as parent or as child.
pub open spec fn registry_of<'a>(edges: Seq<ItemEdge<'a>>) -> Map<Seq<char>, ContainerModel> {
    registry_upto(edges, mentioned(edges), mentioned(edges).len())
}

/// Whether the child of the edge is a field of its parent that asks for a
/// module other than `serde_bytes`.
pub open spec fn is_fault<'a>(edge: ItemEdge<'a>) -> bool {
    edge.0.owns_field(edge.1) && field_format(
        first_capture(WITH@, texts(edge.1.0.attrs@)),
        edge.1.0.inner,
    ) is Err
}

/// Whether one of the edges leads to a field that asks for a module other
/// than `serde_bytes`.
pub open spec fn has_fault<'a>(edges: Seq<ItemEdge<'a>>) -> bool {
    exists|i: int| 0 <= i < edges.len() && is_fault(#[trigger] edges[i])
}

/// The children that the edges give the item and that it has as fields.
pub fn field_candidates_of<'a>(edges: &Vec<ItemEdge<'a>>, item: &ItemNode) -> (r: Vec<
    (&'a ItemNode,),
>)
    ensures
        r@ == field_candidates(edges@, item, edges@.len()),
{
    let mut out: Vec<(&'a ItemNode,)> = Vec::new();
    let mut i: usize = 0;
    while i < edges.len()
        invariant
            i <= edges.len(),
            out@ == field_candidates(edges@, item, i as nat),
        decreases edges.len() - i,
    {
        let edge = edges[i];
        if edge.0.0.id == item.0.id && item.has_field(edge.1) {
            out.push((edge.1,));
        }
        i += 1;
    }
    out
}

/// The children that the edges give the item and that it has as variants.
pub fn variant_candidates_of<'a>(edges: &Vec<ItemEdge<'a>>, item: &ItemNode) -> (r: Vec<
    (&'a ItemNode,),
>)
    ensures
        r@ == variant_candidates(edges@, item, edges@.len()),
{
    let mut out: Vec<(&'a ItemNode,)> = Vec::new();
    let mut i: usize = 0;
    while i < edges.len()
        invariant
            i <= edges.len(),
            out@ == variant_candidates(edges@, item, i as nat),
        decreases edges.len() - i,
    {
        let edge = edges[i];
        if edge.0.0.id == item.0.id && item.has_variant(edge.1) {
            out.push((edge.1,));
        }
        i += 1;
    }
    out
}

/// The fields of the item that the edges give it, in declared order.
pub fn kept_fields_of<'a>(edges: &Vec<ItemEdge<'a>>, item: &ItemNode) -> (r: Vec<&'a ItemNode>)
    ensures
        r@ == kept_fields(edges@, item),
{
    item.fields(field_candidates_of(edges, item))
}

/// The formats of the fields, each with its place among them.
pub fn collect_field_formats(fields: &Vec<&ItemNode>) -> (r: Vec<Indexed<Format>>)
    ensures
        views(r@) == field_formats(fields@, fields@.len()),
{
    let mut out: Vec<Indexed<Format>> = Vec::new();
    let mut i: usize = 0;
    proof {
        assert(views(out@) =~= field_formats(fields@, 0));
    }
    while i < fields.len()
        invariant
            i <= fields.len(),
            views(out@) == field_formats(fields@, i as nat),
        decreases fields.len() - i,
    {
        match try_make_format(fields[i], fields) {
            Ok(Some(found)) => {
                if found.index as usize == i {
                    proof {
                        assert(views(out@.push(found)) =~= views(out@).push(found@));
                    }
                    out.push(found);
                }
            },
            _ => {},
        }
        i += 1;
    }
    out
}

/// The named formats of the fields, each with its place among them.
pub fn collect_named_formats(fields: &Vec<&ItemNode>, owner: &ItemNode) -> (r: Vec<
    Indexed<Named<Format>>,
>)
    ensures
        views(r@) == named_formats(fields@, owner, fields@.len()),
{
    let mut out: Vec<Indexed<Named<Format>>> = Vec::new();
    let mut i: usize = 0;
    proof {
        assert(views(out@) =~= named_formats(fields@, owner, 0));
    }
    while i < fields.len()
        invariant
            i <= fields.len(),
            views(out@) == named_formats(fields@, owner, i as nat),
        decreases fields.len() - i,
    {
        match try_make_named_format(fields[i], fields, owner) {
            Ok(Some(found)) => {
                if found.index as usize == i {
                    proof {
                        assert(views(out@.push(found)) =~= views(out@).push(found@));
                    }
                    out.push(found);
                }
            },
            _ => {},
        }
        i += 1;
    }
    out
}

/// What the gathered values say is what the values say.
pub proof fn collected_are_views<T: View>(gathered: Seq<(&Indexed<T>,)>, items: Seq<Indexed<T>>)
    requires
        gathered.len() == items.len(),
        forall|i: int| 0 <= i < gathered.len() ==> *(#[trigger] gathered[i]).0 == items[i],
    ensures
        collected_views(gathered) == views(items),
{
    assert(collected_views(gathered) =~= views(items));
}

/// The format of a variant of an enum, with its name and its place among the
/// variants.
pub fn make_variant_format<'a>(
    edges: &Vec<ItemEdge<'a>>,
    enum_: &ItemNode,
    variant: &ItemNode,
    variants: &Vec<&ItemNode>,
) -> (r: Option<Indexed<Named<VariantFormat>>>)
    ensures
        opt_variant_model(r) == variant_format(edges@, enum_, variant, variants@),
{
    if is_plain_variant(variant) {
        make_plain_variant_format(variant, variants, enum_)
    } else if is_tuple_variant(variant) {
        let fields = kept_fields_of(edges, variant);
        let formats = collect_field_formats(&fields);
        let gathered = collect(&formats);
        proof {
            collected_are_views(gathered@, formats@);
            field_formats_follow_declaration(fields@, fields@.len());
            by_index_keeps_sorted(field_formats(fields@, fields@.len()));
        }
        make_tuple_variant_format(variant, &gathered, variants, enum_)
    } else if is_struct_variant(variant) {
        let fields = kept_fields_of(edges, variant);
        let formats = collect_named_formats(&fields, variant);
        let gathered = collect(&formats);
        proof {
            collected_are_views(gathered@, formats@);
            named_formats_follow_declaration(fields@, variant, fields@.len());
            by_index_keeps_sorted(named_formats(fields@, variant, fields@.len()));
        }
        make_struct_variant_format(variant, &gathered, variants, enum_)
    } else {
        None
    }
}

/// The formats of the variants, each with its place among them.
pub fn collect_variant_formats<'a>(
    edges: &Vec<ItemEdge<'a>>,
    enum_: &ItemNode,
    variants: &Vec<&ItemNode>,
) -> (r: Vec<Indexed<Named<VariantFormat>>>)
    ensures
        views(r@) == variant_formats(edges@, enum_, variants@, variants@.len()),
{
    let mut out: Vec<Indexed<Named<VariantFormat>>> = Vec::new();
    let mut i: usize = 0;
    proof {
        assert(views(out@) =~= variant_formats(edges@, enum_, variants@, 0));
    }
    while i < variants.len()
        invariant
            i <= variants.len(),
            views(out@) == variant_formats(edges@, enum_, variants@, i as nat),
        decreases variants.len() - i,
    {
        match make_variant_format(edges, enum_, variants[i], variants) {
            Some(found) => {
                if found.index as usize == i {
                    proof {
                        assert(views(out@.push(found)) =~= views(out@).push(found@));
                    }
                    out.push(found);
                }
            },
            None => {},
        }
        i += 1;
    }
    out
}

/// What an optional container says.
pub open spec fn opt_container_model(r: Option<ContainerFormat>) -> Option<ContainerModel> {
    match r {
        Some(container) => Some(container@),
        None => None,
    }
}

/// The container of an item.
pub fn make_container<'a>(edges: &Vec<ItemEdge<'a>>, item: &ItemNode) -> (r: Option<
    ContainerFormat,
>)
    ensures
        opt_container_model(r) == container_of(edges@, item),
{
    if item.is_struct_unit() {
        Some(make_struct_unit())
    } else if item.is_struct_plain() {
        let fields = kept_fields_of(edges, item);
        let formats = collect_named_formats(&fields, item);
        let gathered = collect(&formats);
        proof {
            collected_are_views(gathered@, formats@);
            named_formats_follow_declaration(fields@, item, fields@.len());
            by_index_keeps_sorted(named_formats(fields@, item, fields@.len()));
        }
        Some(make_struct_plain(&gathered))
    } else if item.is_struct_tuple() {
        let fields = kept_fields_of(edges, item);
        let formats = collect_field_formats(&fields);
        let gathered = collect(&formats);
        proof {
            collected_are_views(gathered@, formats@);
            field_formats_follow_declaration(fields@, fields@.len());
            by_index_keeps_sorted(field_formats(fields@, fields@.len()));
        }
        Some(make_struct_tuple(&gathered))
    } else if item.is_enum() {
        let variants = item.variants(variant_candidates_of(edges, item));
        let formats = collect_variant_formats(edges, item, &variants);
        let gathered = collect(&formats);
        proof {
            collected_are_views(gathered@, formats@);
        }
        Some(make_enum(&gathered))
    } else {
        None
    }
}

/// The items that the edges mention: of each edge in turn the parent, then
/// the child.
pub fn mentioned_items<'a>(edges: &Vec<ItemEdge<'a>>) -> (r: Vec<&'a ItemNode>)
    ensures
        r@ == mentioned(edges@),
{
    let mut out: Vec<&'a ItemNode> = Vec::new();
    let mut i: usize = 0;
    while i < edges.len()
        invariant
            i <= edges.len(),
            out@ == mentioned_upto(edges@, i as nat),
        decreases edges.len() - i,
    {
        let edge = edges[i];
        out.push(edge.0);
        out.push(edge.1);
        i += 1;
    }
    out
}

/// Whether the item at `at` is not among the items before it.
pub fn is_first_mention(items: &Vec<&ItemNode>, at: usize) -> (r: bool)
    requires
        at < items@.len(),
    ensures
        r == first_mention(items@, at as int),
{
    let id = items[at].0.id;
    let mut j: usize = 0;
    while j < at
        invariant
            j <= at,
            at < items@.len(),
            id == items@[at as int].0.id,
            forall|k: int| 0 <= k < j ==> (#[trigger] items@[k]).0.id != id,
        decreases at - j,
    {
        if items[j].0.id == id {
            return false;
        }
        j += 1;
    }
    true
}

/// Whether one of the edges leads to a field that asks for a module other
/// than `serde_bytes`.
pub fn find_fault<'a>(edges: &Vec<ItemEdge<'a>>) -> (r: bool)
    ensures
        r == has_fault(edges@),
{
    let mut i: usize = 0;
    while i < edges.len()
        invariant
            i <= edges.len(),
            forall|k: int| 0 <= k < i ==> !is_fault(#[trigger] edges@[k]),
        decreases edges.len() - i,
    {
        let edge = edges[i];
        if edge.0.has_field(edge.1) {
            let with = find_first_capture(WITH, &edge.1.0.attrs);
            if !with_is_known(with, &edge.1.0.inner) {
                proof {
                    assert(is_fault(edges@[i as int]));
                }
                return true;
            }
        }
        i += 1;
    }
    false
}

/// Runs the format pass over the given items: fails where a field asks for a
/// module other than `serde_bytes`, and else gives the registry that holds the
/// container of every aggregate among the items, made of what the edges give it.
pub fn run_on<'a>(edges: &Vec<ItemEdge<'a>>, items: &Vec<&ItemNode>) -> (r: Result<
    Registry,
    FormatError,
>)
    ensures
        match r {
            Ok(registry) => !has_fault(edges@) && registry@ == registry_upto(
                edges@,
                items@,
                items@.len(),
            ),
            Err(error) => has_fault(edges@) && error == FormatError::UnknownSerdeWith,
        },
{
    if find_fault(edges) {
        return Err(FormatError::UnknownSerdeWith);
    }
    let mut registry = Registry::new();
    let mut i: usize = 0;
    while i < items.len()
        invariant
            i <= items.len(),
            registry@ == registry_upto(edges@, items@, i as nat),
        decreases items.len() - i,
    {
        let item = items[i];
        if is_first_mention(items, i) {
            match item.name() {
                Some(name) => match make_container(edges, item) {
                    Some(container) => {
                        registry.insert(name.to_owned(), container);
                    },
                    None => {},
                },
                None => {},
            }
        }
        i += 1;
    }
    Ok(registry)
}

/// Runs the format pass: fails where a field asks for a module other than
/// `serde_bytes`, and else gives the registry of the edges, which holds the
/// container of every aggregate that the edges mention.
pub fn run<'a>(edges: &Vec<ItemEdge<'a>>) -> (r: Result<Registry, FormatError>)
    ensures
        match r {
            Ok(registry) => !has_fault(edges@) && registry@ == registry_of(edges@),
            Err(error) => has_fault(edges@) && error == FormatError::UnknownSerdeWith,
        },
{
    let items = mentioned_items(edges);
    run_on(edges, &items)
}

/// The formats of the fields stand in the order of the declaration: each
/// carries the place of its field, the places grow strictly, and each is the
/// format of the field at its place.
pub proof fn field_formats_follow_declaration(fields: Seq<&ItemNode>, upto: nat)
    requires
        upto <= fields.len(),
    ensures
        forall|i: int, j: int|
            0 <= i < j < field_formats(fields, upto).len() ==> field_formats(fields, upto)[i].index
                < field_formats(fields, upto)[j].index,
        forall|i: int|
            0 <= i < field_formats(fields, upto).len() ==> {
                let found = #[trigger] field_formats(fields, upto)[i];
                found.index < upto && indexed_format(fields[found.index as int], fields) == Ok::<
                    Option<IndexedModel<FormatModel>>,
                    FormatError,
                >(Some(found))
            },
    decreases upto,
{
    if upto > 0 {
        field_formats_follow_declaration(fields, (upto - 1) as nat);
    }
}

/// Where every field has a format and stands once, the places of the formats
/// are exactly `0`, `1`, and so on up to the number of fields.
pub proof fn complete_field_formats_are_numbered(fields: Seq<&ItemNode>, upto: nat)
    requires
        upto <= fields.len(),
        forall|k: int|
            0 <= k < upto ==> (#[trigger] indexed_format(fields[k], fields) matches Ok(Some(found))
                && found.index == k),
    ensures
        field_formats(fields, upto).len() == upto,
        forall|i: int| 0 <= i < upto ==> (#[trigger] field_formats(fields, upto)[i]).index == i,
    decreases upto,
{
    if upto > 0 {
        complete_field_formats_are_numbered(fields, (upto - 1) as nat);
        assert(indexed_format(fields[upto - 1], fields) is Ok);
    }
}

/// The named formats of the fields stand in the order of the declaration.
pub proof fn named_formats_follow_declaration(fields: Seq<&ItemNode>, owner: &ItemNode, upto: nat)
    requires
        upto <= fields.len(),
    ensures
        forall|i: int, j: int|
            0 <= i < j < named_formats(fields, owner, upto).len() ==> named_formats(
                fields,
                owner,
                upto,
            )[i].index < named_formats(fields, owner, upto)[j].index,
        forall|i: int|
            0 <= i < named_formats(fields, owner, upto).len() ==> {
                let found = #[trigger] named_formats(fields, owner, upto)[i];
                found.index < upto && indexed_named_format(
                    fields[found.index as int],
                    fields,
                    owner,
                ) == Ok::<Option<IndexedModel<NamedModel<FormatModel>>>, FormatError>(Some(found))
            },
    decreases upto,
{
    if upto > 0 {
        named_formats_follow_declaration(fields, owner, (upto - 1) as nat);
    }
}

/// Where every field has a named format and stands once, the places of the
/// named formats are exactly `0`, `1`, and so on up to the number of fields.
pub proof fn complete_named_formats_are_numbered(
    fields: Seq<&ItemNode>,
    owner: &ItemNode,
    upto: nat,
)
    requires
        upto <= fields.len(),
        forall|k: int|
            0 <= k < upto ==> (#[trigger] indexed_named_format(fields[k], fields, owner) matches Ok(
                Some(found),
            ) && found.index == k),
    ensures
        named_formats(fields, owner, upto).len() == upto,
        forall|i: int|
            0 <= i < upto ==> (#[trigger] named_formats(fields, owner, upto)[i]).index == i,
    decreases upto,
{
    if upto > 0 {
        complete_named_formats_are_numbered(fields, owner, (upto - 1) as nat);
        assert(indexed_named_format(fields[upto - 1], fields, owner) is Ok);
    }
}

/// The formats of the variants stand in the order of the declaration.
pub proof fn variant_formats_follow_declaration<'a>(
    edges: Seq<ItemEdge<'a>>,
    enum_: &ItemNode,
    variants: Seq<&ItemNode>,
    upto: nat,
)
    requires
        upto <= variants.len(),
    ensures
        forall|i: int, j: int|
            0 <= i < j < variant_formats(edges, enum_, variants, upto).len() ==> variant_formats(
                edges,
                enum_,
                variants,
                upto,
            )[i].index < variant_formats(edges, enum_, variants, upto)[j].index,
        forall|i: int|
            0 <= i < variant_formats(edges, enum_, variants, upto).len() ==> {
                let found = #[trigger] variant_formats(edges, enum_, variants, upto)[i];
                found.index < upto && variant_format(
                    edges,
                    enum_,
                    variants[found.index as int],
                    variants,
                ) == Some(found)
            },
    decreases upto,
{
    if upto > 0 {
        variant_formats_follow_declaration(edges, enum_, variants, (upto - 1) as nat);
    }
}

/// The map of an enum holds, under each place, the format that was made for
/// that place, where no two formats share a place.
pub proof fn variant_map_holds_each(items: Seq<IndexedModel<NamedModel<VariantModel>>>)
    requires
        forall|i: int, j: int| 0 <= i < j < items.len() ==> items[i].index < items[j].index,
    ensures
        forall|i: int|
            0 <= i < items.len() ==> variant_map(items).contains_key((#[trigger] items[i]).index)
                && variant_map(items)[items[i].index] == items[i].value,
        forall|index: u32|
            variant_map(items).contains_key(index) ==> exists|i: int|
                0 <= i < items.len() && (#[trigger] items[i]).index == index,
    decreases items.len(),
{
    if items.len() > 0 {
        let shorter = items.drop_last();
        assert forall|i: int, j: int| 0 <= i < j < shorter.len() implies shorter[i].index
            < shorter[j].index by {
            assert(shorter[i] == items[i]);
            assert(shorter[j] == items[j]);
        }
        variant_map_holds_each(shorter);
        assert forall|i: int| 0 <= i < items.len() implies variant_map(items).contains_key(
            (#[trigger] items[i]).index,
        ) && variant_map(items)[items[i].index] == items[i].value by {
            if i < shorter.len() {
                assert(shorter[i] == items[i]);
                assert(items[i].index < items.last().index);
            }
        }
        assert forall|index: u32| variant_map(items).contains_key(index) implies exists|i: int|
            0 <= i < items.len() && (#[trigger] items[i]).index == index by {
            if index == items.last().index {
                assert(items[items.len() - 1].index == index);
            } else {
                assert(variant_map(shorter).contains_key(index));
                let i = choose|i: int|
                    0 <= i < shorter.len() && (#[trigger] shorter[i]).index == index;
                assert(items[i] == shorter[i]);
            }
        }
    }
}

/// Where every variant has a format and stands once, the enum maps exactly
/// the places `0`, `1`, and so on up to the number of variants.
pub proof fn complete_variant_formats_are_numbered<'a>(
    edges: Seq<ItemEdge<'a>>,
    enum_: &ItemNode,
    variants: Seq<&ItemNode>,
    upto: nat,
)
    requires
        upto <= variants.len(),
        forall|k: int|
            0 <= k < upto ==> (#[trigger] variant_format(edges, enum_, variants[k], variants) matches Some(
                found,
            ) && found.index == k),
    ensures
        variant_formats(edges, enum_, variants, upto).len() == upto,
        forall|i: int|
            0 <= i < upto ==> (#[trigger] variant_formats(edges, enum_, variants, upto)[i]).index
                == i,
        forall|index: u32|
            variant_map(variant_formats(edges, enum_, variants, upto)).contains_key(index) <==> index
                < upto,
    decreases upto,
{
    if upto > 0 {
        complete_variant_formats_are_numbered(edges, enum_, variants, (upto - 1) as nat);
        assert(variant_format(edges, enum_, variants[upto - 1], variants) is Some);
    }
    let all = variant_formats(edges, enum_, variants, upto);
    variant_map_holds_each(all);
    assert forall|index: u32| variant_map(all).contains_key(index) <==> index < upto by {
        if index < upto {
            assert(all[index as int].index == index);
        }
    }
}

/// A candidate that is picked for an identifier is one of the candidates,
/// carries the identifier and is not skipped.
pub proof fn eligible_is_a_candidate<'a>(candidates: Seq<(&'a ItemNode,)>, id: Id)
    ensures
        first_eligible(candidates, id) matches Some(found) ==> !found.skipped() && found.0.id == id
            && exists|j: int| 0 <= j < candidates.len() && (#[trigger] candidates[j]).0 == found,
    decreases candidates.len(),
{
    if candidates.len() > 0 {
        let head = candidates.first().0;
        if !head.skipped() && head.0.id == id {
            assert(candidates[0].0 == head);
        } else {
            let rest = candidates.drop_first();
            eligible_is_a_candidate(rest, id);
            if first_eligible(rest, id) is Some {
                let found = first_eligible(rest, id)->0;
                let j = choose|j: int| 0 <= j < rest.len() && (#[trigger] rest[j]).0 == found;
                assert(candidates[j + 1].0 == found);
            }
        }
    }
}

/// Every member that is put in declared order is one of the candidates and
/// is not skipped.
pub proof fn ordered_are_candidates<'a>(ids: Seq<Id>, candidates: Seq<(&'a ItemNode,)>)
    ensures
        forall|k: int|
            0 <= k < in_declared_order(ids, candidates).len() ==> {
                let member = #[trigger] in_declared_order(ids, candidates)[k];
                !member.skipped() && ids.contains(member.0.id) && exists|j: int|
                    0 <= j < candidates.len() && (#[trigger] candidates[j]).0 == member
            },
    decreases ids.len(),
{
    if ids.len() > 0 {
        let shorter = ids.drop_last();
        ordered_are_candidates(shorter, candidates);
        eligible_is_a_candidate(candidates, ids.last());
        assert forall|k: int| 0 <= k < in_declared_order(ids, candidates).len() implies {
            let member = #[trigger] in_declared_order(ids, candidates)[k];
            !member.skipped() && ids.contains(member.0.id) && exists|j: int|
                0 <= j < candidates.len() && (#[trigger] candidates[j]).0 == member
        } by {
            let member = in_declared_order(ids, candidates)[k];
            if k < in_declared_order(shorter, candidates).len() {
                assert(member == in_declared_order(shorter, candidates)[k]);
                let at = choose|at: int| 0 <= at < shorter.len() && shorter[at] == member.0.id;
                assert(ids[at] == member.0.id);
            } else {
                assert(ids[ids.len() - 1] == member.0.id);
            }
        }
    }
}

/// Every candidate for a field is a field that the item shows.
pub proof fn field_candidates_are_owned<'a>(edges: Seq<ItemEdge<'a>>, item: &ItemNode, upto: nat)
    ensures
        forall|j: int|
            0 <= j < field_candidates(edges, item, upto).len() ==> item.owns_field(
                (#[trigger] field_candidates(edges, item, upto)[j]).0,
            ),
    decreases upto,
{
    if !(upto == 0 || upto > edges.len()) {
        field_candidates_are_owned(edges, item, (upto - 1) as nat);
        let before = field_candidates(edges, item, (upto - 1) as nat);
        let now = field_candidates(edges, item, upto);
        assert forall|j: int| 0 <= j < now.len() implies item.owns_field((#[trigger] now[j]).0) by {
            if j < before.len() {
                assert(now[j] == before[j]);
            }
        }
    }
}

/// Every candidate for a variant is a variant that the item shows.
pub proof fn variant_candidates_are_owned<'a>(
    edges: Seq<ItemEdge<'a>>,
    item: &ItemNode,
    upto: nat,
)
    ensures
        forall|j: int|
            0 <= j < variant_candidates(edges, item, upto).len() ==> item.owns_variant(
                (#[trigger] variant_candidates(edges, item, upto)[j]).0,
            ),
    decreases upto,
{
    if !(upto == 0 || upto > edges.len()) {
        variant_candidates_are_owned(edges, item, (upto - 1) as nat);
        let before = variant_candidates(edges, item, (upto - 1) as nat);
        let now = variant_candidates(edges, item, upto);
        assert forall|j: int| 0 <= j < now.len() implies item.owns_variant(
            (#[trigger] now[j]).0,
        ) by {
            if j < before.len() {
                assert(now[j] == before[j]);
            }
        }
    }
}

/// No member that is skipped, and no field that is serialized under the name
/// of hidden fields, is among the fields and variants of which the container
/// of an item is made.
pub proof fn skipped_and_hidden_members_are_left_out<'a>(edges: Seq<ItemEdge<'a>>, item: &ItemNode)
    ensures
        forall|k: int|
            0 <= k < kept_fields(edges, item).len() ==> {
                let field = #[trigger] kept_fields(edges, item)[k];
                !field.skipped() && field.serial_name() != Some(PRIVATE_FIELD@)
                    && item.owns_field(field)
            },
        forall|k: int|
            0 <= k < kept_variants(edges, item).len() ==> {
                let variant = #[trigger] kept_variants(edges, item)[k];
                !variant.skipped() && item.owns_variant(variant)
            },
{
    let fields = field_candidates(edges, item, edges.len());
    let variants = variant_candidates(edges, item, edges.len());
    field_candidates_are_owned(edges, item, edges.len());
    variant_candidates_are_owned(edges, item, edges.len());
    ordered_are_candidates(item.field_ids(), fields);
    ordered_are_candidates(item.variant_ids(), variants);
    assert forall|k: int| 0 <= k < kept_fields(edges, item).len() implies {
        let field = #[trigger] kept_fields(edges, item)[k];
        !field.skipped() && field.serial_name() != Some(PRIVATE_FIELD@)
            && item.owns_field(field)
    } by {
        let field = kept_fields(edges, item)[k];
        let j = choose|j: int| 0 <= j < fields.len() && (#[trigger] fields[j]).0 == field;
        assert(item.owns_field(fields[j].0));
    }
    assert forall|k: int| 0 <= k < kept_variants(edges, item).len() implies {
        let variant = #[trigger] kept_variants(edges, item)[k];
        !variant.skipped() && item.owns_variant(variant)
    } by {
        let variant = kept_variants(edges, item)[k];
        let j = choose|j: int| 0 <= j < variants.len() && (#[trigger] variants[j]).0 == variant;
        assert(item.owns_variant(variants[j].0));
    }
}

/// A tuple of formats collapses by its length: none is a unit, one a newtype,
/// two or more stay a tuple; in a container as in a variant.
pub proof fn tuples_collapse_by_length(parts: Seq<FormatModel>)
    ensures
        parts.len() == 0 ==> tuple_container(parts) == ContainerModel::UnitStruct && tuple_variant(
            parts,
        ) == VariantModel::Unit,
        parts.len() == 1 ==> tuple_container(parts) == ContainerModel::NewTypeStruct(parts[0])
            && tuple_variant(parts) == VariantModel::NewType(parts[0]),
        parts.len() >= 2 ==> tuple_container(parts) == ContainerModel::TupleStruct(parts)
            && tuple_variant(parts) == VariantModel::Tuple(parts),
{
}

/// An item is serialized under the name that the last of its `rename`
/// attributes gives, and under its declared name where none gives one.
pub proof fn rename_comes_before_the_declared_name(item: &ItemNode)
    ensures
        match last_capture(RENAME@, texts(item.0.attrs@)) {
            Some(renamed) => item.serial_name() == Some(renamed),
            None => item.serial_name() == opt_text(item.0.name),
        },
{
}

/// The names of the registry are the names under which the aggregates are
/// serialized: a name is in the registry exactly when one of the items, where
/// it is first mentioned, has a container and is serialized under that name.
pub proof fn registry_keys_are_serial_names<'a>(
    edges: Seq<ItemEdge<'a>>,
    items: Seq<&ItemNode>,
    upto: nat,
)
    requires
        upto <= items.len(),
    ensures
        forall|name: Seq<char>|
            registry_upto(edges, items, upto).contains_key(name) <==> exists|i: int|
                0 <= i < upto && first_mention(items, i) && (#[trigger] items[i]).serial_name()
                    == Some(name) && container_of(edges, items[i]) is Some,
    decreases upto,
{
    if upto > 0 {
        registry_keys_are_serial_names(edges, items, (upto - 1) as nat);
        assert forall|name: Seq<char>|
            registry_upto(edges, items, upto).contains_key(name) <==> exists|i: int|
                0 <= i < upto && first_mention(items, i) && (#[trigger] items[i]).serial_name()
                    == Some(name) && container_of(edges, items[i]) is Some by {
            if registry_upto(edges, items, upto).contains_key(name) {
                if registry_upto(edges, items, (upto - 1) as nat).contains_key(name) {
                    let i = choose|i: int|
                        0 <= i < upto - 1 && first_mention(items, i)
                            && (#[trigger] items[i]).serial_name() == Some(name) && container_of(
                            edges,
                            items[i],
                        ) is Some;
                    assert(items[i].serial_name() == Some(name));
                } else {
                    assert(items[upto - 1].serial_name() == Some(name));
                }
            }
            if exists|i: int|
                0 <= i < upto && first_mention(items, i) && (#[trigger] items[i]).serial_name()
                    == Some(name) && container_of(edges, items[i]) is Some {
                let i = choose|i: int|
                    0 <= i < upto && first_mention(items, i)
                        && (#[trigger] items[i]).serial_name() == Some(name) && container_of(
                        edges,
                        items[i],
                    ) is Some;
                if i < upto - 1 {
                    assert(registry_upto(edges, items, (upto - 1) as nat).contains_key(name));
                }
            }
        }
    }
}

/// Every struct and every enum has a container, and nothing else has one.
pub proof fn aggregates_have_containers<'a>(edges: Seq<ItemEdge<'a>>, item: &ItemNode)
    ensures
        container_of(edges, item) is Some <==> (item.0.inner is Struct || item.0.inner is Enum),
{
}

} // verus!
