//! Items and summaries as the deduction rules question them.

use vstd::prelude::*;
use crate::attrs::{any_match, find_last_capture, last_capture, matches_any, RENAME, SKIP};
use crate::model::{
    collect_present, opt_str_text, opt_text, present_ids, texts, ExternalCrate, GenericArg,
    GenericArgs, Id, Item, ItemEnum, ItemSummary, StructKind, Type, VariantKind,
};
use crate::text::{final_segment, last_segment, str_equal};

verus! {

/// An item of the index, seen as a node of the type graph.
#[derive(Debug, PartialEq, Eq)]
pub struct ItemNode(pub Item);

/// A summary of the index, seen as a node of the type graph. Two summaries
/// are equal where their paths are.
#[derive(Debug)]
pub struct SummaryNode {
    pub id: Id,
    pub summary: ItemSummary,
}

/// An external crate with the number the index gives it.
#[derive(Debug, PartialEq, Eq)]
pub struct CrateNode {
    pub id: u32,
    pub crate_: ExternalCrate,
}

/// The name that fields have which serialization hides.
pub const PRIVATE_FIELD: &'static str = "__private_field";

/// Two module paths lead into the same module: they are equally long and
/// agree on everything but their last segment.
pub open spec fn same_module(a: Seq<Seq<char>>, b: Seq<Seq<char>>) -> bool {
    a.len() == b.len() && forall|i: int| 0 <= i < a.len() - 1 ==> a[i] == b[i]
}

/// Whether two module paths lead into the same module.
pub fn paths_in_same_module(a: &Vec<String>, b: &Vec<String>) -> (r: bool)
    ensures
        r == same_module(texts(a@), texts(b@)),
{
    if a.len() != b.len() {
        return false;
    }
    if a.len() == 0 {
        return true;
    }
    let n = a.len() - 1;
    let mut i: usize = 0;
    while i < n
        invariant
            i <= n,
            n == a.len() - 1,
            a.len() == b.len(),
            forall|k: int| 0 <= k < i ==> a@[k]@ == b@[k]@,
        decreases n - i,
    {
        if a[i] != b[i] {
            proof {
                assert(texts(a@)[i as int] != texts(b@)[i as int]);
            }
            return false;
        }
        i += 1;
    }
    true
}

/// Being in the same module is reflexive.
pub proof fn same_module_reflexive(a: Seq<Seq<char>>)
    ensures
        same_module(a, a),
{
}

/// Being in the same module is symmetric.
pub proof fn same_module_symmetric(a: Seq<Seq<char>>, b: Seq<Seq<char>>)
    ensures
        same_module(a, b) == same_module(b, a),
{
}

/// Two paths that are not empty are in the same module exactly when what
/// stands before their last segments is equal.
pub proof fn same_module_is_prefix_equality(a: Seq<Seq<char>>, b: Seq<Seq<char>>)
    requires
        a.len() > 0,
        b.len() > 0,
    ensures
        same_module(a, b) == (a.drop_last() == b.drop_last()),
{
    if same_module(a, b) {
        assert(a.drop_last() =~= b.drop_last());
    }
    if a.drop_last() == b.drop_last() {
        assert(a.len() == b.len()) by {
            assert(a.drop_last().len() == a.len() - 1);
            assert(b.drop_last().len() == b.len() - 1);
        }
        assert forall|i: int| 0 <= i < a.len() - 1 implies a[i] == b[i] by {
            assert(a[i] == a.drop_last()[i]);
            assert(b[i] == b.drop_last()[i]);
        }
    }
}

/// Being in the same module is transitive.
pub proof fn same_module_transitive(a: Seq<Seq<char>>, b: Seq<Seq<char>>, c: Seq<Seq<char>>)
    requires
        same_module(a, b),
        same_module(b, c),
    ensures
        same_module(a, c),
{
}

/// Whether two lists of strings hold the same texts.
pub fn same_texts(a: &Vec<String>, b: &Vec<String>) -> (r: bool)
    ensures
        r == (texts(a@) == texts(b@)),
{
    if a.len() != b.len() {
        proof {
            assert(texts(a@).len() != texts(b@).len());
        }
        return false;
    }
    let mut i: usize = 0;
    while i < a.len()
        invariant
            i <= a.len(),
            a.len() == b.len(),
            forall|k: int| 0 <= k < i ==> a@[k]@ == b@[k]@,
        decreases a.len() - i,
    {
        if a[i] != b[i] {
            proof {
                assert(texts(a@)[i as int] != texts(b@)[i as int]);
            }
            return false;
        }
        i += 1;
    }
    proof {
        assert(texts(a@) =~= texts(b@));
    }
    true
}

impl PartialEq for SummaryNode {
    fn eq(&self, other: &Self) -> (r: bool) {
        same_texts(&self.summary.path, &other.summary.path)
    }
}

impl vstd::std_specs::cmp::PartialEqSpecImpl for SummaryNode {
    open spec fn obeys_eq_spec() -> bool {
        true
    }

    open spec fn eq_spec(&self, other: &Self) -> bool {
        texts(self.summary.path@) == texts(other.summary.path@)
    }
}

impl Eq for SummaryNode {

}

impl SummaryNode {
    /// The module path of the summary, as text.
    pub open spec fn path(&self) -> Seq<Seq<char>> {
        texts(self.summary.path@)
    }

    /// Whether the two summaries lie in the same module.
    pub fn in_same_module_as(&self, other: &SummaryNode) -> (r: bool)
        ensures
            r == same_module(self.path(), other.path()),
    {
        paths_in_same_module(&self.summary.path, &other.summary.path)
    }
}

/// The name under which an item is serialized: the captured new name where
/// there is one, the declared name otherwise.
pub open spec fn chosen_name(renamed: Option<Seq<char>>, declared: Option<Seq<char>>) -> Option<
    Seq<char>,
> {
    match renamed {
        Some(name) => Some(name),
        None => declared,
    }
}

/// Picks the name under which an item is serialized.
pub fn choose_name<'a>(renamed: Option<&'a str>, declared: Option<&'a str>) -> (r: Option<&'a str>)
    ensures
        opt_str_text(r) == chosen_name(opt_str_text(renamed), opt_str_text(declared)),
{
    match renamed {
        Some(name) => Some(name),
        None => declared,
    }
}

/// Whether the path is one of the built-in generic types by its name.
pub open spec fn is_builtin(name: Seq<char>) -> bool {
    name == "Option"@ || name == "String"@ || name == "Vec"@
}

/// Whether a type expression mentions the item `id`: as the path itself or,
/// through generic arguments, tuples, slices and arrays, inside it. For an item
/// of another crate (`remote`) the paths `Option`, `String` and `Vec` do not
/// themselves count, and qualified paths are looked into.
pub open spec fn type_mentions(id: Id, type_: Type, remote: bool) -> bool
    decreases type_,
{
    match type_ {
        Type::ResolvedPath(path) => {
            (path.id == id && !(remote && is_builtin(path.name@))) || match path.args {
                Some(args) => args_mention(id, args, remote),
                None => false,
            }
        },
        Type::QualifiedPath { name, args, self_type } => {
            remote && (type_mentions(id, *self_type, remote) || match args {
                Some(args) => args_mention(id, args, remote),
                None => false,
            })
        },
        Type::Tuple(types) => exists|i: int|
            0 <= i < types@.len() && type_mentions(id, #[trigger] types@[i], remote),
        Type::Slice(inner) => type_mentions(id, *inner, remote),
        Type::Array(inner) => type_mentions(id, *inner, remote),
        _ => false,
    }
}

/// Whether one of the generic arguments mentions the item `id`.
pub open spec fn args_mention(id: Id, args: GenericArgs, remote: bool) -> bool
    decreases args,
{
    match args {
        GenericArgs::AngleBracketed { args } => exists|i: int|
            0 <= i < args@.len() && arg_mentions(id, #[trigger] args@[i], remote),
        GenericArgs::Parenthesized { inputs } => exists|i: int|
            0 <= i < inputs@.len() && type_mentions(id, #[trigger] inputs@[i], remote),
    }
}

/// Whether a generic argument is a type that mentions the item `id`.
pub open spec fn arg_mentions(id: Id, arg: GenericArg, remote: bool) -> bool
    decreases arg,
{
    match arg {
        GenericArg::Type(type_) => type_mentions(id, type_, remote),
        GenericArg::Other => false,
    }
}

/// Whether the type expression mentions the item `parent`.
pub fn check_type(parent: &Id, type_: &Type, is_remote: bool) -> (r: bool)
    ensures
        r == type_mentions(*parent, *type_, is_remote),
    decreases type_,
{
    match type_ {
        Type::ResolvedPath(path) => {
            if path.id == *parent {
                let name = path.name.as_str();
                let builtin = str_equal(name, "Option") || str_equal(name, "String") || str_equal(
                    name,
                    "Vec",
                );
                if !(is_remote && builtin) {
                    return true;
                }
            }
            match &path.args {
                Some(args) => check_args(parent, args, is_remote),
                None => false,
            }
        },
        Type::QualifiedPath { name, args, self_type } => {
            if is_remote {
                if check_type(parent, self_type, is_remote) {
                    return true;
                }
                match args {
                    Some(args) => check_args(parent, args, is_remote),
                    None => false,
                }
            } else {
                false
            }
        },
        Type::Tuple(types) => {
            let mut i: usize = 0;
            while i < types.len()
                invariant
                    i <= types.len(),
                    *type_ is Tuple,
                    type_->Tuple_0 == *types,
                    forall|k: int|
                        0 <= k < i ==> !type_mentions(*parent, #[trigger] types@[k], is_remote),
                decreases types.len() - i,
            {
                proof {
                    assert(decreases_to!(*type_ => type_->Tuple_0@[i as int]));
                }
                if check_type(parent, &types[i], is_remote) {
                    proof {
                        assert(type_mentions(*parent, types@[i as int], is_remote));
                    }
                    return true;
                }
                i += 1;
            }
            false
        },
        Type::Slice(inner) => check_type(parent, inner, is_remote),
        Type::Array(inner) => check_type(parent, inner, is_remote),
        _ => false,
    }
}

/// Whether one of the generic arguments mentions the item `parent`.
pub fn check_args(parent: &Id, args: &GenericArgs, is_remote: bool) -> (r: bool)
    ensures
        r == args_mention(*parent, *args, is_remote),
    decreases args,
{
    match args {
        GenericArgs::AngleBracketed { args: list } => {
            let mut i: usize = 0;
            while i < list.len()
                invariant
                    i <= list.len(),
                    *args is AngleBracketed,
                    args->AngleBracketed_args == *list,
                    forall|k: int|
                        0 <= k < i ==> !arg_mentions(*parent, #[trigger] list@[k], is_remote),
                decreases list.len() - i,
            {
                proof {
                    assert(decreases_to!(*args => args->AngleBracketed_args@[i as int]));
                }
                let found = match &list[i] {
                    GenericArg::Type(type_) => check_type(parent, type_, is_remote),
                    GenericArg::Other => false,
                };
                if found {
                    proof {
                        assert(arg_mentions(*parent, list@[i as int], is_remote));
                    }
                    return true;
                }
                i += 1;
            }
            false
        },
        GenericArgs::Parenthesized { inputs } => {
            let mut i: usize = 0;
            while i < inputs.len()
                invariant
                    i <= inputs.len(),
                    *args is Parenthesized,
                    args->Parenthesized_inputs == *inputs,
                    forall|k: int|
                        0 <= k < i ==> !type_mentions(*parent, #[trigger] inputs@[k], is_remote),
                decreases inputs.len() - i,
            {
                proof {
                    assert(decreases_to!(*args => args->Parenthesized_inputs@[i as int]));
                }
                if check_type(parent, &inputs[i], is_remote) {
                    proof {
                        assert(type_mentions(*parent, inputs@[i as int], is_remote));
                    }
                    return true;
                }
                i += 1;
            }
            false
        },
    }
}

/// Whether the list holds the identifier.
pub fn contains_id(ids: &Vec<Id>, id: Id) -> (r: bool)
    ensures
        r == ids@.contains(id),
{
    let mut i: usize = 0;
    while i < ids.len()
        invariant
            i <= ids.len(),
            forall|k: int| 0 <= k < i ==> ids@[k] != id,
        decreases ids.len() - i,
    {
        if ids[i] == id {
            return true;
        }
        i += 1;
    }
    false
}

/// The first candidate that carries the identifier and is not skipped.
pub open spec fn first_eligible<'a>(candidates: Seq<(&'a ItemNode,)>, id: Id) -> Option<
    &'a ItemNode,
>
    decreases candidates.len(),
{
    if candidates.len() == 0 {
        None
    } else {
        let head = candidates.first().0;
        if !head.skipped() && head.0.id == id {
            Some(head)
        } else {
            first_eligible(candidates.drop_first(), id)
        }
    }
}

/// For each identifier in turn the first candidate that carries it and is not
/// skipped; identifiers without such a candidate leave no trace.
pub open spec fn in_declared_order<'a>(ids: Seq<Id>, candidates: Seq<(&'a ItemNode,)>) -> Seq<
    &'a ItemNode,
>
    decreases ids.len(),
{
    if ids.len() == 0 {
        Seq::empty()
    } else {
        let rest = in_declared_order(ids.drop_last(), candidates);
        match first_eligible(candidates, ids.last()) {
            Some(found) => rest.push(found),
            None => rest,
        }
    }
}

/// Finds the first candidate that carries the identifier and is not skipped.
pub fn find_eligible<'a>(candidates: &Vec<(&'a ItemNode,)>, id: Id) -> (r: Option<&'a ItemNode>)
    ensures
        r == first_eligible(candidates@, id),
{
    let mut i: usize = 0;
    proof {
        assert(candidates@.skip(0) == candidates@);
    }
    while i < candidates.len()
        invariant
            i <= candidates.len(),
            first_eligible(candidates@, id) == first_eligible(candidates@.skip(i as int), id),
        decreases candidates.len() - i,
    {
        let candidate: &'a ItemNode = candidates[i].0;
        proof {
            assert(candidates@.skip(i as int).first() == candidates@[i as int]);
            assert(candidates@.skip(i as int).drop_first() == candidates@.skip(i as int + 1));
        }
        if candidate.0.id == id && !candidate.should_skip() {
            return Some(candidate);
        }
        i += 1;
    }
    None
}

/// Puts the candidates in the order of the identifiers.
pub fn order_by_declaration<'a>(ids: &Vec<Id>, candidates: &Vec<(&'a ItemNode,)>) -> (r: Vec<
    &'a ItemNode,
>)
    ensures
        r@ == in_declared_order(ids@, candidates@),
{
    let mut out: Vec<&'a ItemNode> = Vec::new();
    let mut i: usize = 0;
    while i < ids.len()
        invariant
            i <= ids.len(),
            out@ == in_declared_order(ids@.take(i as int), candidates@),
        decreases ids.len() - i,
    {
        proof {
            assert(ids@.take(i as int + 1).drop_last() == ids@.take(i as int));
        }
        match find_eligible(candidates, ids[i]) {
            Some(found) => out.push(found),
            None => {},
        }
        i += 1;
    }
    proof {
        assert(ids@.take(ids.len() as int) == ids@);
    }
    out
}

impl ItemNode {
    /// Whether an attribute of the item asks serialization to skip it.
    pub open spec fn skipped(&self) -> bool {
        any_match(SKIP@, texts(self.0.attrs@))
    }

    /// Whether serialization leaves the item out: it is skipped, or it is a
    /// field that is serialized under the name of hidden fields.
    pub open spec fn left_out(&self) -> bool {
        self.skipped() || (self.0.inner is StructField && self.serial_name() == Some(
            PRIVATE_FIELD@,
        ))
    }

    /// The name under which the item is serialized.
    pub open spec fn serial_name(&self) -> Option<Seq<char>> {
        chosen_name(last_capture(RENAME@, texts(self.0.attrs@)), opt_text(self.0.name))
    }

    /// The identifiers of the fields that a struct or a variant declares, in
    /// the order of the declaration and without the stripped ones.
    pub open spec fn field_ids(&self) -> Seq<Id> {
        match self.0.inner {
            ItemEnum::Struct(StructKind::Plain { fields, .. }) => fields@,
            ItemEnum::Struct(StructKind::Tuple(fields)) => present_ids(fields@),
            ItemEnum::Variant(VariantKind::Struct { fields, .. }) => fields@,
            ItemEnum::Variant(VariantKind::Tuple(fields)) => present_ids(fields@),
            _ => Seq::empty(),
        }
    }

    /// The identifiers of the variants that an enum declares, in order.
    pub open spec fn variant_ids(&self) -> Seq<Id> {
        match self.0.inner {
            ItemEnum::Enum { variants } => variants@,
            _ => Seq::empty(),
        }
    }

    /// Whether the item declares the field `id`, the field is not skipped and
    /// is not serialized under the name of hidden fields.
    pub open spec fn takes_field(&self, id: Id, skipped: bool, name: Option<Seq<char>>) -> bool {
        !skipped && name != Some(PRIVATE_FIELD@) && self.field_ids().contains(id)
    }

    /// Whether the item has `field` as a field that is serialized.
    pub open spec fn owns_field(&self, field: &ItemNode) -> bool {
        self.takes_field(field.0.id, field.skipped(), field.serial_name())
    }

    /// Whether the item has `variant` as a variant that is serialized.
    pub open spec fn owns_variant(&self, variant: &ItemNode) -> bool {
        !variant.skipped() && self.variant_ids().contains(variant.0.id)
    }

    /// Whether the item is a field or an associated type of the type `id`.
    pub open spec fn of_type(&self, id: Id, remote: bool) -> bool {
        match self.0.inner {
            ItemEnum::StructField(type_) => type_mentions(id, type_, remote),
            ItemEnum::AssocType { type_: Some(Type::ResolvedPath(target)) } => target.id == id,
            _ => false,
        }
    }

    /// Whether the item implements the trait whose path ends in `trait_name`
    /// for the type `for_`.
    pub open spec fn implements(&self, for_: Id, trait_name: Seq<char>) -> bool {
        match self.0.inner {
            ItemEnum::Impl(imp) => match (imp.trait_, imp.for_) {
                (Some(trait_), Type::ResolvedPath(target)) => final_segment(trait_.name@)
                    == trait_name && target.id == for_,
                _ => false,
            },
            _ => false,
        }
    }

    /// Whether the item is an implementation that declares the item `id`, and
    /// that item is declared under the name `with_name`.
    pub open spec fn associates(&self, id: Id, name: Option<Seq<char>>, with_name: Seq<char>) -> bool {
        match self.0.inner {
            ItemEnum::Impl(imp) => name == Some(with_name) && imp.items@.contains(id),
            _ => false,
        }
    }

    /// The declared name of the item.
    pub fn declared_name(&self) -> (r: Option<&str>)
        ensures
            opt_str_text(r) == opt_text(self.0.name),
    {
        match &self.0.name {
            Some(name) => Some(name.as_str()),
            None => None,
        }
    }

    /// The name under which the item is serialized: the one that its last
    /// `rename` attribute gives, else the declared one.
    pub fn name(&self) -> (r: Option<&str>)
        ensures
            opt_str_text(r) == self.serial_name(),
    {
        choose_name(find_last_capture(RENAME, &self.0.attrs), self.declared_name())
    }

    /// Whether the summary is that of the item.
    pub fn has_summary(&self, summary: &SummaryNode) -> (r: bool)
        ensures
            r == (self.0.id == summary.id),
    {
        self.0.id == summary.id
    }

    /// Whether the item is a struct.
    pub fn is_struct(&self) -> (r: bool)
        ensures
            r == (self.0.inner is Struct),
    {
        match &self.0.inner {
            ItemEnum::Struct(_) => true,
            _ => false,
        }
    }

    /// Whether the item is a struct without fields.
    pub fn is_struct_unit(&self) -> (r: bool)
        ensures
            r == (self.0.inner matches ItemEnum::Struct(kind) && kind is Unit),
    {
        match &self.0.inner {
            ItemEnum::Struct(StructKind::Unit) => true,
            _ => false,
        }
    }

    /// Whether the item is a struct with named fields.
    pub fn is_struct_plain(&self) -> (r: bool)
        ensures
            r == (self.0.inner matches ItemEnum::Struct(kind) && kind is Plain),
    {
        match &self.0.inner {
            ItemEnum::Struct(StructKind::Plain { .. }) => true,
            _ => false,
        }
    }

    /// Whether the item is a struct with positional fields.
    pub fn is_struct_tuple(&self) -> (r: bool)
        ensures
            r == (self.0.inner matches ItemEnum::Struct(kind) && kind is Tuple),
    {
        match &self.0.inner {
            ItemEnum::Struct(StructKind::Tuple(_)) => true,
            _ => false,
        }
    }

    /// Whether the item is an enum.
    pub fn is_enum(&self) -> (r: bool)
        ensures
            r == (self.0.inner is Enum),
    {
        match &self.0.inner {
            ItemEnum::Enum { .. } => true,
            _ => false,
        }
    }

    /// Whether the item implements the trait whose path ends in `trait_name`
    /// for the type `for_`.
    pub fn is_impl_for(&self, for_: &ItemNode, trait_name: &str) -> (r: bool)
        ensures
            r == self.implements(for_.0.id, trait_name@),
    {
        match &self.0.inner {
            ItemEnum::Impl(imp) => match (&imp.trait_, &imp.for_) {
                (Some(trait_), Type::ResolvedPath(target)) => str_equal(
                    last_segment(trait_.name.as_str()),
                    trait_name,
                ) && target.id == for_.0.id,
                _ => false,
            },
            _ => false,
        }
    }

    /// Whether one of the item's attributes is `#[serde(skip)]`.
    pub fn should_skip(&self) -> (r: bool)
        ensures
            r == self.skipped(),
    {
        matches_any(SKIP, &self.0.attrs)
    }

    /// Whether serialization leaves the item out: it is skipped, or it is a
    /// field that is serialized under the name of hidden fields.
    pub fn is_left_out(&self) -> (r: bool)
        ensures
            r == self.left_out(),
    {
        if self.should_skip() {
            return true;
        }
        match &self.0.inner {
            ItemEnum::StructField(_) => match self.name() {
                Some(name) => str_equal(name, PRIVATE_FIELD),
                None => false,
            },
            _ => false,
        }
    }

    /// The identifiers of the declared fields, in order.
    pub fn declared_fields(&self) -> (r: Vec<Id>)
        ensures
            r@ == self.field_ids(),
    {
        match &self.0.inner {
            ItemEnum::Struct(StructKind::Plain { fields, .. }) => copy_ids(fields),
            ItemEnum::Struct(StructKind::Tuple(fields)) => collect_present(fields),
            ItemEnum::Variant(VariantKind::Struct { fields, .. }) => copy_ids(fields),
            ItemEnum::Variant(VariantKind::Tuple(fields)) => collect_present(fields),
            _ => Vec::new(),
        }
    }

    /// The identifiers of the declared variants, in order.
    pub fn declared_variants(&self) -> (r: Vec<Id>)
        ensures
            r@ == self.variant_ids(),
    {
        match &self.0.inner {
            ItemEnum::Enum { variants } => copy_ids(variants),
            _ => Vec::new(),
        }
    }

    /// The candidates that are fields of the item, in the order in which the
    /// item declares them and without the skipped ones.
    pub fn fields<'a>(&self, fields: Vec<(&'a ItemNode,)>) -> (r: Vec<&'a ItemNode>)
        ensures
            r@ == in_declared_order(self.field_ids(), fields@),
    {
        let ids = self.declared_fields();
        order_by_declaration(&ids, &fields)
    }

    /// Whether the item declares the field `id` and the field, skipped or not
    /// and serialized as `name`, is one that serialization shows.
    pub fn accepts_field(&self, id: Id, skipped: bool, name: Option<&str>) -> (r: bool)
        ensures
            r == self.takes_field(id, skipped, opt_str_text(name)),
    {
        if skipped {
            return false;
        }
        let hidden = match name {
            Some(name) => str_equal(name, PRIVATE_FIELD),
            None => false,
        };
        if hidden {
            return false;
        }
        let ids = self.declared_fields();
        contains_id(&ids, id)
    }

    /// Whether the item has `field` as a field that is serialized: it declares
    /// the field, and the field is neither skipped nor serialized under the name
    /// of hidden fields.
    pub fn has_field(&self, field: &ItemNode) -> (r: bool)
        ensures
            r == self.owns_field(field),
    {
        self.accepts_field(field.0.id, field.should_skip(), field.name())
    }

    /// The candidates that are variants of the item, in the order in which
    /// the item declares them and without the skipped ones.
    pub fn variants<'a>(&self, variants: Vec<(&'a ItemNode,)>) -> (r: Vec<&'a ItemNode>)
        ensures
            r@ == in_declared_order(self.variant_ids(), variants@),
    {
        let ids = self.declared_variants();
        order_by_declaration(&ids, &variants)
    }

    /// Whether the item has `variant` as a variant that is serialized: it
    /// declares the variant, and the variant is not skipped.
    pub fn has_variant(&self, variant: &ItemNode) -> (r: bool)
        ensures
            r == self.owns_variant(variant),
    {
        if variant.should_skip() {
            return false;
        }
        match &self.0.inner {
            ItemEnum::Enum { variants } => contains_id(variants, variant.0.id),
            _ => false,
        }
    }

    /// Whether the item is a field whose type mentions the item `type_node`, or
    /// an associated type that is set to it.
    pub fn is_of_local_type(&self, type_node: &ItemNode) -> (r: bool)
        ensures
            r == self.of_type(type_node.0.id, false),
    {
        self.is_of_type(&type_node.0.id, false)
    }

    /// Whether the item is a field whose type mentions the item of another
    /// crate that `type_node` summarizes, or an associated type that is set to
    /// it. The paths `Option`, `String` and `Vec` do not themselves count.
    pub fn is_of_remote_type(&self, type_node: &SummaryNode) -> (r: bool)
        ensures
            r == self.of_type(type_node.id, true),
    {
        self.is_of_type(&type_node.id, true)
    }

    /// Whether the item is a field whose type mentions the item `id`, or an
    /// associated type that is set to it.
    pub fn is_of_type(&self, id: &Id, is_remote: bool) -> (r: bool)
        ensures
            r == self.of_type(*id, is_remote),
    {
        match &self.0.inner {
            ItemEnum::StructField(type_) => check_type(id, type_, is_remote),
            ItemEnum::AssocType { type_: Some(Type::ResolvedPath(target)) } => target.id == *id,
            _ => false,
        }
    }

    /// Whether the item is an implementation that declares `associated_item`,
    /// and that item is declared under the name `with_name`.
    pub fn has_associated_item(&self, associated_item: &ItemNode, with_name: &str) -> (r: bool)
        ensures
            r == self.associates(associated_item.0.id, opt_text(associated_item.0.name), with_name@),
    {
        match &self.0.inner {
            ItemEnum::Impl(imp) => match associated_item.declared_name() {
                Some(name) => str_equal(with_name, name) && contains_id(
                    &imp.items,
                    associated_item.0.id,
                ),
                None => false,
            },
            _ => false,
        }
    }
}

/// Gathers the values into one list of references.
pub fn collect<'a, N>(input: &'a Vec<N>) -> (r: Vec<(&'a N,)>)
    ensures
        r@.len() == input@.len(),
        forall|i: int| 0 <= i < r@.len() ==> *(#[trigger] r@[i]).0 == input@[i],
{
    let mut out: Vec<(&'a N,)> = Vec::new();
    let mut i: usize = 0;
    while i < input.len()
        invariant
            i <= input.len(),
            out@.len() == i,
            forall|k: int| 0 <= k < i ==> *(#[trigger] out@[k]).0 == input@[k],
        decreases input.len() - i,
    {
        let item: &'a N = &input[i];
        out.push((item,));
        i += 1;
    }
    out
}

/// A copy of a list of identifiers.
pub fn copy_ids(ids: &Vec<Id>) -> (r: Vec<Id>)
    ensures
        r@ == ids@,
{
    let mut out: Vec<Id> = Vec::new();
    let mut i: usize = 0;
    while i < ids.len()
        invariant
            i <= ids.len(),
            out@ == ids@.take(i as int),
        decreases ids.len() - i,
    {
        out.push(ids[i]);
        proof {
            assert(ids@.take(i as int + 1) == ids@.take(i as int).push(ids@[i as int]));
        }
        i += 1;
    }
    proof {
        assert(ids@.take(ids.len() as int) == ids@);
    }
    out
}

} // verus!
