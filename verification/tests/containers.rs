use std::collections::BTreeMap;

use crux_cli::engine::{make_container, run};
use crux_cli::format::{ContainerFormat, Format, Indexed, Named, VariantFormat};
use crux_cli::formatter::{
    format_field, is_plain_variant, is_struct_variant, is_tuple_variant, make_enum, make_format,
    make_named_format, make_plain_variant_format, make_struct_plain, make_struct_tuple,
    try_format_field, try_make_format, try_make_named_format, with_is_known,
    make_struct_unit, make_struct_variant_format, make_tuple_variant_format, FormatError,
};
use crux_cli::model::{GenericArg, GenericArgs, Id, Item, ItemEnum, Path, StructKind, Type, VariantKind};
use crux_cli::node::{collect, ItemNode};
use crux_cli::order::sort_by_index;
use crux_cli::registry::Registry;

fn item(id: u32, name: &str, attrs: &[&str], inner: ItemEnum) -> ItemNode {
    ItemNode(Item {
        id: Id(id),
        crate_id: 0,
        name: Some(name.to_string()),
        attrs: attrs.iter().map(|a| a.to_string()).collect(),
        inner,
    })
}

fn field(id: u32, name: &str, attrs: &[&str], type_: Type) -> ItemNode {
    item(id, name, attrs, ItemEnum::StructField(type_))
}

fn primitive(name: &str) -> Type {
    Type::Primitive(name.to_string())
}

fn vec_of_bytes() -> Type {
    Type::ResolvedPath(Path {
        name: "Vec".to_string(),
        id: Id(900),
        args: Some(GenericArgs::AngleBracketed { args: vec![GenericArg::Type(primitive("u8"))] }),
    })
}

fn named(name: &str, value: Format) -> Named<Format> {
    Named { name: name.to_string(), value }
}

fn tuple_struct(id: u32, name: &str, fields: Vec<Option<Id>>) -> ItemNode {
    item(id, name, &[], ItemEnum::Struct(StructKind::Tuple(fields)))
}

fn plain_struct(id: u32, name: &str, attrs: &[&str], fields: Vec<Id>) -> ItemNode {
    item(id, name, attrs, ItemEnum::Struct(StructKind::Plain { fields, has_stripped_fields: false }))
}

#[test]
fn tuple_struct_with_one_field_is_a_newtype() {
    let owner = tuple_struct(1, "Meters", vec![Some(Id(2))]);
    let only = field(2, "0", &[], primitive("i32"));
    let edges = vec![(&owner, &only)];
    assert_eq!(
        make_container(&edges, &owner),
        Some(ContainerFormat::NewTypeStruct(Box::new(Format::I32)))
    );
}

#[test]
fn tuple_struct_without_fields_is_a_unit() {
    let owner = tuple_struct(1, "Nothing", vec![]);
    let edges: Vec<(&ItemNode, &ItemNode)> = vec![];
    assert_eq!(make_container(&edges, &owner), Some(ContainerFormat::UnitStruct));
    assert_eq!(make_struct_tuple(&vec![]), ContainerFormat::UnitStruct);
    assert_eq!(make_struct_unit(), ContainerFormat::UnitStruct);
}

#[test]
fn plain_struct_without_visible_fields_is_a_unit() {
    let owner = plain_struct(1, "Hidden", &[], vec![Id(2), Id(3)]);
    let skipped = field(2, "a", &["#[serde(skip)]"], primitive("u8"));
    let private = field(3, "__private_field", &[], primitive("u8"));
    let edges = vec![(&owner, &skipped), (&owner, &private)];
    assert_eq!(make_container(&edges, &owner), Some(ContainerFormat::UnitStruct));
    assert_eq!(make_struct_plain(&vec![]), ContainerFormat::UnitStruct);
}

#[test]
fn tuple_struct_with_more_fields_stays_a_tuple() {
    let owner = tuple_struct(1, "Pair", vec![Some(Id(2)), Some(Id(3))]);
    let first = field(2, "0", &[], primitive("i32"));
    let second = field(3, "1", &[], primitive("bool"));
    let edges = vec![(&owner, &second), (&owner, &first)];
    assert_eq!(
        make_container(&edges, &owner),
        Some(ContainerFormat::TupleStruct(vec![Format::I32, Format::Bool]))
    );
}

#[test]
fn fields_are_put_in_the_order_of_their_indices() {
    let a = Indexed { index: 2, value: Format::Bool };
    let b = Indexed { index: 0, value: Format::U8 };
    let c = Indexed { index: 1, value: Format::Str };
    let gathered = vec![(&a,), (&b,), (&c,)];
    assert_eq!(
        make_struct_tuple(&gathered),
        ContainerFormat::TupleStruct(vec![Format::U8, Format::Str, Format::Bool])
    );
    let sorted: Vec<u32> = sort_by_index(&gathered).iter().map(|f| f.index).collect();
    assert_eq!(sorted, vec![0, 1, 2]);
    let single = vec![(&a,)];
    assert_eq!(make_struct_tuple(&single), ContainerFormat::NewTypeStruct(Box::new(Format::Bool)));
}

#[test]
fn equal_indices_keep_their_order() {
    let a = Indexed { index: 1, value: Format::Bool };
    let b = Indexed { index: 0, value: Format::U8 };
    let c = Indexed { index: 1, value: Format::Str };
    let d = Indexed { index: 0, value: Format::Char };
    assert_eq!(
        make_struct_tuple(&vec![(&a,), (&b,), (&c,), (&d,)]),
        ContainerFormat::TupleStruct(vec![Format::U8, Format::Char, Format::Bool, Format::Str])
    );
}

#[test]
fn named_fields_are_put_in_the_order_of_their_indices() {
    let a = Indexed { index: 1, value: named("b", Format::Bool) };
    let b = Indexed { index: 0, value: named("a", Format::U8) };
    assert_eq!(
        make_struct_plain(&vec![(&a,), (&b,)]),
        ContainerFormat::Struct(vec![named("a", Format::U8), named("b", Format::Bool)])
    );
    assert_eq!(
        make_struct_plain(&vec![(&a,)]),
        ContainerFormat::Struct(vec![named("b", Format::Bool)])
    );
}

#[test]
fn enums_map_indices_to_variants() {
    let a = Indexed { index: 1, value: Named { name: "B".to_string(), value: VariantFormat::Unit } };
    let b = Indexed {
        index: 0,
        value: Named { name: "A".to_string(), value: VariantFormat::NewType(Box::new(Format::U8)) },
    };
    let c = Indexed {
        index: 1,
        value: Named { name: "Late".to_string(), value: VariantFormat::Tuple(vec![]) },
    };
    let mut expected = BTreeMap::new();
    expected.insert(
        0,
        Named { name: "A".to_string(), value: VariantFormat::NewType(Box::new(Format::U8)) },
    );
    expected.insert(1, Named { name: "Late".to_string(), value: VariantFormat::Tuple(vec![]) });
    assert_eq!(make_enum(&vec![(&a,), (&b,), (&c,)]), ContainerFormat::Enum(expected));
    assert_eq!(make_enum(&vec![]), ContainerFormat::Enum(BTreeMap::new()));
}

#[test]
fn field_formats_follow_the_with_attribute() {
    let bytes = field(1, "body", &["#[serde(with = \"serde_bytes\")]"], vec_of_bytes());
    let plain = field(2, "body", &[], vec_of_bytes());
    let odd = field(3, "body", &["#[serde(with = \"base64\")]"], vec_of_bytes());
    let all = vec![&plain, &bytes, &odd];
    assert_eq!(make_format(&bytes, &all), Some(Indexed { index: 1, value: Format::Bytes }));
    assert_eq!(
        try_make_format(&bytes, &all),
        Ok(Some(Indexed { index: 1, value: Format::Bytes }))
    );
    assert_eq!(
        make_format(&plain, &all),
        Some(Indexed { index: 0, value: Format::Sequence(Box::new(Format::U8)) })
    );
    assert_eq!(
        try_make_format(&plain, &all),
        Ok(Some(Indexed { index: 0, value: Format::Sequence(Box::new(Format::U8)) }))
    );
    assert_eq!(try_make_format(&odd, &all), Err(FormatError::UnknownSerdeWith));
    assert_eq!(try_make_format(&odd, &vec![&plain]), Ok(None));
    assert_eq!(make_format(&odd, &vec![&plain]), None);
    let unsupported = field(4, "r", &[], Type::Other);
    assert_eq!(make_format(&unsupported, &vec![&unsupported]), None);
    assert_eq!(try_make_format(&unsupported, &vec![&unsupported]), Ok(None));
    let not_a_field = item(5, "S", &["#[serde(with = \"base64\")]"], ItemEnum::Module);
    assert_eq!(make_format(&not_a_field, &vec![&not_a_field]), None);
    assert_eq!(try_make_format(&not_a_field, &vec![&not_a_field]), Ok(None));
}

#[test]
fn format_field_tells_each_case_apart() {
    let inner = ItemEnum::StructField(primitive("u16"));
    assert_eq!(format_field(None, &inner), Some(Format::U16));
    assert_eq!(format_field(Some("serde_bytes"), &inner), Some(Format::Bytes));
    assert_eq!(format_field(Some("other"), &ItemEnum::Module), None);
    assert_eq!(format_field(None, &ItemEnum::StructField(Type::Other)), None);
    assert_eq!(try_format_field(None, &inner), Ok(Some(Format::U16)));
    assert_eq!(try_format_field(Some("serde_bytes"), &inner), Ok(Some(Format::Bytes)));
    assert_eq!(try_format_field(Some("other"), &inner), Err(FormatError::UnknownSerdeWith));
    assert_eq!(try_format_field(Some("other"), &ItemEnum::Module), Ok(None));
    assert_eq!(try_format_field(None, &ItemEnum::StructField(Type::Other)), Ok(None));
    assert!(with_is_known(None, &inner));
    assert!(with_is_known(Some("serde_bytes"), &inner));
    assert!(!with_is_known(Some("other"), &inner));
    assert!(with_is_known(Some("other"), &ItemEnum::Module));
}

#[test]
fn named_formats_take_the_rules_of_the_struct() {
    let owner = plain_struct(1, "S", &["#[serde(rename_all = \"camelCase\")]"], vec![Id(2), Id(3)]);
    let first = field(2, "first_name", &[], primitive("u8"));
    let second = field(3, "last_name", &["#[serde(rename = \"surname\")]"], primitive("bool"));
    let all = vec![&first, &second];
    assert_eq!(
        make_named_format(&first, &all, &owner),
        Some(Indexed { index: 0, value: named("firstName", Format::U8) })
    );
    assert_eq!(
        try_make_named_format(&first, &all, &owner),
        Ok(Some(Indexed { index: 0, value: named("firstName", Format::U8) }))
    );
    assert_eq!(
        make_named_format(&second, &all, &owner),
        Some(Indexed { index: 1, value: named("surname", Format::Bool) })
    );
    let nameless = ItemNode(Item {
        id: Id(4),
        crate_id: 0,
        name: None,
        attrs: vec!["#[serde(with = \"base64\")]".to_string()],
        inner: ItemEnum::StructField(primitive("u8")),
    });
    assert_eq!(make_named_format(&nameless, &vec![&nameless], &owner), None);
    assert_eq!(try_make_named_format(&nameless, &vec![&nameless], &owner), Ok(None));
    let odd = field(5, "body", &["#[serde(with = \"base64\")]"], vec_of_bytes());
    assert_eq!(
        try_make_named_format(&odd, &vec![&odd], &owner),
        Err(FormatError::UnknownSerdeWith)
    );
    assert_eq!(try_make_named_format(&odd, &vec![&first], &owner), Ok(None));
}

#[test]
fn kinds_of_variants() {
    let plain = item(1, "A", &[], ItemEnum::Variant(VariantKind::Plain));
    let tuple = item(2, "B", &[], ItemEnum::Variant(VariantKind::Tuple(vec![])));
    let structy = item(
        3,
        "C",
        &[],
        ItemEnum::Variant(VariantKind::Struct { fields: vec![], has_stripped_fields: false }),
    );
    let other = item(4, "D", &[], ItemEnum::Module);
    assert!(is_plain_variant(&plain) && !is_tuple_variant(&plain) && !is_struct_variant(&plain));
    assert!(!is_plain_variant(&tuple) && is_tuple_variant(&tuple) && !is_struct_variant(&tuple));
    assert!(!is_plain_variant(&structy) && !is_tuple_variant(&structy) && is_struct_variant(&structy));
    assert!(!is_plain_variant(&other) && !is_tuple_variant(&other) && !is_struct_variant(&other));
}

#[test]
fn variant_formats_collapse_by_the_number_of_fields() {
    let owner = item(
        1,
        "E",
        &["#[serde(rename_all = \"snake_case\")]"],
        ItemEnum::Enum { variants: vec![Id(2), Id(3)] },
    );
    let first = item(2, "FirstOne", &[], ItemEnum::Variant(VariantKind::Tuple(vec![])));
    let second = item(3, "SecondOne", &[], ItemEnum::Variant(VariantKind::Plain));
    let all = vec![&first, &second];
    let a = Indexed { index: 1, value: Format::Bool };
    let b = Indexed { index: 0, value: Format::U8 };
    assert_eq!(
        make_tuple_variant_format(&first, &vec![], &all, &owner),
        Some(Indexed {
            index: 0,
            value: Named { name: "first_one".to_string(), value: VariantFormat::Unit }
        })
    );
    assert_eq!(
        make_tuple_variant_format(&first, &vec![(&a,)], &all, &owner),
        Some(Indexed {
            index: 0,
            value: Named {
                name: "first_one".to_string(),
                value: VariantFormat::NewType(Box::new(Format::Bool))
            }
        })
    );
    assert_eq!(
        make_tuple_variant_format(&first, &vec![(&a,), (&b,)], &all, &owner),
        Some(Indexed {
            index: 0,
            value: Named {
                name: "first_one".to_string(),
                value: VariantFormat::Tuple(vec![Format::U8, Format::Bool])
            }
        })
    );
    assert_eq!(
        make_plain_variant_format(&second, &all, &owner),
        Some(Indexed {
            index: 1,
            value: Named { name: "second_one".to_string(), value: VariantFormat::Unit }
        })
    );
    let x = Indexed { index: 1, value: named("y", Format::Bool) };
    let y = Indexed { index: 0, value: named("x", Format::U8) };
    assert_eq!(
        make_struct_variant_format(&second, &vec![(&x,), (&y,)], &all, &owner),
        Some(Indexed {
            index: 1,
            value: Named {
                name: "second_one".to_string(),
                value: VariantFormat::Struct(vec![named("x", Format::U8), named("y", Format::Bool)])
            }
        })
    );
    let stranger = item(9, "Z", &[], ItemEnum::Variant(VariantKind::Plain));
    assert_eq!(make_plain_variant_format(&stranger, &all, &owner), None);
    let nameless = ItemNode(Item {
        id: Id(2),
        crate_id: 0,
        name: None,
        attrs: vec![],
        inner: ItemEnum::Variant(VariantKind::Plain),
    });
    assert_eq!(make_plain_variant_format(&nameless, &all, &owner), None);
    let not_a_variant = item(3, "S", &[], ItemEnum::Module);
    assert_eq!(make_plain_variant_format(&not_a_variant, &all, &owner), None);
}

#[test]
fn collect_gathers_references() {
    let values = vec![Indexed { index: 3, value: Format::U8 }, Indexed { index: 1, value: Format::Str }];
    let gathered = collect(&values);
    assert_eq!(gathered.len(), 2);
    assert_eq!(gathered[0].0.index, 3);
    assert_eq!(gathered[1].0.value, Format::Str);
    assert!(collect(&Vec::<u8>::new()).is_empty());
}

#[test]
fn the_format_pass_builds_the_registry() {
    let owner = plain_struct(
        1,
        "ViewModel",
        &["#[serde(rename_all = \"camelCase\")]", "#[serde(rename = \"Model\")]"],
        vec![Id(2), Id(3), Id(4), Id(5)],
    );
    let text = field(
        2,
        "display_text",
        &[],
        Type::ResolvedPath(Path { name: "String".to_string(), id: Id(901), args: None }),
    );
    let raw = field(3, "raw_body", &["#[serde(with = \"serde_bytes\")]"], vec_of_bytes());
    let secret = field(4, "secret", &["#[serde(skip)]"], primitive("bool"));
    let pointer = field(5, "pointer", &[], Type::Other);
    let an_enum = item(10, "Event", &[], ItemEnum::Enum { variants: vec![Id(11), Id(12), Id(13)] });
    let reset = item(11, "Reset", &[], ItemEnum::Variant(VariantKind::Plain));
    let set = item(12, "Set", &[], ItemEnum::Variant(VariantKind::Tuple(vec![Some(Id(14))])));
    let gone = item(13, "Gone", &["#[serde(skip)]"], ItemEnum::Variant(VariantKind::Plain));
    let amount = field(14, "0", &[], primitive("i32"));
    let unit = item(20, "Marker", &[], ItemEnum::Struct(StructKind::Unit));
    let edges = vec![
        (&owner, &raw),
        (&an_enum, &gone),
        (&owner, &text),
        (&set, &amount),
        (&an_enum, &set),
        (&owner, &secret),
        (&owner, &pointer),
        (&an_enum, &reset),
        (&unit, &amount),
        (&text, &owner),
    ];
    let registry = run(&edges).unwrap();
    let mut variants = BTreeMap::new();
    variants.insert(0, Named { name: "Reset".to_string(), value: VariantFormat::Unit });
    variants.insert(
        1,
        Named { name: "Set".to_string(), value: VariantFormat::NewType(Box::new(Format::I32)) },
    );
    assert_eq!(
        registry.get("Model"),
        Some(&ContainerFormat::Struct(vec![
            named("displayText", Format::Str),
            named("rawBody", Format::Bytes),
        ]))
    );
    assert_eq!(registry.get("Event"), Some(&ContainerFormat::Enum(variants)));
    assert_eq!(registry.get("Marker"), Some(&ContainerFormat::UnitStruct));
    assert_eq!(registry.get("ViewModel"), None);
    assert_eq!(registry.get("Set"), None);
    assert!(registry.contains("Model") && !registry.contains("display_text"));
    assert_eq!(registry.len(), 3);
    let again = run(&edges).unwrap();
    assert_eq!(registry, again);
}

#[test]
fn a_missing_field_leaves_a_gap_in_the_indices() {
    let an_enum = item(10, "E", &[], ItemEnum::Enum { variants: vec![Id(11), Id(12), Id(13)] });
    let a = item(11, "A", &[], ItemEnum::Variant(VariantKind::Plain));
    let nameless = ItemNode(Item {
        id: Id(12),
        crate_id: 0,
        name: None,
        attrs: vec![],
        inner: ItemEnum::Variant(VariantKind::Plain),
    });
    let c = item(13, "C", &[], ItemEnum::Variant(VariantKind::Plain));
    let edges = vec![(&an_enum, &a), (&an_enum, &nameless), (&an_enum, &c)];
    let mut variants = BTreeMap::new();
    variants.insert(0, Named { name: "A".to_string(), value: VariantFormat::Unit });
    variants.insert(2, Named { name: "C".to_string(), value: VariantFormat::Unit });
    assert_eq!(make_container(&edges, &an_enum), Some(ContainerFormat::Enum(variants)));
}

#[test]
fn aggregates_are_described_wherever_the_edges_mention_them() {
    let owner = plain_struct(1, "Owner", &[], vec![Id(2)]);
    let link = field(
        2,
        "marker",
        &[],
        Type::ResolvedPath(Path { name: "Marker".to_string(), id: Id(3), args: None }),
    );
    let marker = item(3, "Marker", &[], ItemEnum::Struct(StructKind::Unit));
    let empty = tuple_struct(4, "Empty", vec![]);
    let registry = run(&vec![(&owner, &link), (&link, &marker), (&link, &empty)]).unwrap();
    assert_eq!(
        registry.get("Owner"),
        Some(&ContainerFormat::Struct(vec![named("marker", Format::TypeName("Marker".to_string()))]))
    );
    assert_eq!(registry.get("Marker"), Some(&ContainerFormat::UnitStruct));
    assert_eq!(registry.get("Empty"), Some(&ContainerFormat::UnitStruct));
    assert_eq!(registry.get("marker"), None);
    assert_eq!(registry.len(), 3);
}

#[test]
fn aggregates_without_a_name_are_left_out() {
    let nameless = ItemNode(Item {
        id: Id(1),
        crate_id: 0,
        name: None,
        attrs: vec![],
        inner: ItemEnum::Struct(StructKind::Unit),
    });
    let empty_enum = item(2, "Never", &[], ItemEnum::Enum { variants: vec![Id(3)] });
    let gone = item(3, "Gone", &["#[serde(skip)]"], ItemEnum::Variant(VariantKind::Plain));
    let other = field(4, "f", &[], primitive("u8"));
    let edges = vec![(&nameless, &other), (&empty_enum, &gone)];
    let registry = run(&edges).unwrap();
    assert_eq!(registry.get("Never"), Some(&ContainerFormat::Enum(BTreeMap::new())));
    assert_eq!(registry.len(), 1);
    assert_eq!(make_container(&edges, &nameless), Some(ContainerFormat::UnitStruct));
    assert_eq!(make_container(&edges, &empty_enum), Some(ContainerFormat::Enum(BTreeMap::new())));
    assert_eq!(make_container(&edges, &other), None);
    assert_eq!(make_container(&edges, &gone), None);
}

#[test]
fn an_unknown_with_module_stops_the_pass() {
    let owner = plain_struct(1, "S", &[], vec![Id(2)]);
    let odd = field(2, "body", &["#[serde(with = \"base64\")]"], vec_of_bytes());
    assert_eq!(run(&vec![(&owner, &odd)]), Err(FormatError::UnknownSerdeWith));
    let stranger = plain_struct(3, "T", &[], vec![]);
    assert!(run(&vec![(&stranger, &odd)]).is_ok());
    let skipped = field(
        2,
        "body",
        &["#[serde(with = \"base64\")]", "#[serde(skip)]"],
        vec_of_bytes(),
    );
    assert!(run(&vec![(&owner, &skipped)]).is_ok());
}

#[test]
fn a_registry_lists_its_names_in_order() {
    let mut registry = Registry::new();
    for name in ["b", "a", "B", "ab", "", "é", "a", "aa"] {
        registry.insert(name.to_string(), ContainerFormat::UnitStruct);
    }
    let names: Vec<&str> = registry.entries().iter().map(|(name, _)| name.as_str()).collect();
    assert_eq!(names, vec!["", "B", "a", "aa", "ab", "b", "é"]);
    assert_eq!(registry.len(), 7);
    let mut sorted: Vec<String> = names.iter().map(|n| n.to_string()).collect();
    sorted.sort();
    assert_eq!(names, sorted);
}

#[test]
fn later_entries_of_a_registry_count() {
    let mut registry = Registry::new();
    assert_eq!(registry.get("A"), None);
    registry.insert("A".to_string(), ContainerFormat::UnitStruct);
    registry.insert("B".to_string(), ContainerFormat::TupleStruct(vec![]));
    registry.insert("A".to_string(), ContainerFormat::NewTypeStruct(Box::new(Format::U8)));
    assert_eq!(registry.get("A"), Some(&ContainerFormat::NewTypeStruct(Box::new(Format::U8))));
    assert_eq!(registry.get("B"), Some(&ContainerFormat::TupleStruct(vec![])));
    assert!(!registry.contains("C"));
}
