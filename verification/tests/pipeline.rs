use std::collections::BTreeMap;

use crux_cli::data::{Data, Node};
use crux_cli::format::{ContainerFormat, Format, Named, VariantFormat};
use crux_cli::formatter::FormatError;
use crux_cli::logic::{item_edges, registry};
use crux_cli::model::{
    GenericArg, GenericArgs, Id, Impl, Item, ItemEnum, ItemSummary, Path, StructKind, Type,
    VariantKind,
};
use crux_cli::node::{ItemNode, SummaryNode};
use crux_cli::parser::{analyze, extract_edges, parse, reachable_pairs, Edge, EdgeFact};
use crux_cli::reach::{are_in_same_module, derive_relations, mark_reached};
use crux_cli::time::TimeResponse;

fn node(id: u32, name: &str, attrs: &[&str], inner: ItemEnum, path: Option<&[&str]>) -> Node {
    Node {
        id: Id(id),
        item: Some(ItemNode(Item {
            id: Id(id),
            crate_id: 0,
            name: Some(name.to_string()),
            attrs: attrs.iter().map(|a| a.to_string()).collect(),
            inner,
        })),
        summary: path.map(|p| summary(id, p)),
    }
}

fn summary(id: u32, path: &[&str]) -> SummaryNode {
    SummaryNode {
        id: Id(id),
        summary: ItemSummary { crate_id: 0, path: path.iter().map(|s| s.to_string()).collect() },
    }
}

fn foreign(id: u32, path: &[&str]) -> Node {
    Node { id: Id(id), item: None, summary: Some(summary(id, path)) }
}

fn path(name: &str, id: u32) -> Path {
    Path { name: name.to_string(), id: Id(id), args: None }
}

fn generic(name: &str, id: u32, args: Vec<Type>) -> Type {
    Type::ResolvedPath(Path {
        name: name.to_string(),
        id: Id(id),
        args: Some(GenericArgs::AngleBracketed {
            args: args.into_iter().map(GenericArg::Type).collect(),
        }),
    })
}

fn resolved(name: &str, id: u32) -> Type {
    Type::ResolvedPath(path(name, id))
}

fn primitive(name: &str) -> Type {
    Type::Primitive(name.to_string())
}

fn implementation(id: u32, trait_: &str, trait_id: u32, for_: &str, for_id: u32, items: &[u32]) -> Node {
    node(
        id,
        "impl",
        &[],
        ItemEnum::Impl(Impl {
            trait_: Some(path(trait_, trait_id)),
            for_: resolved(for_, for_id),
            items: items.iter().map(|i| Id(*i)).collect(),
        }),
        None,
    )
}

fn assoc_type(id: u32, name: &str, target: &str, target_id: u32) -> Node {
    node(id, name, &[], ItemEnum::AssocType { type_: Some(resolved(target, target_id)) }, None)
}

fn plain_struct(id: u32, name: &str, attrs: &[&str], fields: &[u32], path: &[&str]) -> Node {
    node(
        id,
        name,
        attrs,
        ItemEnum::Struct(StructKind::Plain {
            fields: fields.iter().map(|f| Id(*f)).collect(),
            has_stripped_fields: false,
        }),
        Some(path),
    )
}

fn field(id: u32, name: &str, attrs: &[&str], type_: Type) -> Node {
    node(id, name, attrs, ItemEnum::StructField(type_), None)
}

/// A counter app with an event, a view model and an effect, and a child app
/// that is a field of the counter.
fn counter() -> Data {
    Data::new(vec![
        foreign(0, &["crux_core", "App"]),
        foreign(1, &["crux_core", "Effect"]),
        foreign(2, &["core", "option", "Option"]),
        foreign(3, &["alloc", "string", "String"]),
        foreign(4, &["alloc", "vec", "Vec"]),
        plain_struct(10, "Counter", &[], &[11], &["counter", "app", "Counter"]),
        field(11, "child", &[], resolved("Child", 40)),
        implementation(12, "App", 0, "Counter", 10, &[13, 14, 15, 16]),
        assoc_type(13, "Event", "Event", 20),
        assoc_type(14, "ViewModel", "ViewModel", 30),
        assoc_type(15, "Model", "Model", 60),
        node(16, "update", &[], ItemEnum::AssocItem, None),
        node(
            20,
            "Event",
            &[],
            ItemEnum::Enum { variants: vec![Id(21), Id(22), Id(23), Id(24)] },
            Some(&["counter", "app", "Event"]),
        ),
        node(21, "Reset", &[], ItemEnum::Variant(VariantKind::Plain), None),
        node(22, "Set", &[], ItemEnum::Variant(VariantKind::Tuple(vec![Some(Id(25))])), None),
        node(
            23,
            "Update",
            &["#[serde(rename = \"Change\")]"],
            ItemEnum::Variant(VariantKind::Struct {
                fields: vec![Id(26), Id(27)],
                has_stripped_fields: false,
            }),
            None,
        ),
        node(24, "Internal", &["#[serde(skip)]"], ItemEnum::Variant(VariantKind::Plain), None),
        field(25, "0", &[], primitive("i32")),
        field(26, "by", &[], primitive("u8")),
        field(27, "note", &[], generic("Option", 2, vec![generic("String", 3, vec![])])),
        plain_struct(
            30,
            "ViewModel",
            &["#[serde(rename_all = \"camelCase\")]"],
            &[31, 32, 33, 34],
            &["counter", "app", "ViewModel"],
        ),
        field(31, "display_text", &[], resolved("String", 3)),
        field(32, "raw_body", &["#[serde(with = \"serde_bytes\")]"], generic("Vec", 4, vec![primitive("u8")])),
        field(33, "secret", &["#[serde(skip)]"], primitive("bool")),
        field(34, "history", &[], generic("Vec", 4, vec![resolved("Entry", 50)])),
        node(
            50,
            "Entry",
            &[],
            ItemEnum::Struct(StructKind::Tuple(vec![Some(Id(51))])),
            Some(&["counter", "app", "Entry"]),
        ),
        field(51, "0", &[], primitive("u64")),
        plain_struct(60, "Model", &[], &[61], &["counter", "app", "Model"]),
        field(61, "count", &[], primitive("i64")),
        node(
            70,
            "Effect",
            &[],
            ItemEnum::Enum { variants: vec![Id(71)] },
            Some(&["counter", "app", "Effect"]),
        ),
        node(71, "Render", &[], ItemEnum::Variant(VariantKind::Tuple(vec![Some(Id(72))])), None),
        field(72, "0", &[], resolved("RenderOperation", 73)),
        node(
            73,
            "RenderOperation",
            &[],
            ItemEnum::Struct(StructKind::Unit),
            Some(&["crux_core", "render", "RenderOperation"]),
        ),
        implementation(74, "crux_core::Effect", 1, "Effect", 70, &[75]),
        assoc_type(75, "Ffi", "EffectFfi", 76),
        node(
            76,
            "EffectFfi",
            &[],
            ItemEnum::Enum { variants: vec![Id(77)] },
            Some(&["counter", "app", "EffectFfi"]),
        ),
        node(77, "Render", &[], ItemEnum::Variant(VariantKind::Plain), None),
        plain_struct(40, "Child", &[], &[], &["counter", "child", "Child"]),
        implementation(41, "App", 0, "Child", 40, &[42]),
        assoc_type(42, "Event", "ChildEvent", 43),
        node(
            43,
            "ChildEvent",
            &[],
            ItemEnum::Enum { variants: vec![Id(44)] },
            Some(&["counter", "child", "ChildEvent"]),
        ),
        node(44, "Tick", &[], ItemEnum::Variant(VariantKind::Plain), None),
        node(
            80,
            "Effect",
            &["#[serde(rename = \"ChildEffect\")]"],
            ItemEnum::Enum { variants: vec![Id(81)] },
            Some(&["counter", "child", "Effect"]),
        ),
        node(81, "Render", &[], ItemEnum::Variant(VariantKind::Plain), None),
        implementation(82, "Effect", 1, "Effect", 80, &[]),
        node(90, "Unrelated", &[], ItemEnum::Struct(StructKind::Unit), Some(&["counter", "app", "Unrelated"])),
    ])
}

fn place(data: &Data, id: u32) -> usize {
    data.index_of(Id(id)).unwrap()
}

fn has_edge(data: &Data, edges: &[EdgeFact], source: u32, target: u32, label: Edge) -> bool {
    edges.contains(&EdgeFact { source: place(data, source), target: place(data, target), label })
}

#[test]
fn edges_follow_the_kinds_of_items() {
    let data = counter();
    let edges = extract_edges(&data);
    assert!(has_edge(&data, &edges, 10, 11, Edge::Field));
    assert!(has_edge(&data, &edges, 11, 40, Edge::Type));
    assert!(has_edge(&data, &edges, 12, 0, Edge::TraitApp));
    assert!(has_edge(&data, &edges, 12, 10, Edge::Type));
    assert!(has_edge(&data, &edges, 12, 13, Edge::AssociatedItem));
    assert!(has_edge(&data, &edges, 12, 14, Edge::AssociatedItem));
    assert!(!has_edge(&data, &edges, 12, 15, Edge::AssociatedItem));
    assert!(!has_edge(&data, &edges, 12, 16, Edge::AssociatedItem));
    assert!(has_edge(&data, &edges, 13, 20, Edge::AssociatedType));
    assert!(has_edge(&data, &edges, 14, 30, Edge::AssociatedType));
    assert!(!has_edge(&data, &edges, 15, 60, Edge::AssociatedType));
    assert!(has_edge(&data, &edges, 75, 76, Edge::AssociatedType));
    assert!(has_edge(&data, &edges, 20, 21, Edge::Variant));
    assert!(!has_edge(&data, &edges, 20, 24, Edge::Variant));
    assert!(has_edge(&data, &edges, 22, 25, Edge::Field));
    assert!(has_edge(&data, &edges, 23, 27, Edge::Field));
    assert!(has_edge(&data, &edges, 27, 2, Edge::Type));
    assert!(has_edge(&data, &edges, 27, 3, Edge::Type));
    assert!(has_edge(&data, &edges, 34, 4, Edge::Type));
    assert!(has_edge(&data, &edges, 34, 50, Edge::Type));
    assert!(has_edge(&data, &edges, 74, 1, Edge::TraitEffect));
    assert!(has_edge(&data, &edges, 74, 70, Edge::Type));
    assert!(!has_edge(&data, &edges, 30, 33, Edge::Field));
    assert!(edges.iter().all(|e| e.target != place(&data, 33)));
    assert!(edges.iter().all(|e| e.target != place(&data, 24)));
    assert!(edges.iter().all(|e| e.source != place(&data, 33)));
    assert!(edges.iter().all(|e| e.source != place(&data, 24)));
    assert!(edges.iter().all(|e| e.source != place(&data, 25)));
    assert!(edges.iter().all(|e| e.source != place(&data, 0)));
    assert_eq!(edges.iter().filter(|e| e.source == place(&data, 27)).count(), 2);
}

#[test]
fn relations_follow_the_rules() {
    let data = counter();
    let edges = extract_edges(&data);
    let relations = derive_relations(&data.nodes, &edges);
    let marked = |flags: &Vec<bool>| -> Vec<u32> {
        let mut ids: Vec<u32> =
            (0..flags.len()).filter(|i| flags[*i]).map(|i| data.nodes[i].id.0).collect();
        ids.sort();
        ids
    };
    assert_eq!(marked(&relations.apps), vec![10, 40]);
    assert_eq!(marked(&relations.effects), vec![70, 80]);
    assert_eq!(marked(&relations.children), vec![40]);
    assert_eq!(marked(&relations.roots), vec![20, 30, 70]);
    let ids = |pairs: &Vec<(usize, usize)>| -> Vec<(u32, u32)> {
        pairs.iter().map(|(a, b)| (data.nodes[*a].id.0, data.nodes[*b].id.0)).collect()
    };
    assert_eq!(ids(&relations.parents), vec![(10, 40)]);
    assert_eq!(ids(&relations.effects_of_apps), vec![(10, 70), (40, 80)]);
    let reached = mark_reached(&edges, data.nodes.len(), &relations.roots);
    assert_eq!(
        marked(&reached),
        vec![2, 3, 4, 21, 22, 23, 25, 26, 27, 31, 32, 34, 50, 51, 71, 72, 73]
    );
}

#[test]
fn the_analysis_holds_every_relation() {
    let data = counter();
    let analysis = analyze(&data);
    assert_eq!(analysis.edges, extract_edges(&data));
    assert_eq!(analysis.relations, derive_relations(&data.nodes, &analysis.edges));
    assert_eq!(
        analysis.reached,
        mark_reached(&analysis.edges, data.nodes.len(), &analysis.relations.roots)
    );
    assert_eq!(analysis.output, reachable_pairs(&data));
    assert_eq!(analysis.output.len(), parse(&data).len());
}

#[test]
fn same_module_wants_both_summaries() {
    let data = counter();
    let app = &data.nodes[place(&data, 10)];
    let effect = &data.nodes[place(&data, 70)];
    let child_effect = &data.nodes[place(&data, 80)];
    let no_summary = &data.nodes[place(&data, 11)];
    assert!(are_in_same_module(app, effect));
    assert!(!are_in_same_module(app, child_effect));
    assert!(!are_in_same_module(app, no_summary));
    assert!(!are_in_same_module(no_summary, no_summary));
}

#[test]
fn the_event_of_a_top_app_is_a_root_and_its_members_are_output() {
    let data = counter();
    let pairs = parse(&data);
    let has = |parent: u32, child: u32| -> bool {
        pairs.iter().any(|(p, c)| p.id == Id(parent) && c.id == Id(child))
    };
    assert!(has(20, 21) && has(20, 22) && has(20, 23));
    assert!(!has(20, 24));
    assert!(has(22, 25) && has(23, 26) && has(23, 27));
    assert!(has(27, 2) && has(27, 3));
    assert!(has(30, 31) && has(30, 32) && has(30, 34));
    assert!(!has(30, 33));
    assert!(pairs.iter().all(|(p, c)| {
        p.item.as_ref().map_or(true, |i| !i.is_left_out())
            && c.item.as_ref().map_or(true, |i| !i.is_left_out())
    }));
    assert!(has(34, 50) && has(50, 51));
    assert!(has(70, 71) && has(71, 72) && has(72, 73));
    assert!(!has(43, 44));
    assert!(!has(80, 81));
    assert!(!has(60, 61));
    assert!(!has(10, 11));
    assert!(!has(76, 77));
    assert!(!has(12, 13));
    let places = reachable_pairs(&data);
    assert_eq!(places.len(), pairs.len());
    for (k, (parent, child)) in places.iter().enumerate() {
        assert_eq!(data.nodes[*parent].id, pairs[k].0.id);
        assert_eq!(data.nodes[*child].id, pairs[k].1.id);
    }
    let mut seen = places.clone();
    seen.sort();
    seen.dedup();
    assert_eq!(seen.len(), places.len());
    let edges = item_edges(&pairs);
    assert_eq!(pairs.iter().filter(|(_, c)| c.item.is_none()).count(), 5);
    assert_eq!(edges.len(), pairs.len() - 5);
}

#[test]
fn the_registry_of_the_counter() {
    let data = counter();
    let registry = registry(&data).unwrap();
    let mut event = BTreeMap::new();
    event.insert(0, Named { name: "Reset".to_string(), value: VariantFormat::Unit });
    event.insert(
        1,
        Named { name: "Set".to_string(), value: VariantFormat::NewType(Box::new(Format::I32)) },
    );
    event.insert(
        2,
        Named {
            name: "Change".to_string(),
            value: VariantFormat::Struct(vec![
                Named { name: "by".to_string(), value: Format::U8 },
                Named { name: "note".to_string(), value: Format::Option(Box::new(Format::Str)) },
            ]),
        },
    );
    assert_eq!(registry.get("Event"), Some(&ContainerFormat::Enum(event)));
    assert_eq!(
        registry.get("ViewModel"),
        Some(&ContainerFormat::Struct(vec![
            Named { name: "displayText".to_string(), value: Format::Str },
            Named { name: "rawBody".to_string(), value: Format::Bytes },
            Named {
                name: "history".to_string(),
                value: Format::Sequence(Box::new(Format::TypeName("Entry".to_string())))
            },
        ]))
    );
    assert_eq!(
        registry.get("Entry"),
        Some(&ContainerFormat::NewTypeStruct(Box::new(Format::U64)))
    );
    let mut effect = BTreeMap::new();
    effect.insert(
        0,
        Named {
            name: "Render".to_string(),
            value: VariantFormat::NewType(Box::new(Format::TypeName("RenderOperation".to_string()))),
        },
    );
    assert_eq!(registry.get("Effect"), Some(&ContainerFormat::Enum(effect)));
    assert_eq!(registry.get("Counter"), None);
    assert_eq!(registry.get("Model"), None);
    assert_eq!(registry.get("ChildEvent"), None);
    assert_eq!(registry.get("ChildEffect"), None);
    assert_eq!(registry.get("EffectFfi"), None);
    assert_eq!(registry.get("RenderOperation"), Some(&ContainerFormat::UnitStruct));
    assert_eq!(registry.get("Unrelated"), None);
    assert_eq!(registry.len(), 5);
    let names: Vec<&str> = registry.entries().iter().map(|(name, _)| name.as_str()).collect();
    assert_eq!(names, vec!["Effect", "Entry", "Event", "RenderOperation", "ViewModel"]);
}

#[test]
fn the_passes_give_the_same_registry_again() {
    let data = counter();
    assert_eq!(registry(&data), registry(&data));
    let mut nodes = counter().nodes;
    nodes.reverse();
    let reversed = Data::new(nodes);
    let first = registry(&data).unwrap();
    let second = registry(&reversed).unwrap();
    for name in ["Event", "ViewModel", "Entry", "Effect", "Counter"] {
        assert_eq!(first.get(name), second.get(name));
    }
    assert_eq!(first.len(), second.len());
}

#[test]
fn an_unknown_with_module_fails_the_passes() {
    let mut nodes = counter().nodes;
    nodes.retain(|n| n.id != Id(32));
    nodes.push(field(
        32,
        "raw_body",
        &["#[serde(with = \"base64\")]"],
        generic("Vec", 4, vec![primitive("u8")]),
    ));
    assert_eq!(registry(&Data::new(nodes)), Err(FormatError::UnknownSerdeWith));
}

#[test]
fn a_root_without_members_is_described() {
    let data = Data::new(vec![
        foreign(0, &["crux_core", "App"]),
        node(1, "Tiny", &[], ItemEnum::Struct(StructKind::Unit), Some(&["tiny", "Tiny"])),
        implementation(2, "App", 0, "Tiny", 1, &[3, 4]),
        assoc_type(3, "Event", "Nothing", 5),
        assoc_type(4, "ViewModel", "View", 6),
        node(5, "Nothing", &[], ItemEnum::Enum { variants: vec![] }, Some(&["tiny", "Nothing"])),
        node(
            6,
            "View",
            &["#[serde(rename = \"Screen\")]"],
            ItemEnum::Struct(StructKind::Unit),
            Some(&["tiny", "View"]),
        ),
    ]);
    assert!(parse(&data).is_empty());
    let registry = registry(&data).unwrap();
    assert_eq!(registry.get("Nothing"), Some(&ContainerFormat::Enum(BTreeMap::new())));
    assert_eq!(registry.get("Screen"), Some(&ContainerFormat::UnitStruct));
    assert_eq!(registry.get("Tiny"), None);
    assert_eq!(registry.len(), 2);
}

#[test]
fn an_empty_index_gives_an_empty_registry() {
    let data = Data::new(vec![]);
    assert!(extract_edges(&data).is_empty());
    assert!(parse(&data).is_empty());
    assert!(registry(&data).unwrap().entries().is_empty());
}

#[test]
fn nodes_are_found_by_identifier() {
    let data = counter();
    assert_eq!(data.node_by_id(&Id(20)).map(|n| n.id), Some(Id(20)));
    assert!(data.node_by_id(&Id(0)).unwrap().item.is_none());
    assert!(data.node_by_id(&Id(999)).is_none());
    assert_eq!(data.index_of(Id(0)), Some(0));
    assert_eq!(data.index_of(Id(999)), None);
    let twice = Data::new(vec![foreign(7, &["a"]), foreign(7, &["b"])]);
    assert_eq!(twice.index_of(Id(7)), Some(0));
}

#[test]
fn the_time_response_holds_its_text() {
    let response = TimeResponse::new("2024-01-01T00:00:00Z".to_string());
    assert_eq!(response.as_str(), "2024-01-01T00:00:00Z");
    assert!(response == TimeResponse("2024-01-01T00:00:00Z".to_string()));
    assert!(response != TimeResponse("later".to_string()));
}

#[test]
fn nodes_are_equal_where_their_identifiers_are() {
    assert!(foreign(1, &["a"]) == foreign(1, &["b", "c"]));
    assert!(foreign(1, &["a"]) != foreign(2, &["a"]));
    assert!(foreign(1, &["a"]) == field(1, "f", &[], primitive("u8")));
}

#[test]
fn skipped_and_hidden_items_give_no_edges() {
    let data = Data::new(vec![
        foreign(0, &["crux_core", "App"]),
        node(1, "Tiny", &[], ItemEnum::Struct(StructKind::Unit), Some(&["tiny", "Tiny"])),
        implementation(2, "App", 0, "Tiny", 1, &[3, 4]),
        assoc_type(3, "Event", "Event", 5),
        assoc_type(4, "ViewModel", "View", 6),
        node(
            5,
            "Event",
            &[],
            ItemEnum::Enum { variants: vec![Id(10), Id(11)] },
            Some(&["tiny", "Event"]),
        ),
        plain_struct(6, "View", &[], &[12, 13, 14, 15], &["tiny", "View"]),
        node(10, "Shown", &[], ItemEnum::Variant(VariantKind::Tuple(vec![Some(Id(16))])), None),
        node(
            11,
            "Gone",
            &["#[serde ( skip ) ]"],
            ItemEnum::Variant(VariantKind::Tuple(vec![Some(Id(17))])),
            None,
        ),
        field(12, "text", &[], resolved("String", 20)),
        field(13, "__private_field", &[], resolved("Secret", 21)),
        field(14, "other", &["#[serde(rename = \"__private_field\")]"], primitive("u8")),
        field(15, "cache", &["#[serde(skip)]"], resolved("Secret", 21)),
        field(16, "0", &[], resolved("Hidden", 22)),
        field(17, "0", &[], resolved("Secret", 21)),
        foreign(20, &["alloc", "string", "String"]),
        node(
            21,
            "Secret",
            &[],
            ItemEnum::Struct(StructKind::Unit),
            Some(&["tiny", "Secret"]),
        ),
        node(
            22,
            "Hidden",
            &["#[serde(skip)]"],
            ItemEnum::Struct(StructKind::Unit),
            Some(&["tiny", "Hidden"]),
        ),
    ]);
    let edges = extract_edges(&data);
    for id in [11, 13, 14, 15, 22] {
        assert!(edges.iter().all(|e| e.source != place(&data, id)));
        assert!(edges.iter().all(|e| e.target != place(&data, id)));
    }
    let pairs: Vec<(u32, u32)> = parse(&data).iter().map(|(p, c)| (p.id.0, c.id.0)).collect();
    assert_eq!(pairs, vec![(5, 10), (6, 12), (10, 16), (12, 20)]);
    let registry = registry(&data).unwrap();
    let mut event = BTreeMap::new();
    event.insert(
        0,
        Named {
            name: "Shown".to_string(),
            value: VariantFormat::NewType(Box::new(Format::TypeName("Hidden".to_string()))),
        },
    );
    assert_eq!(registry.get("Event"), Some(&ContainerFormat::Enum(event)));
    assert_eq!(
        registry.get("View"),
        Some(&ContainerFormat::Struct(vec![Named { name: "text".to_string(), value: Format::Str }]))
    );
    assert_eq!(registry.get("Secret"), None);
    assert_eq!(registry.get("Hidden"), None);
    assert_eq!(registry.len(), 2);
}

#[test]
fn a_later_node_of_the_same_identifier_gives_no_edges() {
    let data = Data::new(vec![
        plain_struct(1, "First", &[], &[2], &["a", "First"]),
        field(2, "x", &[], primitive("u8")),
        plain_struct(1, "Second", &[], &[3], &["a", "Second"]),
        field(3, "y", &[], primitive("u8")),
    ]);
    let edges = extract_edges(&data);
    assert_eq!(edges, vec![EdgeFact { source: 0, target: 1, label: Edge::Field }]);
}
