use rvt_native::category_selection::{
    category_id, definition_owner_category_id, prepare_category_selection,
    root_category_id_with_definitions, CategorySource, RawFieldFact, RootObjectFacts, RootRecord,
    RoomSpaceKind, SelectedRecord, SelectionError,
};
use rvt_native::delivery::{geometry_estimate, key, renderable, DeliveryProfile, PrimitiveShape};
use rvt_native::document::{build_definition_context, DefinitionOwnerCategoryCandidate, DefinitionOwnerRecord};
use rvt_native::object_graph::{GraphObject, ObjectGraph};
use rvt_native::parameter_definitions::Registry;
use rvt_native::value_grammar::Token;
use rvt_native::physical_index::PhysicalIndex;
use std::collections::BTreeSet;

fn root(element_id: u64, class_name: &str) -> RootRecord {
    RootRecord {
        element_id,
        class_name: Some(class_name.into()),
        graph_decoded: true,
        metadata_diagnostic: false,
        metadata_fields: vec![],
        metadata: None,
        root: Some(RootObjectFacts {
            class_name: class_name.into(),
            category_id: None,
            family_id: None,
            master_symbol_id: None,
            room_space: None,
        }),
    }
}

fn registry() -> Registry {
    let mut registry = Registry::new();
    registry.symbol_families.insert(20, 10);
    registry.family_categories.insert(10, -2_001_120);
    registry
}

fn with_root(mut record: RootRecord, edit: impl FnOnce(&mut RootObjectFacts)) -> RootRecord {
    edit(record.root.as_mut().unwrap());
    record
}

#[test]
fn root_category_selection_uses_document_family_registry() {
    let registry = registry();
    let instance = with_root(root(1, "FamilyInstance"), |r| r.master_symbol_id = Some(20));
    let symbol = with_root(root(2, "FamilySymbol"), |r| r.family_id = Some(10));
    let system_mullion_symbol = with_root(root(5, "SysMullionFamSym"), |r| r.family_id = Some(10));
    let system_panel_symbol = with_root(root(6, "SysPanelFamSym"), |r| r.family_id = Some(10));
    let direct = with_root(root(3, "FamilyInstance"), |r| r.category_id = Some(-2_001_140));
    let pipe = root(4, "RbsPipeCurve");
    // {"m_zoneSchemeId":{"m_id":-1},"m_areaSchemeId":{"m_id":-1}}
    let room = with_root(root(7, "RoomElem"), |r| r.room_space = Some(RoomSpaceKind::Room));
    // {"m_zoneSchemeId":{"m_id":700},"m_areaSchemeId":{"m_id":-1}}
    let space = with_root(root(8, "RoomElem"), |r| r.room_space = Some(RoomSpaceKind::MepSpace));
    // {"m_zoneSchemeId":{"m_id":-1},"m_areaSchemeId":{"m_id":701}}
    let area = with_root(root(9, "RoomElem"), |r| r.room_space = Some(RoomSpaceKind::Area));
    let chain = Some((-2_001_120, CategorySource::SymbolFamilyCategoryChain));
    assert_eq!(root_category_id_with_definitions(&instance, &registry).unwrap(), chain);
    assert_eq!(root_category_id_with_definitions(&symbol, &registry).unwrap(), chain);
    assert_eq!(root_category_id_with_definitions(&system_mullion_symbol, &registry).unwrap(), chain);
    assert_eq!(root_category_id_with_definitions(&system_panel_symbol, &registry).unwrap(), chain);
    assert_eq!(
        root_category_id_with_definitions(&direct, &registry).unwrap(),
        Some((-2_001_140, CategorySource::DirectRootCategory))
    );
    assert_eq!(
        root_category_id_with_definitions(&pipe, &registry).unwrap(),
        Some((-2_008_044, CategorySource::CheckedOwnerClassCategory))
    );
    assert_eq!(
        root_category_id_with_definitions(&room, &registry).unwrap(),
        Some((-2_000_160, CategorySource::CheckedRoomSpaceSchemeCategory))
    );
    assert_eq!(
        root_category_id_with_definitions(&space, &registry).unwrap(),
        Some((-2_003_600, CategorySource::CheckedRoomSpaceSchemeCategory))
    );
    assert_eq!(root_category_id_with_definitions(&area, &registry).unwrap(), None);
    let definition_type = DefinitionOwnerCategoryCandidate {
        class_name: "RbsPipingSystemType".into(),
        direct_category_id: None,
        family_id: None,
    };
    assert_eq!(
        definition_owner_category_id(&definition_type, &registry).unwrap(),
        Some((-2_008_043, CategorySource::DefinitionContextOwnerClassCategory))
    );
    assert_eq!(CategorySource::SymbolFamilyCategoryChain.name(), "symbol_family_category_chain");
    assert_eq!(CategorySource::DefinitionContextOwnerClassCategory.name(), "definition_context_owner_class_category");
}

#[test]
fn root_category_selection_rejects_conflicting_direct_and_inherited_values() {
    let registry = registry();
    let record = with_root(root(1, "FamilyInstance"), |r| {
        r.master_symbol_id = Some(20);
        r.category_id = Some(-2_001_140);
    });
    assert!(root_category_id_with_definitions(&record, &registry).is_err());
}

fn category_field(value: i64) -> RawFieldFact {
    RawFieldFact {
        source_field: "m_categoryId".into(),
        storage_type: "ElementId".into(),
        raw_value: Some(value),
    }
}

#[test]
fn promotes_one_stated_builtin_category_without_guessing_a_name() {
    assert_eq!(category_id(&[category_field(-2008016)], None), Ok(Some(-2008016)));
}

#[test]
fn saved_category_values_must_agree() {
    let other = RawFieldFact {
        source_field: "m_categoryId".into(),
        storage_type: "Integer".into(),
        raw_value: Some(5),
    };
    assert_eq!(category_id(&[other.clone()], None), Ok(None));
    assert_eq!(category_id(&[], None), Ok(None));
    assert_eq!(category_id(&[category_field(-1), category_field(-1)], Some(-1)), Ok(Some(-1)));
    assert_eq!(
        category_id(&[category_field(-1), other], Some(-2)),
        Err(SelectionError::ConflictingSavedCategory)
    );
    assert_eq!(
        category_id(&[category_field(-1), category_field(-2)], None),
        Err(SelectionError::ConflictingSavedCategory)
    );
}

#[test]
fn definition_owner_facts_must_agree() {
    let registry = registry();
    let conflicting = DefinitionOwnerCategoryCandidate {
        class_name: "FamilySymbol".into(),
        direct_category_id: Some(-1),
        family_id: Some(10),
    };
    assert!(matches!(
        definition_owner_category_id(&conflicting, &registry),
        Err(SelectionError::ConflictingDefinitionOwnerFacts { .. })
    ));
    let family = DefinitionOwnerCategoryCandidate {
        class_name: "FamilySymbol".into(),
        direct_category_id: None,
        family_id: Some(10),
    };
    assert_eq!(
        definition_owner_category_id(&family, &registry).unwrap(),
        Some((-2_001_120, CategorySource::DefinitionContextFamilyCategory))
    );
}

fn saved_id(v: i64) -> Token {
    if v < 0 {
        Token::Int(v)
    } else {
        Token::UInt(v as u64)
    }
}

fn definition_owner(element_id: u64, class_name: &str, id: i64, family_id: Option<i64>, category_id: Option<i64>) -> DefinitionOwnerRecord {
    let mut fields = vec![Token::BeginObject, Token::Key("m_id".into()), saved_id(id)];
    if let Some(f) = family_id {
        fields.extend([Token::Key("m_familyId".into()), saved_id(f)]);
    }
    if let Some(c) = category_id {
        fields.extend([Token::Key("m_categoryId".into()), saved_id(c)]);
    }
    fields.push(Token::EndObject);
    DefinitionOwnerRecord {
        element_id,
        diagnostic: None,
        graph: Some(ObjectGraph {
            consumed_bytes: 10,
            objects: vec![GraphObject {
                class_tag: 10,
                class_name: class_name.into(),
                token: 0,
                start: 2,
                fields_end: 10,
                fields,
            }],
            edges: vec![],
        }),
    }
}

fn index_of(ids: &[u64]) -> PhysicalIndex {
    let mut index = PhysicalIndex::new();
    for id in ids {
        index.insert_group_offset("Partitions/0", 102, *id, 0);
    }
    index
}

#[test]
fn category_selection_selects_exactly_the_requested_owners() {
    let context = build_definition_context(
        "schema".into(),
        &[
            definition_owner(10, "Family", 10, None, Some(-2_001_120)),
            definition_owner(20, "FamilySymbol", 20, Some(10), None),
        ],
        None,
        None,
    )
    .unwrap();
    let index = index_of(&[1, 2, 3, 4, 10, 20]);
    let roots = vec![
        with_root(root(1, "FamilyInstance"), |r| r.master_symbol_id = Some(20)),
        root(2, "RbsPipeCurve"),
        RootRecord { graph_decoded: false, root: None, class_name: None, ..root(3, "x") },
        RootRecord { metadata_diagnostic: true, ..root(4, "UnknownOwner") },
    ];
    let prepared = prepare_category_selection(
        &index,
        &context,
        roots,
        BTreeSet::from([-2_001_120, -2_000_011]),
    )
    .unwrap();
    // The family owner states its own category, so it is selected too.
    assert_eq!(prepared.selected_ids(), BTreeSet::from([1, 10, 20]));
    // One record per selected owner: the root record, then the definition
    // owners in context order.
    let ids: Vec<u64> = prepared
        .records()
        .iter()
        .map(|r| match r {
            SelectedRecord::Root(rec) => rec.element_id,
            SelectedRecord::DefinitionOwner(id, _) => *id,
        })
        .collect();
    assert_eq!(ids, vec![1, 10, 20]);
    match &prepared.records()[0] {
        SelectedRecord::Root(rec) => assert_eq!(rec.class_name.as_deref(), Some("FamilyInstance")),
        _ => panic!("root record expected first"),
    }
    let receipt = &prepared.receipt;
    assert_eq!(receipt.current_records, 6);
    assert_eq!(receipt.definition_context_records_reused, 2);
    assert_eq!(receipt.category_scan_records, 4);
    assert_eq!(receipt.selected_records, 3);
    assert_eq!(receipt.selected_inherited_category_records, 1);
    assert_eq!(receipt.selected_definition_context_category_records, 2);
    assert_eq!(receipt.selected_by_category.get(&-2_001_120), Some(&3));
    assert_eq!(receipt.excluded_by_category.get(&-2_008_044), Some(&1));
    assert_eq!(receipt.no_category_records, 2);
    assert_eq!(receipt.unsupported_graph_records, 1);
    assert_eq!(receipt.unsupported_metadata_records, 1);
    let mut classes = receipt.no_category_classes.clone();
    classes.sort();
    assert_eq!(classes, vec![("<unregistered>".to_string(), 1), ("UnknownOwner".to_string(), 1)]);
    assert_eq!(receipt.requested_category_labels.get(&-2_000_011), Some(&Some("OST_Walls")));
}

#[test]
fn category_selection_refuses_empty_requests_and_unaccounted_owners() {
    let context = build_definition_context("schema".into(), &[], None, None).unwrap();
    let index = index_of(&[1, 2]);
    let roots = vec![root(1, "SWall")];
    assert_eq!(
        prepare_category_selection(&index, &context, roots.clone(), BTreeSet::new()).unwrap_err(),
        SelectionError::EmptyRequest
    );
    assert_eq!(
        prepare_category_selection(&index, &context, roots.clone(), BTreeSet::from([-2_000_011])).unwrap_err(),
        SelectionError::IncompleteAccounting
    );
}

#[test]
fn profiles_gate_their_tables() {
    assert_eq!(DeliveryProfile::default(), DeliveryProfile::Tiles);
    assert_eq!(DeliveryProfile::Tiles.manifest_name(), "tiles");
    assert_eq!(DeliveryProfile::RichTiles.manifest_name(), "rich-tiles");
    assert_eq!(DeliveryProfile::Audit.manifest_name(), "audit");
    assert_eq!(
        DeliveryProfile::Tiles.tables(),
        vec!["elements", "parameter_definitions", "parameter_bindings", "tileset"]
    );
    let rich = DeliveryProfile::RichTiles.tables();
    assert_eq!(rich.len(), 11);
    assert!(rich.contains(&"relationships") && !rich.contains(&"metrics"));
    let audit = DeliveryProfile::Audit.tables();
    assert_eq!(audit.len(), 13);
    assert_eq!(&audit[11..], &["metrics", "texture_mappings"]);
    assert!(!DeliveryProfile::Tiles.emits_rich_tables());
    assert!(DeliveryProfile::Audit.emits_rich_tables() && DeliveryProfile::Audit.emits_audit_tables());
    assert!(!DeliveryProfile::RichTiles.emits_audit_tables());
}

#[test]
fn keys_join_namespace_and_unique_id() {
    assert_eq!(key("doc-a", "uid-a"), "doc-a:uid-a");
    assert_eq!(key("", ""), ":");
}

#[test]
fn geometry_estimates_count_only_renderable_primitives() {
    let primitives = [
        PrimitiveShape { vertices: 4, normals: 4, triangles: 2 },
        PrimitiveShape { vertices: 3, normals: 0, triangles: 0 },
        PrimitiveShape { vertices: 0, normals: 0, triangles: 5 },
        PrimitiveShape { vertices: 3, normals: 0, triangles: 1 },
    ];
    assert!(renderable(&primitives[0]));
    assert!(!renderable(&primitives[1]));
    assert_eq!(geometry_estimate(&primitives), (7, 3, (4 * 24 + 4 * 24 + 2 * 12) + (3 * 24 + 12)));
    let huge = [PrimitiveShape { vertices: usize::MAX / 2, normals: usize::MAX / 2, triangles: 1 }];
    assert_eq!(geometry_estimate(&huge).2, usize::MAX);
}

use rvt_native::delivery::supplement_definition_context;
use rvt_native::extensible_storage::{Catalog, Schema};

fn es_schema(guid: &str) -> Schema {
    Schema { guid: guid.into(), name: "s".into(), fields: vec![], source_bound_payload_prefix_bytes: None, raw_metadata: serde_json::Value::Null }
}

#[test]
fn source_bound_catalog_supplements_the_definition_context() {
    let mut context = build_definition_context("schema".into(), &[], None, None).unwrap();
    let mut witness = Catalog::new();
    witness.insert(es_schema("a")).unwrap();
    supplement_definition_context(&mut context, witness, Some("abc123")).unwrap();
    assert_eq!(context.extensible_storage_catalog.as_ref().unwrap().len(), 1);
    assert_eq!(
        context.extensible_storage_catalog_diagnostic.as_deref(),
        Some("supplemented by source-bound ES witness abc123")
    );
    let mut conflicting = Catalog::new();
    conflicting.insert(es_schema("a")).unwrap();
    assert!(supplement_definition_context(&mut context, conflicting, None).is_err());
    let mut unnamed = Catalog::new();
    unnamed.insert(es_schema("b")).unwrap();
    supplement_definition_context(&mut context, unnamed, None).unwrap();
    assert_eq!(
        context.extensible_storage_catalog_diagnostic.as_deref(),
        Some("supplemented by source-bound ES witness unknown")
    );
}

#[test]
fn a_larger_category_request_selects_a_superset() {
    let context = build_definition_context("schema".into(), &[], None, None).unwrap();
    let index = index_of(&[1, 2]);
    let roots = vec![root(1, "SWall"), root(2, "RbsPipeCurve")];
    let small = prepare_category_selection(&index, &context, roots.clone(), BTreeSet::from([-2_000_011])).unwrap();
    let large =
        prepare_category_selection(&index, &context, roots, BTreeSet::from([-2_000_011, -2_008_044])).unwrap();
    assert_eq!(small.selected_ids(), BTreeSet::from([1]));
    assert_eq!(large.selected_ids(), BTreeSet::from([1, 2]));
    assert!(small.selected_ids().is_subset(&large.selected_ids()));
    assert_eq!(small.records().len(), 1);
    assert_eq!(large.records().len(), 2);
}
