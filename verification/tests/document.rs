use rvt_native::document::{adaptive_graph_limit, build_definition_context, decode_single, DefinitionOwnerRecord, Options, StreamError};
use rvt_native::framing::{physical_group_records, physical_record_id_bytes, records_count, GroupSource};
use rvt_native::graph::GraphEdge;
use rvt_native::object_graph::{GraphObject, ObjectGraph};
use rvt_native::value_grammar::Token;
use rvt_native::physical_index::{build_physical_index, IndexError, Partition, PhysicalIndex};
use std::collections::BTreeSet;
use std::io::Write;

fn index_with(groups: &[(&str, u64, u64, usize)], bytes: &[(u64, u64, usize)], owners: &[(u64, &str)]) -> PhysicalIndex {
    let mut index = PhysicalIndex::new();
    for (stream, channel, id, offset) in groups {
        index.insert_group_offset(stream, *channel, *id, *offset);
    }
    for (channel, id, size) in bytes {
        index.insert_record_bytes(*channel, *id, *size);
    }
    for (id, stream) in owners {
        index.insert_owner_stream(*id, stream);
    }
    index
}

#[test]
fn physical_record_id_width_is_derived_from_validated_index_layout() {
    assert_eq!(physical_record_id_bytes(28).unwrap(), 4);
    assert_eq!(physical_record_id_bytes(40).unwrap(), 8);
    assert!(physical_record_id_bytes(32).is_err());
}

#[test]
fn physical_group_probe_framing_uses_both_length_sentinels() {
    let mut bytes = Vec::new();
    // Channel 102 / 32-bit owner id: id + opaque word + length + body + length.
    bytes.extend_from_slice(&42u32.to_le_bytes());
    bytes.extend_from_slice(&0xfeed_beefu32.to_le_bytes());
    bytes.extend_from_slice(&3u32.to_le_bytes());
    bytes.extend_from_slice(&[7, 8, 9]);
    bytes.extend_from_slice(&3u32.to_le_bytes());
    let records = physical_group_records(&bytes, 4, 102).unwrap();
    assert_eq!(records.len(), 1);
    assert_eq!(records[0].id, 42);
    assert_eq!(records[0].offset, 0);
    assert_eq!(records[0].header.len(), 12);
    assert_eq!(records[0].body, [7, 8, 9]);
    assert_eq!(records[0].trailer, 3u32.to_le_bytes());
    bytes[15] = 2;
    assert!(physical_group_records(&bytes, 4, 102).is_err());
}

#[test]
fn physical_index_exposes_deduplicated_channel_ids() {
    let index = index_with(
        &[("Partitions/0", 102, 12, 10), ("Partitions/1", 102, 13, 20), ("Partitions/1", 103, 12, 30)],
        &[(102, 12, 4096)],
        &[(12, "Partitions/0"), (12, "Partitions/1"), (13, "Partitions/1")],
    );
    assert_eq!(index.current_ids(102), BTreeSet::from([12, 13]));
    assert_eq!(index.current_ids(103), BTreeSet::from([12]));
    assert!(index.current_ids(101).is_empty());
    assert_eq!(index.group_offset_for("Partitions/0", 102, 12), Some(10));
    assert_eq!(index.group_offset_for("Partitions/1", 103, 12), Some(30));
    assert_eq!(index.group_offset_for("Partitions/0", 103, 12), None);
    assert_eq!(index.record_bytes(102, 12), 4096);
    assert_eq!(index.record_bytes(102, 13), 0);
}

#[test]
fn physical_index_plans_partition_local_cost_bounded_shards() {
    let index = index_with(
        &[
            ("Partitions/0", 102, 1, 10),
            ("Partitions/0", 103, 1, 20),
            ("Partitions/0", 102, 3, 30),
            ("Partitions/1", 102, 2, 10),
            ("Partitions/1", 103, 2, 20),
        ],
        &[(102, 1, 4), (103, 1, 4), (102, 2, 4), (103, 2, 4), (102, 3, 4)],
        &[(1, "Partitions/0"), (2, "Partitions/1"), (3, "Partitions/0")],
    );
    assert_eq!(
        index.partition_local_shards(&[1, 2, 3], 10, 8).unwrap(),
        vec![vec![1], vec![3], vec![2]]
    );
    assert!(index.partition_local_shards(&[4], 1, 0).is_err());
}

#[test]
fn physical_index_splits_one_cost_group_by_owner_cap() {
    let index = index_with(
        &[("Partitions/0", 102, 1, 10), ("Partitions/0", 102, 2, 20), ("Partitions/0", 102, 3, 30)],
        &[(102, 1, 1024), (102, 2, 1024), (102, 3, 1024)],
        &[(1, "Partitions/0"), (2, "Partitions/0"), (3, "Partitions/0")],
    );
    assert_eq!(
        index.partition_local_shards(&[1, 2, 3], 2, 64 * 1024).unwrap(),
        vec![vec![1, 2], vec![3]]
    );
}

fn member() -> Vec<u8> {
    let mut encoder = flate2::write::GzEncoder::new(Vec::new(), flate2::Compression::default());
    encoder.write_all(b"saved state").unwrap();
    encoder.finish().unwrap()
}

const PAGE: usize = 4096;

#[test]
fn opaque_suffix_is_accounted_separately_from_verified_payload() {
    let mut data = member();
    let size = data.len();
    data.extend_from_slice(&[0, 3, 9, 0]);
    let (payload, envelope) = decode_single(&data, 0, PAGE).unwrap();
    assert_eq!(payload, b"saved state");
    assert_eq!(envelope.member_bytes, size);
    assert_eq!(envelope.opaque_suffix_bytes, 4);
    assert!(!envelope.suffix_interpreted);
}

#[test]
fn damaged_or_truncated_member_is_not_an_opaque_suffix() {
    let mut data = member();
    data.pop();
    assert!(decode_single(&data, 0, PAGE).is_err());
    let mut data = member();
    let crc = data.len() - 8;
    data[crc] ^= 1;
    assert!(decode_single(&data, 0, PAGE).is_err());
}

#[test]
fn clean_member_has_an_interpreted_empty_suffix() {
    let mut data = vec![9u8; 8];
    data.extend_from_slice(&member());
    let (payload, envelope) = decode_single(&data, 8, PAGE).unwrap();
    assert_eq!(payload, b"saved state");
    assert_eq!(envelope.prepared_bytes, data.len());
    assert_eq!(envelope.member_offset, 8);
    assert_eq!(envelope.member_bytes, data.len() - 8);
    assert_eq!(envelope.opaque_suffix_bytes, 0);
    assert!(envelope.suffix_interpreted);
    // SHA-256 of the empty suffix.
    assert_eq!(
        envelope.opaque_suffix_sha256,
        "e3b0c44298fc1c149afbf4c8996fb92427ae41e4649b934ca495991b7852b855"
    );
}

#[test]
fn suffix_digest_is_the_sha256_of_the_suffix_bytes() {
    let mut data = member();
    data.extend_from_slice(b"abc");
    let (_, envelope) = decode_single(&data, 0, PAGE).unwrap();
    assert_eq!(
        envelope.opaque_suffix_sha256,
        "ba7816bf8f01cfea414140de5dae2223b00361a396177a9cb410ff61f20015ad"
    );
}

#[test]
fn offset_past_the_stream_and_oversized_suffix_are_refused() {
    let data = member();
    assert!(matches!(decode_single(&data, data.len() + 1, PAGE), Err(StreamError::TruncatedPrefix)));
    let mut data = member();
    data.extend_from_slice(&[1, 2, 3, 4, 5]);
    assert!(matches!(decode_single(&data, 0, 4), Err(StreamError::OpaqueSuffixTooLarge)));
}

#[test]
fn adaptive_budget_grows_fourfold_to_the_ceiling() {
    assert_eq!(adaptive_graph_limit(100_000, 1_000_000), Some(400_000));
    assert_eq!(adaptive_graph_limit(400_000, 1_000_000), Some(1_000_000));
    assert_eq!(adaptive_graph_limit(0, 1_000_000), Some(1));
    assert_eq!(adaptive_graph_limit(1_000_000, 1_000_000), None);
}

#[test]
fn default_options_select_channel_102_with_bounded_budgets() {
    let options = Options::default();
    assert!(options.selected_ids.is_empty());
    assert_eq!(options.channels, BTreeSet::from([102]));
    assert_eq!(options.max_stream_bytes, 512 * 1024 * 1024);
    assert_eq!(options.max_group_bytes, 256 * 1024 * 1024);
    assert_eq!(options.max_graph_values, 100_000);
    assert_eq!(options.max_graph_objects, 100_000);
}

fn record(id: u32, body: &[u8]) -> Vec<u8> {
    let mut out = Vec::new();
    out.extend_from_slice(&id.to_le_bytes());
    out.extend_from_slice(&0u32.to_le_bytes());
    out.extend_from_slice(&(body.len() as u32).to_le_bytes());
    out.extend_from_slice(body);
    out.extend_from_slice(&(body.len() as u32).to_le_bytes());
    out
}

fn source(channel: u64, offset: usize, objects: u64, body_bytes: u64) -> GroupSource {
    GroupSource {
        content_key: None,
        channel,
        first_marker_offset: offset,
        segment_count: 1,
        declared_objects: objects,
        declared_body_bytes: body_bytes,
    }
}

#[test]
fn physical_index_is_built_from_routed_current_records() {
    let mut group = record(12, &[1, 2, 3]);
    group.extend_from_slice(&record(99, &[]));
    assert_eq!(records_count(&group, 4, 102).unwrap(), 2);
    let partitions = vec![
        Partition {
            stream: "Partitions/0".into(),
            current: BTreeSet::from([12, 99]),
            groups: vec![(source(102, 64, 2, 3), group.clone())],
        },
        Partition {
            stream: "Partitions/1".into(),
            current: BTreeSet::from([13]),
            groups: vec![
                (source(103, 8, 1, 2), record(13, &[5, 6])),
                (source(101, 0, 9, 9), vec![1, 2, 3]),
            ],
        },
    ];
    let index = build_physical_index(&partitions, 4).unwrap();
    assert_eq!(index.current_ids(102), BTreeSet::from([12, 99]));
    assert_eq!(index.current_ids(103), BTreeSet::from([13]));
    assert_eq!(index.group_offset_for("Partitions/0", 102, 12), Some(64));
    assert_eq!(index.record_bytes(102, 12), 3);
    // An empty body still costs one byte.
    assert_eq!(index.record_bytes(102, 99), 1);
    assert_eq!(index.partition_local_shards(&[12, 13], 1, 0).unwrap(), vec![vec![12], vec![13]]);
}

#[test]
fn current_record_in_two_partitions_is_ambiguous() {
    let partitions = vec![
        Partition {
            stream: "Partitions/0".into(),
            current: BTreeSet::from([12]),
            groups: vec![(source(102, 0, 1, 1), record(12, &[1]))],
        },
        Partition {
            stream: "Partitions/1".into(),
            current: BTreeSet::from([12]),
            groups: vec![(source(102, 0, 1, 1), record(12, &[1]))],
        },
    ];
    assert!(matches!(
        build_physical_index(&partitions, 4),
        Err(IndexError::AmbiguousAcrossPartitions { id: 12, channel: 102 })
    ));
    let mut twice = record(12, &[1]);
    twice.extend_from_slice(&record(12, &[1]));
    let partitions = vec![Partition {
        stream: "Partitions/0".into(),
        current: BTreeSet::from([12]),
        groups: vec![(source(102, 0, 2, 2), twice)],
    }];
    assert!(matches!(
        build_physical_index(&partitions, 4),
        Err(IndexError::AmbiguousInStream { id: 12, channel: 102 })
    ));
}

#[test]
fn group_declarations_must_match_the_records() {
    let partitions = vec![Partition {
        stream: "Partitions/0".into(),
        current: BTreeSet::new(),
        groups: vec![(source(102, 0, 2, 1), record(12, &[1]))],
    }];
    assert!(matches!(build_physical_index(&partitions, 4), Err(IndexError::Framing(_))));
}

fn num(v: i64) -> Vec<Token> {
    if v < 0 {
        vec![Token::Int(v)]
    } else {
        vec![Token::UInt(v as u64)]
    }
}

fn text(v: &str) -> Vec<Token> {
    vec![Token::Text(v.to_string())]
}

fn obj(members: &[(&str, Vec<Token>)]) -> Vec<Token> {
    let mut t = vec![Token::BeginObject];
    for (k, v) in members {
        t.push(Token::Key((*k).to_string()));
        t.extend(v.iter().cloned());
    }
    t.push(Token::EndObject);
    t
}

fn arr(items: &[Vec<Token>]) -> Vec<Token> {
    let mut t = vec![Token::BeginArray];
    for v in items {
        t.extend(v.iter().cloned());
    }
    t.push(Token::EndArray);
    t
}

fn object(class: &str, fields: Vec<Token>) -> GraphObject {
    GraphObject { class_tag: 10, class_name: class.into(), token: 0, start: 2, fields_end: 100, fields }
}

fn owner(element_id: u64, objects: Vec<GraphObject>, edges: Vec<GraphEdge>) -> DefinitionOwnerRecord {
    DefinitionOwnerRecord {
        element_id,
        diagnostic: None,
        graph: Some(ObjectGraph { consumed_bytes: 100, objects, edges }),
    }
}

/// A definition owner whose `m_pParamDef` edge reaches a definition of
/// `class` with the given specification.
fn definition_owner(element_id: u64, id: i64, class: &str, spec: &str) -> DefinitionOwnerRecord {
    owner(
        element_id,
        vec![
            object(
                "ParamElemFamily",
                obj(&[("m_id", num(id)), ("m_pParamDef", obj(&[("offset", num(90)), ("pointer_token", num(4294967295))]))]),
            ),
            object(
                class,
                obj(&[
                    ("m_paramElemId", num(id)),
                    ("m_caption", text("Width")),
                    ("m_specTypeId", obj(&[("m_typeId", text(spec))])),
                ]),
            ),
        ],
        vec![GraphEdge {
            source_object_index: 0,
            pointer_offset: 90,
            pointer_token: 4294967295,
            target_object_index: 1,
            target_class_tag: 11,
        }],
    )
}

#[test]
fn definition_context_keeps_candidates_in_id_order_and_diagnoses_failures() {
    let owners = vec![
        owner(300, vec![object("BasicWallType", obj(&[("m_id", num(30)), ("m_familyId", num(99))]))], vec![]),
        owner(
            200,
            vec![object(
                "FamilySymbol",
                obj(&[("m_id", num(20)), ("m_familyId", num(10)), ("m_categoryId", num(-2_001_120))]),
            )],
            vec![],
        ),
        owner(100, vec![object("Family", obj(&[("m_id", num(10)), ("m_categoryId", num(-2_001_120))]))], vec![]),
        owner(400, vec![object("ParamDefString", obj(&[("m_id", num(40))]))], vec![]),
        DefinitionOwnerRecord { element_id: 500, diagnostic: None, graph: None },
        owner(600, vec![object("Family", obj(&[("m_id", num(60))]))], vec![]),
        DefinitionOwnerRecord { element_id: 700, diagnostic: Some("graph budget exceeded".into()), graph: None },
    ];
    let context = build_definition_context("schema".into(), &owners, None, None).unwrap();
    assert_eq!(context.schema_sha256, "schema");
    assert_eq!(context.definition_owner_ids, BTreeSet::from([100, 200, 300, 400, 500, 600, 700]));
    let ids: Vec<u64> = context.definition_owner_category_candidates.iter().map(|(id, _)| *id).collect();
    assert_eq!(ids, vec![100, 200, 300, 400, 600]);
    let (_, symbol_candidate) = &context.definition_owner_category_candidates[1];
    assert_eq!(symbol_candidate.family_id, Some(10));
    assert_eq!(symbol_candidate.direct_category_id, Some(-2_001_120));
    let (_, wall_candidate) = &context.definition_owner_category_candidates[2];
    // Only family symbols keep their family edge.
    assert_eq!(wall_candidate.family_id, None);
    assert_eq!(context.registry.family_categories.get(&10), Some(&-2_001_120));
    assert_eq!(context.registry.symbol_families.get(&20), Some(&10));
    let diagnostic = |id: u64| context.diagnostics.get(&id).map(String::as_str);
    assert_eq!(diagnostic(300), Some("definition owner has no nonnull definition"));
    assert_eq!(diagnostic(400), Some("definition owner has no nonnull definition"));
    assert_eq!(diagnostic(500), Some("unsupported definition graph"));
    assert_eq!(diagnostic(600), Some("unsupported saved identifier shape (null)"));
    assert_eq!(diagnostic(700), Some("graph budget exceeded"));
    assert_eq!(diagnostic(100), None);
}

#[test]
fn duplicate_definition_owner_is_refused() {
    let owners = vec![
        owner(7, vec![object("ParamDefString", obj(&[("m_id", num(1))]))], vec![]),
        owner(7, vec![object("ParamDefString", obj(&[("m_id", num(1))]))], vec![]),
    ];
    assert_eq!(
        build_definition_context("schema".into(), &owners, None, None).err(),
        Some("duplicate definition owner category candidate".to_string())
    );
    // An unreadable category id ends the pass.
    let owners = vec![owner(8, vec![object("Wall", obj(&[("m_categoryId", text("x"))]))], vec![])];
    assert_eq!(
        build_definition_context("schema".into(), &owners, None, None).err(),
        Some("unsupported saved identifier shape (string)".to_string())
    );
}

#[test]
fn definition_context_records_definitions_with_project_units() {
    let units = owner(
        1,
        vec![object(
            "UnitsElem",
            obj(&[(
                "m_units",
                obj(&[(
                    "m_formatOptionsMap",
                    arr(&[obj(&[
                        ("first", obj(&[("m_typeId", text("test:length"))])),
                        ("second", obj(&[("m_unitTypeId", obj(&[("m_typeId", text("test:millimeters"))]))])),
                    ])]),
                )]),
            )]),
        )],
        vec![],
    );
    let owners = vec![definition_owner(2, 42, "ParamDefValue", "test:length"), units];
    let context = build_definition_context("schema".into(), &owners, None, None).unwrap();
    let definition = &context.registry.definitions[&42];
    assert_eq!(definition.caption, "Width");
    assert_eq!(definition.storage_type.as_deref(), Some("Double"));
    assert_eq!(definition.unit_type_id.as_deref(), Some("test:millimeters"));
    assert_eq!(definition.unit_resolution, "resolved_native_project_units");
    assert!(context.diagnostics.is_empty());
    assert_eq!(context.registry.unit_formats.len(), 1);
}

use rvt_native::document::{validate_serialized_owner_identity, OwnerIdentityError};

#[test]
fn serialized_owner_identity_requires_a_match_but_allows_explicit_null() {
    // {"m_id": null}
    assert!(validate_serialized_owner_identity(102, true, Some(None), 42).is_ok());
    // {}
    assert!(validate_serialized_owner_identity(102, true, None, 42).is_ok());
    assert!(validate_serialized_owner_identity(102, true, Some(Some(42)), 42).is_ok());
    assert!(validate_serialized_owner_identity(102, true, Some(Some(41)), 42).is_err());
}

#[test]
fn owner_identity_is_checked_only_on_metadata_records() {
    assert!(validate_serialized_owner_identity(103, false, Some(Some(41)), 42).is_ok());
    assert_eq!(validate_serialized_owner_identity(102, false, None, 42), Err(OwnerIdentityError::EmptyGraph));
    assert_eq!(
        validate_serialized_owner_identity(102, true, Some(Some(-42)), 42),
        Err(OwnerIdentityError::Disagrees { indexed_id: 42 })
    );
}
