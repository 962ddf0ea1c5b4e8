use rvt_native::extensible_storage::{guid_string, Catalog, Field as EsField, Schema};
use rvt_native::graph::GraphLimits;
use rvt_native::object_graph::{
    decode_graph, decode_graph_with_adaptive_budget, decode_graph_with_catalog,
    decode_graph_with_limits, decode_object_fields, decode_root_with_catalog_usage,
};
use rvt_native::schema::{Class, Field, Reference, Registry};
use rvt_native::value_cursor::Cursor;
use rvt_native::value_grammar::Token;
use serde_json::Value;

/// The JSON value a token stream writes.
fn json(tokens: &[Token]) -> Value {
    let mut i = 0;
    let v = value(tokens, &mut i);
    assert_eq!(i, tokens.len());
    v
}

fn value(t: &[Token], i: &mut usize) -> Value {
    let tok = &t[*i];
    *i += 1;
    match tok {
        Token::Null => Value::Null,
        Token::Bool(b) => Value::Bool(*b),
        Token::UInt(n) => Value::from(*n),
        Token::Int(n) => Value::from(*n),
        Token::F32(b) => Value::from(f32::from_bits(*b)),
        Token::F64(b) => Value::from(f64::from_bits(*b)),
        Token::Text(s) => Value::String(s.clone()),
        Token::Bytes(b) => Value::Array(b.iter().map(|x| Value::from(*x)).collect()),
        Token::BeginArray => {
            let mut items = Vec::new();
            while t[*i] != Token::EndArray {
                items.push(value(t, i));
            }
            *i += 1;
            Value::Array(items)
        }
        Token::BeginObject => {
            let mut m = serde_json::Map::new();
            while t[*i] != Token::EndObject {
                let k = match &t[*i] {
                    Token::Key(k) => k.clone(),
                    other => panic!("expected a key, found {other:?}"),
                };
                *i += 1;
                let v = value(t, i);
                m.insert(k, v);
            }
            *i += 1;
            Value::Object(m)
        }
        other => panic!("unexpected token {other:?}"),
    }
}

fn object(entries: &[(&str, Value)]) -> Value {
    let mut m = serde_json::Map::new();
    for (k, v) in entries {
        m.insert((*k).to_string(), v.clone());
    }
    Value::Object(m)
}

fn field(name: &str) -> Field {
    Field {
        offset: 0,
        name: name.into(),
        descriptor_offset: 0,
        raw_descriptor: 5,
        base: 5,
        modifier: 0,
        uninterpreted_flags: 0,
        array_count: None,
        references: Vec::new(),
        nested_descriptor: None,
        end: 0,
    }
}

fn class(tag: u16, name: &str, parent: u16, fields: Vec<Field>) -> Class {
    Class {
        tag,
        name: name.into(),
        offset: 0,
        parent_reference: Reference {
            offset: 0,
            tag: parent,
            introduces_definition: false,
        },
        version_like_word: 0,
        fields,
        opaque_16byte_entry_count: 0,
        opaque_entries_offset: 0,
        opaque_entries_sha256: String::new(),
        end: 0,
    }
}

fn registry(classes: Vec<Class>) -> Registry {
    Registry {
        source_sha256: String::new(),
        consumed_bytes: 0,
        reference_count: 0,
        terminator_offset: 0,
        classes,
    }
}

fn pointer_field(name: &str) -> Field {
    Field {
        base: 14,
        modifier: 1,
        raw_descriptor: 0x10e,
        ..field(name)
    }
}

fn inline_field(name: &str, tag: u16) -> Field {
    Field {
        base: 14,
        modifier: 0,
        raw_descriptor: 14,
        references: vec![Reference {
            offset: 0,
            tag,
            introduces_definition: false,
        }],
        ..field(name)
    }
}

fn vector_field(name: &str, base: u8) -> Field {
    Field {
        base,
        modifier: 0x50,
        raw_descriptor: u32::from(base) | (0x50 << 8),
        ..field(name)
    }
}

fn append_pointer(body: &mut Vec<u8>, token: u32, tag: u16) {
    body.extend(token.to_le_bytes());
    body.extend(tag.to_le_bytes());
}

fn es_field(index: u32, name: &str, declared_type: &str, container_type: i32) -> EsField {
    EsField {
        index,
        name: name.into(),
        field_type: declared_type.into(),
        container_type,
        subschema_guid: None,
        spec_type_id: None,
        raw_metadata: Value::Null,
    }
}

#[test]
fn compact_byte_vector_can_use_a_field_specific_bound_without_materializing_values() {
    let mut byte_vector = field("cache");
    byte_vector.base = 2;
    byte_vector.modifier = 0x50;
    let count = 1_000_001usize;
    let mut body = Vec::with_capacity(4 + count);
    body.extend((count as u32).to_le_bytes());
    body.resize(4 + count, 0x5a);
    let empty = registry(Vec::new());
    let mut cursor = Cursor::new(&body, &empty, None, &[], 0, false, GraphLimits::default());
    assert_eq!(
        cursor.skip_field_value(&byte_vector, 0, count).unwrap(),
        count
    );
    assert_eq!(cursor.position(), body.len());
    assert_eq!(cursor.values(), 1);

    let mut cursor = Cursor::new(&body, &empty, None, &[], 0, false, GraphLimits::default());
    assert!(cursor.skip_field_value(&byte_vector, 0, count - 1).is_err());
}

#[test]
fn raster_payload_is_retained_as_bounded_opaque_field_metadata() {
    let count = 1_000_001usize;
    let mut compressed = field("m_compressedImage");
    compressed.base = 2;
    compressed.modifier = 0x50;
    let registry = registry(vec![class(12, "ARasterImage", 0, vec![compressed])]);
    let mut body = Vec::with_capacity(4 + count);
    body.extend((count as u32).to_le_bytes());
    body.resize(4 + count, 0x5a);
    let mut cursor = Cursor::new(&body, &registry, None, &[], 0, false, GraphLimits::default());
    cursor.class(12, 0).unwrap();
    let fields = json(&cursor.take_tokens());
    assert_eq!(cursor.position(), body.len());
    assert_eq!(fields["m_compressedImage"]["item_count"], count);
    assert_eq!(
        fields["m_compressedImage"]["native_field_skipped"],
        "ARasterImage.m_compressedImage"
    );
}

#[test]
fn spot_elevation_optional_offset_preserves_nonfinite_sentinel() {
    let mut offset = field("m_bendOrPosPtOffset");
    offset.base = 7;
    offset.modifier = 0x10;
    offset.array_count = Some(3);
    let registry = registry(vec![class(12, "SpotElevation", 0, vec![offset])]);
    let mut body = Vec::new();
    body.extend(1.25f64.to_le_bytes());
    body.extend(f64::NAN.to_le_bytes());
    body.extend((-2.5f64).to_le_bytes());
    let mut cursor = Cursor::new(&body, &registry, None, &[], 0, false, GraphLimits::default());
    cursor.class(12, 0).unwrap();
    let fields = json(&cursor.take_tokens());
    assert_eq!(cursor.position(), body.len());
    assert_eq!(fields["m_bendOrPosPtOffset"][0], 1.25);
    assert_eq!(
        fields["m_bendOrPosPtOffset"][1],
        object(&[
            ("native_nonfinite", Value::from("f64")),
            ("semantic", Value::from("serialized_absent")),
        ])
    );
    assert_eq!(fields["m_bendOrPosPtOffset"][2], -2.5);
}

#[test]
fn es_guid_payload_is_deferred_without_fabricated_class_tag() {
    let registry = registry(vec![class(12, "ESEntity", 0, vec![pointer_field("m_blob")])]);
    let mut body = 12u16.to_le_bytes().to_vec();
    body.extend((-1i32).to_le_bytes());
    body.extend([0u8; 16]);
    body.extend(2u32.to_le_bytes());
    body.extend([b'O', 0, b'K', 0]);
    let guid = guid_string([0; 16]);
    let mut catalog = Catalog::new();
    catalog
        .insert(Schema {
            guid: guid.clone(),
            name: "Example".into(),
            fields: vec![es_field(0, "Label", "TCHAR", 0)],
            source_bound_payload_prefix_bytes: None,
            raw_metadata: Value::Null,
        })
        .unwrap();
    assert!(decode_graph(&body, &registry)
        .unwrap_err()
        .message
        .contains("schema catalog absent"));
    let graph =
        decode_graph_with_catalog(&body, &registry, &GraphLimits::default(), Some(&catalog))
            .unwrap();
    assert_eq!(graph.consumed_bytes, body.len());
    assert_eq!(graph.objects[1].class_tag, 0);
    assert_eq!(
        json(&graph.objects[1].fields)["fields"][0]["raw_value"],
        Value::from("OK")
    );
    body.push(0);
    assert!(
        decode_graph_with_catalog(&body, &registry, &GraphLimits::default(), Some(&catalog))
            .unwrap_err()
            .message
            .contains("unconsumed")
    );
    let mut absent = 12u16.to_le_bytes().to_vec();
    absent.extend([0; 4]);
    let graph = decode_graph(&absent, &registry).unwrap();
    assert_eq!(
        json(&graph.objects[0].fields)["m_blob"]["state"],
        Value::from("serialized_absent")
    );
    assert!(graph.edges.is_empty());
}

#[test]
fn source_bound_es_layout_uses_measured_prefix_and_storage_index() {
    let empty = registry(Vec::new());
    let guid = "57c66e83-4651-496b-aebb-69d085752c1b";
    let mut catalog = Catalog::new();
    catalog
        .insert(Schema {
            guid: guid.into(),
            name: "Measured".into(),
            // Stored order is list, minor, major; presentation order need not
            // be the persisted entry-index order.
            fields: vec![
                es_field(2, "Major", "int", 0),
                es_field(1, "Minor", "int", 0),
                es_field(0, "List", "int", 1),
            ],
            source_bound_payload_prefix_bytes: Some(8),
            raw_metadata: object(&[("source_bound_payload_prefix_bytes", Value::from(8))]),
        })
        .unwrap();
    let mut body = vec![0; 8];
    body.extend(1u32.to_le_bytes());
    body.extend(950884i32.to_le_bytes());
    body.extend(2i32.to_le_bytes());
    body.extend(1i32.to_le_bytes());
    let prefixes = catalog.source_bound_prefixes();
    let mut cursor = Cursor::new(
        &body,
        &empty,
        Some(&catalog),
        &prefixes,
        0,
        false,
        GraphLimits::default(),
    );
    cursor.entity_fields(guid).unwrap();
    let fields = json(&cursor.take_tokens());
    assert_eq!(cursor.position(), body.len());
    assert_eq!(fields["fields"][0]["name"], "List");
    assert_eq!(
        fields["fields"][0]["raw_value"],
        Value::Array(vec![Value::from(950884)])
    );
    assert_eq!(fields["fields"][1]["raw_value"], 2);
    assert_eq!(fields["fields"][2]["raw_value"], 1);
    assert_eq!(
        fields["source_bound_payload_prefix"]["bytes"],
        Value::Array(vec![Value::from(0u8); 8])
    );
}

#[test]
fn root_decode_stops_before_deferred_pointer_targets() {
    let registry = registry(vec![
        class(12, "Owner", 0, vec![pointer_field("m_child")]),
        class(13, "Deferred", 0, vec![field("m_id")]),
    ]);
    let mut body = 12u16.to_le_bytes().to_vec();
    append_pointer(&mut body, 7, 13);
    // A full graph decode consumes this child. The root selector must not.
    body.extend(42i32.to_le_bytes());

    let root =
        decode_root_with_catalog_usage(&body, &registry, &GraphLimits::default(), None).unwrap();
    assert_eq!(root.class_name, "Owner");
    assert_eq!(json(&root.fields)["m_child"]["pointer_token"], 7);
    assert_eq!(root.consumed_bytes, 8);
    assert!(root.consumed_bytes < body.len());
}

#[test]
fn wall_sweep_edge_history_is_compacted_without_relaxing_graph_budget() {
    let mut edge_table = inline_field("m_edgeHistTable", 13);
    edge_table.modifier = 0x50;
    edge_table.raw_descriptor = 0x500e;
    let registry = registry(vec![
        class(12, "WallSweepWallGStep", 0, vec![edge_table]),
        class(
            13,
            "EdgeHistEntry",
            0,
            vec![field("m_id"), inline_field("m_edgeHist", 14)],
        ),
        class(14, "EdgeHist", 0, vec![vector_field("m_keys", 4)]),
    ]);
    let mut body = 12u16.to_le_bytes().to_vec();
    body.extend(256u32.to_le_bytes());
    for id in 0..256u32 {
        body.extend(id.to_le_bytes());
        body.extend(3u32.to_le_bytes());
        body.extend([1u32, 2, 3].into_iter().flat_map(|value| value.to_le_bytes()));
    }
    let graph = decode_graph_with_limits(
        &body,
        &registry,
        &GraphLimits {
            max_values: 1,
            max_objects: 10,
            max_depth: 16,
        },
    )
    .unwrap();
    assert_eq!(graph.consumed_bytes, body.len());
    let fields = json(&graph.objects[0].fields);
    assert_eq!(fields["m_edgeHistTable"]["item_count"], 256);
    assert_eq!(
        fields["m_edgeHistTable"]["native_field_skipped"],
        "WallSweepWallGStep.m_edgeHistTable"
    );
}

#[test]
fn graph_edges_distinguish_shared_and_fresh_same_class_objects() {
    let registry = registry(vec![
        class(
            12,
            "Root",
            0,
            vec![
                pointer_field("shared_a"),
                pointer_field("shared_b"),
                pointer_field("fresh_a"),
                pointer_field("fresh_b"),
            ],
        ),
        class(13, "Child", 0, vec![field("value")]),
    ]);
    let mut body = 12u16.to_le_bytes().to_vec();
    for token in [7, 7, u32::MAX, u32::MAX] {
        append_pointer(&mut body, token, 13);
    }
    for value in [10u32, 20, 30] {
        body.extend(value.to_le_bytes());
    }
    let graph = decode_graph(&body, &registry).unwrap();
    assert_eq!(graph.consumed_bytes, body.len());
    assert_eq!(graph.objects.len(), 4);
    let edges: Vec<_> = graph
        .edges
        .iter()
        .map(|edge| {
            (
                edge.source_object_index,
                edge.pointer_offset,
                edge.pointer_token,
                edge.target_object_index,
                edge.target_class_tag,
            )
        })
        .collect();
    assert_eq!(
        edges,
        vec![
            (0, 2, 7, 1, 13),
            (0, 8, 7, 1, 13),
            (0, 14, u32::MAX, 2, 13),
            (0, 20, u32::MAX, 3, 13),
        ]
    );
    for (index, value) in [(1, 10), (2, 20), (3, 30)] {
        assert_eq!(json(&graph.objects[index].fields)["value"], value);
    }
}

#[test]
fn graph_edges_resolve_a_cycle_without_redecoding_objects() {
    let registry = registry(vec![
        class(12, "Root", 0, vec![pointer_field("head")]),
        class(13, "Node", 0, vec![pointer_field("next")]),
    ]);
    let mut body = 12u16.to_le_bytes().to_vec();
    for token in [7, 8, 7] {
        append_pointer(&mut body, token, 13);
    }
    let graph = decode_graph(&body, &registry).unwrap();
    assert_eq!(graph.objects.len(), 3);
    assert_eq!(graph.consumed_bytes, body.len());
    let edges: Vec<_> = graph
        .edges
        .iter()
        .map(|edge| {
            (
                edge.source_object_index,
                edge.target_object_index,
                edge.pointer_offset,
            )
        })
        .collect();
    assert_eq!(edges, vec![(0, 1, 2), (1, 2, 8), (2, 1, 14)]);
}

#[test]
fn graph_refuses_shared_token_with_conflicting_class() {
    let registry = registry(vec![
        class(12, "Root", 0, vec![pointer_field("a"), pointer_field("b")]),
        class(13, "First", 0, vec![]),
        class(14, "Second", 0, vec![]),
    ]);
    let mut body = 12u16.to_le_bytes().to_vec();
    append_pointer(&mut body, 7, 13);
    append_pointer(&mut body, 7, 14);
    let error = decode_graph(&body, &registry).unwrap_err().message;
    assert!(
        error.contains("token 7 at 8 changes class from 13 to 14"),
        "{error}"
    );
}

#[test]
fn graph_does_not_invent_targets_for_null_or_external_pointers() {
    let external = Field {
        modifier: 3,
        ..pointer_field("external")
    };
    let registry = registry(vec![class(
        12,
        "Root",
        0,
        vec![external, pointer_field("null")],
    )]);
    let mut body = 12u16.to_le_bytes().to_vec();
    body.extend(7u32.to_le_bytes());
    body.extend(0u32.to_le_bytes());
    let graph = decode_graph(&body, &registry).unwrap();
    assert_eq!(graph.objects.len(), 1);
    assert!(graph.edges.is_empty());
    let fields = json(&graph.objects[0].fields);
    assert_eq!(fields["external"]["pointer_token"], 7);
    assert_eq!(fields["null"]["pointer_token"], 0);
}

#[test]
fn explicit_graph_budgets_enforce_and_can_raise_value_limits() {
    let registry = registry(vec![
        class(12, "Root", 0, vec![pointer_field("child")]),
        class(13, "Child", 0, vec![field("value")]),
    ]);
    let mut body = 12u16.to_le_bytes().to_vec();
    append_pointer(&mut body, 7, 13);
    body.extend(123u32.to_le_bytes());
    let mut limits = GraphLimits {
        max_values: 1,
        ..GraphLimits::default()
    };
    assert!(decode_graph_with_limits(&body, &registry, &limits)
        .unwrap_err()
        .message
        .contains("native field value budget exceeded (1)"));
    limits.max_values = 2;
    assert_eq!(
        json(
            &decode_graph_with_limits(&body, &registry, &limits)
                .unwrap()
                .objects[1]
                .fields
        )["value"],
        123
    );
    limits.max_objects = 1;
    assert!(decode_graph_with_limits(&body, &registry, &limits)
        .unwrap_err()
        .message
        .contains("native graph object budget exceeded"));
    limits.max_objects = 2;
    limits.max_depth = 1;
    assert!(decode_graph_with_limits(&body, &registry, &limits)
        .unwrap_err()
        .message
        .contains("native field recursion budget exceeded"));
    limits.max_depth = 0;
    assert!(decode_graph_with_limits(&body, &registry, &limits)
        .unwrap_err()
        .message
        .contains("budgets must be positive"));
}

#[test]
fn inherited_collisions_keep_all_values_and_declaring_spans() {
    let mut transient = field("only_base");
    transient.uninterpreted_flags = 2;
    let registry = registry(vec![
        class(12, "Base", 0, vec![field("shared"), field("only_base")]),
        class(13, "Middle", 12, vec![field("shared"), transient]),
        class(14, "Leaf", 13, vec![field("shared"), field("only_leaf")]),
    ]);
    let mut body = 14u16.to_le_bytes().to_vec();
    for value in [11u32, 12, 21, 31, 32] {
        body.extend(value.to_le_bytes());
    }
    let decoded = decode_object_fields(&body, &registry, 2, 14).unwrap();
    assert_eq!(decoded.end, body.len());
    assert_eq!(
        json(&decoded.fields),
        object(&[
            ("Base::shared", Value::from(11)),
            ("only_base", Value::from(12)),
            ("Middle::shared", Value::from(21)),
            ("Leaf::shared", Value::from(31)),
            ("only_leaf", Value::from(32)),
        ])
    );
    let spans: Vec<_> = decoded
        .field_spans
        .iter()
        .map(|span| (span.class_tag, span.name.as_str(), span.start, span.end))
        .collect();
    assert_eq!(
        spans,
        vec![
            (12, "shared", 2, 6),
            (12, "only_base", 6, 10),
            (13, "shared", 10, 14),
            (14, "shared", 14, 18),
            (14, "only_leaf", 18, 22),
        ]
    );
    let graph = decode_graph(&body, &registry).unwrap();
    assert_eq!(json(&graph.objects[0].fields), json(&decoded.fields));
    assert_eq!(graph.consumed_bytes, body.len());
    assert!(decode_graph(&body[..body.len() - 1], &registry).is_err());
}

#[test]
fn duplicate_fields_within_one_declaring_class_remain_an_error() {
    let registry = registry(vec![class(
        12,
        "Base",
        0,
        vec![field("same"), field("same")],
    )]);
    let body = [12, 0, 1, 0, 0, 0, 2, 0, 0, 0];
    let error = decode_graph(&body, &registry).unwrap_err().message;
    assert!(
        error.contains("ambiguous native field key Base::same"),
        "{error}"
    );
}

#[test]
fn signed_short_consumes_two_bytes_before_following_int() {
    let mut short = field("short");
    short.base = 3;
    short.raw_descriptor = 3;
    let mut int = field("following");
    int.base = 4;
    int.raw_descriptor = 4;
    let registry = registry(vec![class(12, "Pair", 0, vec![short, int])]);
    let mut bytes = 12u16.to_le_bytes().to_vec();
    bytes.extend((-123i16).to_le_bytes());
    bytes.extend(987654i32.to_le_bytes());
    let graph = decode_graph(&bytes, &registry).unwrap();
    assert_eq!(graph.consumed_bytes, 8);
    let fields = json(&graph.objects[0].fields);
    assert_eq!(fields["short"], -123);
    assert_eq!(fields["following"], 987654);
}

#[test]
fn class_definition_ref_reads_schema_tag_without_swallowing_successor() {
    let mut reference = field("m_ref");
    reference.base = 10;
    reference.raw_descriptor = 10;
    let registry = registry(vec![
        class(12, "ClassDefinitionRef", 0, vec![reference]),
        class(13, "Target", 0, vec![]),
    ]);
    let bytes = [12, 0, 13, 0];
    let graph = decode_graph(&bytes, &registry).unwrap();
    let fields = json(&graph.objects[0].fields);
    assert_eq!(fields["m_ref"]["class_tag"], 13);
    assert_eq!(fields["m_ref"]["class_name"], "Target");
    assert_eq!(graph.consumed_bytes, 4);
}

#[test]
fn sketch_typeless_parameters_keep_serialized_ref_count_and_value() {
    let params = Field {
        base: 14,
        modifier: 0x54,
        ..field("m_params")
    };
    let count = Field {
        base: 4,
        uninterpreted_flags: 4,
        ..field("m_refCt")
    };
    let value = Field {
        base: 7,
        ..field("m_val")
    };
    let registry = registry(vec![
        class(12, "VarSketchObj", 0, vec![params]),
        class(13, "VarExpr", 0, vec![count]),
        class(14, "VarParam", 13, vec![value]),
    ]);
    let mut body = 12u16.to_le_bytes().to_vec();
    body.extend(1u32.to_le_bytes());
    append_pointer(&mut body, 21, 14);
    body.extend(3i32.to_le_bytes());
    body.extend(7.25f64.to_le_bytes());
    let graph = decode_graph(&body, &registry).unwrap();
    assert_eq!(graph.consumed_bytes, body.len());
    let fields = json(&graph.objects[1].fields);
    assert_eq!(fields["m_refCt"], 3);
    assert_eq!(fields["m_val"], 7.25);
    assert_eq!(graph.edges[0].target_object_index, 1);
}

#[test]
fn unqualified_flag_four_is_not_silently_skipped() {
    let value = Field {
        base: 4,
        uninterpreted_flags: 4,
        ..field("m_refCt")
    };
    let registry = registry(vec![class(12, "OtherClass", 0, vec![value])]);
    assert!(decode_graph(&[12, 0, 1, 0, 0, 0], &registry)
        .unwrap_err()
        .message
        .contains("unsupported native field flags"));
}

#[test]
fn adaptive_budget_recovers_from_an_exhausted_value_budget() {
    let registry = registry(vec![
        class(12, "Root", 0, vec![pointer_field("child")]),
        class(13, "Child", 0, vec![field("value")]),
    ]);
    let mut body = 12u16.to_le_bytes().to_vec();
    append_pointer(&mut body, 7, 13);
    body.extend(123u32.to_le_bytes());
    let (graph, usage, retried) =
        decode_graph_with_adaptive_budget(&body, &registry, 1, 10, None).unwrap();
    assert!(retried);
    assert_eq!(usage.values, 2);
    assert_eq!(usage.objects, 2);
    assert_eq!(json(&graph.objects[1].fields)["value"], 123);
    let (_, _, retried) =
        decode_graph_with_adaptive_budget(&body, &registry, 2, 10, None).unwrap();
    assert!(!retried);
}

#[test]
fn adaptive_budget_keeps_a_refusal_that_is_no_budget_failure() {
    let registry = registry(vec![class(
        12,
        "Base",
        0,
        vec![field("same"), field("same")],
    )]);
    let body = [12, 0, 1, 0, 0, 0, 2, 0, 0, 0];
    let plain = decode_graph(&body, &registry).unwrap_err().message;
    let adaptive = decode_graph_with_adaptive_budget(&body, &registry, 100, 100, None)
        .unwrap_err()
        .message;
    assert_eq!(adaptive, plain);
}

#[test]
fn adaptive_budget_failure_after_a_retry_names_both_failures() {
    let registry = registry(vec![
        class(12, "Root", 0, vec![pointer_field("child")]),
        class(13, "Child", 0, vec![field("first"), field("second")]),
    ]);
    let mut body = 12u16.to_le_bytes().to_vec();
    append_pointer(&mut body, 7, 13);
    body.extend(1u32.to_le_bytes());
    let error = decode_graph_with_adaptive_budget(&body, &registry, 1, 10, None)
        .unwrap_err()
        .message;
    assert!(
        error.starts_with("adaptive graph retry (4, 10 values/objects) failed: "),
        "{error}"
    );
    assert!(error.contains("truncated native field at 12"), "{error}");
    assert!(
        error.contains("; prior failure: ") && error.contains("native field value budget exceeded (1)"),
        "{error}"
    );
}

#[test]
fn decoded_graph_edges_reach_decoded_objects_of_their_class() {
    let registry = registry(vec![
        class(12, "Root", 0, vec![pointer_field("a"), pointer_field("b")]),
        class(13, "Node", 0, vec![pointer_field("next")]),
    ]);
    let mut body = 12u16.to_le_bytes().to_vec();
    for token in [5, 6, 5, 0] {
        append_pointer(&mut body, token, 13);
    }
    body.truncate(body.len() - 2);
    let graph = decode_graph(&body, &registry).unwrap();
    assert_eq!(graph.consumed_bytes, body.len());
    for edge in &graph.edges {
        assert!(edge.source_object_index < graph.objects.len());
        assert!(edge.pointer_token != 0);
        assert_eq!(
            graph.objects[edge.target_object_index].class_tag,
            edge.target_class_tag
        );
    }
    let five: Vec<_> = graph
        .edges
        .iter()
        .filter(|edge| edge.pointer_token == 5)
        .map(|edge| edge.target_object_index)
        .collect();
    assert_eq!(five, vec![1, 1]);
}
