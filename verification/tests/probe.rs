use rvt_native::delivery::{check_identities, owner_metrics_row, GraphicsFacts, IdentityConflict, MetadataFacts, PrimitiveShape};
use rvt_native::document::{probe_record_in_group, read_single, read_single_envelope, ProbeError, StreamError};
use rvt_native::framing::GroupSource;
use std::io::Write;

fn member(text: &[u8]) -> Vec<u8> {
    let mut encoder = flate2::write::GzEncoder::new(Vec::new(), flate2::Compression::default());
    encoder.write_all(text).unwrap();
    encoder.finish().unwrap()
}

#[test]
fn global_streams_skip_their_prefix_except_the_schema() {
    let schema = member(b"schema");
    assert_eq!(read_single("Formats/Latest", &schema, 4096).unwrap(), b"schema");
    let mut history = vec![0u8; 8];
    history.extend_from_slice(&member(b"history"));
    let (payload, envelope) = read_single_envelope("Global/History", &history, 4096).unwrap();
    assert_eq!(payload, b"history");
    assert_eq!(envelope.member_offset, 8);
    assert!(read_single("Global/History", &schema[..5], 4096).is_err());
    assert_eq!(read_single("Global/History", &[1, 2, 3], 4096), Err(StreamError::TruncatedPrefix));
}

fn record(id: u32, body: &[u8]) -> Vec<u8> {
    let mut out = Vec::new();
    out.extend_from_slice(&id.to_le_bytes());
    out.extend_from_slice(&0xfeed_beefu32.to_le_bytes());
    out.extend_from_slice(&(body.len() as u32).to_le_bytes());
    out.extend_from_slice(body);
    out.extend_from_slice(&(body.len() as u32).to_le_bytes());
    out
}

fn group(objects: u64, bytes: u64) -> GroupSource {
    GroupSource {
        content_key: None,
        channel: 102,
        first_marker_offset: 40,
        segment_count: 1,
        declared_objects: objects,
        declared_body_bytes: bytes,
    }
}

#[test]
fn probe_reports_the_validated_frame_of_one_record() {
    let mut bytes = record(41, &[1]);
    bytes.extend_from_slice(&record(42, b"abc"));
    let probe = probe_record_in_group("Partitions/3", &group(2, 4), &bytes, 4, 102, 42).unwrap();
    assert_eq!(probe.element_id, 42);
    assert_eq!(probe.source.stream, "Partitions/3");
    assert_eq!(probe.source.group_record_offset, 17);
    assert_eq!(probe.source.body_bytes, 3);
    assert_eq!(probe.source.body_sha256, "ba7816bf8f01cfea414140de5dae2223b00361a396177a9cb410ff61f20015ad");
    assert_eq!(probe.header_hex, "2a000000efbeedfe03000000");
    assert_eq!(probe.trailer_hex, "03000000");
    assert_eq!(probe.body_hex, "616263");
    assert!(!probe.body_preview_truncated);
}

#[test]
fn probe_previews_at_most_the_bounded_body_prefix() {
    let body = vec![0xabu8; 70_000];
    let bytes = record(7, &body);
    let probe = probe_record_in_group("Partitions/0", &group(1, 70_000), &bytes, 4, 102, 7).unwrap();
    assert!(probe.body_preview_truncated);
    assert_eq!(probe.body_hex.len(), 2 * 65536);
    assert_eq!(probe.source.body_bytes, 70_000);
}

#[test]
fn probe_refusals_are_explicit() {
    let bytes = record(41, &[1]);
    let mut embedded = group(1, 1);
    embedded.content_key = Some([1; 16]);
    assert_eq!(probe_record_in_group("P", &embedded, &bytes, 4, 102, 41).unwrap_err(), ProbeError::EmbeddedContent);
    assert_eq!(probe_record_in_group("P", &group(1, 1), &bytes, 4, 103, 41).unwrap_err(), ProbeError::ChannelMismatch);
    assert!(matches!(probe_record_in_group("P", &group(2, 1), &bytes, 4, 102, 41), Err(ProbeError::Framing(_))));
    assert_eq!(probe_record_in_group("P", &group(1, 1), &bytes, 4, 102, 40).unwrap_err(), ProbeError::Absent);
}

#[test]
fn owner_metrics_measure_metadata_and_graphics() {
    let record = MetadataFacts {
        element_id: 5,
        unique_id: "uid".into(),
        class_name: Some("SWall".into()),
        body_bytes: 900,
        metadata_complete: true,
    };
    let graphics = GraphicsFacts {
        element_id: 5,
        unique_id: "uid".into(),
        identity_element_id: 5,
        body_bytes: Some(1200),
        status: "complete".into(),
        primitives: vec![
            PrimitiveShape { vertices: 3, normals: 3, triangles: 1 },
            PrimitiveShape { vertices: 0, normals: 0, triangles: 0 },
        ],
        diagnostics: 1,
        unbounded_faces: 2,
        empty_trim_faces: 0,
        rejected_filters: 1,
        unresolved_material_primitives: 1,
    };
    let row = owner_metrics_row("doc:uid".into(), Some(&record), Some(&graphics));
    assert_eq!(row.element_key, "doc:uid");
    assert_eq!(row.element_id, 5);
    assert_eq!(row.class_name.as_deref(), Some("SWall"));
    assert_eq!(row.metadata_body_bytes, Some(900));
    assert_eq!((row.primitive_count, row.renderable_primitive_count), (2, 1));
    assert_eq!((row.vertex_count, row.triangle_count, row.estimated_geometry_bytes), (3, 1, 3 * 24 + 3 * 24 + 12));
    assert_eq!(row.diagnostic_count, 4);
    assert!(row.geometry_retained);
    let only_graphics = owner_metrics_row("doc:g".into(), None, Some(&graphics));
    assert_eq!(only_graphics.element_id, 5);
    assert!(!only_graphics.metadata_present);
    let only_metadata = owner_metrics_row("doc:m".into(), Some(&record), None);
    assert!(!only_metadata.graphics_present && !only_metadata.geometry_retained);
    assert_eq!(only_metadata.primitive_count, 0);
}

#[test]
fn identities_must_correspond_one_to_one() {
    let a = ("uid-a".to_string(), 1u64);
    let b = ("uid-b".to_string(), 2u64);
    assert_eq!(check_identities(&[a.clone(), b.clone(), a.clone()]), Ok(()));
    assert_eq!(
        check_identities(&[a.clone(), ("uid-a".to_string(), 3)]),
        Err(IdentityConflict::UniqueIdConflict)
    );
    assert_eq!(
        check_identities(&[b.clone(), ("uid-c".to_string(), 2)]),
        Err(IdentityConflict::NumericIdConflict)
    );
}
