use rvt_native::delivery::{GraphicsFacts, MetadataFacts, PrimitiveShape};
use rvt_native::join::{join_records, JoinError};

fn record(id: u64, uid: &str, complete: bool) -> MetadataFacts {
    MetadataFacts {
        element_id: id,
        unique_id: uid.into(),
        class_name: Some("SWall".into()),
        body_bytes: 10,
        metadata_complete: complete,
    }
}

fn graphics(id: u64, uid: &str, renderable: bool) -> GraphicsFacts {
    let shape = if renderable {
        PrimitiveShape { vertices: 3, normals: 0, triangles: 1 }
    } else {
        PrimitiveShape { vertices: 0, normals: 0, triangles: 0 }
    };
    GraphicsFacts {
        element_id: id,
        unique_id: uid.into(),
        identity_element_id: id,
        body_bytes: Some(20),
        status: "decoded_saved_graphics".into(),
        primitives: vec![shape],
        diagnostics: 0,
        unbounded_faces: 0,
        empty_trim_faces: 0,
        rejected_filters: 0,
        unresolved_material_primitives: 0,
    }
}

#[test]
fn join_keeps_both_populations_in_key_order() {
    let records = vec![record(2, "b", true), record(1, "a", true), record(4, "d", false)];
    let scene = vec![graphics(1, "a", true), graphics(3, "c", true), graphics(4, "d", false), graphics(5, "e", false)];
    let package = join_records("doc", records, scene, Some("abc".into()), vec![]).unwrap();
    let keys: Vec<&str> = package.elements.iter().map(|e| e.key.as_str()).collect();
    assert_eq!(keys, vec!["doc:a", "doc:b", "doc:c", "doc:d"]);
    let statuses: Vec<&str> = package.elements.iter().map(|e| e.status).collect();
    assert_eq!(
        statuses,
        vec!["complete_supported_subset", "metadata_only", "geometry_only", "metadata_with_nonrenderable_graphics"]
    );
    let metric_keys: Vec<&str> = package.metrics.iter().map(|m| m.element_key.as_str()).collect();
    assert_eq!(metric_keys, vec!["doc:a", "doc:b", "doc:c", "doc:d", "doc:e"]);
    assert!(package.metrics[4].graphics_present && !package.metrics[4].metadata_present);
    assert!(!package.metrics[4].geometry_retained);
    assert_eq!(package.metrics[0].element_id, 1);
    assert_eq!(package.source_sha256.as_deref(), Some("abc"));
    assert_eq!(package.status, "partial");
}

#[test]
fn complete_and_empty_joins() {
    let package = join_records("doc", vec![record(1, "a", true)], vec![graphics(1, "a", true)], None, vec![]).unwrap();
    assert_eq!(package.status, "complete_supported_subset");
    let empty = join_records("doc", vec![], vec![graphics(9, "z", false)], None, vec![]).unwrap();
    assert_eq!(empty.status, "empty");
    assert!(empty.elements.is_empty());
    assert_eq!(empty.metrics.len(), 1);
}

#[test]
fn join_refusals() {
    assert_eq!(join_records(" \t", vec![], vec![], None, vec![]).unwrap_err(), JoinError::NamespaceRequired);
    assert_eq!(join_records("doc", vec![record(1, "", true)], vec![], None, vec![]).unwrap_err(), JoinError::EmptyUniqueId);
    assert_eq!(
        join_records("doc", vec![record(1, "a", true), record(2, "a", true)], vec![], None, vec![]).unwrap_err(),
        JoinError::DuplicateIdentity("doc:a".into())
    );
    assert_eq!(join_records("doc", vec![], vec![graphics(1, "", true)], None, vec![]).unwrap_err(), JoinError::EmptyGraphicsUniqueId);
    let mut mismatch = graphics(1, "a", true);
    mismatch.identity_element_id = 2;
    assert_eq!(join_records("doc", vec![], vec![mismatch], None, vec![]).unwrap_err(), JoinError::GraphicsIdentityMismatch);
    assert_eq!(
        join_records("doc", vec![], vec![graphics(1, "a", true), graphics(1, "a", false)], None, vec![]).unwrap_err(),
        JoinError::DuplicateGeometryIdentity("doc:a".into())
    );
    assert_eq!(
        join_records("doc", vec![record(1, "a", true)], vec![graphics(2, "a", true)], None, vec![]).unwrap_err(),
        JoinError::UniqueIdConflict
    );
    assert_eq!(
        join_records("doc", vec![record(1, "a", true)], vec![graphics(1, "b", true)], None, vec![]).unwrap_err(),
        JoinError::NumericIdConflict
    );
    // A saved-scene owner without renderable geometry takes no part in the identity check.
    assert!(join_records("doc", vec![record(1, "a", true)], vec![graphics(1, "b", false)], None, vec![]).is_ok());
}

#[test]
fn join_coverage_counts_statuses_and_retained_geometry() {
    let records = vec![record(2, "b", true), record(1, "a", true), record(4, "d", false)];
    let mut a = graphics(1, "a", true);
    a.unresolved_material_primitives = 2;
    let scene = vec![a, graphics(3, "c", true), graphics(4, "d", false), graphics(5, "e", false)];
    let package = join_records("doc", records, scene, None, vec![]).unwrap();
    let c = &package.coverage;
    assert_eq!(c.records, 4);
    assert_eq!((c.partial_records, c.metadata_only_records), (0, 1));
    assert_eq!((c.nonrenderable_graphics_records, c.geometry_only_records), (1, 1));
    assert_eq!(c.unresolved_material_primitives, 2);
    assert_eq!((c.renderable_vertices, c.renderable_triangles), (6, 2));
    // Carried diagnostics keep an otherwise complete package partial.
    let complete = join_records("doc", vec![record(1, "a", true)], vec![graphics(1, "a", true)], None, vec!["refused".into()]).unwrap();
    assert_eq!(complete.status, "partial");
    assert_eq!(complete.coverage.diagnostics, vec!["refused".to_string()]);
}

#[test]
fn omits_empty_geometry_rows_but_keeps_metadata_rows() {
    let mut empty = graphics(1, "uid-a", false);
    empty.status = "partial_saved_graphics".into();
    empty.primitives = vec![];
    let package =
        join_records("doc-a", vec![record(2, "uid-b", false)], vec![empty], Some("rev-1".into()), vec![]).unwrap();
    assert_eq!(package.source_sha256.as_deref(), Some("rev-1"));
    let keys: Vec<&str> = package.elements.iter().map(|e| e.key.as_str()).collect();
    assert_eq!(keys, vec!["doc-a:uid-b"]);
    assert_eq!(package.coverage.metadata_only_records, 1);
    assert_eq!(package.coverage.geometry_only_records, 0);
    assert_eq!(package.metrics.len(), 2);
}
