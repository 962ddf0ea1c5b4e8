use rvt_native::embedded::Summary;
use rvt_native::projection::{embedded_projection_status, projection_status};

#[test]
fn unsupported_embedded_profile_is_explicitly_unsupported() {
    let summary = Summary {
        status: "unsupported_profile".into(),
        reason: Some("Revit 2023 framing is not qualified".into()),
        ..Default::default()
    };
    let projection = embedded_projection_status(&summary);
    assert_eq!(projection.status, "unsupported");
    assert!(projection.reason.is_some());
}

#[test]
fn embedded_refusals_prevent_complete_projection_claim() {
    let summary = Summary {
        status: "complete".into(),
        unsupported_graph_records: 1,
        ..Default::default()
    };
    assert_eq!(embedded_projection_status(&summary).status, "partial");
}

#[test]
fn clean_embedded_projection_can_be_complete() {
    let summary = Summary {
        status: "complete".into(),
        ..Default::default()
    };
    assert_eq!(embedded_projection_status(&summary).status, "complete");
}

#[test]
fn projection_error_taints_present_projection() {
    let projection = projection_status(true, Some("builder failed"), true, None);
    assert_eq!(projection.status, "failed");
}

#[test]
fn absent_projection_is_not_run_even_with_complete_semantics() {
    let projection = projection_status(false, None, true, None);
    assert_eq!(projection.status, "not_run");
}

#[test]
fn semantic_incompleteness_is_partial() {
    let projection = projection_status(true, None, false, Some("parity unavailable".into()));
    assert_eq!(projection.status, "partial");
    assert_eq!(projection.reason.as_deref(), Some("parity unavailable"));
}

#[test]
fn failed_projection_carries_the_recorded_error() {
    let projection = projection_status(false, Some("decoder refused"), false, Some("ignored".into()));
    assert_eq!(projection.status, "failed");
    assert_eq!(projection.reason.as_deref(), Some("decoder refused"));
}

#[test]
fn embedded_scan_failure_is_failed() {
    let summary = Summary {
        status: "refused".into(),
        ..Default::default()
    };
    assert_eq!(embedded_projection_status(&summary).status, "failed");
}

use rvt_native::world_model::{
    projection_coverage, run_outcome, wall_joins_fact, world_model_outcome, DocumentCoverage, NetworkFacts, ParityFacts,
    SurfaceFacts, WorldModelFacts,
};

fn complete_facts() -> WorldModelFacts {
    WorldModelFacts {
        document: Some(DocumentCoverage {
            unsupported_graph_records: 0,
            unsupported_metadata_records: 0,
            definition_diagnostics: 0,
            selected_ids_without_records: 0,
            refused_graph_ids: 0,
            emitted_records: 5,
            selected_indexed_elements: 5,
        }),
        embedded: Some(Summary {
            status: "complete".into(),
            ..Default::default()
        }),
        equipment: Some(true),
        network: Some(NetworkFacts {
            complete_supported_network: true,
            complete_supported_connector_geometry: true,
        }),
        spatial_context: Some(true),
        materials: Some(true),
        lifecycle: Some(true),
        representations: Some(true),
        family_geometry: Some(true),
        spatial_boundaries: Some(ParityFacts {
            complete: true,
            diagnostics_empty: true,
        }),
        surfaces: Some(SurfaceFacts {
            complete_surface_parity: true,
            diagnostics_empty: true,
            texture_mapping_diagnostics_empty: true,
        }),
        revision_snapshot: Some(true),
        room_connections: Some(ParityFacts {
            complete: true,
            diagnostics_empty: true,
        }),
        extensible_storage: Some(ParityFacts {
            complete: true,
            diagnostics_empty: true,
        }),
        wall_joins: Some(true),
    }
}

#[test]
fn coverage_lists_every_projection_in_name_order() {
    let coverage = projection_coverage(&complete_facts(), &[]);
    let names: Vec<&str> = coverage.iter().map(|(name, _)| *name).collect();
    assert_eq!(
        names,
        vec![
            "embedded_content",
            "equipment",
            "extensible_storage",
            "family_geometry",
            "lifecycle",
            "materials",
            "native_document",
            "network",
            "representations",
            "revision_snapshot",
            "room_connections",
            "spatial_boundaries",
            "spatial_context",
            "surfaces",
            "wall_joins",
        ]
    );
    assert!(coverage.iter().all(|(_, status)| status.status == "complete"));
}

#[test]
fn aborted_extraction_reports_missing_projections_as_not_run() {
    let mut facts = complete_facts();
    facts.equipment = None;
    facts.document = None;
    let coverage = projection_coverage(&facts, &[]);
    let equipment = &coverage[1].1;
    assert_eq!(equipment.status, "not_run");
    assert_eq!(
        equipment.reason.as_deref(),
        Some("extraction aborted before projection finalization")
    );
    assert_eq!(coverage[6].1.status, "not_run");
    assert_eq!(coverage[7].1.status, "complete");
}

#[test]
fn recorded_projection_diagnostic_fails_that_projection() {
    let diagnostics = vec![("network".to_string(), "decoder refused".to_string())];
    let coverage = projection_coverage(&complete_facts(), &diagnostics);
    assert_eq!(coverage[7].1.status, "failed");
    assert_eq!(coverage[7].1.reason.as_deref(), Some("decoder refused"));
    assert_eq!(coverage[5].1.status, "complete");
}

#[test]
fn incomplete_embedded_scan_qualifies_dependent_projections() {
    let mut facts = complete_facts();
    facts.embedded = Some(Summary {
        status: "unsupported_profile".into(),
        reason: Some("profile not qualified".into()),
        ..Default::default()
    });
    let coverage = projection_coverage(&facts, &[]);
    assert_eq!(coverage[0].1.status, "unsupported");
    assert_eq!(coverage[3].1.status, "partial");
    assert_eq!(coverage[3].1.reason.as_deref(), Some("profile not qualified"));
    assert_eq!(coverage[8].1.status, "partial");
    assert_eq!(coverage[4].1.status, "complete");
    assert_eq!(coverage[4].1.reason, None);
}

#[test]
fn refused_graph_records_are_named_in_the_document_reason() {
    let mut facts = complete_facts();
    if let Some(document) = facts.document.as_mut() {
        document.refused_graph_ids = 12;
    }
    let coverage = projection_coverage(&facts, &[]);
    assert_eq!(coverage[6].1.status, "complete");
    assert_eq!(coverage[6].1.reason.as_deref(), Some("12 graph records refused"));
}

#[test]
fn absent_optional_projections_are_partial_not_aborted() {
    let mut facts = complete_facts();
    facts.room_connections = None;
    facts.wall_joins = None;
    let coverage = projection_coverage(&facts, &[]);
    assert_eq!(coverage[10].1.status, "partial");
    assert_eq!(coverage[14].1.status, "partial");
}

#[test]
fn complete_run_is_a_bounded_inventory() {
    let outcome = world_model_outcome(&complete_facts());
    assert_eq!(outcome.status, "bounded_inventory_extracted");
    assert!(outcome.complete_world_model);
    assert_eq!(outcome.exit_code, 0);
}

#[test]
fn missing_projection_makes_run_partial() {
    let mut facts = complete_facts();
    facts.surfaces = None;
    let outcome = world_model_outcome(&facts);
    assert_eq!(outcome.status, "partial_native_inventory");
    assert!(!outcome.complete_world_model);
    assert_eq!(outcome.exit_code, 2);
}

#[test]
fn record_count_mismatch_makes_run_partial() {
    let mut facts = complete_facts();
    if let Some(document) = facts.document.as_mut() {
        document.emitted_records = 4;
    }
    assert_eq!(world_model_outcome(&facts).exit_code, 2);
}

#[test]
fn failed_extraction_exits_one_and_keeps_its_error() {
    let outcome = run_outcome(Err("read stream: truncated".to_string()), None, &complete_facts());
    assert_eq!(outcome.status, "failed");
    assert!(!outcome.complete_world_model);
    assert_eq!(outcome.exit_code, 1);
    assert_eq!(outcome.error.as_deref(), Some("read stream: truncated"));
    let outcome = run_outcome(Ok(()), Some("source changed during extraction".into()), &complete_facts());
    assert_eq!(outcome.exit_code, 0);
    assert_eq!(outcome.status, "bounded_inventory_extracted");
    assert_eq!(outcome.error.as_deref(), Some("source changed during extraction"));
    let mut partial = complete_facts();
    partial.document.as_mut().unwrap().unsupported_graph_records = 1;
    let outcome = run_outcome(Ok(()), None, &partial);
    assert_eq!((outcome.status, outcome.exit_code, outcome.error), ("partial_native_inventory", 2, None));
}

#[test]
fn wall_joins_are_clean_without_diagnostics() {
    assert_eq!(wall_joins_fact(None), None);
    assert_eq!(wall_joins_fact(Some(&vec![None, None])), Some(true));
    assert_eq!(wall_joins_fact(Some(&vec![None, Some("unresolved join".to_string())])), Some(false));
}
