//! Projection coverage and completeness of a world-model extraction,
//! decided from what each projection reported.
use vstd::prelude::*;

use crate::embedded::Summary;
use crate::projection::{embedded_projection_status, projection_status, ProjectionStatus};
use crate::text::{decimal, decimal_text, push_str, str_eq};

verus! {

/// What the native document extraction reported.
#[derive(Clone, Copy, Debug)]
pub struct DocumentCoverage {
    pub unsupported_graph_records: usize,
    pub unsupported_metadata_records: usize,
    pub definition_diagnostics: usize,
    pub selected_ids_without_records: usize,
    pub refused_graph_ids: usize,
    pub emitted_records: usize,
    pub selected_indexed_elements: usize,
}

/// A projection checked for parity, and whether it left diagnostics.
#[derive(Clone, Copy, Debug)]
pub struct ParityFacts {
    pub complete: bool,
    pub diagnostics_empty: bool,
}

/// What the network projection reported.
#[derive(Clone, Copy, Debug)]
pub struct NetworkFacts {
    pub complete_supported_network: bool,
    pub complete_supported_connector_geometry: bool,
}

/// What the surface projection reported.
#[derive(Clone, Copy, Debug)]
pub struct SurfaceFacts {
    pub complete_surface_parity: bool,
    pub diagnostics_empty: bool,
    pub texture_mapping_diagnostics_empty: bool,
}

/// What each projection of a world-model run produced; `None` where the
/// projection produced nothing.
#[derive(Clone, Debug)]
pub struct WorldModelFacts {
    pub document: Option<DocumentCoverage>,
    pub embedded: Option<Summary>,
    /// Whether every selected equipment owner was projected.
    pub equipment: Option<bool>,
    pub network: Option<NetworkFacts>,
    pub spatial_context: Option<bool>,
    pub materials: Option<bool>,
    pub lifecycle: Option<bool>,
    /// Whether every supported representation declaration was projected.
    pub representations: Option<bool>,
    /// Whether every supported family geometry was projected.
    pub family_geometry: Option<bool>,
    pub spatial_boundaries: Option<ParityFacts>,
    pub surfaces: Option<SurfaceFacts>,
    /// Whether the current record inventory is complete.
    pub revision_snapshot: Option<bool>,
    pub room_connections: Option<ParityFacts>,
    pub extensible_storage: Option<ParityFacts>,
    /// Whether every wall join resolved without a diagnostic.
    pub wall_joins: Option<bool>,
}

/// A projection status as text.
pub open spec fn status_view(p: ProjectionStatus) -> (Seq<char>, Option<Seq<char>>) {
    (
        p.status@,
        match p.reason {
            Some(s) => Some(s@),
            None => None,
        },
    )
}

/// [`projection_status`] as text.
pub open spec fn spec_projection_status(
    present: bool,
    error: Option<Seq<char>>,
    complete: bool,
    reason: Option<Seq<char>>,
) -> (Seq<char>, Option<Seq<char>>) {
    match error {
        Some(e) => ("failed"@, Some(e)),
        None => if !present {
            ("not_run"@, reason)
        } else if complete {
            ("complete"@, reason)
        } else {
            ("partial"@, reason)
        },
    }
}

/// [`embedded_projection_status`] as text.
pub open spec fn spec_embedded_status(s: Summary) -> (Seq<char>, Option<Seq<char>>) {
    (
        if s.status@ == "complete"@ {
            if s.unsupported_graph_records == 0 && s.unresolved_current_rows@.len() == 0 {
                "complete"@
            } else {
                "partial"@
            }
        } else if s.status@ == "unsupported_profile"@ {
            "unsupported"@
        } else {
            "failed"@
        },
        match s.reason {
            Some(r) => Some(r@),
            None => None,
        },
    )
}

/// The recorded failure of a projection: the first diagnostic under its name.
pub open spec fn diagnostic_for(ds: Seq<(String, String)>, name: Seq<char>) -> Option<Seq<char>>
    decreases ds.len(),
{
    if ds.len() == 0 {
        None
    } else if ds[0].0@ == name {
        Some(ds[0].1@)
    } else {
        diagnostic_for(ds.drop_first(), name)
    }
}

fn lookup_diagnostic<'a>(ds: &'a [(String, String)], name: &str) -> (r: Option<&'a str>)
    ensures
        match diagnostic_for(ds@, name@) {
            Some(m) => r matches Some(t) && t@ == m,
            None => r is None,
        },
{
    let mut i: usize = 0;
    proof {
        assert(ds@.skip(0) =~= ds@);
    }
    while i < ds.len()
        invariant
            i <= ds@.len(),
            diagnostic_for(ds@, name@) == diagnostic_for(ds@.skip(i as int), name@),
        decreases ds@.len() - i,
    {
        proof {
            assert(ds@.skip(i as int).drop_first() =~= ds@.skip(i + 1));
            assert(ds@.skip(i as int)[0] == ds@[i as int]);
        }
        if str_eq(ds[i].0.as_str(), name) {
            return Some(ds[i].1.as_str());
        }
        i += 1;
    }
    proof {
        assert(ds@.skip(i as int) =~= Seq::<(String, String)>::empty());
    }
    None
}

/// The embedded scan completed.
pub open spec fn embedded_complete(f: WorldModelFacts) -> bool {
    f.embedded matches Some(e) && e.status@ == "complete"@
}

/// Why a projection that depends on embedded content (representations
/// and family geometry) is qualified: the embedded scan's reason, when the
/// scan did not complete.
pub open spec fn dependency_reason(f: WorldModelFacts, dependent: bool) -> Option<Seq<char>> {
    if dependent && !embedded_complete(f) {
        match f.embedded {
            Some(e) => match e.reason {
                Some(r) => Some(r@),
                None => None,
            },
            None => None,
        }
    } else {
        None
    }
}

/// The names of the projections, in name order.
pub open spec fn projection_names() -> Seq<Seq<char>> {
    seq![
        "embedded_content"@,
        "equipment"@,
        "extensible_storage"@,
        "family_geometry"@,
        "lifecycle"@,
        "materials"@,
        "native_document"@,
        "network"@,
        "representations"@,
        "revision_snapshot"@,
        "room_connections"@,
        "spatial_boundaries"@,
        "spatial_context"@,
        "surfaces"@,
        "wall_joins"@,
    ]
}

/// A projection that ran: its status from its recorded failure, its
/// completeness and its dependency reason.
pub open spec fn ran(f: WorldModelFacts, ds: Seq<(String, String)>, i: int, complete: bool) -> (Seq<char>, Option<Seq<char>>) {
    spec_projection_status(true, diagnostic_for(ds, projection_names()[i]), complete, dependency_reason(f, i == 3 || i == 8))
}

/// A projection the run never finalized.
pub open spec fn aborted() -> (Seq<char>, Option<Seq<char>>) {
    ("not_run"@, Some("extraction aborted before projection finalization"@))
}

/// The reason the document projection carries: how many graph records
/// were refused, when any were.
pub open spec fn refused_reason(d: DocumentCoverage) -> Option<Seq<char>> {
    if d.refused_graph_ids > 0 {
        Some(decimal_text(d.refused_graph_ids as nat) + " graph records refused"@)
    } else {
        None
    }
}

/// The status of the projection at position `i` of [`projection_names`].
pub open spec fn expected_projection(f: WorldModelFacts, ds: Seq<(String, String)>, i: int) -> (Seq<char>, Option<Seq<char>>) {
    if i == 0 {
        match f.embedded {
            Some(e) => spec_embedded_status(e),
            None => aborted(),
        }
    } else if i == 1 {
        match f.equipment {
            Some(c) => ran(f, ds, i, c),
            None => aborted(),
        }
    } else if i == 2 {
        ran(f, ds, i, f.extensible_storage matches Some(p) && p.complete && p.diagnostics_empty)
    } else if i == 3 {
        match f.family_geometry {
            Some(c) => ran(f, ds, i, c && embedded_complete(f)),
            None => aborted(),
        }
    } else if i == 4 {
        match f.lifecycle {
            Some(c) => ran(f, ds, i, c),
            None => aborted(),
        }
    } else if i == 5 {
        match f.materials {
            Some(c) => ran(f, ds, i, c),
            None => aborted(),
        }
    } else if i == 6 {
        match f.document {
            Some(d) => spec_projection_status(
                true,
                diagnostic_for(ds, projection_names()[i]),
                d.unsupported_graph_records == 0 && d.unsupported_metadata_records == 0
                    && d.definition_diagnostics == 0 && d.selected_ids_without_records == 0,
                refused_reason(d),
            ),
            None => aborted(),
        }
    } else if i == 7 {
        match f.network {
            Some(n) => ran(f, ds, i, n.complete_supported_network && n.complete_supported_connector_geometry),
            None => aborted(),
        }
    } else if i == 8 {
        match f.representations {
            Some(c) => ran(f, ds, i, c && embedded_complete(f)),
            None => aborted(),
        }
    } else if i == 9 {
        ran(f, ds, i, f.revision_snapshot == Some(true))
    } else if i == 10 {
        ran(f, ds, i, f.room_connections matches Some(p) && p.complete && p.diagnostics_empty)
    } else if i == 11 {
        match f.spatial_boundaries {
            Some(p) => ran(f, ds, i, p.complete && p.diagnostics_empty),
            None => aborted(),
        }
    } else if i == 12 {
        match f.spatial_context {
            Some(c) => ran(f, ds, i, c),
            None => aborted(),
        }
    } else if i == 13 {
        match f.surfaces {
            Some(s) => ran(f, ds, i, s.complete_surface_parity && s.diagnostics_empty),
            None => aborted(),
        }
    } else {
        ran(f, ds, i, f.wall_joins == Some(true))
    }
}

fn embedded_reason(facts: &WorldModelFacts, dependent: bool) -> (r: Option<String>)
    ensures
        match dependency_reason(*facts, dependent) {
            Some(t) => r matches Some(s) && s@ == t,
            None => r is None,
        },
{
    let complete = match &facts.embedded {
        Some(e) => str_eq(e.status.as_str(), "complete"),
        None => false,
    };
    if dependent && !complete {
        match &facts.embedded {
            Some(e) => match &e.reason {
                Some(r) => Some(r.clone()),
                None => None,
            },
            None => None,
        }
    } else {
        None
    }
}

fn ran_status(facts: &WorldModelFacts, ds: &[(String, String)], name: &'static str, i: usize, complete: bool) -> (r: (&'static str, ProjectionStatus))
    requires
        i < 15,
        name@ == projection_names()[i as int],
    ensures
        r.0 == name,
        status_view(r.1) == ran(*facts, ds@, i as int, complete),
{
    let p = projection_status(true, lookup_diagnostic(ds, name), complete, embedded_reason(facts, i == 3 || i == 8));
    (name, p)
}

fn aborted_status(name: &'static str) -> (r: (&'static str, ProjectionStatus))
    ensures
        r.0 == name,
        status_view(r.1) == aborted(),
{
    let p = ProjectionStatus { status: "not_run", reason: Some("extraction aborted before projection finalization".to_owned()) };
    proof {
        reveal_strlit("not_run");
    }
    (name, p)
}

/// The name of the projection at position `i` of [`projection_names`].
fn projection_name(i: usize) -> (r: &'static str)
    requires
        i < 15,
    ensures
        r@ == projection_names()[i as int],
{
    proof {
        reveal_strlit("embedded_content");
        reveal_strlit("equipment");
        reveal_strlit("extensible_storage");
        reveal_strlit("family_geometry");
        reveal_strlit("lifecycle");
        reveal_strlit("materials");
        reveal_strlit("native_document");
        reveal_strlit("network");
        reveal_strlit("representations");
        reveal_strlit("revision_snapshot");
        reveal_strlit("room_connections");
        reveal_strlit("spatial_boundaries");
        reveal_strlit("spatial_context");
        reveal_strlit("surfaces");
        reveal_strlit("wall_joins");
    }
    if i == 0 {
        "embedded_content"
    } else if i == 1 {
        "equipment"
    } else if i == 2 {
        "extensible_storage"
    } else if i == 3 {
        "family_geometry"
    } else if i == 4 {
        "lifecycle"
    } else if i == 5 {
        "materials"
    } else if i == 6 {
        "native_document"
    } else if i == 7 {
        "network"
    } else if i == 8 {
        "representations"
    } else if i == 9 {
        "revision_snapshot"
    } else if i == 10 {
        "room_connections"
    } else if i == 11 {
        "spatial_boundaries"
    } else if i == 12 {
        "spatial_context"
    } else if i == 13 {
        "surfaces"
    } else {
        "wall_joins"
    }
}

fn embedded_done(facts: &WorldModelFacts) -> (r: bool)
    ensures
        r == embedded_complete(*facts),
{
    proof {
        reveal_strlit("complete");
    }
    match &facts.embedded {
        Some(e) => str_eq(e.status.as_str(), "complete"),
        None => false,
    }
}

fn document_entry(facts: &WorldModelFacts, ds: &[(String, String)], name: &'static str) -> (r: (&'static str, ProjectionStatus))
    requires
        name@ == projection_names()[6],
    ensures
        r.0 == name,
        status_view(r.1) == expected_projection(*facts, ds@, 6),
{
    match &facts.document {
        Some(d) => {
            let reason = if d.refused_graph_ids > 0 {
                let mut t = decimal(d.refused_graph_ids);
                let ghost n = t@;
                push_str(&mut t, " graph records refused");
                assert(t@ == n + " graph records refused"@);
                Some(t)
            } else {
                None
            };
            let complete = d.unsupported_graph_records == 0 && d.unsupported_metadata_records == 0
                && d.definition_diagnostics == 0 && d.selected_ids_without_records == 0;
            (name, projection_status(true, lookup_diagnostic(ds, name), complete, reason))
        },
        None => aborted_status(name),
    }
}

/// The entries at positions 0 to 7.
fn entry_low(facts: &WorldModelFacts, ds: &[(String, String)], i: usize) -> (r: (&'static str, ProjectionStatus))
    requires
        i < 8,
    ensures
        r.0@ == projection_names()[i as int],
        status_view(r.1) == expected_projection(*facts, ds@, i as int),
{
    let name = projection_name(i);
    if i == 0 {
        match &facts.embedded {
            Some(e) => (name, embedded_projection_status(e)),
            None => aborted_status(name),
        }
    } else if i == 1 {
        match facts.equipment {
            Some(c) => ran_status(facts, ds, name, i, c),
            None => aborted_status(name),
        }
    } else if i == 2 {
        let storage = match facts.extensible_storage {
            Some(p) => p.complete && p.diagnostics_empty,
            None => false,
        };
        ran_status(facts, ds, name, i, storage)
    } else if i == 3 {
        match facts.family_geometry {
            Some(c) => ran_status(facts, ds, name, i, c && embedded_done(facts)),
            None => aborted_status(name),
        }
    } else if i == 4 {
        match facts.lifecycle {
            Some(c) => ran_status(facts, ds, name, i, c),
            None => aborted_status(name),
        }
    } else if i == 5 {
        match facts.materials {
            Some(c) => ran_status(facts, ds, name, i, c),
            None => aborted_status(name),
        }
    } else if i == 6 {
        document_entry(facts, ds, name)
    } else {
        match facts.network {
            Some(n) => ran_status(facts, ds, name, i, n.complete_supported_network && n.complete_supported_connector_geometry),
            None => aborted_status(name),
        }
    }
}

/// The entries at positions 8 to 14.
fn entry_high(facts: &WorldModelFacts, ds: &[(String, String)], i: usize) -> (r: (&'static str, ProjectionStatus))
    requires
        8 <= i < 15,
    ensures
        r.0@ == projection_names()[i as int],
        status_view(r.1) == expected_projection(*facts, ds@, i as int),
{
    let name = projection_name(i);
    if i == 8 {
        match facts.representations {
            Some(c) => ran_status(facts, ds, name, i, c && embedded_done(facts)),
            None => aborted_status(name),
        }
    } else if i == 9 {
        let revision = match facts.revision_snapshot {
            Some(c) => c,
            None => false,
        };
        ran_status(facts, ds, name, i, revision)
    } else if i == 10 {
        let rooms = match facts.room_connections {
            Some(p) => p.complete && p.diagnostics_empty,
            None => false,
        };
        ran_status(facts, ds, name, i, rooms)
    } else if i == 11 {
        match facts.spatial_boundaries {
            Some(p) => ran_status(facts, ds, name, i, p.complete && p.diagnostics_empty),
            None => aborted_status(name),
        }
    } else if i == 12 {
        match facts.spatial_context {
            Some(c) => ran_status(facts, ds, name, i, c),
            None => aborted_status(name),
        }
    } else if i == 13 {
        match facts.surfaces {
            Some(s) => ran_status(facts, ds, name, i, s.complete_surface_parity && s.diagnostics_empty),
            None => aborted_status(name),
        }
    } else {
        let walls = match facts.wall_joins {
            Some(c) => c,
            None => false,
        };
        ran_status(facts, ds, name, i, walls)
    }
}

/// The status of every projection of a run, in name order: projections
/// that produced nothing are reported as not run.
pub fn projection_coverage(facts: &WorldModelFacts, diagnostics: &[(String, String)]) -> (r: Vec<(&'static str, ProjectionStatus)>)
    ensures
        r@.len() == projection_names().len(),
        forall|i: int| 0 <= i < r@.len() ==> (#[trigger] r@[i]).0@ == projection_names()[i]
            && status_view(r@[i].1) == expected_projection(*facts, diagnostics@, i),
{
    let mut r: Vec<(&'static str, ProjectionStatus)> = Vec::new();
    let mut i: usize = 0;
    while i < 15
        invariant
            i <= 15,
            r@.len() == i,
            forall|k: int| 0 <= k < i ==> (#[trigger] r@[k]).0@ == projection_names()[k]
                && status_view(r@[k].1) == expected_projection(*facts, diagnostics@, k),
        decreases 15 - i,
    {
        let e = if i < 8 { entry_low(facts, diagnostics, i) } else { entry_high(facts, diagnostics, i) };
        r.push(e);
        i += 1;
    }
    r
}

/// How a successful run ends.
#[derive(Clone, Copy, Debug)]
pub struct WorldModelOutcome {
    pub status: &'static str,
    pub complete_world_model: bool,
    pub exit_code: u8,
}

/// A successful run is incomplete when a projection produced nothing,
/// left diagnostics, was not complete, or the document emitted other
/// records than were selected.
pub open spec fn incomplete(f: WorldModelFacts) -> bool {
    ||| f.equipment is None || f.network is None || f.spatial_context is None || f.materials is None
    ||| f.lifecycle is None || f.representations is None || f.family_geometry is None
    ||| f.spatial_boundaries is None || f.surfaces is None || f.embedded is None
    ||| !f.network->0.complete_supported_connector_geometry
    ||| f.wall_joins == Some(false)
    ||| f.revision_snapshot == Some(false)
    ||| !f.spatial_boundaries->0.diagnostics_empty
    ||| !f.surfaces->0.diagnostics_empty || !f.surfaces->0.texture_mapping_diagnostics_empty
    ||| !f.family_geometry->0
    ||| f.embedded->0.status@ != "complete"@ || f.embedded->0.unresolved_current_rows@.len() != 0
        || f.embedded->0.unsupported_graph_records > 0
    ||| !f.representations->0 || !f.lifecycle->0 || !f.materials->0
    ||| !f.network->0.complete_supported_network || !f.spatial_context->0 || !f.equipment->0
    ||| f.document->0.unsupported_graph_records > 0 || f.document->0.unsupported_metadata_records > 0
    ||| f.document->0.definition_diagnostics > 0 || f.document->0.selected_ids_without_records > 0
    ||| f.document->0.emitted_records != f.document->0.selected_indexed_elements
}

/// The outcome of a run whose extraction succeeded: a bounded inventory
/// (exit 0) when nothing is incomplete, else a partial native inventory
/// (exit 2).
pub fn world_model_outcome(facts: &WorldModelFacts) -> (r: WorldModelOutcome)
    requires
        facts.document is Some,
        facts.equipment is Some && facts.network is Some && facts.spatial_context is Some
            && facts.materials is Some && facts.lifecycle is Some && facts.representations is Some
            && facts.family_geometry is Some && facts.spatial_boundaries is Some
            && facts.surfaces is Some && facts.embedded is Some
            && facts.network->0.complete_supported_connector_geometry ==> facts.wall_joins is Some
            && (facts.wall_joins == Some(true) ==> facts.revision_snapshot is Some),
    ensures
        incomplete(*facts) ==> r.status@ == "partial_native_inventory"@ && !r.complete_world_model && r.exit_code == 2,
        !incomplete(*facts) ==> r.status@ == "bounded_inventory_extracted"@ && r.complete_world_model && r.exit_code == 0,
        (facts.equipment is None || facts.network is None || facts.spatial_context is None || facts.materials is None || facts.lifecycle is None || facts.representations is None || facts.family_geometry is None || facts.spatial_boundaries is None || facts.surfaces is None || facts.embedded is None) ==> r.status@ == "partial_native_inventory"@ && !r.complete_world_model && r.exit_code == 2,
        (facts.network matches Some(n) && !n.complete_supported_connector_geometry) ==> r.status@ == "partial_native_inventory"@ && !r.complete_world_model && r.exit_code == 2,
        (facts.wall_joins == Some(false)) ==> r.status@ == "partial_native_inventory"@ && !r.complete_world_model && r.exit_code == 2,
        (facts.revision_snapshot == Some(false)) ==> r.status@ == "partial_native_inventory"@ && !r.complete_world_model && r.exit_code == 2,
        (facts.spatial_boundaries matches Some(b) && !b.diagnostics_empty) ==> r.status@ == "partial_native_inventory"@ && !r.complete_world_model && r.exit_code == 2,
        (facts.surfaces matches Some(x) && (!x.diagnostics_empty || !x.texture_mapping_diagnostics_empty)) ==> r.status@ == "partial_native_inventory"@ && !r.complete_world_model && r.exit_code == 2,
        (facts.family_geometry == Some(false)) ==> r.status@ == "partial_native_inventory"@ && !r.complete_world_model && r.exit_code == 2,
        (facts.embedded matches Some(e) && (e.status@ != "complete"@ || e.unresolved_current_rows@.len() != 0 || e.unsupported_graph_records > 0)) ==> r.status@ == "partial_native_inventory"@ && !r.complete_world_model && r.exit_code == 2,
        (facts.representations == Some(false) || facts.lifecycle == Some(false) || facts.materials == Some(false)) ==> r.status@ == "partial_native_inventory"@ && !r.complete_world_model && r.exit_code == 2,
        (facts.network matches Some(n) && !n.complete_supported_network) ==> r.status@ == "partial_native_inventory"@ && !r.complete_world_model && r.exit_code == 2,
        (facts.spatial_context == Some(false) || facts.equipment == Some(false)) ==> r.status@ == "partial_native_inventory"@ && !r.complete_world_model && r.exit_code == 2,
        (facts.document matches Some(d) && d.unsupported_graph_records > 0) ==> r.status@ == "partial_native_inventory"@ && !r.complete_world_model && r.exit_code == 2,
        (facts.document matches Some(d) && d.unsupported_metadata_records > 0) ==> r.status@ == "partial_native_inventory"@ && !r.complete_world_model && r.exit_code == 2,
        (facts.document matches Some(d) && d.definition_diagnostics > 0) ==> r.status@ == "partial_native_inventory"@ && !r.complete_world_model && r.exit_code == 2,
        (facts.document matches Some(d) && d.selected_ids_without_records > 0) ==> r.status@ == "partial_native_inventory"@ && !r.complete_world_model && r.exit_code == 2,
        (facts.document matches Some(d) && d.emitted_records != d.selected_indexed_elements) ==> r.status@ == "partial_native_inventory"@ && !r.complete_world_model && r.exit_code == 2,
        r.exit_code == 0 ==> r.status@ == "bounded_inventory_extracted"@ && r.complete_world_model
            && facts.equipment == Some(true) && facts.spatial_context == Some(true) && facts.materials == Some(true)
            && facts.lifecycle == Some(true) && facts.representations == Some(true) && facts.family_geometry == Some(true)
            && facts.wall_joins == Some(true) && facts.revision_snapshot == Some(true)
            && (facts.network matches Some(n) && n.complete_supported_network && n.complete_supported_connector_geometry)
            && (facts.spatial_boundaries matches Some(b) && b.diagnostics_empty)
            && (facts.surfaces matches Some(x) && x.diagnostics_empty && x.texture_mapping_diagnostics_empty)
            && (facts.embedded matches Some(e) && e.status@ == "complete"@ && e.unresolved_current_rows@.len() == 0
                && e.unsupported_graph_records == 0)
            && (facts.document matches Some(d) && d.unsupported_graph_records == 0 && d.unsupported_metadata_records == 0
                && d.definition_diagnostics == 0 && d.selected_ids_without_records == 0
                && d.emitted_records == d.selected_indexed_elements),
        r.exit_code == 0 || r.exit_code == 2,
{
    let missing = facts.equipment.is_none() || facts.network.is_none() || facts.spatial_context.is_none()
        || facts.materials.is_none() || facts.lifecycle.is_none() || facts.representations.is_none()
        || facts.family_geometry.is_none() || facts.spatial_boundaries.is_none() || facts.surfaces.is_none()
        || facts.embedded.is_none();
    let bad = if missing {
        true
    } else if !facts.network.unwrap().complete_supported_connector_geometry {
        true
    } else if !facts.wall_joins.unwrap() {
        true
    } else if !facts.revision_snapshot.unwrap() {
        true
    } else {
        let b = facts.spatial_boundaries.unwrap();
        let s = facts.surfaces.unwrap();
        let n = facts.network.unwrap();
        let d = facts.document.unwrap();
        let e = facts.embedded.as_ref().unwrap();
        let embedded_bad = !str_eq(e.status.as_str(), "complete") || e.unresolved_current_rows.len() != 0
            || e.unsupported_graph_records > 0;
        !b.diagnostics_empty || !s.diagnostics_empty || !s.texture_mapping_diagnostics_empty
            || !facts.family_geometry.unwrap() || embedded_bad || !facts.representations.unwrap()
            || !facts.lifecycle.unwrap() || !facts.materials.unwrap() || !n.complete_supported_network
            || !facts.spatial_context.unwrap() || !facts.equipment.unwrap()
            || d.unsupported_graph_records > 0 || d.unsupported_metadata_records > 0
            || d.definition_diagnostics > 0 || d.selected_ids_without_records > 0
            || d.emitted_records != d.selected_indexed_elements
    };
    proof {
        reveal_strlit("complete");
    }
    if bad {
        WorldModelOutcome { status: "partial_native_inventory", complete_world_model: false, exit_code: 2 }
    } else {
        WorldModelOutcome { status: "bounded_inventory_extracted", complete_world_model: true, exit_code: 0 }
    }
}

} // verus!

verus! {

/// How a run ends, whether its extraction succeeded or failed.
#[derive(Clone, Debug)]
pub struct RunOutcome {
    pub status: &'static str,
    pub complete_world_model: bool,
    pub exit_code: u8,
    /// The error the report keeps.
    pub error: Option<String>,
}

/// Whether the facts hold what the completeness rule reads without checking
/// for it: the document coverage; and, once every projection is present
/// and the network's connector geometry complete, the wall joins, and the
/// revision snapshot when no wall join has a diagnostic.
pub open spec fn extraction_facts_present(facts: WorldModelFacts) -> bool {
    &&& facts.document is Some
    &&& facts.equipment is Some && facts.network is Some && facts.spatial_context is Some
        && facts.materials is Some && facts.lifecycle is Some && facts.representations is Some
        && facts.family_geometry is Some && facts.spatial_boundaries is Some
        && facts.surfaces is Some && facts.embedded is Some
        && facts.network->0.complete_supported_connector_geometry ==> facts.wall_joins is Some
            && (facts.wall_joins == Some(true) ==> facts.revision_snapshot is Some)
}

/// The end of a run: a failed extraction ends with status `failed`, exit
/// 1 and its error kept; a successful one ends as [`world_model_outcome`]
/// decides, keeping the error the source re-hash left, if any.
pub fn run_outcome(extraction: Result<(), String>, source_error: Option<String>, facts: &WorldModelFacts) -> (r: RunOutcome)
    requires
        extraction is Ok ==> extraction_facts_present(*facts),
    ensures
        extraction matches Err(e) ==> r.status@ == "failed"@ && !r.complete_world_model && r.exit_code == 1
            && r.error == Some(e),
        extraction is Ok ==> r.error == source_error && r.exit_code != 1,
        extraction is Ok && incomplete(*facts) ==> r.status@ == "partial_native_inventory"@ && !r.complete_world_model
            && r.exit_code == 2,
        extraction is Ok && !incomplete(*facts) ==> r.status@ == "bounded_inventory_extracted"@ && r.complete_world_model
            && r.exit_code == 0,
{
    match extraction {
        Err(e) => {
            proof {
                reveal_strlit("failed");
            }
            RunOutcome { status: "failed", complete_world_model: false, exit_code: 1, error: Some(e) }
        },
        Ok(()) => {
            let o = world_model_outcome(facts);
            RunOutcome {
                status: o.status,
                complete_world_model: o.complete_world_model,
                exit_code: o.exit_code,
                error: source_error,
            }
        },
    }
}

} // verus!

verus! {

/// The wall-joins fact of a run: none when no joins were read, else
/// whether no join carries a diagnostic.
pub fn wall_joins_fact(diagnostics: Option<&Vec<Option<String>>>) -> (r: Option<bool>)
    ensures
        match diagnostics {
            None => r is None,
            Some(v) => r == Some(forall|i: int| 0 <= i < v@.len() ==> (#[trigger] v@[i]) is None),
        },
{
    match diagnostics {
        None => None,
        Some(v) => {
            let mut i: usize = 0;
            while i < v.len()
                invariant
                    diagnostics == Some(v),
                    i <= v@.len(),
                    forall|k: int| 0 <= k < i ==> (#[trigger] v@[k]) is None,
                decreases v@.len() - i,
            {
                if v[i].is_some() {
                    return Some(false);
                }
                i += 1;
            }
            Some(true)
        },
    }
}

} // verus!

verus! {

/// Each of these makes a successful run a partial native inventory: a
/// projection that produced nothing, an incomplete projection or one with
/// diagnostics, an embedded scan that is not complete, and a document with
/// unsupported graphs or metadata, definition diagnostics, selected ids
/// without records, or fewer or more records than selected elements.
pub proof fn lemma_incompleteness_causes(facts: WorldModelFacts)
    ensures
        (facts.equipment is None || facts.network is None || facts.spatial_context is None || facts.materials is None || facts.lifecycle is None || facts.representations is None || facts.family_geometry is None || facts.spatial_boundaries is None || facts.surfaces is None || facts.embedded is None) ==> incomplete(facts),
        (facts.network matches Some(n) && !n.complete_supported_connector_geometry) ==> incomplete(facts),
        (facts.wall_joins == Some(false)) ==> incomplete(facts),
        (facts.revision_snapshot == Some(false)) ==> incomplete(facts),
        (facts.spatial_boundaries matches Some(b) && !b.diagnostics_empty) ==> incomplete(facts),
        (facts.surfaces matches Some(x) && (!x.diagnostics_empty || !x.texture_mapping_diagnostics_empty)) ==> incomplete(facts),
        (facts.family_geometry == Some(false)) ==> incomplete(facts),
        (facts.embedded matches Some(e) && (e.status@ != "complete"@ || e.unresolved_current_rows@.len() != 0 || e.unsupported_graph_records > 0)) ==> incomplete(facts),
        (facts.representations == Some(false) || facts.lifecycle == Some(false) || facts.materials == Some(false)) ==> incomplete(facts),
        (facts.network matches Some(n) && !n.complete_supported_network) ==> incomplete(facts),
        (facts.spatial_context == Some(false) || facts.equipment == Some(false)) ==> incomplete(facts),
        (facts.document matches Some(d) && d.unsupported_graph_records > 0) ==> incomplete(facts),
        (facts.document matches Some(d) && d.unsupported_metadata_records > 0) ==> incomplete(facts),
        (facts.document matches Some(d) && d.definition_diagnostics > 0) ==> incomplete(facts),
        (facts.document matches Some(d) && d.selected_ids_without_records > 0) ==> incomplete(facts),
        (facts.document matches Some(d) && d.emitted_records != d.selected_indexed_elements) ==> incomplete(facts),
{
}

} // verus!
