//! Delivery profiles, manifests and coverage rows, stable owner keys, and
//! the geometry estimates recorded per owner.
use vstd::prelude::*;
use std::collections::{BTreeMap, BTreeSet};

use crate::document::DefinitionContext;
use crate::extensible_storage::{extend_fold, Catalog, CatalogError, Schema};
use crate::native_category_profile::str_views;
use crate::text::{push_str, str_eq};

verus! {

/// Which artifacts a delivery package persists.
#[derive(Clone, Copy, Debug, PartialEq, Eq, Structural)]
pub enum DeliveryProfile {
    /// Viewer-ready 3D Tiles: manifest, attributes, tileset and binary GLBs.
    Tiles,
    /// Tiles plus domain tables used by rich project-data consumers.
    RichTiles,
    /// Rich tiles plus operational diagnostics and measurements.
    Audit,
}

impl Default for DeliveryProfile {
    fn default() -> (r: Self)
        ensures
            r == DeliveryProfile::Tiles,
    {
        DeliveryProfile::Tiles
    }
}

/// The manifest name of a profile.
pub open spec fn spec_manifest_name(p: DeliveryProfile) -> Seq<char> {
    match p {
        DeliveryProfile::Tiles => "tiles"@,
        DeliveryProfile::RichTiles => "rich-tiles"@,
        DeliveryProfile::Audit => "audit"@,
    }
}

/// The tables a profile emits, in manifest order.
pub open spec fn spec_tables(p: DeliveryProfile) -> Seq<Seq<char>> {
    let base = seq!["elements"@, "parameter_definitions"@, "parameter_bindings"@, "tileset"@];
    let rich = seq![
        "types"@,
        "relationships"@,
        "materials"@,
        "spatial_context"@,
        "spatial_boundaries"@,
        "room_connections"@,
        "network"@,
    ];
    let audit = seq!["metrics"@, "texture_mappings"@];
    match p {
        DeliveryProfile::Tiles => base,
        DeliveryProfile::RichTiles => base + rich,
        DeliveryProfile::Audit => base + rich + audit,
    }
}

impl DeliveryProfile {
    /// The name recorded in the manifest.
    pub fn manifest_name(self) -> (r: &'static str)
        ensures
            r@ == spec_manifest_name(self),
    {
        match self {
            DeliveryProfile::Tiles => "tiles",
            DeliveryProfile::RichTiles => "rich-tiles",
            DeliveryProfile::Audit => "audit",
        }
    }

    /// Whether the domain tables of rich consumers are emitted.
    pub fn emits_rich_tables(self) -> (r: bool)
        ensures
            r == (self != DeliveryProfile::Tiles),
    {
        match self {
            DeliveryProfile::Tiles => false,
            _ => true,
        }
    }

    /// Whether the operational diagnostics tables are emitted.
    pub fn emits_audit_tables(self) -> (r: bool)
        ensures
            r == (self == DeliveryProfile::Audit),
    {
        match self {
            DeliveryProfile::Audit => true,
            _ => false,
        }
    }

    /// The tables the profile emits; parameter definitions are document
    /// scoped and listed once rather than per element.
    pub fn tables(self) -> (r: Vec<&'static str>)
        ensures
            str_views(r@) == spec_tables(self),
    {
        let mut tables = vec!["elements", "parameter_definitions", "parameter_bindings", "tileset"];
        if self.emits_rich_tables() {
            tables.push("types");
            tables.push("relationships");
            tables.push("materials");
            tables.push("spatial_context");
            tables.push("spatial_boundaries");
            tables.push("room_connections");
            tables.push("network");
        }
        if self.emits_audit_tables() {
            tables.push("metrics");
            tables.push("texture_mappings");
        }
        proof {
            assert(str_views(tables@) =~= spec_tables(self));
        }
        tables
    }
}

/// Counts and diagnostics of what a package (or a shard) delivered.
#[derive(Clone, Debug, Default)]
pub struct Coverage {
    pub records: usize,
    pub metadata_rows: usize,
    pub geometry_instances: usize,
    pub mesh_rows: usize,
    pub instance_rows: usize,
    pub material_rows: usize,
    pub saved_filling_rows: usize,
    pub unresolved_material_primitives: usize,
    pub partial_records: usize,
    pub metadata_only_records: usize,
    /// Saved graphics decoded but the requested detail and visibility kept
    /// no renderable surface primitive.
    pub nonrenderable_graphics_records: usize,
    pub geometry_only_records: usize,
    pub renderable_geometry_instances: usize,
    pub renderable_mesh_rows: usize,
    pub renderable_vertices: usize,
    pub renderable_triangles: usize,
    /// Owners whose requested authored detail was reduced by the bounded
    /// extraction policy.
    pub authored_detail_downgrade_records: usize,
    pub empty_geometry_owners: usize,
    pub unique_mesh_assets: usize,
    pub adaptive_graph_retries: usize,
    pub adaptive_graph_recoveries: usize,
    pub diagnostics: Vec<String>,
}

/// The manifest of one delivery package.
#[derive(Clone, Debug)]
pub struct DeliveryManifest {
    pub format: &'static str,
    pub profile: &'static str,
    pub document_namespace: String,
    pub source_sha256: Option<String>,
    pub status: String,
    pub units: &'static str,
    pub coordinate_frame: &'static str,
    /// Set on a sharded child whose document-scoped definitions are owned
    /// by the aggregate root.
    pub parameter_definitions_uri: Option<String>,
    /// Same ownership rule, for the document binding catalog.
    pub parameter_bindings_uri: Option<String>,
    pub coverage: Coverage,
    pub tables: Vec<&'static str>,
}

/// One typed relationship between two owner keys.
#[derive(Clone, Debug)]
pub struct RelationshipRow {
    pub from: String,
    pub kind: String,
    pub to: String,
    pub status: String,
}

/// One mesh primitive of an owner.
#[derive(Clone, Debug)]
pub struct MeshRow {
    pub key: String,
    pub element_key: String,
    pub primitive_index: usize,
    pub source_owner_id: Option<u64>,
    pub graphics_object_index: usize,
    pub face_tag: i64,
    pub render_style_id: i64,
    pub explicit_material_id: Option<i64>,
    pub vertex_count: usize,
    pub triangle_count: usize,
    pub status: String,
}

/// Per-owner measurements of the audit profile.
#[derive(Clone, Debug)]
pub struct OwnerMetricsRow {
    pub element_key: String,
    pub element_id: u64,
    pub class_name: Option<String>,
    pub metadata_present: bool,
    pub metadata_body_bytes: Option<usize>,
    pub graphics_present: bool,
    pub graphics_body_bytes: Option<usize>,
    pub graphics_status: Option<String>,
    pub geometry_retained: bool,
    pub primitive_count: usize,
    pub renderable_primitive_count: usize,
    pub vertex_count: usize,
    pub triangle_count: usize,
    pub estimated_geometry_bytes: usize,
    pub diagnostic_count: usize,
    pub unresolved_material_primitives: usize,
}

/// Execution telemetry of one shard.
#[derive(Clone, Copy, Debug)]
pub struct ShardTelemetry {
    pub version: u8,
    pub elapsed_ms: u64,
    pub renderable_vertices: u64,
    pub renderable_triangles: u64,
    pub glb_bytes: Option<u64>,
    pub package_bytes: Option<u64>,
    pub peak_rss_bytes: Option<u64>,
}

/// One shard of a sharded delivery.
#[derive(Clone, Debug)]
pub struct ShardEntry {
    pub uri: String,
    pub first_element_id: Option<u64>,
    pub last_element_id: Option<u64>,
    pub requested_ids: usize,
    pub tileset_uri: Option<String>,
    pub coverage: Coverage,
    pub telemetry: Option<ShardTelemetry>,
}

/// The aggregate manifest of a sharded delivery.
#[derive(Clone, Debug)]
pub struct ShardedDeliveryManifest {
    pub format: &'static str,
    pub document_namespace: String,
    pub source_sha256: Option<String>,
    pub status: String,
    pub shard_size: usize,
    pub shard_count: usize,
    pub tileset_uri: Option<&'static str>,
    pub coordinate_frame: &'static str,
    pub parameter_definitions_uri: &'static str,
    pub parameter_bindings_uri: &'static str,
    /// Aggregate native selection evidence.
    pub category_selection: Option<crate::category_selection::CategorySelectionReceipt>,
    /// Exact selected native ids of a category-selected delivery.
    pub selected_ids: Option<Vec<u64>>,
    pub selection_semantics: &'static str,
    pub shards: Vec<ShardEntry>,
}

/// The stable key of an owner: its document namespace and unique id.
pub fn key(namespace: &str, unique_id: &str) -> (r: String)
    ensures
        r@ == namespace@ + seq![':'] + unique_id@,
{
    let mut out = String::new();
    push_str(&mut out, namespace);
    push_str(&mut out, ":");
    push_str(&mut out, unique_id);
    proof {
        reveal_strlit(":");
    }
    out
}

/// The sizes of one saved mesh primitive.
#[derive(Clone, Copy, Debug)]
pub struct PrimitiveShape {
    pub vertices: usize,
    pub normals: usize,
    pub triangles: usize,
}

/// A primitive renders when it has vertices and triangles.
pub open spec fn spec_renderable(p: PrimitiveShape) -> bool {
    p.vertices > 0 && p.triangles > 0
}

/// Whether a primitive renders.
pub fn renderable(primitive: &PrimitiveShape) -> (r: bool)
    ensures
        r == spec_renderable(*primitive),
{
    primitive.vertices != 0 && primitive.triangles != 0
}

/// `x` clamped to the `usize` range.
pub open spec fn sat(x: int) -> int {
    if x > usize::MAX {
        usize::MAX as int
    } else {
        x
    }
}

/// Bytes of one primitive's arrays: three `f64` per vertex and normal,
/// three `u32` per triangle, each step saturating.
pub open spec fn primitive_bytes(p: PrimitiveShape) -> int {
    sat(sat(sat(p.vertices * 24) + sat(p.normals * 24)) + sat(p.triangles * 12))
}

/// Vertices, triangles and saturating bytes of the renderable primitives.
pub open spec fn estimate(ps: Seq<PrimitiveShape>) -> (int, int, int)
    decreases ps.len(),
{
    if ps.len() == 0 {
        (0, 0, 0)
    } else {
        let (v, t, b) = estimate(ps.drop_last());
        let p = ps.last();
        if spec_renderable(p) {
            (v + p.vertices, t + p.triangles, sat(b + primitive_bytes(p)))
        } else {
            (v, t, b)
        }
    }
}

fn mul_sat(x: usize, k: usize) -> (r: usize)
    ensures
        r == sat(x * k),
{
    match x.checked_mul(k) {
        Some(v) => v,
        None => usize::MAX,
    }
}

fn primitive_bytes_exec(p: &PrimitiveShape) -> (r: usize)
    ensures
        r == primitive_bytes(*p),
{
    mul_sat(p.vertices, 24).saturating_add(mul_sat(p.normals, 24)).saturating_add(
        mul_sat(p.triangles, 12),
    )
}

pub(crate) proof fn lemma_estimate_bounds(ps: Seq<PrimitiveShape>, n: int)
    requires
        0 <= n <= ps.len(),
    ensures
        0 <= estimate(ps.take(n)).0 <= estimate(ps).0,
        0 <= estimate(ps.take(n)).1 <= estimate(ps).1,
        0 <= estimate(ps).2 <= usize::MAX,
    decreases ps.len(),
{
    if ps.len() > 0 {
        if n == ps.len() {
            assert(ps.take(n) =~= ps);
            lemma_estimate_bounds(ps.drop_last(), n - 1);
            assert(ps.drop_last().take(n - 1) =~= ps.drop_last());
        } else {
            lemma_estimate_bounds(ps.drop_last(), n);
            assert(ps.drop_last().take(n) =~= ps.take(n));
        }
    } else {
        assert(ps.take(n) =~= ps);
    }
}

/// Vertex, triangle and estimated byte totals of the renderable primitives.
pub fn geometry_estimate(primitives: &[PrimitiveShape]) -> (r: (usize, usize, usize))
    requires
        estimate(primitives@).0 <= usize::MAX,
        estimate(primitives@).1 <= usize::MAX,
    ensures
        r.0 == estimate(primitives@).0,
        r.1 == estimate(primitives@).1,
        r.2 == estimate(primitives@).2,
{
    let mut vertices: usize = 0;
    let mut triangles: usize = 0;
    let mut bytes: usize = 0;
    let mut i: usize = 0;
    while i < primitives.len()
        invariant
            i <= primitives@.len(),
            estimate(primitives@).0 <= usize::MAX,
            estimate(primitives@).1 <= usize::MAX,
            (vertices as int, triangles as int, bytes as int) == estimate(
                primitives@.take(i as int),
            ),
        decreases primitives@.len() - i,
    {
        let p = &primitives[i];
        proof {
            assert(primitives@.take(i + 1).drop_last() =~= primitives@.take(i as int));
            lemma_estimate_bounds(primitives@, i + 1);
        }
        if renderable(p) {
            vertices = vertices + p.vertices;
            triangles = triangles + p.triangles;
            bytes = bytes.saturating_add(primitive_bytes_exec(p));
        }
        i += 1;
    }
    proof {
        assert(primitives@.take(primitives@.len() as int) =~= primitives@);
    }
    (vertices, triangles, bytes)
}


/// The metadata record of an owner, as measured.
#[derive(Clone, Debug)]
pub struct MetadataFacts {
    pub element_id: u64,
    /// The owner's saved unique id.
    pub unique_id: String,
    pub class_name: Option<String>,
    pub body_bytes: usize,
    /// Whether the record carries metadata without a record or metadata
    /// diagnostic.
    pub metadata_complete: bool,
}

/// The saved graphics of an owner, as measured.
#[derive(Clone, Debug)]
pub struct GraphicsFacts {
    /// The numeric id the saved scene lists the owner under.
    pub element_id: u64,
    /// The owner identity's unique id and numeric id.
    pub unique_id: String,
    pub identity_element_id: u64,
    pub body_bytes: Option<usize>,
    pub status: String,
    pub primitives: Vec<PrimitiveShape>,
    pub diagnostics: usize,
    pub unbounded_faces: usize,
    pub empty_trim_faces: usize,
    pub rejected_filters: usize,
    pub unresolved_material_primitives: usize,
}

/// The number of renderable primitives.
pub open spec fn renderable_count(ps: Seq<PrimitiveShape>) -> int
    decreases ps.len(),
{
    if ps.len() == 0 {
        0
    } else {
        renderable_count(ps.drop_last()) + if spec_renderable(ps.last()) {
            1int
        } else {
            0int
        }
    }
}

proof fn lemma_renderable_count_bound(ps: Seq<PrimitiveShape>)
    ensures
        0 <= renderable_count(ps) <= ps.len(),
    decreases ps.len(),
{
    if ps.len() > 0 {
        lemma_renderable_count_bound(ps.drop_last());
    }
}

pub(crate) fn count_renderable(ps: &[PrimitiveShape]) -> (r: usize)
    ensures
        r == renderable_count(ps@),
{
    let mut n: usize = 0;
    let mut i: usize = 0;
    while i < ps.len()
        invariant
            i <= ps@.len(),
            n == renderable_count(ps@.take(i as int)),
            n <= i,
        decreases ps@.len() - i,
    {
        proof {
            assert(ps@.take(i + 1).drop_last() =~= ps@.take(i as int));
        }
        if renderable(&ps[i]) {
            n = n + 1;
        }
        i += 1;
    }
    proof {
        assert(ps@.take(ps@.len() as int) =~= ps@);
    }
    n
}

/// An optional reference as an optional value.
pub open spec fn deref_opt<T>(o: Option<&T>) -> Option<T> {
    match o {
        Some(x) => Some(*x),
        None => None,
    }
}

/// `r` is the measurement row of the owner keyed `element_key`, with its
/// metadata record and saved graphics, if any.
pub open spec fn metrics_row_of(
    r: OwnerMetricsRow,
    element_key: String,
    record: Option<MetadataFacts>,
    graphics: Option<GraphicsFacts>,
) -> bool {
    &&& r.element_key == element_key
    &&& r.element_id == match record {
        Some(m) => m.element_id,
        None => match graphics {
            Some(g) => g.element_id,
            None => 0,
        },
    }
    &&& r.class_name == match record {
        Some(m) => m.class_name,
        None => None,
    }
    &&& r.metadata_present == (record is Some)
    &&& r.metadata_body_bytes == match record {
        Some(m) => Some(m.body_bytes),
        None => None,
    }
    &&& r.graphics_present == (graphics is Some)
    &&& match graphics {
        None => r.graphics_body_bytes is None && r.graphics_status is None && r.primitive_count == 0
            && r.renderable_primitive_count == 0 && r.vertex_count == 0 && r.triangle_count == 0
            && r.estimated_geometry_bytes == 0 && r.diagnostic_count == 0
            && r.unresolved_material_primitives == 0 && !r.geometry_retained,
        Some(g) => r.graphics_body_bytes == g.body_bytes && (r.graphics_status matches Some(st) && st@ == g.status@)
            && r.primitive_count == g.primitives@.len()
            && r.renderable_primitive_count == renderable_count(g.primitives@)
            && r.vertex_count == estimate(g.primitives@).0 && r.triangle_count == estimate(g.primitives@).1
            && r.estimated_geometry_bytes == estimate(g.primitives@).2
            && r.diagnostic_count == g.diagnostics + g.unbounded_faces + g.empty_trim_faces + g.rejected_filters
            && r.unresolved_material_primitives == g.unresolved_material_primitives
            && r.geometry_retained == (renderable_count(g.primitives@) > 0),
    }
}

/// The measurements of an owner's saved graphics fit `usize`.
pub open spec fn graphics_measurable(g: GraphicsFacts) -> bool {
    estimate(g.primitives@).0 <= usize::MAX && estimate(g.primitives@).1 <= usize::MAX
        && g.diagnostics + g.unbounded_faces + g.empty_trim_faces + g.rejected_filters <= usize::MAX
}

/// Measures one owner present in metadata, in saved graphics, or in both:
/// its primitive and renderable counts, geometry estimate, diagnostics and
/// unresolved materials come from the graphics, its class and metadata
/// size from the record; its id from the record first.
pub fn owner_metrics_row(
    element_key: String,
    record: Option<&MetadataFacts>,
    graphics: Option<&GraphicsFacts>,
) -> (r: OwnerMetricsRow)
    requires
        graphics matches Some(g) ==> graphics_measurable(*g),
    ensures
        metrics_row_of(r, element_key, deref_opt(record), deref_opt(graphics)),
{
    let (primitive_count, renderable_primitive_count, vertices, triangles, bytes, diagnostic_count, unresolved, body, status) = match graphics {
        Some(g) => {
            let (v, t, b) = geometry_estimate(g.primitives.as_slice());
            (
                g.primitives.len(),
                count_renderable(g.primitives.as_slice()),
                v,
                t,
                b,
                g.diagnostics + g.unbounded_faces + g.empty_trim_faces + g.rejected_filters,
                g.unresolved_material_primitives,
                g.body_bytes,
                Some(g.status.clone()),
            )
        },
        None => (0, 0, 0, 0, 0, 0, 0, None, None),
    };
    let element_id = match record {
        Some(m) => m.element_id,
        None => match graphics {
            Some(g) => g.element_id,
            None => 0,
        },
    };
    OwnerMetricsRow {
        element_key,
        element_id,
        class_name: match record {
            Some(m) => m.class_name.clone(),
            None => None,
        },
        metadata_present: record.is_some(),
        metadata_body_bytes: match record {
            Some(m) => Some(m.body_bytes),
            None => None,
        },
        graphics_present: graphics.is_some(),
        graphics_body_bytes: body,
        graphics_status: status,
        geometry_retained: renderable_primitive_count > 0,
        primitive_count,
        renderable_primitive_count,
        vertex_count: vertices,
        triangle_count: triangles,
        estimated_geometry_bytes: bytes,
        diagnostic_count,
        unresolved_material_primitives: unresolved,
    }
}

/// Why owner identities cannot be joined.
#[derive(Clone, Copy, Debug, PartialEq, Eq, Structural)]
pub enum IdentityConflict {
    /// One unique id names two numeric ids.
    UniqueIdConflict,
    /// One numeric id carries two unique ids.
    NumericIdConflict,
}

/// Two pairs give one unique id two numeric ids.
pub open spec fn uid_conflict(pairs: Seq<(String, u64)>) -> bool {
    exists|i: int, j: int| 0 <= i < pairs.len() && 0 <= j < pairs.len() && (#[trigger] pairs[i]).0@ == (#[trigger] pairs[j]).0@ && pairs[i].1 != pairs[j].1
}

/// Two pairs give one numeric id two unique ids.
pub open spec fn id_conflict(pairs: Seq<(String, u64)>) -> bool {
    exists|i: int, j: int| 0 <= i < pairs.len() && 0 <= j < pairs.len() && (#[trigger] pairs[i]).1 == (#[trigger] pairs[j]).1 && pairs[i].0@ != pairs[j].0@
}

/// The unique ids and numeric ids of the joined owners must correspond
/// one to one: a unique id conflict is reported first.
pub fn check_identities(pairs: &[(String, u64)]) -> (r: Result<(), IdentityConflict>)
    ensures
        uid_conflict(pairs@) ==> r == Err::<(), IdentityConflict>(IdentityConflict::UniqueIdConflict),
        !uid_conflict(pairs@) && id_conflict(pairs@) ==> r == Err::<(), IdentityConflict>(IdentityConflict::NumericIdConflict),
        !uid_conflict(pairs@) && !id_conflict(pairs@) ==> r is Ok,
{
    let n = pairs.len();
    let mut i: usize = 0;
    while i < n
        invariant
            n == pairs@.len(),
            i <= n,
            forall|a: int, b: int| 0 <= a < i && 0 <= b < n ==> !((#[trigger] pairs@[a]).0@ == (#[trigger] pairs@[b]).0@ && pairs@[a].1 != pairs@[b].1),
        decreases n - i,
    {
        let mut j: usize = 0;
        while j < n
            invariant
                n == pairs@.len(),
                i < n,
                j <= n,
                forall|b: int| 0 <= b < j ==> !((#[trigger] pairs@[b]).0@ == pairs@[i as int].0@ && pairs@[i as int].1 != pairs@[b].1),
            decreases n - j,
        {
            if str_eq(pairs[i].0.as_str(), pairs[j].0.as_str()) && pairs[i].1 != pairs[j].1 {
                proof {
                    assert(pairs@[i as int].0@ == pairs@[j as int].0@ && pairs@[i as int].1 != pairs@[j as int].1);
                }
                return Err(IdentityConflict::UniqueIdConflict);
            }
            j += 1;
        }
        i += 1;
    }
    let mut i: usize = 0;
    while i < n
        invariant
            n == pairs@.len(),
            i <= n,
            !uid_conflict(pairs@),
            forall|a: int, b: int| 0 <= a < i && 0 <= b < n ==> !((#[trigger] pairs@[a]).1 == (#[trigger] pairs@[b]).1 && pairs@[a].0@ != pairs@[b].0@),
        decreases n - i,
    {
        let mut j: usize = 0;
        while j < n
            invariant
                n == pairs@.len(),
                i < n,
                j <= n,
                !uid_conflict(pairs@),
                forall|b: int| 0 <= b < j ==> !((#[trigger] pairs@[b]).1 == pairs@[i as int].1 && pairs@[i as int].0@ != pairs@[b].0@),
            decreases n - j,
        {
            if pairs[i].1 == pairs[j].1 && !str_eq(pairs[i].0.as_str(), pairs[j].0.as_str()) {
                proof {
                    assert(pairs@[i as int].1 == pairs@[j as int].1 && pairs@[i as int].0@ != pairs@[j as int].0@);
                }
                return Err(IdentityConflict::NumericIdConflict);
            }
            j += 1;
        }
        i += 1;
    }
    Ok(())
}


/// The diagnostic recorded when a source-bound catalog supplements the
/// document's declarations.
pub open spec fn supplement_note(witness_sha256: Option<&str>) -> Seq<char> {
    "supplemented by source-bound ES witness "@ + match witness_sha256 {
        Some(h) => h@,
        None => "unknown"@,
    }
}

/// Supplements the document's Extensible Storage declarations with a
/// catalog bound to this exact source (see
/// [`Catalog::extend_nonconflicting`]); file-local declarations win. On
/// success the context records which witness supplemented it.
pub fn supplement_definition_context(
    context: &mut DefinitionContext,
    supplement: Catalog,
    witness_sha256: Option<&str>,
) -> (r: Result<(), CatalogError>)
    requires
        old(context).extensible_storage_catalog matches Some(c) ==> c.wf(),
        forall|i: int| 0 <= i < supplement.view().len() ==> (#[trigger] supplement.view()[i]).fields@.len() <= u32::MAX,
    ensures
        ({
            let before = match old(context).extensible_storage_catalog {
                Some(c) => c.view(),
                None => Seq::<Schema>::empty(),
            };
            let (merged, outcome) = extend_fold(before, supplement.view());
            &&& r == outcome
            &&& final(context).extensible_storage_catalog matches Some(c) && c.view() == merged && c.wf()
            &&& r is Ok ==> (final(context).extensible_storage_catalog_diagnostic matches Some(d) && d@ == supplement_note(witness_sha256))
            &&& r is Err ==> final(context).extensible_storage_catalog_diagnostic == old(context).extensible_storage_catalog_diagnostic
        }),
        final(context).registry == old(context).registry,
        final(context).definition_owner_ids == old(context).definition_owner_ids,
        final(context).definition_owner_category_candidates == old(context).definition_owner_category_candidates,
        final(context).diagnostics == old(context).diagnostics,
        final(context).schema_sha256 == old(context).schema_sha256,
{
    let mut catalog = match context.extensible_storage_catalog.take() {
        Some(c) => c,
        None => Catalog::new(),
    };
    let result = catalog.extend_nonconflicting(supplement);
    context.extensible_storage_catalog = Some(catalog);
    match result {
        Ok(()) => {},
        Err(e) => return Err(e),
    }
    let mut note = String::new();
    push_str(&mut note, "supplemented by source-bound ES witness ");
    match witness_sha256 {
        Some(h) => push_str(&mut note, h),
        None => push_str(&mut note, "unknown"),
    }
    context.extensible_storage_catalog_diagnostic = Some(note);
    Ok(())
}

} // verus!

verus! {

/// A primitive renders exactly when it has at least one vertex and one
/// triangle; only renderable primitives add to a geometry estimate, by
/// their own vertices and triangles.
pub proof fn lemma_renderable_law(ps: Seq<PrimitiveShape>, p: PrimitiveShape)
    ensures
        spec_renderable(p) <==> (p.vertices > 0 && p.triangles > 0),
        p.vertices > 0 && p.triangles > 0 ==> estimate(ps.push(p)).0 == estimate(ps).0 + p.vertices
            && estimate(ps.push(p)).1 == estimate(ps).1 + p.triangles,
        p.vertices == 0 || p.triangles == 0 ==> estimate(ps.push(p)) == estimate(ps),
{
    assert(ps.push(p).drop_last() =~= ps);
}

} // verus!
