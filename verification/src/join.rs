//! Joining metadata records and saved-scene owners into delivery elements
//! and owner metrics, without dropping either population.
use vstd::prelude::*;

use crate::delivery::{
    check_identities, count_renderable, estimate, geometry_estimate, graphics_measurable, lemma_estimate_bounds, id_conflict, key, metrics_row_of, owner_metrics_row,
    renderable_count, uid_conflict, GraphicsFacts, IdentityConflict, MetadataFacts, OwnerMetricsRow,
};
use crate::order::{
    lemma_name_lt_asymmetric, lemma_name_lt_irreflexive, lemma_name_lt_total, lemma_name_lt_transitive, name_lt,
    name_lt_exec, strictly_sorted,
};
use crate::text::{chars_of, str_eq, text_of};

verus! {

/// Why records and saved-scene owners cannot be joined.
#[derive(Clone, Debug, PartialEq, Eq)]
pub enum JoinError {
    /// The document namespace is empty or only white space.
    NamespaceRequired,
    /// A metadata record has an empty unique id.
    EmptyUniqueId,
    /// Two metadata records have the same key.
    DuplicateIdentity(String),
    /// A saved-scene owner has an empty unique id.
    EmptyGraphicsUniqueId,
    /// A saved-scene owner's numeric id disagrees with its identity.
    GraphicsIdentityMismatch,
    /// Two saved-scene owners have the same key.
    DuplicateGeometryIdentity(String),
    /// One unique id names two numeric ids.
    UniqueIdConflict,
    /// One numeric id carries two unique ids.
    NumericIdConflict,
}

/// A join error as plain values.
pub enum JoinErrorView {
    NamespaceRequired,
    EmptyUniqueId,
    DuplicateIdentity(Seq<char>),
    EmptyGraphicsUniqueId,
    GraphicsIdentityMismatch,
    DuplicateGeometryIdentity(Seq<char>),
    UniqueIdConflict,
    NumericIdConflict,
}

impl JoinError {
    pub open spec fn view(&self) -> JoinErrorView {
        match self {
            JoinError::NamespaceRequired => JoinErrorView::NamespaceRequired,
            JoinError::EmptyUniqueId => JoinErrorView::EmptyUniqueId,
            JoinError::DuplicateIdentity(k) => JoinErrorView::DuplicateIdentity(k@),
            JoinError::EmptyGraphicsUniqueId => JoinErrorView::EmptyGraphicsUniqueId,
            JoinError::GraphicsIdentityMismatch => JoinErrorView::GraphicsIdentityMismatch,
            JoinError::DuplicateGeometryIdentity(k) => JoinErrorView::DuplicateGeometryIdentity(k@),
            JoinError::UniqueIdConflict => JoinErrorView::UniqueIdConflict,
            JoinError::NumericIdConflict => JoinErrorView::NumericIdConflict,
        }
    }
}

/// One delivered element: an owner with metadata, renderable geometry, or
/// both.
#[derive(Clone, Debug)]
pub struct JoinedElement {
    pub key: String,
    pub unique_id: String,
    pub element_id: u64,
    pub class_name: Option<String>,
    pub status: &'static str,
}

/// The joined population of a document.
#[derive(Clone, Debug)]
pub struct JoinedPackage {
    pub source_sha256: Option<String>,
    pub status: &'static str,
    /// The elements, in key order.
    pub elements: Vec<JoinedElement>,
    /// One measurement row per record or saved-scene owner, in key order.
    pub metrics: Vec<OwnerMetricsRow>,
    pub coverage: JoinCoverage,
}

/// The counts of a joined package.
#[derive(Clone, Debug)]
pub struct JoinCoverage {
    pub records: usize,
    pub partial_records: usize,
    pub metadata_only_records: usize,
    /// Owners with metadata whose saved graphics kept no renderable
    /// primitive.
    pub nonrenderable_graphics_records: usize,
    pub geometry_only_records: usize,
    /// Unresolved material primitives of the retained saved-scene owners.
    pub unresolved_material_primitives: usize,
    /// Vertices and triangles of the renderable primitives of the retained
    /// saved-scene owners.
    pub renderable_vertices: usize,
    pub renderable_triangles: usize,
    /// Diagnostics the caller carries into the package: extra diagnostics
    /// and the scene's refused graph classes.
    pub diagnostics: Vec<String>,
}

/// The number of elements with the status.
pub open spec fn status_count(es: Seq<JoinedElement>, s: Seq<char>) -> nat
    decreases es.len(),
{
    if es.len() == 0 {
        0
    } else {
        status_count(es.drop_last(), s) + if es.last().status@ == s {
            1nat
        } else {
            0nat
        }
    }
}

/// What a retained saved-scene owner contributes to a total: unresolved
/// material primitives (0), renderable vertices (1) or triangles (2).
pub open spec fn scene_term(g: GraphicsFacts, kind: int) -> int {
    if kind == 0 {
        g.unresolved_material_primitives as int
    } else if kind == 1 {
        estimate(g.primitives@).0
    } else {
        estimate(g.primitives@).1
    }
}

/// A total over the saved-scene owners with a renderable primitive.
pub open spec fn retained_total(sc: Seq<GraphicsFacts>, kind: int) -> int
    decreases sc.len(),
{
    if sc.len() == 0 {
        0
    } else {
        retained_total(sc.drop_last(), kind) + if renderable_count(sc.last().primitives@) > 0 {
            scene_term(sc.last(), kind)
        } else {
            0
        }
    }
}

/// The key of an owner, as text.
pub open spec fn spec_key(ns: Seq<char>, uid: Seq<char>) -> Seq<char> {
    ns + seq![':'] + uid
}

/// A white-space character, as Unicode's `White_Space` property lists them.
pub open spec fn is_white(c: char) -> bool {
    ||| '\u{9}' <= c <= '\u{d}'
    ||| c == ' ' || c == '\u{85}' || c == '\u{a0}' || c == '\u{1680}'
    ||| '\u{2000}' <= c <= '\u{200a}'
    ||| c == '\u{2028}' || c == '\u{2029}' || c == '\u{202f}' || c == '\u{205f}' || c == '\u{3000}'
}

/// A text that is empty or only white space.
pub open spec fn blank(s: Seq<char>) -> bool {
    forall|i: int| 0 <= i < s.len() ==> is_white(#[trigger] s[i])
}

/// The first refusal among the metadata records, in order: an empty unique
/// id, or a unique id an earlier record already has.
pub open spec fn record_error(ns: Seq<char>, recs: Seq<MetadataFacts>) -> Option<JoinErrorView>
    decreases recs.len(),
{
    if recs.len() == 0 {
        None
    } else {
        match record_error(ns, recs.drop_last()) {
            Some(e) => Some(e),
            None => {
                let r = recs.last();
                if r.unique_id@.len() == 0 {
                    Some(JoinErrorView::EmptyUniqueId)
                } else if exists|j: int| 0 <= j < recs.len() - 1 && (#[trigger] recs[j]).unique_id@ == r.unique_id@ {
                    Some(JoinErrorView::DuplicateIdentity(spec_key(ns, r.unique_id@)))
                } else {
                    None
                }
            },
        }
    }
}

/// The first refusal among the saved-scene owners, in order: an empty
/// unique id, a numeric id other than its identity's, or a unique id an
/// earlier owner already has.
pub open spec fn scene_error(ns: Seq<char>, scene: Seq<GraphicsFacts>) -> Option<JoinErrorView>
    decreases scene.len(),
{
    if scene.len() == 0 {
        None
    } else {
        match scene_error(ns, scene.drop_last()) {
            Some(e) => Some(e),
            None => {
                let g = scene.last();
                if g.unique_id@.len() == 0 {
                    Some(JoinErrorView::EmptyGraphicsUniqueId)
                } else if g.element_id != g.identity_element_id {
                    Some(JoinErrorView::GraphicsIdentityMismatch)
                } else if exists|j: int| 0 <= j < scene.len() - 1 && (#[trigger] scene[j]).unique_id@ == g.unique_id@ {
                    Some(JoinErrorView::DuplicateGeometryIdentity(spec_key(ns, g.unique_id@)))
                } else {
                    None
                }
            },
        }
    }
}

/// Saved-scene owners with at least one renderable primitive, in order.
pub open spec fn retained_scene(scene: Seq<GraphicsFacts>) -> Seq<GraphicsFacts>
    decreases scene.len(),
{
    if scene.len() == 0 {
        Seq::empty()
    } else if renderable_count(scene.last().primitives@) > 0 {
        retained_scene(scene.drop_last()).push(scene.last())
    } else {
        retained_scene(scene.drop_last())
    }
}

/// The identities that must correspond one to one: the records', then the
/// retained saved-scene owners'.
pub open spec fn identity_pairs(recs: Seq<MetadataFacts>, scene: Seq<GraphicsFacts>) -> Seq<(String, u64)> {
    recs.map_values(|r: MetadataFacts| (r.unique_id, r.element_id)) + retained_scene(scene).map_values(
        |g: GraphicsFacts| (g.unique_id, g.identity_element_id),
    )
}

/// Why a join is refused, in the order the checks run; none when it
/// succeeds.
pub open spec fn join_error(ns: Seq<char>, recs: Seq<MetadataFacts>, scene: Seq<GraphicsFacts>) -> Option<JoinErrorView> {
    if blank(ns) {
        Some(JoinErrorView::NamespaceRequired)
    } else if record_error(ns, recs) is Some {
        record_error(ns, recs)
    } else if scene_error(ns, scene) is Some {
        scene_error(ns, scene)
    } else if uid_conflict(identity_pairs(recs, scene)) {
        Some(JoinErrorView::UniqueIdConflict)
    } else if id_conflict(identity_pairs(recs, scene)) {
        Some(JoinErrorView::NumericIdConflict)
    } else {
        None
    }
}

/// Some record has the key.
pub open spec fn has_record(ns: Seq<char>, recs: Seq<MetadataFacts>, k: Seq<char>) -> bool {
    exists|i: int| 0 <= i < recs.len() && spec_key(ns, (#[trigger] recs[i]).unique_id@) == k
}

/// The record with the key.
pub open spec fn record_for(ns: Seq<char>, recs: Seq<MetadataFacts>, k: Seq<char>) -> Option<MetadataFacts> {
    if has_record(ns, recs, k) {
        Some(recs[choose|i: int| 0 <= i < recs.len() && spec_key(ns, (#[trigger] recs[i]).unique_id@) == k])
    } else {
        None
    }
}

/// Some saved-scene owner has the key.
pub open spec fn has_graphics(ns: Seq<char>, scene: Seq<GraphicsFacts>, k: Seq<char>) -> bool {
    exists|i: int| 0 <= i < scene.len() && spec_key(ns, (#[trigger] scene[i]).unique_id@) == k
}

/// The saved-scene owner with the key.
pub open spec fn graphics_for(ns: Seq<char>, scene: Seq<GraphicsFacts>, k: Seq<char>) -> Option<GraphicsFacts> {
    if has_graphics(ns, scene, k) {
        Some(scene[choose|i: int| 0 <= i < scene.len() && spec_key(ns, (#[trigger] scene[i]).unique_id@) == k])
    } else {
        None
    }
}

/// Graphics with at least one renderable primitive.
pub open spec fn renders(g: Option<GraphicsFacts>) -> bool {
    g matches Some(x) && renderable_count(x.primitives@) > 0
}

/// An element whose metadata is complete and whose renderable graphics
/// were decoded.
pub open spec fn element_complete(r: Option<MetadataFacts>, g: Option<GraphicsFacts>) -> bool {
    &&& r matches Some(m) && m.metadata_complete
    &&& renders(g)
    &&& g->0.status@ == "decoded_saved_graphics"@
}

/// The status of an element from its record and graphics.
pub open spec fn element_status(r: Option<MetadataFacts>, g: Option<GraphicsFacts>) -> Seq<char> {
    if r is Some {
        if renders(g) {
            if element_complete(r, g) {
                "complete_supported_subset"@
            } else {
                "partial"@
            }
        } else if g is Some {
            "metadata_with_nonrenderable_graphics"@
        } else {
            "metadata_only"@
        }
    } else {
        "geometry_only"@
    }
}

/// `e` is the element keyed `e.key`.
pub open spec fn element_row_of(ns: Seq<char>, recs: Seq<MetadataFacts>, scene: Seq<GraphicsFacts>, e: JoinedElement) -> bool {
    let r = record_for(ns, recs, e.key@);
    let g = graphics_for(ns, scene, e.key@);
    &&& e.unique_id@ == match r {
        Some(m) => m.unique_id@,
        None => g->0.unique_id@,
    }
    &&& e.element_id == match r {
        Some(m) => m.element_id,
        None => g->0.element_id,
    }
    &&& e.class_name == match r {
        Some(m) => m.class_name,
        None => None,
    }
    &&& e.status@ == element_status(r, g)
}

/// Some retained saved-scene owner has unresolved materials.
pub open spec fn unresolved_materials(scene: Seq<GraphicsFacts>) -> bool {
    exists|i: int| 0 <= i < scene.len() && renderable_count((#[trigger] scene[i]).primitives@) > 0
        && scene[i].unresolved_material_primitives > 0
}

/// The keys of elements.
pub open spec fn element_keys(es: Seq<JoinedElement>) -> Seq<Seq<char>> {
    es.map_values(|e: JoinedElement| e.key@)
}

/// The keys of metrics rows.
pub open spec fn metric_keys(ms: Seq<OwnerMetricsRow>) -> Seq<Seq<char>> {
    ms.map_values(|m: OwnerMetricsRow| m.element_key@)
}

/// The keys of both populations during the join, with the positions of
/// their record and saved-scene owner.
struct Entry {
    key: String,
    rec: Option<usize>,
    gfx: Option<usize>,
}

spec fn entry_keys(es: Seq<Entry>) -> Seq<Seq<char>> {
    es.map_values(|e: Entry| e.key@)
}

proof fn lemma_key_injective(ns: Seq<char>, a: Seq<char>, b: Seq<char>)
    requires
        spec_key(ns, a) == spec_key(ns, b),
    ensures
        a == b,
{
    assert(spec_key(ns, a).skip(ns.len() + 1int) =~= a);
    assert(spec_key(ns, b).skip(ns.len() + 1int) =~= b);
}

fn is_blank(s: &str) -> (r: bool)
    ensures
        r == blank(s@),
{
    let cs = chars_of(s);
    let mut i: usize = 0;
    while i < cs.len()
        invariant
            cs@ == s@,
            i <= cs@.len(),
            forall|k: int| 0 <= k < i ==> is_white(#[trigger] cs@[k]),
        decreases cs@.len() - i,
    {
        let c = cs[i];
        let white = ('\u{9}' <= c && c <= '\u{d}') || c == ' ' || c == '\u{85}' || c == '\u{a0}' || c == '\u{1680}'
            || ('\u{2000}' <= c && c <= '\u{200a}') || c == '\u{2028}' || c == '\u{2029}' || c == '\u{202f}'
            || c == '\u{205f}' || c == '\u{3000}';
        if !white {
            return false;
        }
        i += 1;
    }
    true
}

/// Where `k` belongs among sorted entries, and whether it is there.
fn entry_position(es: &Vec<Entry>, k: &str) -> (r: (usize, bool))
    requires
        strictly_sorted(entry_keys(es@)),
    ensures
        r.0 <= es@.len(),
        forall|q: int| 0 <= q < r.0 ==> name_lt((#[trigger] es@[q]).key@, k@),
        r.0 < es@.len() ==> !name_lt(es@[r.0 as int].key@, k@),
        r.1 == (r.0 < es@.len() && es@[r.0 as int].key@ == k@),
        !r.1 ==> forall|q: int| 0 <= q < es@.len() ==> (#[trigger] es@[q]).key@ != k@,
{
    let ghost ks = entry_keys(es@);
    let mut p: usize = 0;
    while p < es.len() && name_lt_exec(es[p].key.as_str(), k)
        invariant
            ks == entry_keys(es@),
            strictly_sorted(ks),
            p <= es@.len(),
            forall|q: int| 0 <= q < p ==> name_lt((#[trigger] es@[q]).key@, k@),
        decreases es@.len() - p,
    {
        p += 1;
    }
    let found = p < es.len() && str_eq(es[p].key.as_str(), k);
    proof {
        if !found {
            assert forall|q: int| 0 <= q < es@.len() implies (#[trigger] es@[q]).key@ != k@ by {
                if q < p {
                    lemma_name_lt_irreflexive(k@);
                } else if q > p {
                    assert(ks[p as int] == es@[p as int].key@ && ks[q] == es@[q].key@);
                    assert(name_lt(ks[p as int], ks[q]));
                    lemma_name_lt_total(es@[p as int].key@, k@);
                    if es@[q].key@ == k@ {
                        lemma_name_lt_asymmetric(es@[p as int].key@, k@);
                    }
                }
            }
        }
    }
    (p, found)
}

/// Inserts an entry whose key is absent at its sorted position.
fn insert_entry(es: &mut Vec<Entry>, p: usize, e: Entry)
    requires
        strictly_sorted(entry_keys(old(es)@)),
        p <= old(es)@.len(),
        forall|q: int| 0 <= q < p ==> name_lt((#[trigger] old(es)@[q]).key@, e.key@),
        p < old(es)@.len() ==> !name_lt(old(es)@[p as int].key@, e.key@),
        forall|q: int| 0 <= q < old(es)@.len() ==> (#[trigger] old(es)@[q]).key@ != e.key@,
    ensures
        final(es)@ == old(es)@.insert(p as int, e),
        strictly_sorted(entry_keys(final(es)@)),
{
    let ghost s = es@;
    let ghost g = e.key@;
    proof {
        let ks = entry_keys(s);
        if p < s.len() {
            lemma_name_lt_total(s[p as int].key@, g);
        }
        assert forall|q: int| p <= q < s.len() implies name_lt(g, (#[trigger] s[q]).key@) by {
            if q > p {
                assert(ks[p as int] == s[p as int].key@ && ks[q] == s[q].key@);
                assert(name_lt(ks[p as int], ks[q]));
                lemma_name_lt_transitive(g, s[p as int].key@, s[q].key@);
            }
        }
    }
    es.insert(p, e);
    proof {
        let t = es@;
        let ks = entry_keys(s);
        let kt = entry_keys(t);
        assert forall|i: int, j: int| 0 <= i < j < kt.len() implies name_lt(#[trigger] kt[i], #[trigger] kt[j]) by {
            assert(kt[i] == t[i].key@ && kt[j] == t[j].key@);
            if j < p {
                assert(t[i] == s[i] && t[j] == s[j]);
                assert(ks[i] == s[i].key@ && ks[j] == s[j].key@);
            } else if j == p {
                assert(t[i] == s[i]);
            } else if i < p {
                assert(t[i] == s[i] && t[j] == s[j - 1]);
                lemma_name_lt_transitive(s[i].key@, g, s[j - 1].key@);
            } else if i == p {
                assert(t[j] == s[j - 1]);
            } else {
                assert(t[i] == s[i - 1] && t[j] == s[j - 1]);
                assert(ks[i - 1] == s[i - 1].key@ && ks[j - 1] == s[j - 1].key@);
            }
        }
    }
}

spec fn rec_covered(es: Seq<Entry>, a: int) -> bool {
    exists|q: int| 0 <= q < es.len() && (#[trigger] es[q]).rec == Some(a as usize)
}

spec fn gfx_covered(es: Seq<Entry>, b: int) -> bool {
    exists|q: int| 0 <= q < es.len() && (#[trigger] es[q]).gfx == Some(b as usize)
}

/// The entries describe the records and saved-scene owners seen so far.
spec fn entries_ok(ns: Seq<char>, es: Seq<Entry>, recs: Seq<MetadataFacts>, nr: int, scene: Seq<GraphicsFacts>, ng: int) -> bool {
    &&& 0 <= nr <= usize::MAX && 0 <= ng <= usize::MAX
    &&& strictly_sorted(entry_keys(es))
    &&& forall|q: int| 0 <= q < es.len() ==> ((#[trigger] es[q]).rec is Some || es[q].gfx is Some)
    &&& forall|q: int| 0 <= q < es.len() ==> ((#[trigger] es[q]).rec matches Some(a) ==> 0 <= a < nr && spec_key(ns, recs[a as int].unique_id@) == es[q].key@)
    &&& forall|q: int| 0 <= q < es.len() ==> ((#[trigger] es[q]).gfx matches Some(b) ==> 0 <= b < ng && spec_key(ns, scene[b as int].unique_id@) == es[q].key@)
    &&& forall|a: int| 0 <= a < nr ==> #[trigger] rec_covered(es, a)
    &&& forall|b: int| 0 <= b < ng ==> #[trigger] gfx_covered(es, b)
}

proof fn lemma_record_error_prefix(ns: Seq<char>, recs: Seq<MetadataFacts>, n: int)
    requires
        0 <= n <= recs.len(),
        record_error(ns, recs.take(n)) is Some,
    ensures
        record_error(ns, recs) == record_error(ns, recs.take(n)),
    decreases recs.len() - n,
{
    if n == recs.len() {
        assert(recs.take(n) =~= recs);
    } else {
        assert(recs.take(n + 1).drop_last() =~= recs.take(n));
        lemma_record_error_prefix(ns, recs, n + 1);
    }
}

proof fn lemma_scene_error_prefix(ns: Seq<char>, scene: Seq<GraphicsFacts>, n: int)
    requires
        0 <= n <= scene.len(),
        scene_error(ns, scene.take(n)) is Some,
    ensures
        scene_error(ns, scene) == scene_error(ns, scene.take(n)),
    decreases scene.len() - n,
{
    if n == scene.len() {
        assert(scene.take(n) =~= scene);
    } else {
        assert(scene.take(n + 1).drop_last() =~= scene.take(n));
        lemma_scene_error_prefix(ns, scene, n + 1);
    }
}

proof fn lemma_record_keys_unique(ns: Seq<char>, recs: Seq<MetadataFacts>)
    requires
        record_error(ns, recs) is None,
    ensures
        forall|i: int, j: int| 0 <= i < recs.len() && 0 <= j < recs.len() && i != j ==> (#[trigger] recs[i]).unique_id@ != (#[trigger] recs[j]).unique_id@,
    decreases recs.len(),
{
    if recs.len() > 0 {
        let p = recs.drop_last();
        lemma_record_keys_unique(ns, p);
        assert forall|i: int, j: int| 0 <= i < recs.len() && 0 <= j < recs.len() && i != j implies (#[trigger] recs[i]).unique_id@ != (#[trigger] recs[j]).unique_id@ by {
            if i < recs.len() - 1 && j < recs.len() - 1 {
                assert(recs[i] == p[i] && recs[j] == p[j]);
            } else if i == recs.len() - 1 {
                if recs[j].unique_id@ == recs.last().unique_id@ {
                    assert(0 <= j < recs.len() - 1 && recs[j].unique_id@ == recs.last().unique_id@);
                }
            } else {
                if recs[i].unique_id@ == recs.last().unique_id@ {
                    assert(0 <= i < recs.len() - 1 && recs[i].unique_id@ == recs.last().unique_id@);
                }
            }
        }
    }
}

proof fn lemma_scene_keys_unique(ns: Seq<char>, scene: Seq<GraphicsFacts>)
    requires
        scene_error(ns, scene) is None,
    ensures
        forall|i: int, j: int| 0 <= i < scene.len() && 0 <= j < scene.len() && i != j ==> (#[trigger] scene[i]).unique_id@ != (#[trigger] scene[j]).unique_id@,
    decreases scene.len(),
{
    if scene.len() > 0 {
        let p = scene.drop_last();
        lemma_scene_keys_unique(ns, p);
        assert forall|i: int, j: int| 0 <= i < scene.len() && 0 <= j < scene.len() && i != j implies (#[trigger] scene[i]).unique_id@ != (#[trigger] scene[j]).unique_id@ by {
            if i < scene.len() - 1 && j < scene.len() - 1 {
                assert(scene[i] == p[i] && scene[j] == p[j]);
            } else if i == scene.len() - 1 {
                if scene[j].unique_id@ == scene.last().unique_id@ {
                    assert(0 <= j < scene.len() - 1 && scene[j].unique_id@ == scene.last().unique_id@);
                }
            } else {
                if scene[i].unique_id@ == scene.last().unique_id@ {
                    assert(0 <= i < scene.len() - 1 && scene[i].unique_id@ == scene.last().unique_id@);
                }
            }
        }
    }
}

/// With unique keys, the owner at a position is the one found by its key.
proof fn lemma_record_for(ns: Seq<char>, recs: Seq<MetadataFacts>, a: int)
    requires
        record_error(ns, recs) is None,
        0 <= a < recs.len(),
    ensures
        record_for(ns, recs, spec_key(ns, recs[a].unique_id@)) == Some(recs[a]),
{
    lemma_record_keys_unique(ns, recs);
    let k = spec_key(ns, recs[a].unique_id@);
    assert(has_record(ns, recs, k));
    let i = choose|i: int| 0 <= i < recs.len() && spec_key(ns, (#[trigger] recs[i]).unique_id@) == k;
    lemma_key_injective(ns, recs[i].unique_id@, recs[a].unique_id@);
}

proof fn lemma_graphics_for(ns: Seq<char>, scene: Seq<GraphicsFacts>, b: int)
    requires
        scene_error(ns, scene) is None,
        0 <= b < scene.len(),
    ensures
        graphics_for(ns, scene, spec_key(ns, scene[b].unique_id@)) == Some(scene[b]),
{
    lemma_scene_keys_unique(ns, scene);
    let k = spec_key(ns, scene[b].unique_id@);
    assert(has_graphics(ns, scene, k));
    let i = choose|i: int| 0 <= i < scene.len() && spec_key(ns, (#[trigger] scene[i]).unique_id@) == k;
    lemma_key_injective(ns, scene[i].unique_id@, scene[b].unique_id@);
}

/// The record and saved-scene owner of an entry are the ones its key finds.
proof fn lemma_entry_owners(ns: Seq<char>, es: Seq<Entry>, recs: Seq<MetadataFacts>, scene: Seq<GraphicsFacts>, q: int)
    requires
        entries_ok(ns, es, recs, recs.len() as int, scene, scene.len() as int),
        record_error(ns, recs) is None,
        scene_error(ns, scene) is None,
        0 <= q < es.len(),
    ensures
        record_for(ns, recs, es[q].key@) == match es[q].rec {
            Some(a) => Some(recs[a as int]),
            None => None::<MetadataFacts>,
        },
        graphics_for(ns, scene, es[q].key@) == match es[q].gfx {
            Some(b) => Some(scene[b as int]),
            None => None::<GraphicsFacts>,
        },
{
    let k = es[q].key@;
    let ks = entry_keys(es);
    match es[q].rec {
        Some(a) => lemma_record_for(ns, recs, a as int),
        None => {
            if has_record(ns, recs, k) {
                let i = choose|i: int| 0 <= i < recs.len() && spec_key(ns, (#[trigger] recs[i]).unique_id@) == k;
                assert(rec_covered(es, i));
                let q2 = choose|q2: int| 0 <= q2 < es.len() && (#[trigger] es[q2]).rec == Some(i as usize);
                assert(es[q2].key@ == k);
                assert(ks[q] == es[q].key@ && ks[q2] == es[q2].key@);
                if q < q2 {
                    assert(name_lt(ks[q], ks[q2]));
                    lemma_name_lt_irreflexive(k);
                } else if q2 < q {
                    assert(name_lt(ks[q2], ks[q]));
                    lemma_name_lt_irreflexive(k);
                }
            }
        },
    }
    match es[q].gfx {
        Some(b) => lemma_graphics_for(ns, scene, b as int),
        None => {
            if has_graphics(ns, scene, k) {
                let i = choose|i: int| 0 <= i < scene.len() && spec_key(ns, (#[trigger] scene[i]).unique_id@) == k;
                assert(gfx_covered(es, i));
                let q2 = choose|q2: int| 0 <= q2 < es.len() && (#[trigger] es[q2]).gfx == Some(i as usize);
                assert(es[q2].key@ == k);
                assert(ks[q] == es[q].key@ && ks[q2] == es[q2].key@);
                if q < q2 {
                    assert(name_lt(ks[q], ks[q2]));
                    lemma_name_lt_irreflexive(k);
                } else if q2 < q {
                    assert(name_lt(ks[q2], ks[q]));
                    lemma_name_lt_irreflexive(k);
                }
            }
        },
    }
}

/// Some entry has the key exactly when a record or saved-scene owner has it.
proof fn lemma_entry_cover(ns: Seq<char>, es: Seq<Entry>, recs: Seq<MetadataFacts>, scene: Seq<GraphicsFacts>, k: Seq<char>)
    requires
        entries_ok(ns, es, recs, recs.len() as int, scene, scene.len() as int),
    ensures
        (exists|q: int| 0 <= q < es.len() && (#[trigger] es[q]).key@ == k) <==> (has_record(ns, recs, k) || has_graphics(ns, scene, k)),
{
    if exists|q: int| 0 <= q < es.len() && (#[trigger] es[q]).key@ == k {
        let q = choose|q: int| 0 <= q < es.len() && (#[trigger] es[q]).key@ == k;
        match es[q].rec {
            Some(a) => assert(0 <= a < recs.len() && spec_key(ns, recs[a as int].unique_id@) == k),
            None => {
                let b = es[q].gfx->0;
                assert(0 <= b < scene.len() && spec_key(ns, scene[b as int].unique_id@) == k);
            },
        }
    }
    if has_record(ns, recs, k) {
        let i = choose|i: int| 0 <= i < recs.len() && spec_key(ns, (#[trigger] recs[i]).unique_id@) == k;
        assert(rec_covered(es, i));
        let q = choose|q: int| 0 <= q < es.len() && (#[trigger] es[q]).rec == Some(i as usize);
        assert(es[q].key@ == k);
    }
    if has_graphics(ns, scene, k) {
        let i = choose|i: int| 0 <= i < scene.len() && spec_key(ns, (#[trigger] scene[i]).unique_id@) == k;
        assert(gfx_covered(es, i));
        let q = choose|q: int| 0 <= q < es.len() && (#[trigger] es[q]).gfx == Some(i as usize);
        assert(es[q].key@ == k);
    }
}

/// The keys of the entries, and of the kept entries, are the keys of the
/// two populations.
proof fn lemma_join_keys(ns: Seq<char>, es: Seq<Entry>, recs: Seq<MetadataFacts>, sc: Seq<GraphicsFacts>)
    requires
        entries_ok(ns, es, recs, recs.len() as int, sc, sc.len() as int),
        record_error(ns, recs) is None,
        scene_error(ns, sc) is None,
    ensures
        strictly_sorted(kept_keys(ns, es, sc, es.len() as int)),
        forall|k: Seq<char>| #[trigger] kept_keys(ns, es, sc, es.len() as int).contains(k) <==> (has_record(ns, recs, k) || (
            has_graphics(ns, sc, k) && renders(graphics_for(ns, sc, k)))),
        forall|k: Seq<char>| #[trigger] entry_keys(es).contains(k) <==> (has_record(ns, recs, k) || has_graphics(ns, sc, k)),
{
    let eks = entry_keys(es);
    let n = es.len() as int;
    lemma_kept_keys(ns, es, sc, n);
    let kk = kept_keys(ns, es, sc, n);
    assert forall|k: Seq<char>| #[trigger] kk.contains(k) <==> (has_record(ns, recs, k) || (has_graphics(ns, sc, k)
        && renders(graphics_for(ns, sc, k)))) by {
        if kk.contains(k) {
            let x = choose|x: int| 0 <= x < kk.len() && kk[x] == k;
            let y = kept_index(ns, es, sc, n)[x];
            lemma_entry_owners(ns, es, recs, sc, y);
            assert(eks[y] == es[y].key@);
        }
        if has_record(ns, recs, k) || (has_graphics(ns, sc, k) && renders(graphics_for(ns, sc, k))) {
            lemma_entry_cover(ns, es, recs, sc, k);
            let y = choose|y: int| 0 <= y < es.len() && (#[trigger] es[y]).key@ == k;
            lemma_entry_owners(ns, es, recs, sc, y);
            assert(eks[y] == k);
            assert(keeps(ns, es, sc, y));
        }
    }
    assert forall|k: Seq<char>| #[trigger] eks.contains(k) <==> (has_record(ns, recs, k) || has_graphics(ns, sc, k)) by {
        lemma_entry_cover(ns, es, recs, sc, k);
        if eks.contains(k) {
            let y = choose|y: int| 0 <= y < eks.len() && eks[y] == k;
            assert(es[y].key@ == k);
        }
        if exists|y: int| 0 <= y < es.len() && (#[trigger] es[y]).key@ == k {
            let y = choose|y: int| 0 <= y < es.len() && (#[trigger] es[y]).key@ == k;
            assert(eks[y] == k);
        }
    }
}

proof fn lemma_retained_total_prefix(sc: Seq<GraphicsFacts>, kind: int, n: int)
    requires
        0 <= n <= sc.len(),
    ensures
        0 <= retained_total(sc.take(n), kind) <= retained_total(sc, kind),
    decreases sc.len(),
{
    if sc.len() > 0 {
        let g = sc.last();
        lemma_estimate_bounds(g.primitives@, 0);
        if n == sc.len() {
            assert(sc.take(n) =~= sc);
            lemma_retained_total_prefix(sc.drop_last(), kind, n - 1);
            assert(sc.drop_last().take(n - 1) =~= sc.drop_last());
        } else {
            lemma_retained_total_prefix(sc.drop_last(), kind, n);
            assert(sc.drop_last().take(n) =~= sc.take(n));
        }
    } else {
        assert(sc.take(n) =~= sc);
    }
}

/// The number of elements with the status.
fn count_status(elements: &Vec<JoinedElement>, s: &str) -> (r: usize)
    ensures
        r == status_count(elements@, s@),
{
    let mut n: usize = 0;
    let mut i: usize = 0;
    while i < elements.len()
        invariant
            i <= elements@.len(),
            n == status_count(elements@.take(i as int), s@),
            n <= i,
        decreases elements@.len() - i,
    {
        proof {
            assert(elements@.take(i + 1).drop_last() =~= elements@.take(i as int));
        }
        if str_eq(elements[i].status, s) {
            n = n + 1;
        }
        i += 1;
    }
    proof {
        assert(elements@.take(i as int) =~= elements@);
    }
    n
}

/// The unresolved material primitives, renderable vertices and triangles
/// of the retained saved-scene owners.
fn retained_totals(scene: &Vec<GraphicsFacts>) -> (r: (usize, usize, usize))
    requires
        forall|j: int| 0 <= j < scene@.len() ==> graphics_measurable(#[trigger] scene@[j]),
        retained_total(scene@, 0) <= usize::MAX,
        retained_total(scene@, 1) <= usize::MAX,
        retained_total(scene@, 2) <= usize::MAX,
    ensures
        r.0 == retained_total(scene@, 0),
        r.1 == retained_total(scene@, 1),
        r.2 == retained_total(scene@, 2),
{
    let ghost sc = scene@;
    let mut u: usize = 0;
    let mut v: usize = 0;
    let mut t: usize = 0;
    let mut i: usize = 0;
    while i < scene.len()
        invariant
            sc == scene@,
            i <= sc.len(),
            forall|j: int| 0 <= j < sc.len() ==> graphics_measurable(#[trigger] sc[j]),
            retained_total(sc, 0) <= usize::MAX,
            retained_total(sc, 1) <= usize::MAX,
            retained_total(sc, 2) <= usize::MAX,
            u == retained_total(sc.take(i as int), 0),
            v == retained_total(sc.take(i as int), 1),
            t == retained_total(sc.take(i as int), 2),
        decreases sc.len() - i,
    {
        proof {
            assert(sc.take(i + 1).drop_last() =~= sc.take(i as int));
            assert(sc.take(i + 1).last() == sc[i as int]);
            lemma_retained_total_prefix(sc, 0, i + 1);
            lemma_retained_total_prefix(sc, 1, i + 1);
            lemma_retained_total_prefix(sc, 2, i + 1);
        }
        let g = &scene[i];
        if count_renderable(g.primitives.as_slice()) > 0 {
            let (gv, gt, _) = geometry_estimate(g.primitives.as_slice());
            u = u + g.unresolved_material_primitives;
            v = v + gv;
            t = t + gt;
        }
        i += 1;
    }
    proof {
        assert(sc.take(i as int) =~= sc);
    }
    (u, v, t)
}

spec fn element_statuses_hold(ns: Seq<char>, recs: Seq<MetadataFacts>, sc: Seq<GraphicsFacts>, e: JoinedElement) -> bool {
    let r = record_for(ns, recs, e.key@);
    let g = graphics_for(ns, sc, e.key@);
    &&& e.status@ == "complete_supported_subset"@ <==> (r is Some && r->0.metadata_complete
        && g is Some && renderable_count(g->0.primitives@) > 0 && g->0.status@ == "decoded_saved_graphics"@)
    &&& r is None ==> e.status@ == "geometry_only"@ && (g is Some && renderable_count(g->0.primitives@) > 0)
    &&& r is Some && g is None ==> e.status@ == "metadata_only"@
    &&& r is Some && (g is Some && renderable_count(g->0.primitives@) == 0) ==> e.status@
        == "metadata_with_nonrenderable_graphics"@
    &&& r is Some && (g is Some && renderable_count(g->0.primitives@) > 0 && !(r->0.metadata_complete
        && g->0.status@ == "decoded_saved_graphics"@)) ==> e.status@ == "partial"@
}

/// What an element's status says of its record and saved graphics: it is
/// a complete supported subset exactly when its metadata is complete and
/// its renderable graphics were decoded as `decoded_saved_graphics`; an
/// element without a record is geometry only and has renderable graphics;
/// a record without graphics is metadata only; a record with graphics that
/// render nothing has non-renderable graphics; any other record with
/// renderable graphics is partial.
pub proof fn lemma_element_status_law(ns: Seq<char>, recs: Seq<MetadataFacts>, sc: Seq<GraphicsFacts>, e: JoinedElement)
    requires
        element_row_of(ns, recs, sc, e),
        record_for(ns, recs, e.key@) is Some || renders(graphics_for(ns, sc, e.key@)),
    ensures
        ({
            let r = record_for(ns, recs, e.key@);
            let g = graphics_for(ns, sc, e.key@);
            &&& e.status@ == "complete_supported_subset"@ <==> (r is Some && r->0.metadata_complete
                && g is Some && renderable_count(g->0.primitives@) > 0 && g->0.status@ == "decoded_saved_graphics"@)
            &&& r is None ==> e.status@ == "geometry_only"@ && (g is Some && renderable_count(g->0.primitives@) > 0)
            &&& r is Some && g is None ==> e.status@ == "metadata_only"@
            &&& r is Some && (g is Some && renderable_count(g->0.primitives@) == 0) ==> e.status@
                == "metadata_with_nonrenderable_graphics"@
            &&& r is Some && (g is Some && renderable_count(g->0.primitives@) > 0 && !(r->0.metadata_complete
                && g->0.status@ == "decoded_saved_graphics"@)) ==> e.status@ == "partial"@
        }),
{
    reveal_strlit("complete_supported_subset");
    reveal_strlit("geometry_only");
    reveal_strlit("metadata_only");
    reveal_strlit("metadata_with_nonrenderable_graphics");
    reveal_strlit("partial");
    assert("complete_supported_subset"@.len() == 25 && "geometry_only"@.len() == 13 && "metadata_only"@.len() == 13
        && "metadata_with_nonrenderable_graphics"@.len() == 36 && "partial"@.len() == 7);
}

/// Joins metadata records and saved-scene owners by key. Every record and
/// every saved-scene owner gets a measurement row; the elements are the
/// records and the saved-scene owners with a renderable primitive, in key
/// order. Blank namespaces, empty or repeated unique ids, a saved-scene id
/// that disagrees with its identity, and unique and numeric ids that do not
/// correspond one to one are refused.
/// The entries of both populations, sorted by key, or the first refusal
/// among the records and then among the saved-scene owners.
fn collect_entries(document_namespace: &str, records: &Vec<MetadataFacts>, scene: &Vec<GraphicsFacts>) -> (r: Result<Vec<Entry>, JoinError>)
    ensures
        match record_error(document_namespace@, records@) {
            Some(e) => r matches Err(x) && x@ == e,
            None => match scene_error(document_namespace@, scene@) {
                Some(e) => r matches Err(x) && x@ == e,
                None => r matches Ok(es) && entries_ok(document_namespace@, es@, records@, records@.len() as int, scene@, scene@.len() as int),
            },
        },
{
    let ghost ns = document_namespace@;
    let ghost recs = records@;
    let ghost sc = scene@;
    let mut es: Vec<Entry> = Vec::new();
    let mut i: usize = 0;
    proof {
        assert(recs.take(0) =~= Seq::<MetadataFacts>::empty());
    }
    while i < records.len()
        invariant
            recs == records@,
            sc == scene@,
            ns == document_namespace@,
            i <= recs.len(),
            record_error(ns, recs.take(i as int)) is None,
            entries_ok(ns, es@, recs, i as int, sc, 0),
        decreases recs.len() - i,
    {
        proof {
            assert(recs.take(i + 1).drop_last() =~= recs.take(i as int));
            assert(recs.take(i + 1).last() == recs[i as int]);
        }
        let uid = records[i].unique_id.as_str();
        if uid.unicode_len() == 0 {
            proof {
                assert(uid@.len() == 0);
                lemma_record_error_prefix(ns, recs, i + 1);
            }
            return Err(JoinError::EmptyUniqueId);
        }
        let k = key(document_namespace, uid);
        let (p, found) = entry_position(&es, k.as_str());
        if found {
            proof {
                let a = es@[p as int].rec->0;
                lemma_key_injective(ns, recs[a as int].unique_id@, uid@);
                assert(recs.take(i + 1)[a as int] == recs[a as int]);
                assert(0 <= a < recs.take(i + 1).len() - 1 && recs.take(i + 1)[a as int].unique_id@ == uid@);
                lemma_record_error_prefix(ns, recs, i + 1);
            }
            return Err(JoinError::DuplicateIdentity(k));
        }
        proof {
            assert forall|j: int| 0 <= j < recs.take(i + 1).len() - 1 implies (#[trigger] recs.take(i + 1)[j]).unique_id@ != uid@ by {
                assert(recs.take(i + 1)[j] == recs[j]);
                assert(rec_covered(es@, j));
                let q = choose|q: int| 0 <= q < es@.len() && (#[trigger] es@[q]).rec == Some(j as usize);
                assert(es@[q].key@ == spec_key(ns, recs[j].unique_id@));
            }
        }
        let ghost before = es@;
        insert_entry(&mut es, p, Entry { key: k, rec: Some(i), gfx: None });
        proof {
            let t = es@;
            assert forall|q: int| 0 <= q < t.len() implies ((#[trigger] t[q]).rec matches Some(a) ==> 0 <= a < i + 1
                && spec_key(ns, recs[a as int].unique_id@) == t[q].key@) by {
                if q < p {
                    assert(t[q] == before[q]);
                } else if q > p {
                    assert(t[q] == before[q - 1]);
                }
            }
            assert forall|q: int| 0 <= q < t.len() implies ((#[trigger] t[q]).rec is Some || t[q].gfx is Some) by {
                if q < p {
                    assert(t[q] == before[q]);
                } else if q > p {
                    assert(t[q] == before[q - 1]);
                }
            }
            assert forall|q: int| 0 <= q < t.len() implies ((#[trigger] t[q]).gfx matches Some(b) ==> 0 <= b < 0
                && spec_key(ns, sc[b as int].unique_id@) == t[q].key@) by {
                if q < p {
                    assert(t[q] == before[q]);
                } else if q > p {
                    assert(t[q] == before[q - 1]);
                }
            }
            assert forall|a: int| 0 <= a < i + 1 implies rec_covered(t, a) by {
                if a == i {
                    assert(t[p as int].rec == Some(a as usize));
                } else {
                    assert(rec_covered(before, a));
                    let q = choose|q: int| 0 <= q < before.len() && (#[trigger] before[q]).rec == Some(a as usize);
                    if q < p {
                        assert(t[q] == before[q]);
                    } else {
                        assert(t[q + 1] == before[q]);
                    }
                }
            }
        }
        i += 1;
    }
    proof {
        assert(recs.take(recs.len() as int) =~= recs);
        assert(sc.take(0) =~= Seq::<GraphicsFacts>::empty());
    }
    let mut j: usize = 0;
    while j < scene.len()
        invariant
            recs == records@,
            sc == scene@,
            ns == document_namespace@,
            j <= sc.len(),
            record_error(ns, recs) is None,
            scene_error(ns, sc.take(j as int)) is None,
            entries_ok(ns, es@, recs, recs.len() as int, sc, j as int),
        decreases sc.len() - j,
    {
        proof {
            assert(sc.take(j + 1).drop_last() =~= sc.take(j as int));
            assert(sc.take(j + 1).last() == sc[j as int]);
        }
        let g = &scene[j];
        let uid = g.unique_id.as_str();
        if uid.unicode_len() == 0 {
            proof {
                assert(uid@.len() == 0);
                lemma_scene_error_prefix(ns, sc, j + 1);
            }
            return Err(JoinError::EmptyGraphicsUniqueId);
        }
        if g.element_id != g.identity_element_id {
            proof {
                lemma_scene_error_prefix(ns, sc, j + 1);
            }
            return Err(JoinError::GraphicsIdentityMismatch);
        }
        let k = key(document_namespace, uid);
        let (p, found) = entry_position(&es, k.as_str());
        if found && es[p].gfx.is_some() {
            proof {
                let b = es@[p as int].gfx->0;
                lemma_key_injective(ns, sc[b as int].unique_id@, uid@);
                assert(sc.take(j + 1)[b as int] == sc[b as int]);
                assert(0 <= b < sc.take(j + 1).len() - 1 && sc.take(j + 1)[b as int].unique_id@ == uid@);
                lemma_scene_error_prefix(ns, sc, j + 1);
            }
            return Err(JoinError::DuplicateGeometryIdentity(k));
        }
        proof {
            assert forall|b: int| 0 <= b < sc.take(j + 1).len() - 1 implies (#[trigger] sc.take(j + 1)[b]).unique_id@ != uid@ by {
                assert(sc.take(j + 1)[b] == sc[b]);
                assert(gfx_covered(es@, b));
                let q = choose|q: int| 0 <= q < es@.len() && (#[trigger] es@[q]).gfx == Some(b as usize);
                assert(es@[q].key@ == spec_key(ns, sc[b].unique_id@));
                if sc[b].unique_id@ == uid@ {
                    assert(es@[q].key@ == k@);
                    let ks = entry_keys(es@);
                    assert(ks[q] == es@[q].key@ && ks[p as int] == es@[p as int].key@);
                    if q < p {
                        assert(name_lt(ks[q], ks[p as int]));
                        lemma_name_lt_irreflexive(k@);
                    } else if q > p {
                        assert(name_lt(ks[p as int], ks[q]));
                        lemma_name_lt_irreflexive(k@);
                    }
                }
            }
        }
        let ghost before = es@;
        if found {
            let rec = es[p].rec;
            es.set(p, Entry { key: k, rec, gfx: Some(j) });
        } else {
            insert_entry(&mut es, p, Entry { key: k, rec: None, gfx: Some(j) });
        }
        proof {
            let t = es@;
            if found {
                assert(entry_keys(t) =~= entry_keys(before));
            }
            assert forall|q: int| 0 <= q < t.len() implies ((#[trigger] t[q]).rec matches Some(a) ==> 0 <= a < recs.len()
                && spec_key(ns, recs[a as int].unique_id@) == t[q].key@) by {
                if found || q < p {
                    if q != p {
                        assert(t[q] == before[q]);
                    }
                } else if q > p {
                    assert(t[q] == before[q - 1]);
                }
            }
            assert forall|q: int| 0 <= q < t.len() implies ((#[trigger] t[q]).rec is Some || t[q].gfx is Some) by {
                if found || q < p {
                    if q != p {
                        assert(t[q] == before[q]);
                    }
                } else if q > p {
                    assert(t[q] == before[q - 1]);
                }
            }
            assert forall|q: int| 0 <= q < t.len() implies ((#[trigger] t[q]).gfx matches Some(b) ==> 0 <= b < j + 1
                && spec_key(ns, sc[b as int].unique_id@) == t[q].key@) by {
                if found || q < p {
                    if q != p {
                        assert(t[q] == before[q]);
                    }
                } else if q > p {
                    assert(t[q] == before[q - 1]);
                }
            }
            assert forall|a: int| 0 <= a < recs.len() implies rec_covered(t, a) by {
                assert(rec_covered(before, a));
                let q = choose|q: int| 0 <= q < before.len() && (#[trigger] before[q]).rec == Some(a as usize);
                if found {
                    assert(t[q].rec == before[q].rec);
                } else if q < p {
                    assert(t[q] == before[q]);
                } else {
                    assert(t[q + 1] == before[q]);
                }
            }
            assert forall|b: int| 0 <= b < j + 1 implies gfx_covered(t, b) by {
                if b == j {
                    assert(t[p as int].gfx == Some(b as usize));
                } else {
                    assert(gfx_covered(before, b));
                    let q = choose|q: int| 0 <= q < before.len() && (#[trigger] before[q]).gfx == Some(b as usize);
                    if found {
                        assert(q != p);
                        assert(t[q] == before[q]);
                    } else if q < p {
                        assert(t[q] == before[q]);
                    } else {
                        assert(t[q + 1] == before[q]);
                    }
                }
            }
        }
        j += 1;
    }
    proof {
        assert(sc.take(sc.len() as int) =~= sc);
    }
    Ok(es)
}

/// The identities of the records and retained saved-scene owners must
/// correspond one to one.
fn identity_check(records: &Vec<MetadataFacts>, scene: &Vec<GraphicsFacts>) -> (r: Result<(), JoinError>)
    ensures
        uid_conflict(identity_pairs(records@, scene@)) ==> r == Err::<(), JoinError>(JoinError::UniqueIdConflict),
        !uid_conflict(identity_pairs(records@, scene@)) && id_conflict(identity_pairs(records@, scene@))
            ==> r == Err::<(), JoinError>(JoinError::NumericIdConflict),
        !uid_conflict(identity_pairs(records@, scene@)) && !id_conflict(identity_pairs(records@, scene@)) ==> r is Ok,
{
    let ghost recs = records@;
    let ghost sc = scene@;
    // The identities of the records and of the retained saved-scene owners.
    let mut pairs: Vec<(String, u64)> = Vec::new();
    let mut a: usize = 0;
    while a < records.len()
        invariant
            recs == records@,
            a <= recs.len(),
            pairs@ == recs.take(a as int).map_values(|r: MetadataFacts| (r.unique_id, r.element_id)),
        decreases recs.len() - a,
    {
        pairs.push((records[a].unique_id.clone(), records[a].element_id));
        proof {
            assert(recs.take(a + 1) =~= recs.take(a as int).push(recs[a as int]));
            assert(pairs@ =~= recs.take(a + 1).map_values(|r: MetadataFacts| (r.unique_id, r.element_id)));
        }
        a += 1;
    }
    proof {
        assert(recs.take(recs.len() as int) =~= recs);
    }
    let ghost head = pairs@;
    let mut b: usize = 0;
    proof {
        assert(retained_scene(sc.take(0)) =~= Seq::<GraphicsFacts>::empty());
        assert(head + Seq::<(String, u64)>::empty() =~= head);
    }
    while b < scene.len()
        invariant
            sc == scene@,
            b <= sc.len(),
            pairs@ == head + retained_scene(sc.take(b as int)).map_values(|g: GraphicsFacts| (g.unique_id, g.identity_element_id)),
        decreases sc.len() - b,
    {
        proof {
            assert(sc.take(b + 1).drop_last() =~= sc.take(b as int));
            assert(sc.take(b + 1).last() == sc[b as int]);
        }
        if count_renderable(scene[b].primitives.as_slice()) > 0 {
            pairs.push((scene[b].unique_id.clone(), scene[b].identity_element_id));
            proof {
                let m = retained_scene(sc.take(b as int));
                assert(retained_scene(sc.take(b + 1)) == m.push(sc[b as int]));
                assert(m.push(sc[b as int]).map_values(|g: GraphicsFacts| (g.unique_id, g.identity_element_id))
                    =~= m.map_values(|g: GraphicsFacts| (g.unique_id, g.identity_element_id)).push((sc[b as int].unique_id, sc[b as int].identity_element_id)));
                assert(pairs@ =~= head + retained_scene(sc.take(b + 1)).map_values(|g: GraphicsFacts| (g.unique_id, g.identity_element_id)));
            }
        }
        b += 1;
    }
    proof {
        assert(sc.take(sc.len() as int) =~= sc);
        assert(pairs@ =~= identity_pairs(recs, sc));
    }
    match check_identities(pairs.as_slice()) {
        Ok(()) => {},
        Err(IdentityConflict::UniqueIdConflict) => return Err(JoinError::UniqueIdConflict),
        Err(IdentityConflict::NumericIdConflict) => return Err(JoinError::NumericIdConflict),
    }
    Ok(())
}

/// Whether the entry at `y` becomes an element: it has a record or
/// renderable graphics.
spec fn keeps(ns: Seq<char>, es: Seq<Entry>, sc: Seq<GraphicsFacts>, y: int) -> bool {
    es[y].rec is Some || renders(graphics_for(ns, sc, entry_keys(es)[y]))
}

/// The keys of the kept entries before `q`, in order.
spec fn kept_keys(ns: Seq<char>, es: Seq<Entry>, sc: Seq<GraphicsFacts>, q: int) -> Seq<Seq<char>>
    decreases q,
{
    if q <= 0 {
        Seq::empty()
    } else if keeps(ns, es, sc, q - 1) {
        kept_keys(ns, es, sc, q - 1).push(entry_keys(es)[q - 1])
    } else {
        kept_keys(ns, es, sc, q - 1)
    }
}

/// The positions of the kept entries before `q`, in order.
spec fn kept_index(ns: Seq<char>, es: Seq<Entry>, sc: Seq<GraphicsFacts>, q: int) -> Seq<int>
    decreases q,
{
    if q <= 0 {
        Seq::empty()
    } else if keeps(ns, es, sc, q - 1) {
        kept_index(ns, es, sc, q - 1).push(q - 1)
    } else {
        kept_index(ns, es, sc, q - 1)
    }
}

proof fn lemma_kept_keys(ns: Seq<char>, es: Seq<Entry>, sc: Seq<GraphicsFacts>, q: int)
    requires
        strictly_sorted(entry_keys(es)),
        0 <= q <= es.len(),
    ensures
        strictly_sorted(kept_keys(ns, es, sc, q)),
        kept_index(ns, es, sc, q).len() == kept_keys(ns, es, sc, q).len(),
        forall|x: int| 0 <= x < kept_keys(ns, es, sc, q).len() ==> 0 <= #[trigger] kept_index(ns, es, sc, q)[x] < q
            && keeps(ns, es, sc, kept_index(ns, es, sc, q)[x])
            && kept_keys(ns, es, sc, q)[x] == entry_keys(es)[kept_index(ns, es, sc, q)[x]],
        forall|y: int| 0 <= y < q && #[trigger] keeps(ns, es, sc, y) ==> kept_keys(ns, es, sc, q).contains(entry_keys(es)[y]),
    decreases q,
{
    let eks = entry_keys(es);
    if q > 0 {
        lemma_kept_keys(ns, es, sc, q - 1);
        let p = kept_keys(ns, es, sc, q - 1);
        let pi = kept_index(ns, es, sc, q - 1);
        let t = kept_keys(ns, es, sc, q);
        let ti = kept_index(ns, es, sc, q);
        if keeps(ns, es, sc, q - 1) {
            assert(t == p.push(eks[q - 1]));
            assert(ti == pi.push(q - 1));
            assert forall|x: int| 0 <= x < p.len() implies name_lt(p[x], eks[q - 1]) by {
                let y = pi[x];
                assert(0 <= y < q - 1);
            }
            assert forall|i: int, k: int| 0 <= i < k < t.len() implies name_lt(#[trigger] t[i], #[trigger] t[k]) by {
                if k < p.len() {
                    assert(t[i] == p[i] && t[k] == p[k]);
                } else {
                    assert(t[i] == p[i]);
                }
            }
            assert forall|x: int| 0 <= x < t.len() implies 0 <= #[trigger] ti[x] < q && keeps(ns, es, sc, ti[x]) && t[x] == eks[ti[x]] by {
                if x < p.len() {
                    assert(t[x] == p[x] && ti[x] == pi[x]);
                }
            }
            assert forall|y: int| 0 <= y < q && #[trigger] keeps(ns, es, sc, y) implies t.contains(eks[y]) by {
                if y < q - 1 {
                    let x = choose|x: int| 0 <= x < p.len() && p[x] == eks[y];
                    assert(t[x] == p[x]);
                } else {
                    assert(t[p.len() as int] == eks[y]);
                }
            }
        } else {
            assert(t == p);
            assert(ti == pi);
        }
    }
}

/// The element of the entry at `q`, with whether it is complete; none when
/// the entry has neither a record nor renderable graphics.
fn entry_element(document_namespace: &str, es: &Vec<Entry>, q: usize, records: &Vec<MetadataFacts>, scene: &Vec<GraphicsFacts>) -> (r: Option<(JoinedElement, bool)>)
    requires
        record_error(document_namespace@, records@) is None,
        scene_error(document_namespace@, scene@) is None,
        entries_ok(document_namespace@, es@, records@, records@.len() as int, scene@, scene@.len() as int),
        q < es@.len(),
    ensures
        r is Some <==> keeps(document_namespace@, es@, scene@, q as int),
        r matches Some((el, c)) ==> el.key@ == entry_keys(es@)[q as int] && element_row_of(document_namespace@, records@, scene@, el)
            && c == element_complete(record_for(document_namespace@, records@, el.key@), graphics_for(document_namespace@, scene@, el.key@)),
{
    let ghost ns = document_namespace@;
    proof {
        lemma_entry_owners(ns, es@, records@, scene@, q as int);
        assert(entry_keys(es@)[q as int] == es@[q as int].key@);
    }
    let e = &es[q];
    let rec: Option<&MetadataFacts> = match e.rec {
        Some(x) => Some(&records[x]),
        None => None,
    };
    let gfx: Option<&GraphicsFacts> = match e.gfx {
        Some(x) => Some(&scene[x]),
        None => None,
    };
    let renders_now = match gfx {
        Some(g) => count_renderable(g.primitives.as_slice()) > 0,
        None => false,
    };
    if !(rec.is_some() || renders_now) {
        return None;
    }
    let complete = match (rec, gfx) {
        (Some(m), Some(g)) => m.metadata_complete && renders_now && str_eq(g.status.as_str(), "decoded_saved_graphics"),
        _ => false,
    };
    let status: &'static str = match rec {
        Some(_) => if renders_now {
            if complete {
                "complete_supported_subset"
            } else {
                "partial"
            }
        } else if gfx.is_some() {
            "metadata_with_nonrenderable_graphics"
        } else {
            "metadata_only"
        },
        None => "geometry_only",
    };
    let element = JoinedElement {
        key: e.key.clone(),
        unique_id: match rec {
            Some(m) => m.unique_id.clone(),
            None => gfx.unwrap().unique_id.clone(),
        },
        element_id: match rec {
            Some(m) => m.element_id,
            None => gfx.unwrap().element_id,
        },
        class_name: match rec {
            Some(m) => m.class_name.clone(),
            None => None,
        },
        status,
    };
    Some((element, complete))
}

/// The measurement row of the entry at `q`.
fn entry_metrics(document_namespace: &str, es: &Vec<Entry>, q: usize, records: &Vec<MetadataFacts>, scene: &Vec<GraphicsFacts>) -> (r: OwnerMetricsRow)
    requires
        record_error(document_namespace@, records@) is None,
        scene_error(document_namespace@, scene@) is None,
        entries_ok(document_namespace@, es@, records@, records@.len() as int, scene@, scene@.len() as int),
        forall|x: int| 0 <= x < scene@.len() ==> graphics_measurable(#[trigger] scene@[x]),
        q < es@.len(),
    ensures
        r.element_key@ == entry_keys(es@)[q as int],
        metrics_row_of(r, r.element_key, record_for(document_namespace@, records@, r.element_key@), graphics_for(document_namespace@, scene@, r.element_key@)),
{
    proof {
        lemma_entry_owners(document_namespace@, es@, records@, scene@, q as int);
        assert(entry_keys(es@)[q as int] == es@[q as int].key@);
    }
    let e = &es[q];
    let rec: Option<&MetadataFacts> = match e.rec {
        Some(x) => Some(&records[x]),
        None => None,
    };
    let gfx: Option<&GraphicsFacts> = match e.gfx {
        Some(x) => Some(&scene[x]),
        None => None,
    };
    owner_metrics_row(e.key.clone(), rec, gfx)
}

/// The measurement rows of all entries and the elements among them, with
/// whether every element is complete.
fn build_rows(document_namespace: &str, es: &Vec<Entry>, records: &Vec<MetadataFacts>, scene: &Vec<GraphicsFacts>) -> (r: (
    Vec<OwnerMetricsRow>,
    Vec<JoinedElement>,
    bool,
))
    requires
        record_error(document_namespace@, records@) is None,
        scene_error(document_namespace@, scene@) is None,
        entries_ok(document_namespace@, es@, records@, records@.len() as int, scene@, scene@.len() as int),
        forall|x: int| 0 <= x < scene@.len() ==> graphics_measurable(#[trigger] scene@[x]),
    ensures
        ({
            let ns = document_namespace@;
            let (metrics, elements, all_complete) = r;
            &&& metrics@.len() == es@.len()
            &&& forall|x: int| 0 <= x < es@.len() ==> (#[trigger] metrics@[x]).element_key@ == entry_keys(es@)[x]
            &&& forall|x: int| 0 <= x < es@.len() ==> metrics_row_of(
                #[trigger] metrics@[x],
                metrics@[x].element_key,
                record_for(ns, records@, metrics@[x].element_key@),
                graphics_for(ns, scene@, metrics@[x].element_key@),
            )
            &&& forall|x: int| 0 <= x < elements@.len() ==> element_row_of(ns, records@, scene@, #[trigger] elements@[x])
            &&& element_keys(elements@) == kept_keys(ns, es@, scene@, es@.len() as int)
            &&& all_complete == forall|x: int| 0 <= x < elements@.len() ==> element_complete(
                record_for(ns, records@, (#[trigger] elements@[x]).key@),
                graphics_for(ns, scene@, elements@[x].key@),
            )
        }),
{
    let ghost ns = document_namespace@;
    let mut metrics: Vec<OwnerMetricsRow> = Vec::new();
    let mut elements: Vec<JoinedElement> = Vec::new();
    let mut all_complete = true;
    let mut q: usize = 0;
    while q < es.len()
        invariant
            ns == document_namespace@,
            record_error(ns, records@) is None,
            scene_error(ns, scene@) is None,
            entries_ok(ns, es@, records@, records@.len() as int, scene@, scene@.len() as int),
            forall|x: int| 0 <= x < scene@.len() ==> graphics_measurable(#[trigger] scene@[x]),
            q <= es@.len(),
            metrics@.len() == q,
            forall|x: int| 0 <= x < q ==> (#[trigger] metrics@[x]).element_key@ == entry_keys(es@)[x],
            forall|x: int| 0 <= x < q ==> metrics_row_of(
                #[trigger] metrics@[x],
                metrics@[x].element_key,
                record_for(ns, records@, metrics@[x].element_key@),
                graphics_for(ns, scene@, metrics@[x].element_key@),
            ),
            forall|x: int| 0 <= x < elements@.len() ==> element_row_of(ns, records@, scene@, #[trigger] elements@[x]),
            element_keys(elements@) == kept_keys(ns, es@, scene@, q as int),
            all_complete == forall|x: int| 0 <= x < elements@.len() ==> element_complete(
                record_for(ns, records@, (#[trigger] elements@[x]).key@),
                graphics_for(ns, scene@, elements@[x].key@),
            ),
        decreases es@.len() - q,
    {
        let row = entry_metrics(document_namespace, es, q, records, scene);
        metrics.push(row);
        let ghost before = elements@;
        match entry_element(document_namespace, es, q, records, scene) {
            Some((el, c)) => {
                let ghost old_all = all_complete;
                elements.push(el);
                all_complete = all_complete && c;
                proof {
                    assert(element_keys(elements@) =~= element_keys(before).push(el.key@));
                    assert forall|x: int| 0 <= x < before.len() implies #[trigger] elements@[x] == before[x] by {}
                    let n = before.len() as int;
                    assert(elements@[n] == el);
                    if all_complete {
                        assert forall|x: int| 0 <= x < elements@.len() implies element_complete(
                            record_for(ns, records@, (#[trigger] elements@[x]).key@),
                            graphics_for(ns, scene@, elements@[x].key@),
                        ) by {
                            if x < n {
                                assert(elements@[x] == before[x]);
                            }
                        }
                    } else if !old_all {
                        let x = choose|x: int| 0 <= x < before.len() && !element_complete(
                            record_for(ns, records@, (#[trigger] before[x]).key@),
                            graphics_for(ns, scene@, before[x].key@),
                        );
                        assert(elements@[x] == before[x]);
                    }
                }
            },
            None => {},
        }
        q += 1;
    }
    (metrics, elements, all_complete)
}

/// Whether a retained saved-scene owner has unresolved materials.
fn any_unresolved(scene: &Vec<GraphicsFacts>) -> (r: bool)
    ensures
        r == unresolved_materials(scene@),
{
    let ghost sc = scene@;
    let mut unresolved = false;
    let mut u: usize = 0;
    while u < scene.len()
        invariant
            sc == scene@,
            u <= sc.len(),
            unresolved == exists|i: int| 0 <= i < u && renderable_count((#[trigger] sc[i]).primitives@) > 0
                && sc[i].unresolved_material_primitives > 0,
        decreases sc.len() - u,
    {
        if count_renderable(scene[u].primitives.as_slice()) > 0 && scene[u].unresolved_material_primitives > 0 {
            unresolved = true;
        }
        u += 1;
    }
    unresolved
}

pub fn join_records(
    document_namespace: &str,
    records: Vec<MetadataFacts>,
    scene: Vec<GraphicsFacts>,
    source_sha256: Option<String>,
    diagnostics: Vec<String>,
) -> (r: Result<JoinedPackage, JoinError>)
    requires
        forall|j: int| 0 <= j < scene@.len() ==> graphics_measurable(#[trigger] scene@[j]),
        retained_total(scene@, 0) <= usize::MAX,
        retained_total(scene@, 1) <= usize::MAX,
        retained_total(scene@, 2) <= usize::MAX,
    ensures
        match join_error(document_namespace@, records@, scene@) {
            Some(e) => r matches Err(x) && x@ == e,
            None => r is Ok,
        },
        r matches Ok(p) ==> {
            let ns = document_namespace@;
            &&& strictly_sorted(element_keys(p.elements@))
            &&& forall|k: Seq<char>| element_keys(p.elements@).contains(k) <==> (has_record(ns, records@, k) || (
                has_graphics(ns, scene@, k) && renders(graphics_for(ns, scene@, k))))
            &&& forall|i: int| 0 <= i < p.elements@.len() ==> element_row_of(ns, records@, scene@, #[trigger] p.elements@[i])
            &&& strictly_sorted(metric_keys(p.metrics@))
            &&& forall|k: Seq<char>| metric_keys(p.metrics@).contains(k) <==> (has_record(ns, records@, k) || has_graphics(ns, scene@, k))
            &&& forall|i: int| 0 <= i < p.metrics@.len() ==> metrics_row_of(
                #[trigger] p.metrics@[i],
                p.metrics@[i].element_key,
                record_for(ns, records@, p.metrics@[i].element_key@),
                graphics_for(ns, scene@, p.metrics@[i].element_key@),
            )
            &&& p.source_sha256 == source_sha256
            &&& (p.status@ == "empty"@ <==> p.elements@.len() == 0)
            &&& p.coverage.records == p.elements@.len()
            &&& p.coverage.partial_records == status_count(p.elements@, "partial"@)
            &&& p.coverage.metadata_only_records == status_count(p.elements@, "metadata_only"@)
            &&& p.coverage.nonrenderable_graphics_records == status_count(p.elements@, "metadata_with_nonrenderable_graphics"@)
            &&& p.coverage.geometry_only_records == status_count(p.elements@, "geometry_only"@)
            &&& p.coverage.unresolved_material_primitives == retained_total(scene@, 0)
            &&& p.coverage.renderable_vertices == retained_total(scene@, 1)
            &&& p.coverage.renderable_triangles == retained_total(scene@, 2)
            &&& p.coverage.diagnostics@ == diagnostics@
            &&& p.elements@.len() > 0 ==> (p.status@ == "complete_supported_subset"@ <==> (!unresolved_materials(scene@)
                && diagnostics@.len() == 0 && forall|i: int| 0 <= i < p.elements@.len() ==> element_complete(
                record_for(ns, records@, (#[trigger] p.elements@[i]).key@),
                graphics_for(ns, scene@, p.elements@[i].key@),
            )))
            &&& p.elements@.len() > 0 && p.status@ != "complete_supported_subset"@ ==> p.status@ == "partial"@
            &&& forall|i: int| 0 <= i < p.elements@.len() ==> {
                let e = #[trigger] p.elements@[i];
                let r = record_for(ns, records@, e.key@);
                let g = graphics_for(ns, scene@, e.key@);
                &&& e.status@ == "complete_supported_subset"@ <==> (r is Some && r->0.metadata_complete
                    && g is Some && renderable_count(g->0.primitives@) > 0 && g->0.status@ == "decoded_saved_graphics"@)
                &&& r is None ==> e.status@ == "geometry_only"@ && (g is Some && renderable_count(g->0.primitives@) > 0)
                &&& r is Some && g is None ==> e.status@ == "metadata_only"@
                &&& r is Some && (g is Some && renderable_count(g->0.primitives@) == 0) ==> e.status@
                    == "metadata_with_nonrenderable_graphics"@
                &&& r is Some && (g is Some && renderable_count(g->0.primitives@) > 0 && !(r->0.metadata_complete
                    && g->0.status@ == "decoded_saved_graphics"@)) ==> e.status@ == "partial"@
            }
            &&& p.status@ == "complete_supported_subset"@ ==> p.elements@.len() > 0 && p.coverage.diagnostics@.len() == 0
                && !unresolved_materials(scene@)
                && forall|i: int| 0 <= i < p.elements@.len() ==> (#[trigger] p.elements@[i]).status@ == "complete_supported_subset"@
            &&& (exists|i: int| 0 <= i < p.elements@.len() && (#[trigger] p.elements@[i]).status@ != "complete_supported_subset"@)
                ==> p.status@ == "partial"@
        },
{
    let ghost ns = document_namespace@;
    let ghost recs = records@;
    let ghost sc = scene@;
    if is_blank(document_namespace) {
        return Err(JoinError::NamespaceRequired);
    }
    let es = match collect_entries(document_namespace, &records, &scene) {
        Ok(es) => es,
        Err(e) => return Err(e),
    };
    match identity_check(&records, &scene) {
        Ok(()) => {},
        Err(e) => return Err(e),
    }
    let (metrics, elements, all_complete) = build_rows(document_namespace, &es, &records, &scene);
    let ghost eks = entry_keys(es@);
    let unresolved = any_unresolved(&scene);
    let (unresolved_total, vertices, triangles) = retained_totals(&scene);
    let coverage = JoinCoverage {
        records: elements.len(),
        partial_records: count_status(&elements, "partial"),
        metadata_only_records: count_status(&elements, "metadata_only"),
        nonrenderable_graphics_records: count_status(&elements, "metadata_with_nonrenderable_graphics"),
        geometry_only_records: count_status(&elements, "geometry_only"),
        unresolved_material_primitives: unresolved_total,
        renderable_vertices: vertices,
        renderable_triangles: triangles,
        diagnostics,
    };
    proof {
        assert(metric_keys(metrics@) =~= eks);
        lemma_join_keys(ns, es@, recs, sc);
        assert(all_complete ==> forall|i: int| 0 <= i < elements@.len() ==> element_complete(
            record_for(ns, recs, (#[trigger] elements@[i]).key@),
            graphics_for(ns, sc, elements@[i].key@),
        ));
        assert forall|i: int| 0 <= i < elements@.len() implies element_statuses_hold(ns, recs, sc, #[trigger] elements@[i]) by {
            let k = elements@[i].key@;
            assert(element_keys(elements@)[i] == k);
            assert(element_keys(elements@).contains(k));
            if has_record(ns, recs, k) {
                assert(record_for(ns, recs, k) is Some);
            }
            lemma_element_status_law(ns, recs, sc, elements@[i]);
        }
    }
    if elements.len() == 0 {
        proof {
            reveal_strlit("empty");
            reveal_strlit("complete_supported_subset");
            assert("empty"@.len() == 5 && "complete_supported_subset"@.len() == 25);
        }
        return Ok(JoinedPackage { source_sha256, status: "empty", elements, metrics, coverage });
    }
    if all_complete && !unresolved && coverage.diagnostics.len() == 0 {
        proof {
            reveal_strlit("empty");
            reveal_strlit("complete_supported_subset");
            assert("empty"@.len() == 5 && "complete_supported_subset"@.len() == 25);
            assert forall|i: int| 0 <= i < elements@.len() implies (#[trigger] elements@[i]).status@ == "complete_supported_subset"@ by {
                assert(element_statuses_hold(ns, recs, sc, elements@[i]));
                assert(element_complete(record_for(ns, recs, elements@[i].key@), graphics_for(ns, sc, elements@[i].key@)));
            }
        }
        Ok(JoinedPackage { source_sha256, status: "complete_supported_subset", elements, metrics, coverage })
    } else {
        proof {
            reveal_strlit("empty");
            reveal_strlit("complete_supported_subset");
            reveal_strlit("partial");
            assert("empty"@.len() == 5 && "partial"@.len() == 7 && "complete_supported_subset"@.len() == 25);
        }
        Ok(JoinedPackage { source_sha256, status: "partial", elements, metrics, coverage })
    }
}

} // verus!
