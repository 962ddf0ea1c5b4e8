//! Options, provenance records and stream envelopes of native document
//! extraction, and the decoding of one compressed global stream.
use vstd::prelude::*;
use std::collections::{BTreeMap, BTreeSet};
use std::io::Read;

use crate::framing::{group_frames, lemma_frames_ordered_pub, parse_frames, spec_group_frames, spec_header_len, Frame, FramingError, GroupSource};
use crate::metadata_projection::field_pos;
use crate::object_graph::{GraphObject, GraphView, ObjectGraph};
use crate::parameter_definitions::{
    is_family_symbol_definition_owner, project, spec_ingest_context, spec_ingest_units, spec_insert,
    spec_is_family_symbol_class, spec_project_definition, unit_text, Registry, RegistryView,
};
use crate::text::text_of;
use crate::token_tree::{identifier, identifier_exec, member, text_outcome};
use crate::value_grammar::{tokens_view, Token, TokenView};
use crate::extensible_storage::Catalog;
use crate::text::str_eq;
use crate::text::{hex_bytes, hex_text};

verus! {

broadcast use vstd::std_specs::btree::group_btree_axioms;

/// Resource budgets an extraction ran with.
#[derive(Clone, Copy, Debug, Default)]
pub struct ResourceBudget {
    pub max_stream_bytes: u64,
    pub max_group_bytes: usize,
    pub max_graph_values: usize,
    pub max_graph_objects: usize,
}

/// Record selection and resource budgets of an extraction.
#[derive(Clone, Debug)]
pub struct Options {
    pub selected_ids: BTreeSet<u64>,
    pub channels: BTreeSet<u64>,
    pub max_stream_bytes: u64,
    pub max_group_bytes: usize,
    pub max_graph_values: usize,
    pub max_graph_objects: usize,
}

impl Default for Options {
    fn default() -> (r: Self)
        ensures
            r.selected_ids@ == Set::<u64>::empty(),
            r.channels@ == set![102u64],
            r.max_stream_bytes == 512 * 1024 * 1024,
            r.max_group_bytes == 256 * 1024 * 1024,
            r.max_graph_values == 100_000,
            r.max_graph_objects == 100_000,
    {
        let mut channels = BTreeSet::new();
        channels.insert(102u64);
        proof {
            assert(channels@ =~= set![102u64]);
        }
        Options {
            selected_ids: BTreeSet::new(),
            channels,
            max_stream_bytes: 512 * 1024 * 1024,
            max_group_bytes: 256 * 1024 * 1024,
            max_graph_values: 100_000,
            max_graph_objects: 100_000,
        }
    }
}

/// Where one record was found, with the digest of its body.
#[derive(Clone, Debug)]
pub struct RecordSource {
    pub stream: String,
    pub group: GroupSource,
    pub group_record_offset: usize,
    pub body_bytes: usize,
    pub body_sha256: String,
}

/// The validated physical frame of one current record, for format research.
#[derive(Clone, Debug)]
pub struct PhysicalRecordProbe {
    pub element_id: u64,
    pub channel: u64,
    pub source: RecordSource,
    pub header_hex: String,
    pub trailer_hex: String,
    pub body_hex: String,
    pub body_preview_truncated: bool,
}

/// Graph decoding coverage of one native class.
#[derive(Clone, Debug, Default)]
pub struct ClassCoverage {
    pub records: usize,
    pub complete_graphs: usize,
    pub unsupported_graphs: usize,
    pub body_bytes: u64,
    pub complete_graph_body_bytes: u64,
    pub diagnostics: BTreeMap<String, usize>,
}

/// Integrity-checked member boundaries of a compressed stream; the suffix
/// after the member is kept as opaque evidence.
#[derive(Clone, Debug, Default)]
pub struct StreamEnvelope {
    pub prepared_bytes: usize,
    pub member_offset: usize,
    pub member_bytes: usize,
    pub opaque_suffix_bytes: usize,
    pub opaque_suffix_sha256: String,
    pub suffix_interpreted: bool,
}

/// Category facts kept from a definition owner decoded for the document
/// definition context.
#[derive(Clone, Debug)]
pub struct DefinitionOwnerCategoryCandidate {
    pub class_name: String,
    pub direct_category_id: Option<i64>,
    pub family_id: Option<i64>,
}

/// Document-wide definition state, reused across selected passes so that
/// definition owners are decoded once.
#[derive(Debug)]
pub struct DefinitionContext {
    pub registry: Registry,
    pub schema_sha256: String,
    /// Why an owner contributed nothing, by owner id.
    pub diagnostics: BTreeMap<u64, String>,
    /// Current channel-102 owners decoded for this context.
    pub definition_owner_ids: BTreeSet<u64>,
    /// Category facts retained from those owners, in id order.
    pub definition_owner_category_candidates: Vec<(u64, DefinitionOwnerCategoryCandidate)>,
    /// The file's Extensible Storage declarations, decoded once.
    pub extensible_storage_catalog: Option<Catalog>,
    pub extensible_storage_catalog_diagnostic: Option<String>,
}

/// A definition owner decoded for the document context.
#[derive(Clone, Debug)]
pub struct DefinitionOwnerRecord {
    pub element_id: u64,
    /// The decoder's diagnostic when no graph was decoded.
    pub diagnostic: Option<String>,
    /// The owner's decoded graph, when one was decoded.
    pub graph: Option<ObjectGraph>,
}

/// The definition context as values.
#[verifier::ext_equal]
pub struct ContextModel {
    pub ids: Set<u64>,
    pub candidates: Seq<(u64, DefinitionOwnerCategoryCandidate)>,
    pub registry: RegistryView,
    pub diagnostics: Map<u64, Seq<char>>,
}

/// Ids strictly increase along the candidates.
pub open spec fn ids_increasing(s: Seq<(u64, DefinitionOwnerCategoryCandidate)>) -> bool {
    forall|i: int, j: int| 0 <= i < j < s.len() ==> (#[trigger] s[i]).0 < (#[trigger] s[j]).0
}

/// Where `id` belongs in an id-ordered sequence.
pub open spec fn insert_position(s: Seq<(u64, DefinitionOwnerCategoryCandidate)>, id: u64) -> int {
    choose|p: int|
        0 <= p <= s.len() && (forall|k: int| 0 <= k < p ==> (#[trigger] s[k]).0 < id) && (p
            == s.len() || s[p].0 >= id)
}

/// `(id, c)` placed in id order; none when `id` is already present.
pub open spec fn insert_candidate_spec(
    s: Seq<(u64, DefinitionOwnerCategoryCandidate)>,
    id: u64,
    c: DefinitionOwnerCategoryCandidate,
) -> Option<Seq<(u64, DefinitionOwnerCategoryCandidate)>> {
    if exists|i: int| 0 <= i < s.len() && (#[trigger] s[i]).0 == id {
        None
    } else {
        Some(s.insert(insert_position(s, id), (id, c)))
    }
}

/// The saved id under `key` of a root's fields, when the field is stored.
pub open spec fn optional_id(t: Seq<TokenView>, key: Seq<char>) -> Result<Option<i64>, Seq<char>> {
    match member(t, 0, key) {
        None => Ok(None),
        Some(j) => match identifier(t, Some(j)) {
            Ok(n) => Ok(Some(n)),
            Err(e) => Err(e),
        },
    }
}

/// The category facts kept from a decoded root: its class, its category
/// field, and its family field when it is a family symbol.
pub open spec fn spec_candidate(root: GraphObject) -> Result<DefinitionOwnerCategoryCandidate, Seq<char>> {
    let t = tokens_view(root.fields@);
    match optional_id(t, "m_categoryId"@) {
        Err(e) => Err(e),
        Ok(c) => match (if spec_is_family_symbol_class(root.class_name@) {
            optional_id(t, "m_familyId"@)
        } else {
            Ok(None)
        }) {
            Err(e) => Err(e),
            Ok(f) => Ok(
                DefinitionOwnerCategoryCandidate {
                    class_name: root.class_name,
                    direct_category_id: c,
                    family_id: f,
                },
            ),
        },
    }
}

/// A root that carries binding context.
pub open spec fn is_binding_context_class(c: Seq<char>) -> bool {
    c == "ParamBinding"@ || c == "Family"@ || spec_is_family_symbol_class(c)
}

/// What a decoded owner contributes to the registry: project units, its
/// binding context, or the definition it owns.
pub open spec fn owner_registry_step(v: RegistryView, g: GraphView) -> (RegistryView, Result<(), Seq<char>>) {
    if g.objects.len() > 0 && g.objects[0].class_name == "UnitsElem"@ {
        spec_ingest_units(v, g)
    } else if g.objects.len() > 0 && is_binding_context_class(g.objects[0].class_name) {
        spec_ingest_context(v, g)
    } else {
        match spec_project_definition(g) {
            Err(e) => (v, Err(e)),
            Ok(None) => (v, Err("definition owner has no nonnull definition"@)),
            Ok(Some(d)) => spec_insert(v, d),
        }
    }
}

/// Taking one definition owner into the context: its id, the category
/// candidate of its decoded root (a refused id or a repeated owner ends
/// the pass), then its registry contribution or the diagnostic that
/// replaces it.
pub open spec fn owner_step(m: ContextModel, rec: DefinitionOwnerRecord) -> Result<ContextModel, Seq<char>> {
    let m1 = ContextModel { ids: m.ids.insert(rec.element_id), ..m };
    match rec.graph {
        None => Ok(
            ContextModel {
                diagnostics: m1.diagnostics.insert(
                    rec.element_id,
                    match rec.diagnostic {
                        Some(d) => d@,
                        None => "unsupported definition graph"@,
                    },
                ),
                ..m1
            },
        ),
        Some(graph) => match (if graph.objects@.len() > 0 {
            match spec_candidate(graph.objects@[0]) {
                Err(e) => Err(e),
                Ok(c) => match insert_candidate_spec(m1.candidates, rec.element_id, c) {
                    None => Err("duplicate definition owner category candidate"@),
                    Some(cs) => Ok(cs),
                },
            }
        } else {
            Ok(m1.candidates)
        }) {
            Err(e) => Err(e),
            Ok(cs) => {
                let (reg, r) = owner_registry_step(m1.registry, graph.view());
                Ok(
                    ContextModel {
                        candidates: cs,
                        registry: reg,
                        diagnostics: match r {
                            Ok(_) => m1.diagnostics,
                            Err(e) => m1.diagnostics.insert(rec.element_id, e),
                        },
                        ..m1
                    },
                )
            },
        },
    }
}

/// Taking the owners in order; the first refusal ends the pass.
pub open spec fn owners_fold(m: ContextModel, recs: Seq<DefinitionOwnerRecord>) -> Result<ContextModel, Seq<char>>
    decreases recs.len(),
{
    if recs.len() == 0 {
        Ok(m)
    } else {
        match owners_fold(m, recs.drop_last()) {
            Err(e) => Err(e),
            Ok(m1) => owner_step(m1, recs.last()),
        }
    }
}

/// The context before any owner was taken.
pub open spec fn empty_context(registry: RegistryView) -> ContextModel {
    ContextModel {
        ids: Set::empty(),
        candidates: Seq::empty(),
        registry,
        diagnostics: Map::empty(),
    }
}

/// Diagnostics by their characters.
pub open spec fn diagnostics_view(m: Map<u64, String>) -> Map<u64, Seq<char>> {
    Map::new(|k: u64| m.contains_key(k), |k: u64| m[k]@)
}

impl DefinitionContext {
    /// The context as values.
    pub open spec fn model(&self) -> ContextModel {
        ContextModel {
            ids: self.definition_owner_ids@,
            candidates: self.definition_owner_category_candidates@,
            registry: self.registry.view(),
            diagnostics: diagnostics_view(self.diagnostics@),
        }
    }
}

fn insert_candidate(
    v: &mut Vec<(u64, DefinitionOwnerCategoryCandidate)>,
    id: u64,
    c: DefinitionOwnerCategoryCandidate,
) -> (r: bool)
    requires
        ids_increasing(old(v)@),
    ensures
        r == (insert_candidate_spec(old(v)@, id, c) is Some),
        r ==> final(v)@ == insert_candidate_spec(old(v)@, id, c)->0 && ids_increasing(final(v)@),
        !r ==> final(v)@ == old(v)@,
{
    let mut p: usize = 0;
    while p < v.len() && v[p].0 < id
        invariant
            p <= v@.len(),
            v@ == old(v)@,
            forall|k: int| 0 <= k < p ==> (#[trigger] v@[k]).0 < id,
        decreases v@.len() - p,
    {
        p += 1;
    }
    let ghost s = v@;
    proof {
        let q = insert_position(s, id);
        assert(0 <= p <= s.len() && (forall|k: int| 0 <= k < p ==> (#[trigger] s[k]).0 < id) && (p
            == s.len() || s[p as int].0 >= id));
        if q < p {
            assert(s[q].0 < id);
        } else if p < q {
            assert(s[p as int].0 < id);
        }
    }
    if p < v.len() && v[p].0 == id {
        return false;
    }
    proof {
        assert forall|i: int| 0 <= i < s.len() implies (#[trigger] s[i]).0 != id by {
            if i < p {
            } else {
                assert(ids_increasing(s));
                if i > p {
                    assert(s[p as int].0 < s[i].0);
                }
            }
        }
    }
    v.insert(p, (id, c));
    proof {
        let t = v@;
        assert(t =~= s.insert(p as int, (id, c)));
        assert forall|i: int, j: int| 0 <= i < j < t.len() implies (#[trigger] t[i]).0 < (#[trigger] t[j]).0 by {
            if j < p {
                assert(t[i] == s[i] && t[j] == s[j]);
            } else if j == p {
                assert(t[i] == s[i]);
            } else if i < p {
                assert(t[i] == s[i] && t[j] == s[j - 1]);
                if j - 1 > p {
                    assert(s[p as int].0 < s[j - 1].0);
                }
            } else if i == p {
                assert(t[j] == s[j - 1]);
                if j - 1 > p {
                    assert(s[p as int].0 < s[j - 1].0);
                }
            } else {
                assert(t[i] == s[i - 1] && t[j] == s[j - 1]);
            }
        }
    }
    true
}

/// The saved id under `key` of a root's fields, when the field is stored.
pub fn optional_id_exec(t: &[Token], key: &str) -> (r: Result<Option<i64>, String>)
    ensures
        text_outcome(r, optional_id(tokens_view(t@), key@)),
{
    match field_pos(t, key) {
        None => Ok(None),
        Some(j) => match identifier_exec(t, Some(j)) {
            Ok(n) => Ok(Some(n)),
            Err(e) => Err(e),
        },
    }
}

/// The category facts kept from a decoded root.
fn candidate_exec(root: &GraphObject) -> (r: Result<DefinitionOwnerCategoryCandidate, String>)
    ensures
        text_outcome(r, spec_candidate(*root)),
{
    let t = root.fields.as_slice();
    let c = match optional_id_exec(t, "m_categoryId") {
        Ok(c) => c,
        Err(e) => return Err(e),
    };
    let f = if is_family_symbol_definition_owner(root.class_name.as_str()) {
        match optional_id_exec(t, "m_familyId") {
            Ok(f) => f,
            Err(e) => return Err(e),
        }
    } else {
        None
    };
    Ok(DefinitionOwnerCategoryCandidate { class_name: root.class_name.clone(), direct_category_id: c, family_id: f })
}

/// What a decoded owner contributes to the registry.
fn owner_registry_exec(registry: &mut Registry, graph: &ObjectGraph) -> (r: Result<(), String>)
    ensures
        (final(registry).view(), unit_text(r)) == owner_registry_step(old(registry).view(), graph.view()),
{
    proof {
        if graph.objects@.len() > 0 {
            assert(graph.view().objects[0] == graph.objects@[0]@);
        }
    }
    if graph.objects.len() > 0 && str_eq(graph.objects[0].class_name.as_str(), "UnitsElem") {
        registry.ingest_units(graph)
    } else if graph.objects.len() > 0 && (str_eq(graph.objects[0].class_name.as_str(), "ParamBinding")
        || str_eq(graph.objects[0].class_name.as_str(), "Family") || is_family_symbol_definition_owner(
        graph.objects[0].class_name.as_str(),
    )) {
        registry.ingest_binding_context(graph)
    } else {
        match project(graph) {
            Err(e) => Err(e),
            Ok(None) => Err(text_of("definition owner has no nonnull definition")),
            Ok(Some(d)) => registry.insert(d),
        }
    }
}

/// Builds the document definition context from the definition owners of a
/// bounded first pass, in pass order: every owner's id, the category
/// candidate of every decoded root (a refused id or a repeated owner ends
/// the pass), each owner's units, binding context or definition, and a
/// diagnostic for each owner that contributed nothing.
pub fn build_definition_context(
    schema_sha256: String,
    owners: &[DefinitionOwnerRecord],
    extensible_storage_catalog: Option<Catalog>,
    extensible_storage_catalog_diagnostic: Option<String>,
) -> (r: Result<DefinitionContext, String>)
    ensures
        match owners_fold(empty_context(Registry::new_spec()), owners@) {
            Err(e) => r is Err && r->Err_0@ == e,
            Ok(m) => r matches Ok(c) && c.model() == m && c.schema_sha256 == schema_sha256
                && c.extensible_storage_catalog == extensible_storage_catalog
                && c.extensible_storage_catalog_diagnostic == extensible_storage_catalog_diagnostic,
        },
        r matches Ok(c) ==> ids_increasing(c.definition_owner_category_candidates@),
{
    let mut ctx = DefinitionContext {
        registry: Registry::new(),
        schema_sha256,
        diagnostics: BTreeMap::new(),
        definition_owner_ids: BTreeSet::new(),
        definition_owner_category_candidates: Vec::new(),
        extensible_storage_catalog,
        extensible_storage_catalog_diagnostic,
    };
    proof {
        assert(diagnostics_view(ctx.diagnostics@) =~= Map::empty());
        assert(ctx.model() =~= empty_context(Registry::new_spec()));
        assert(owners@.take(0) =~= Seq::<DefinitionOwnerRecord>::empty());
    }
    let mut i: usize = 0;
    while i < owners.len()
        invariant
            i <= owners@.len(),
            owners_fold(empty_context(Registry::new_spec()), owners@.take(i as int)) == Ok::<ContextModel, Seq<char>>(ctx.model()),
            ids_increasing(ctx.definition_owner_category_candidates@),
            ctx.schema_sha256 == schema_sha256,
            ctx.extensible_storage_catalog == extensible_storage_catalog,
            ctx.extensible_storage_catalog_diagnostic == extensible_storage_catalog_diagnostic,
        decreases owners@.len() - i,
    {
        proof {
            assert(owners@.take(i + 1).drop_last() =~= owners@.take(i as int));
        }
        let ghost m0 = ctx.model();
        let rec = &owners[i];
        ctx.definition_owner_ids.insert(rec.element_id);
        match &rec.graph {
            None => {
                let d = match &rec.diagnostic {
                    Some(t) => t.clone(),
                    None => text_of("unsupported definition graph"),
                };
                let ghost dv = d@;
                ctx.diagnostics.insert(rec.element_id, d);
                proof {
                    assert(diagnostics_view(ctx.diagnostics@) =~= m0.diagnostics.insert(rec.element_id, dv));
                }
            },
            Some(graph) => {
                if graph.objects.len() > 0 {
                    let candidate = match candidate_exec(&graph.objects[0]) {
                        Ok(c) => c,
                        Err(e) => {
                            proof {
                                lemma_owners_fold_err(empty_context(Registry::new_spec()), owners@, i + 1);
                            }
                            return Err(e);
                        },
                    };
                    if !insert_candidate(&mut ctx.definition_owner_category_candidates, rec.element_id, candidate) {
                        proof {
                            lemma_owners_fold_err(empty_context(Registry::new_spec()), owners@, i + 1);
                        }
                        return Err(text_of("duplicate definition owner category candidate"));
                    }
                }
                let ghost before = ctx.diagnostics@;
                match owner_registry_exec(&mut ctx.registry, graph) {
                    Ok(()) => {},
                    Err(e) => {
                        let ghost ev = e@;
                        ctx.diagnostics.insert(rec.element_id, e);
                        proof {
                            assert(diagnostics_view(ctx.diagnostics@) =~= diagnostics_view(before).insert(rec.element_id, ev));
                        }
                    },
                }
            },
        }
        proof {
            assert(ctx.model() =~= owner_step(m0, owners@[i as int])->Ok_0);
        }
        i += 1;
    }
    proof {
        assert(owners@.take(owners@.len() as int) =~= owners@);
    }
    Ok(ctx)
}

proof fn lemma_owners_fold_err(m: ContextModel, recs: Seq<DefinitionOwnerRecord>, n: int)
    requires
        0 <= n <= recs.len(),
        owners_fold(m, recs.take(n)) is Err,
    ensures
        owners_fold(m, recs) == owners_fold(m, recs.take(n)),
    decreases recs.len() - n,
{
    if n == recs.len() {
        assert(recs.take(n) =~= recs);
    } else {
        assert(recs.take(n + 1).drop_last() =~= recs.take(n));
        lemma_owners_fold_err(m, recs, n + 1);
    }
}

/// The next graph budget after a budget failure: four times the current
/// one (at least one more), capped at `ceiling`; none once at the ceiling.
pub fn adaptive_graph_limit(current: usize, ceiling: usize) -> (r: Option<usize>)
    ensures
        current >= ceiling ==> r is None,
        current < ceiling ==> r == Some(
            {
                let grown = if current * 4 > usize::MAX {
                    usize::MAX as int
                } else {
                    current * 4
                };
                let at_least = if grown < current + 1 {
                    current + 1
                } else {
                    grown
                };
                if at_least > ceiling {
                    ceiling
                } else {
                    at_least as usize
                }
            },
        ),
{
    if current >= ceiling {
        return None;
    }
    let grown = if current > usize::MAX / 4 {
        usize::MAX
    } else {
        current * 4
    };
    let at_least = if grown < current + 1 {
        current + 1
    } else {
        grown
    };
    Some(
        if at_least > ceiling {
            ceiling
        } else {
            at_least
        },
    )
}

/// Largest inflated size of one global stream.
pub const MAX_INFLATED_STREAM_BYTES: usize = 256 * 1024 * 1024;

/// Why a compressed stream member was refused.
#[derive(Clone, Copy, Debug, PartialEq, Eq, Structural)]
pub enum StreamError {
    /// The member offset lies past the prepared stream.
    TruncatedPrefix,
    /// The gzip member is malformed, truncated or fails its CRC/ISIZE check.
    Inflate,
    /// The payload exceeds [`MAX_INFLATED_STREAM_BYTES`].
    InflateBudgetExceeded,
    /// The bytes after the member exceed one storage page.
    OpaqueSuffixTooLarge,
}

/// The payload of the first gzip member of `input` when at most `limit`
/// payload bytes are read, and the number of input bytes after the member.
pub uninterp spec fn gzip_first_member(input: Seq<u8>, limit: u64) -> Option<(Seq<u8>, nat)>;

/// Inflates the first gzip member of `input` with `flate2`'s buffered
/// `GzDecoder`, reading at most `limit` payload bytes; returns the payload
/// and the length of the input left unread.  The result is a function of
/// the input and the limit; the payload holds at most `limit` bytes and the
/// unread rest is a suffix of the input.  A decoding error (bad header,
/// corrupt data, CRC or length mismatch) yields `None`.
#[verifier::external_body]
fn inflate_first_member(input: &[u8], limit: u64) -> (r: Option<(Vec<u8>, usize)>)
    ensures
        match r {
            Some((payload, rest)) => gzip_first_member(input@, limit) == Some((payload@, rest as nat))
                && payload@.len() <= limit && rest <= input@.len(),
            None => gzip_first_member(input@, limit) is None,
        },
{
    let mut decoder = flate2::bufread::GzDecoder::new(input);
    let mut payload = Vec::new();
    match (&mut decoder).take(limit).read_to_end(&mut payload) {
        Ok(_) => Some((payload, decoder.get_ref().len())),
        Err(_) => None,
    }
}

/// SHA-256 digest of `data`.
pub uninterp spec fn sha256(data: Seq<u8>) -> Seq<u8>;

/// SHA-256 digest of `data` (`sha2::Sha256::digest`); 32 bytes.
#[verifier::external_body]
pub(crate) fn sha256_digest(data: &[u8]) -> (r: Vec<u8>)
    ensures
        r@ == sha256(data@),
        r@.len() == 32,
{
    <sha2::Sha256 as sha2::Digest>::digest(data).to_vec()
}

/// The envelope and payload of an inflated member, as [`accept_member`]
/// builds them.
pub open spec fn spec_accept_member(
    prepared_len: usize,
    offset: usize,
    compressed: Seq<u8>,
    inflated: Option<(Seq<u8>, nat)>,
    max_suffix_bytes: usize,
) -> Result<(Seq<u8>, usize, usize, Seq<char>, bool), StreamError> {
    match inflated {
        None => Err(StreamError::Inflate),
        Some((payload, rest)) => if payload.len() > MAX_INFLATED_STREAM_BYTES {
            Err(StreamError::InflateBudgetExceeded)
        } else if rest > max_suffix_bytes {
            Err(StreamError::OpaqueSuffixTooLarge)
        } else {
            let suffix = compressed.subrange(compressed.len() - rest, compressed.len() as int);
            Ok((payload, (compressed.len() - rest) as usize, rest as usize, hex_text(sha256(suffix)), rest == 0))
        },
    }
}

/// Accepts an inflated member: its payload must fit the inflate budget and
/// the unread suffix one storage page (`max_suffix_bytes`); the envelope
/// records the member and suffix sizes and the suffix digest.
pub fn accept_member(
    prepared_len: usize,
    offset: usize,
    compressed: &[u8],
    inflated: Option<(Vec<u8>, usize)>,
    max_suffix_bytes: usize,
) -> (r: Result<(Vec<u8>, StreamEnvelope), StreamError>)
    requires
        inflated matches Some((_, rest)) ==> rest <= compressed@.len(),
    ensures
        match spec_accept_member(
            prepared_len,
            offset,
            compressed@,
            match inflated {
                Some((p, rest)) => Some((p@, rest as nat)),
                None => None,
            },
            max_suffix_bytes,
        ) {
            Err(e) => r == Err::<(Vec<u8>, StreamEnvelope), StreamError>(e),
            Ok((payload, member, rest, digest, interpreted)) => r matches Ok((p, env)) && p@
                == payload && env.prepared_bytes == prepared_len && env.member_offset == offset
                && env.member_bytes == member && env.opaque_suffix_bytes == rest
                && env.opaque_suffix_sha256@ == digest && env.suffix_interpreted == interpreted,
        },
{
    let (payload, rest) = match inflated {
        None => return Err(StreamError::Inflate),
        Some(x) => x,
    };
    if payload.len() > MAX_INFLATED_STREAM_BYTES {
        return Err(StreamError::InflateBudgetExceeded);
    }
    if rest > max_suffix_bytes {
        return Err(StreamError::OpaqueSuffixTooLarge);
    }
    let suffix = vstd::slice::slice_subrange(compressed, compressed.len() - rest, compressed.len());
    let digest = sha256_digest(suffix);
    let envelope = StreamEnvelope {
        prepared_bytes: prepared_len,
        member_offset: offset,
        member_bytes: compressed.len() - rest,
        opaque_suffix_bytes: rest,
        opaque_suffix_sha256: hex_bytes(digest.as_slice()),
        suffix_interpreted: rest == 0,
    };
    Ok((payload, envelope))
}

/// Decodes the gzip member starting at `offset` of a prepared stream,
/// keeping the bytes after it as opaque suffix evidence.
pub fn decode_single(prepared: &[u8], offset: usize, max_suffix_bytes: usize) -> (r: Result<
    (Vec<u8>, StreamEnvelope),
    StreamError,
>)
    ensures
        offset > prepared@.len() ==> r == Err::<(Vec<u8>, StreamEnvelope), StreamError>(
            StreamError::TruncatedPrefix,
        ),
        offset <= prepared@.len() ==> {
            let compressed = prepared@.subrange(offset as int, prepared@.len() as int);
            match spec_accept_member(
                prepared@.len() as usize,
                offset,
                compressed,
                gzip_first_member(compressed, (MAX_INFLATED_STREAM_BYTES + 1) as u64),
                max_suffix_bytes,
            ) {
                Err(e) => r == Err::<(Vec<u8>, StreamEnvelope), StreamError>(e),
                Ok((payload, member, rest, digest, interpreted)) => r matches Ok((p, env)) && p@
                    == payload && env.prepared_bytes == prepared@.len() && env.member_offset
                    == offset && env.member_bytes == member && env.opaque_suffix_bytes == rest
                    && env.opaque_suffix_sha256@ == digest && env.suffix_interpreted
                    == interpreted,
            }
        },
{
    if offset > prepared.len() {
        return Err(StreamError::TruncatedPrefix);
    }
    let compressed = vstd::slice::slice_subrange(prepared, offset, prepared.len());
    let inflated = inflate_first_member(compressed, (MAX_INFLATED_STREAM_BYTES + 1) as u64);
    accept_member(prepared.len(), offset, compressed, inflated, max_suffix_bytes)
}


/// The prepared bytes before the gzip member of a global stream: none for
/// `Formats/Latest`, eight for every other stream.
pub open spec fn spec_member_offset(name: Seq<char>) -> usize {
    if name == "Formats/Latest"@ {
        0
    } else {
        8
    }
}

/// Decodes one prepared global stream, keeping its envelope; see
/// [`decode_single`].
pub fn read_single_envelope(name: &str, prepared: &[u8], max_suffix_bytes: usize) -> (r: Result<
    (Vec<u8>, StreamEnvelope),
    StreamError,
>)
    ensures
        ({
            let offset = spec_member_offset(name@);
            &&& offset > prepared@.len() ==> r == Err::<(Vec<u8>, StreamEnvelope), StreamError>(StreamError::TruncatedPrefix)
            &&& offset <= prepared@.len() ==> {
                let compressed = prepared@.subrange(offset as int, prepared@.len() as int);
                match spec_accept_member(
                    prepared@.len() as usize,
                    offset,
                    compressed,
                    gzip_first_member(compressed, (MAX_INFLATED_STREAM_BYTES + 1) as u64),
                    max_suffix_bytes,
                ) {
                    Err(e) => r == Err::<(Vec<u8>, StreamEnvelope), StreamError>(e),
                    Ok((payload, member, rest, digest, interpreted)) => r matches Ok((p, env)) && p@
                        == payload && env.prepared_bytes == prepared@.len() && env.member_offset
                        == offset && env.member_bytes == member && env.opaque_suffix_bytes == rest
                        && env.opaque_suffix_sha256@ == digest && env.suffix_interpreted
                        == interpreted,
                }
            }
        }),
{
    let offset: usize = if str_eq(name, "Formats/Latest") {
        0
    } else {
        8
    };
    decode_single(prepared, offset, max_suffix_bytes)
}

/// The payload of one CRC- and length-checked global stream member.
pub fn read_single(name: &str, prepared: &[u8], max_suffix_bytes: usize) -> (r: Result<Vec<u8>, StreamError>)
    ensures
        ({
            let offset = spec_member_offset(name@);
            &&& offset > prepared@.len() ==> r == Err::<Vec<u8>, StreamError>(StreamError::TruncatedPrefix)
            &&& offset <= prepared@.len() ==> {
                let compressed = prepared@.subrange(offset as int, prepared@.len() as int);
                match spec_accept_member(
                    prepared@.len() as usize,
                    offset,
                    compressed,
                    gzip_first_member(compressed, (MAX_INFLATED_STREAM_BYTES + 1) as u64),
                    max_suffix_bytes,
                ) {
                    Err(e) => r == Err::<Vec<u8>, StreamError>(e),
                    Ok((payload, _, _, _, _)) => r matches Ok(p) && p@ == payload,
                }
            }
        }),
{
    match read_single_envelope(name, prepared, max_suffix_bytes) {
        Ok((payload, _)) => Ok(payload),
        Err(e) => Err(e),
    }
}

/// Why a probed record was not reported.
#[derive(Clone, Copy, Debug, PartialEq, Eq, Structural)]
pub enum ProbeError {
    /// The selected group holds embedded (content-keyed) records.
    EmbeddedContent,
    /// The selected group is on another channel.
    ChannelMismatch,
    /// The group failed its framing or declared totals.
    Framing(FramingError),
    /// The record is not in the group.
    Absent,
}

/// At most this many body bytes are shown by a probe.
pub const PROBE_BODY_PREVIEW_BYTES: usize = 65536;

/// The first frame of `id`, if any.
pub open spec fn first_frame_of(frames: Seq<Frame>, id: u64) -> Option<int> {
    if exists|i: int| 0 <= i < frames.len() && (#[trigger] frames[i]).id == id {
        Some(choose|i: int| 0 <= i < frames.len() && (#[trigger] frames[i]).id == id && forall|j: int| 0 <= j < i ==> frames[j].id != id)
    } else {
        None
    }
}

/// Reports the validated physical frame of record `element_id` in one
/// selected group of `stream`: the group must hold current records of
/// `channel` and match its declared totals; the probe shows the header,
/// the trailing length and at most [`PROBE_BODY_PREVIEW_BYTES`] of the body,
/// with the body's SHA-256. No graph is decoded.
pub fn probe_record_in_group(
    stream: &str,
    source: &GroupSource,
    bytes: &[u8],
    id_bytes: usize,
    channel: u64,
    element_id: u64,
) -> (r: Result<PhysicalRecordProbe, ProbeError>)
    requires
        id_bytes <= usize::MAX - 12,
    ensures
        source.content_key is Some ==> r == Err::<PhysicalRecordProbe, ProbeError>(ProbeError::EmbeddedContent),
        source.content_key is None && source.channel != channel ==> r == Err::<PhysicalRecordProbe, ProbeError>(ProbeError::ChannelMismatch),
        source.content_key is None && source.channel == channel ==> match spec_group_frames(bytes@, id_bytes as nat, *source) {
            Err(e) => r == Err::<PhysicalRecordProbe, ProbeError>(ProbeError::Framing(e)),
            Ok(frames) => match first_frame_of(frames, element_id) {
                None => r == Err::<PhysicalRecordProbe, ProbeError>(ProbeError::Absent),
                Some(i) => {
                    let f = frames[i];
                    let body = bytes@.subrange(f.body_start as int, f.body_end as int);
                    let shown = if body.len() > PROBE_BODY_PREVIEW_BYTES { PROBE_BODY_PREVIEW_BYTES as int } else { body.len() as int };
                    r matches Ok(p) && p.element_id == element_id && p.channel == channel
                        && p.source.stream@ == stream@ && p.source.group == *source
                        && p.source.group_record_offset == f.offset && p.source.body_bytes == body.len()
                        && p.source.body_sha256@ == hex_text(sha256(body))
                        && p.header_hex@ == hex_text(bytes@.subrange(f.offset as int, f.body_start as int))
                        && p.trailer_hex@ == hex_text(bytes@.subrange(f.body_end as int, f.body_end + 4))
                        && p.body_hex@ == hex_text(body.take(shown))
                        && p.body_preview_truncated == (body.len() > PROBE_BODY_PREVIEW_BYTES)
                },
            },
        },
{
    if source.content_key.is_some() {
        return Err(ProbeError::EmbeddedContent);
    }
    if source.channel != channel {
        return Err(ProbeError::ChannelMismatch);
    }
    let frames = match group_frames(bytes, id_bytes, source) {
        Ok(frames) => frames,
        Err(e) => return Err(ProbeError::Framing(e)),
    };
    let ghost header = spec_header_len(source.channel, id_bytes as nat)->0;
    proof {
        lemma_frames_ordered_pub(bytes@, header, id_bytes as nat, true, 0);
    }
    proof {
        assert(frames@ == parse_frames(bytes@, header, id_bytes as nat, true, 0)->Ok_0);
    }
    let mut i: usize = 0;
    while i < frames.len() && frames[i].id != element_id
        invariant
            i <= frames@.len(),
            forall|j: int| 0 <= j < i ==> frames@[j].id != element_id,
        decreases frames@.len() - i,
    {
        i += 1;
    }
    if i == frames.len() {
        proof {
            assert(!exists|k: int| 0 <= k < frames@.len() && (#[trigger] frames@[k]).id == element_id);
        }
        return Err(ProbeError::Absent);
    }
    let f = frames[i];
    proof {
        assert(frames@[i as int].id == element_id);
        let k = choose|k: int| 0 <= k < frames@.len() && (#[trigger] frames@[k]).id == element_id && forall|j: int| 0 <= j < k ==> frames@[j].id != element_id;
        if k < i {
            assert(frames@[k].id != element_id);
        } else if k > i {
            assert(frames@[i as int].id != element_id);
        }
        assert(frames@[i as int] == f);
        assert(f.body_end + 4 <= bytes@.len());
        assert(bytes@.len() == bytes.len());
    }
    let header_bytes = vstd::slice::slice_subrange(bytes, f.offset, f.body_start);
    let body = vstd::slice::slice_subrange(bytes, f.body_start, f.body_end);
    let trailer = vstd::slice::slice_subrange(bytes, f.body_end, f.body_end + 4);
    let shown = if body.len() > PROBE_BODY_PREVIEW_BYTES {
        PROBE_BODY_PREVIEW_BYTES
    } else {
        body.len()
    };
    let preview = vstd::slice::slice_subrange(body, 0, shown);
    proof {
        assert(preview@ =~= body@.take(shown as int));
    }
    let digest = sha256_digest(body);
    Ok(PhysicalRecordProbe {
        element_id,
        channel,
        source: RecordSource {
            stream: stream.to_owned(),
            group: *source,
            group_record_offset: f.offset,
            body_bytes: body.len(),
            body_sha256: hex_bytes(digest.as_slice()),
        },
        header_hex: hex_bytes(header_bytes),
        trailer_hex: hex_bytes(trailer),
        body_hex: hex_bytes(preview),
        body_preview_truncated: body.len() > PROBE_BODY_PREVIEW_BYTES,
    })
}


/// Why a decoded owner graph contradicts its indexed identity.
#[derive(Clone, Copy, Debug, PartialEq, Eq, Structural)]
pub enum OwnerIdentityError {
    /// The graph has no root object.
    EmptyGraph,
    /// The root's `m_id` names another owner.
    Disagrees { indexed_id: u64 },
}

/// Checks a channel-102 owner's serialized `m_id` against the indexed id:
/// an absent or null `m_id` is unavailable redundant evidence; a present
/// one must equal the indexed id. Other channels are not checked.
pub fn validate_serialized_owner_identity(
    channel: u64,
    root_present: bool,
    saved_id: Option<Option<i64>>,
    indexed_id: u64,
) -> (r: Result<(), OwnerIdentityError>)
    ensures
        channel != 102 ==> r is Ok,
        channel == 102 && !root_present ==> r == Err::<(), OwnerIdentityError>(OwnerIdentityError::EmptyGraph),
        channel == 102 && root_present ==> match saved_id {
            Some(Some(v)) => if v >= 0 && v == indexed_id {
                r is Ok
            } else {
                r == Err::<(), OwnerIdentityError>(OwnerIdentityError::Disagrees { indexed_id })
            },
            _ => r is Ok,
        },
{
    if channel != 102 {
        return Ok(());
    }
    if !root_present {
        return Err(OwnerIdentityError::EmptyGraph);
    }
    match saved_id {
        Some(Some(v)) => {
            if v >= 0 && v as u64 == indexed_id {
                Ok(())
            } else {
                Err(OwnerIdentityError::Disagrees { indexed_id })
            }
        },
        _ => Ok(()),
    }
}

} // verus!

verus! {

/// The first position from `k` on whose id is at least `id`, or the end.
spec fn first_at_least(s: Seq<(u64, DefinitionOwnerCategoryCandidate)>, id: u64, k: int) -> int
    decreases s.len() - k,
{
    if k < 0 || k >= s.len() {
        s.len() as int
    } else if s[k].0 >= id {
        k
    } else {
        first_at_least(s, id, k + 1)
    }
}

proof fn lemma_first_at_least(s: Seq<(u64, DefinitionOwnerCategoryCandidate)>, id: u64, k: int)
    requires
        0 <= k <= s.len(),
        forall|j: int| 0 <= j < k ==> (#[trigger] s[j]).0 < id,
    ensures
        ({
            let p = first_at_least(s, id, k);
            &&& k <= p <= s.len()
            &&& forall|j: int| 0 <= j < p ==> (#[trigger] s[j]).0 < id
            &&& p == s.len() || s[p].0 >= id
        }),
    decreases s.len() - k,
{
    if k < s.len() && s[k].0 < id {
        lemma_first_at_least(s, id, k + 1);
    }
}

/// The definition context's owners account for all it holds: every
/// candidate and every diagnostic belongs to a taken owner.
pub open spec fn context_consistent(m: ContextModel) -> bool {
    &&& forall|i: int| 0 <= i < m.candidates.len() ==> m.ids.contains(#[trigger] m.candidates[i].0)
    &&& forall|k: u64| #[trigger] m.diagnostics.contains_key(k) ==> m.ids.contains(k)
}

proof fn lemma_owner_step_consistent(m: ContextModel, rec: DefinitionOwnerRecord)
    requires
        context_consistent(m),
        owner_step(m, rec) is Ok,
    ensures
        context_consistent(owner_step(m, rec)->Ok_0),
        owner_step(m, rec)->Ok_0.ids == m.ids.insert(rec.element_id),
{
    let ids = m.ids.insert(rec.element_id);
    if let Some(graph) = rec.graph {
        if graph.objects@.len() > 0 {
            let c = spec_candidate(graph.objects@[0])->Ok_0;
            let s = m.candidates;
            if insert_candidate_spec(s, rec.element_id, c) is Some {
                lemma_first_at_least(s, rec.element_id, 0);
                let q = first_at_least(s, rec.element_id, 0);
                assert(0 <= q <= s.len() && (forall|k: int| 0 <= k < q ==> (#[trigger] s[k]).0 < rec.element_id) && (q
                    == s.len() || s[q].0 >= rec.element_id));
                let p = insert_position(s, rec.element_id);
                s.insert_ensures(p, (rec.element_id, c));
                let t = s.insert(p, (rec.element_id, c));
                assert forall|i: int| 0 <= i < t.len() implies ids.contains(#[trigger] t[i].0) by {
                    if i < p {
                        assert(t[i] == s[i]);
                    } else if i > p {
                        assert(t[(i - 1) + 1] == s[i - 1]);
                    }
                }
            }
        }
    }
}

proof fn lemma_owners_fold_consistent(m: ContextModel, recs: Seq<DefinitionOwnerRecord>)
    requires
        context_consistent(m),
        owners_fold(m, recs) is Ok,
    ensures
        context_consistent(owners_fold(m, recs)->Ok_0),
        owners_fold(m, recs)->Ok_0.ids == m.ids + Set::new(|id: u64| exists|i: int| 0 <= i < recs.len() && (#[trigger] recs[i]).element_id == id),
    decreases recs.len(),
{
    let all = Set::new(|id: u64| exists|i: int| 0 <= i < recs.len() && (#[trigger] recs[i]).element_id == id);
    if recs.len() == 0 {
        assert(all =~= Set::empty());
        assert(m.ids + all =~= m.ids);
    } else {
        let p = recs.drop_last();
        lemma_owners_fold_consistent(m, p);
        let m1 = owners_fold(m, p)->Ok_0;
        lemma_owner_step_consistent(m1, recs.last());
        let before = Set::new(|id: u64| exists|i: int| 0 <= i < p.len() && (#[trigger] p[i]).element_id == id);
        assert forall|id: u64| all.contains(id) <==> before.insert(recs.last().element_id).contains(id) by {
            if all.contains(id) {
                let i = choose|i: int| 0 <= i < recs.len() && (#[trigger] recs[i]).element_id == id;
                if i < p.len() {
                    assert(p[i] == recs[i]);
                }
            }
            if before.contains(id) {
                let i = choose|i: int| 0 <= i < p.len() && (#[trigger] p[i]).element_id == id;
                assert(recs[i] == p[i]);
            }
            if id == recs.last().element_id {
                assert(recs[recs.len() - 1] == recs.last());
            }
        }
        assert(owners_fold(m, recs)->Ok_0.ids =~= m.ids + all);
    }
}

/// A successful definition context takes every owner it is given and holds
/// nothing else: its owner ids are exactly the given owners' ids, and every
/// category candidate and every diagnostic belongs to one of them.
pub proof fn lemma_context_holds_only_its_owners(recs: Seq<DefinitionOwnerRecord>, reg: RegistryView)
    requires
        owners_fold(empty_context(reg), recs) is Ok,
    ensures
        ({
            let m = owners_fold(empty_context(reg), recs)->Ok_0;
            &&& context_consistent(m)
            &&& forall|id: u64| #[trigger] m.ids.contains(id) <==> exists|i: int| 0 <= i < recs.len() && (#[trigger] recs[i]).element_id == id
        }),
{
    lemma_owners_fold_consistent(empty_context(reg), recs);
    let m = owners_fold(empty_context(reg), recs)->Ok_0;
    assert forall|id: u64| #[trigger] m.ids.contains(id) <==> exists|i: int| 0 <= i < recs.len() && (#[trigger] recs[i]).element_id == id by {}
}

/// An owner whose graph was not decoded, or whose registry contribution
/// fails, becomes a diagnostic of the context instead of failing the
/// context.
pub proof fn lemma_owner_failure_is_diagnostic(m: ContextModel, rec: DefinitionOwnerRecord)
    requires
        owner_step(m, rec) is Ok,
        rec.graph is None || owner_registry_step(m.registry, rec.graph->0.view()).1 is Err,
    ensures
        owner_step(m, rec)->Ok_0.diagnostics.contains_key(rec.element_id),
{
}

} // verus!
