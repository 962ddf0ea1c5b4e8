//! Native category recovery for owners and the fail-closed selection of
//! owners by requested BuiltInCategory ids.
use vstd::prelude::*;
use std::collections::{BTreeMap, BTreeSet};

use crate::document::{DefinitionContext, DefinitionOwnerCategoryCandidate};
use crate::native_category_profile::{category_label, category_table, lookup_label};
use crate::physical_index::{spec_current_ids, PhysicalIndex};
use crate::native_category_profile::{lookup_id, owner_class_category_id, owner_class_table};
use crate::parameter_definitions::{is_family_symbol_definition_owner, spec_is_family_symbol_class, Registry};
use crate::metadata_projection::SavedMetadata;
use crate::text::str_eq;

verus! {

broadcast use vstd::std_specs::btree::group_btree_axioms;

/// Why a category could not be recovered or a selection not accounted.
#[derive(Clone, Debug, PartialEq, Eq)]
pub enum SelectionError {
    /// A selection must request at least one category.
    EmptyRequest,
    /// One owner states more than one saved category.
    ConflictingSavedCategory,
    /// Direct, inherited, scheme and owner-class categories disagree.
    ConflictingCategoryFacts { element_id: u64 },
    /// The retained facts of a definition owner disagree.
    ConflictingDefinitionOwnerFacts { class_name: String },
    /// A root record was selected twice.
    DuplicateSelectedRecord { element_id: u64 },
    /// A definition owner was selected after its id already was.
    DuplicateDefinitionSelection { element_id: u64 },
    /// Scanned and reused owners do not add up to the current owners.
    IncompleteAccounting,
}

/// One raw field parameter of an owner's saved metadata.
#[derive(Clone, Debug)]
pub struct RawFieldFact {
    pub source_field: String,
    pub storage_type: String,
    /// The raw value when it is an integer.
    pub raw_value: Option<i64>,
}

/// Whether `f` states the saved category `v`.
pub open spec fn states_category(f: RawFieldFact, v: i64) -> bool {
    f.source_field@ == "m_categoryId"@ && f.storage_type@ == "ElementId"@ && f.raw_value == Some(v)
}

/// The saved categories stated by the metadata fields and the root object.
pub open spec fn stated_categories(fields: Seq<RawFieldFact>, root: Option<i64>) -> Set<i64> {
    Set::new(
        |v: i64|
            (exists|i: int| 0 <= i < fields.len() && #[trigger] states_category(fields[i], v))
                || root == Some(v),
    )
}

/// A set holding two different values.
pub open spec fn has_conflict(s: Set<i64>) -> bool {
    exists|a: i64, b: i64| s.contains(a) && s.contains(b) && a != b
}

/// The one saved category, none, or a conflict.
pub open spec fn spec_category_id(fields: Seq<RawFieldFact>, root: Option<i64>) -> Result<
    Option<i64>,
    SelectionError,
> {
    let s = stated_categories(fields, root);
    if has_conflict(s) {
        Err(SelectionError::ConflictingSavedCategory)
    } else if s =~= Set::empty() {
        Ok(None)
    } else {
        Ok(Some(s.choose()))
    }
}

/// The saved BuiltInCategory of an owner: the `m_categoryId` element-id
/// parameters of its metadata together with its root object's
/// `m_categoryId`; two different values are a conflict.
pub fn category_id(fields: &[RawFieldFact], root_category: Option<i64>) -> (r: Result<
    Option<i64>,
    SelectionError,
>)
    ensures
        r == spec_category_id(fields@, root_category),
        r matches Ok(Some(v)) ==> stated_categories(fields@, root_category) == set![v],
{
    let ghost s = stated_categories(fields@, root_category);
    let mut found: Option<i64> = None;
    let mut i: usize = 0;
    while i < fields.len()
        invariant
            i <= fields@.len(),
            s == stated_categories(fields@, root_category),
            found is None ==> forall|k: int, v: i64|
                0 <= k < i ==> !#[trigger] states_category(fields@[k], v),
            found matches Some(x) ==> (exists|k: int| 0 <= k < i && #[trigger] states_category(fields@[k], x))
                && forall|k: int, v: i64| 0 <= k < i && #[trigger] states_category(fields@[k], v) ==> v == x,
        decreases fields@.len() - i,
    {
        let f = &fields[i];
        if str_eq(f.source_field.as_str(), "m_categoryId") && str_eq(f.storage_type.as_str(), "ElementId") {
            if let Some(v) = f.raw_value {
                proof {
                    assert(states_category(fields@[i as int], v));
                }
                if let Some(x) = found {
                    if x != v {
                        proof {
                            assert(s.contains(x) && s.contains(v));
                        }
                        return Err(SelectionError::ConflictingSavedCategory);
                    }
                }
                found = Some(v);
            }
        }
        i += 1;
    }
    if let Some(rv) = root_category {
        if let Some(x) = found {
            if x != rv {
                proof {
                    assert(s.contains(x) && s.contains(rv));
                }
                return Err(SelectionError::ConflictingSavedCategory);
            }
        }
        found = Some(rv);
    }
    match found {
        None => {
            proof {
                assert(s =~= Set::empty());
            }
            Ok(None)
        },
        Some(x) => {
            proof {
                assert(s =~= set![x]);
                assert(s.contains(x));
            }
            Ok(Some(x))
        },
    }
}

/// How a `RoomElem` is classified by its zone and area scheme pair.
#[derive(Clone, Copy, Debug, PartialEq, Eq, Structural)]
pub enum RoomSpaceKind {
    Room,
    MepSpace,
    Area,
    Contradictory,
}

/// The decoded facts of an owner's root object that categories depend on.
#[derive(Clone, Debug)]
pub struct RootObjectFacts {
    pub class_name: String,
    /// The root's `m_categoryId`.
    pub category_id: Option<i64>,
    /// The root's `m_familyId`.
    pub family_id: Option<i64>,
    /// The root's `m_masterSymbolId`.
    pub master_symbol_id: Option<i64>,
    /// The scheme classification of a `RoomElem` root.
    pub room_space: Option<RoomSpaceKind>,
}

/// One current owner as decoded by a root pass.
#[derive(Clone, Debug)]
pub struct RootRecord {
    pub element_id: u64,
    /// The class registered for the owner.
    pub class_name: Option<String>,
    /// Whether an object graph was decoded.
    pub graph_decoded: bool,
    /// Whether metadata projection left a diagnostic.
    pub metadata_diagnostic: bool,
    /// Raw field parameters of the owner's saved metadata.
    pub metadata_fields: Vec<RawFieldFact>,
    /// The first object of the decoded graph.
    pub root: Option<RootObjectFacts>,
    /// The owner's projected metadata, when projection succeeded; the
    /// owner graph itself is not kept.
    pub metadata: Option<SavedMetadata>,
}

/// Where a recovered category came from.
#[derive(Clone, Copy, Debug, PartialEq, Eq, Structural)]
pub enum CategorySource {
    DirectRootCategory,
    SymbolFamilyCategoryChain,
    CheckedRoomSpaceSchemeCategory,
    CheckedOwnerClassCategory,
    DefinitionContextDirectCategory,
    DefinitionContextFamilyCategory,
    DefinitionContextOwnerClassCategory,
}

impl CategorySource {
    /// The receipt name of the source.
    pub fn name(self) -> (r: &'static str)
        ensures
            self == CategorySource::DirectRootCategory ==> r@ == "direct_root_category"@,
            self == CategorySource::SymbolFamilyCategoryChain ==> r@ == "symbol_family_category_chain"@,
            self == CategorySource::CheckedRoomSpaceSchemeCategory ==> r@ == "checked_room_space_scheme_category"@,
            self == CategorySource::CheckedOwnerClassCategory ==> r@ == "checked_owner_class_category"@,
            self == CategorySource::DefinitionContextDirectCategory ==> r@ == "definition_context_direct_category"@,
            self == CategorySource::DefinitionContextFamilyCategory ==> r@ == "definition_context_family_category"@,
            self == CategorySource::DefinitionContextOwnerClassCategory ==> r@ == "definition_context_owner_class_category"@,
    {
        match self {
            CategorySource::DirectRootCategory => "direct_root_category",
            CategorySource::SymbolFamilyCategoryChain => "symbol_family_category_chain",
            CategorySource::CheckedRoomSpaceSchemeCategory => "checked_room_space_scheme_category",
            CategorySource::CheckedOwnerClassCategory => "checked_owner_class_category",
            CategorySource::DefinitionContextDirectCategory => "definition_context_direct_category",
            CategorySource::DefinitionContextFamilyCategory => "definition_context_family_category",
            CategorySource::DefinitionContextOwnerClassCategory => "definition_context_owner_class_category",
        }
    }
}

/// `m[k]` when present.
pub open spec fn lookup(m: Map<i64, i64>, k: i64) -> Option<i64> {
    if m.contains_key(k) {
        Some(m[k])
    } else {
        None
    }
}

/// The category a root inherits through its family: a family symbol's
/// family, or a family instance's symbol's family.
pub open spec fn spec_inherited(root: Option<RootObjectFacts>, families: Map<i64, i64>, symbols: Map<
    i64,
    i64,
>) -> Option<i64> {
    match root {
        None => None,
        Some(r) => if spec_is_family_symbol_class(r.class_name@) {
            match r.family_id {
                Some(f) => lookup(families, f),
                None => None,
            }
        } else if r.class_name@ == "FamilyInstance"@ {
            match r.master_symbol_id {
                Some(s) => match lookup(symbols, s) {
                    Some(f) => lookup(families, f),
                    None => None,
                },
                None => None,
            }
        } else {
            None
        },
    }
}

/// The category of a `RoomElem` root from its scheme classification:
/// rooms and MEP spaces only.
pub open spec fn spec_room_space(root: Option<RootObjectFacts>) -> Option<i64> {
    match root {
        Some(r) => if r.class_name@ == "RoomElem"@ {
            match r.room_space {
                Some(RoomSpaceKind::Room) => Some(-2000160i64),
                Some(RoomSpaceKind::MepSpace) => Some(-2003600i64),
                _ => None,
            }
        } else {
            None
        },
        None => None,
    }
}

/// The checked owner-class category of the root's class, or of the
/// registered class when no root was decoded.
pub open spec fn spec_class_category(rec: RootRecord) -> Option<i64> {
    match rec.root {
        Some(r) => lookup_id(owner_class_table(), r.class_name@),
        None => match rec.class_name {
            Some(c) => lookup_id(owner_class_table(), c@),
            None => None,
        },
    }
}

/// Two optional facts do not disagree.
pub open spec fn agree(a: Option<i64>, b: Option<i64>) -> bool {
    !(a is Some && b is Some && a != b)
}

/// The root object's category field.
pub open spec fn root_category(rec: RootRecord) -> Option<i64> {
    match rec.root {
        Some(r) => r.category_id,
        None => None,
    }
}

/// The recovered category of a root record and its source: the direct
/// category first, then the inherited one, the room-space scheme one and
/// the owner-class one; any two present facts must agree.
pub open spec fn spec_root_category(rec: RootRecord, reg: crate::parameter_definitions::RegistryView) -> Result<
    Option<(i64, CategorySource)>,
    SelectionError,
> {
    match spec_category_id(rec.metadata_fields@, root_category(rec)) {
        Err(e) => Err(e),
        Ok(d) => {
            let i = spec_inherited(rec.root, reg.family_categories, reg.symbol_families);
            let s = spec_room_space(rec.root);
            let c = spec_class_category(rec);
            if !(agree(d, i) && agree(d, s) && agree(d, c) && agree(i, s) && agree(i, c) && agree(
                s,
                c,
            )) {
                Err(SelectionError::ConflictingCategoryFacts { element_id: rec.element_id })
            } else if d is Some {
                Ok(Some((d->0, CategorySource::DirectRootCategory)))
            } else if i is Some {
                Ok(Some((i->0, CategorySource::SymbolFamilyCategoryChain)))
            } else if s is Some {
                Ok(Some((s->0, CategorySource::CheckedRoomSpaceSchemeCategory)))
            } else if c is Some {
                Ok(Some((c->0, CategorySource::CheckedOwnerClassCategory)))
            } else {
                Ok(None)
            }
        },
    }
}

fn agree_exec(a: Option<i64>, b: Option<i64>) -> (r: bool)
    ensures
        r == agree(a, b),
{
    match (a, b) {
        (Some(x), Some(y)) => x == y,
        _ => true,
    }
}

/// Recovers a root record's category from its direct state or the
/// document registry, never by following owner pointers again.
pub fn root_category_id_with_definitions(record: &RootRecord, registry: &Registry) -> (r: Result<
    Option<(i64, CategorySource)>,
    SelectionError,
>)
    ensures
        r == spec_root_category(*record, registry.view()),
{
    let root_field = match &record.root {
        Some(root) => root.category_id,
        None => None,
    };
    let direct = category_id(record.metadata_fields.as_slice(), root_field)?;
    let inherited = match &record.root {
        None => None,
        Some(root) => if is_family_symbol_definition_owner(root.class_name.as_str()) {
            match root.family_id {
                Some(f) => registry.family_category(f),
                None => None,
            }
        } else if str_eq(root.class_name.as_str(), "FamilyInstance") {
            match root.master_symbol_id {
                Some(s) => match registry.symbol_family(s) {
                    Some(f) => registry.family_category(f),
                    None => None,
                },
                None => None,
            }
        } else {
            None
        },
    };
    let room_space: Option<i64> = match &record.root {
        Some(root) => if str_eq(root.class_name.as_str(), "RoomElem") {
            match root.room_space {
                Some(RoomSpaceKind::Room) => Some(-2000160i64),
                Some(RoomSpaceKind::MepSpace) => Some(-2003600i64),
                _ => None,
            }
        } else {
            None
        },
        None => None,
    };
    let class_category = match &record.root {
        Some(root) => owner_class_category_id(root.class_name.as_str()),
        None => match &record.class_name {
            Some(c) => owner_class_category_id(c.as_str()),
            None => None,
        },
    };
    if !(agree_exec(direct, inherited) && agree_exec(direct, room_space) && agree_exec(
        direct,
        class_category,
    ) && agree_exec(inherited, room_space) && agree_exec(inherited, class_category) && agree_exec(
        room_space,
        class_category,
    )) {
        return Err(SelectionError::ConflictingCategoryFacts { element_id: record.element_id });
    }
    if let Some(v) = direct {
        Ok(Some((v, CategorySource::DirectRootCategory)))
    } else if let Some(v) = inherited {
        Ok(Some((v, CategorySource::SymbolFamilyCategoryChain)))
    } else if let Some(v) = room_space {
        Ok(Some((v, CategorySource::CheckedRoomSpaceSchemeCategory)))
    } else if let Some(v) = class_category {
        Ok(Some((v, CategorySource::CheckedOwnerClassCategory)))
    } else {
        Ok(None)
    }
}

/// The recovered category of a definition owner from its retained facts:
/// direct, then family, then owner class; present facts must agree.
pub open spec fn spec_definition_owner_category(
    c: DefinitionOwnerCategoryCandidate,
    families: Map<i64, i64>,
) -> Result<Option<(i64, CategorySource)>, SelectionError> {
    let d = c.direct_category_id;
    let f = match c.family_id {
        Some(id) => lookup(families, id),
        None => None,
    };
    let k = lookup_id(owner_class_table(), c.class_name@);
    if !(agree(d, f) && agree(d, k) && agree(f, k)) {
        Err(SelectionError::ConflictingDefinitionOwnerFacts { class_name: c.class_name })
    } else if d is Some {
        Ok(Some((d->0, CategorySource::DefinitionContextDirectCategory)))
    } else if f is Some {
        Ok(Some((f->0, CategorySource::DefinitionContextFamilyCategory)))
    } else if k is Some {
        Ok(Some((k->0, CategorySource::DefinitionContextOwnerClassCategory)))
    } else {
        Ok(None)
    }
}

/// Resolves the category of a definition owner already decoded for the
/// document context, from its compact candidate only.
pub fn definition_owner_category_id(
    candidate: &DefinitionOwnerCategoryCandidate,
    registry: &Registry,
) -> (r: Result<Option<(i64, CategorySource)>, SelectionError>)
    ensures
        r == spec_definition_owner_category(*candidate, registry.view().family_categories),
{
    let family_category = match candidate.family_id {
        Some(f) => registry.family_category(f),
        None => None,
    };
    let class_category = owner_class_category_id(candidate.class_name.as_str());
    let direct = candidate.direct_category_id;
    if !(agree_exec(direct, family_category) && agree_exec(direct, class_category) && agree_exec(
        family_category,
        class_category,
    )) {
        return Err(
            SelectionError::ConflictingDefinitionOwnerFacts { class_name: candidate.class_name.clone() },
        );
    }
    if let Some(v) = direct {
        Ok(Some((v, CategorySource::DefinitionContextDirectCategory)))
    } else if let Some(v) = family_category {
        Ok(Some((v, CategorySource::DefinitionContextFamilyCategory)))
    } else if let Some(v) = class_category {
        Ok(Some((v, CategorySource::DefinitionContextOwnerClassCategory)))
    } else {
        Ok(None)
    }
}

/// Evidence of a native category selection: counts over the decoded
/// owners, never an exported element list.
#[derive(Clone, Debug)]
pub struct CategorySelectionReceipt {
    pub requested_category_ids: BTreeSet<i64>,
    /// The checked vocabulary label of each requested id, if known.
    pub requested_category_labels: BTreeMap<i64, Option<&'static str>>,
    pub current_records: usize,
    /// Owners decoded for the definition context, reused rather than
    /// decoded again.
    pub definition_context_records_reused: usize,
    pub category_scan_records: usize,
    pub selected_records: usize,
    pub selected_direct_category_records: usize,
    pub selected_inherited_category_records: usize,
    pub selected_owner_class_category_records: usize,
    pub selected_room_space_scheme_category_records: usize,
    pub selected_definition_context_category_records: usize,
    pub selected_by_category: BTreeMap<i64, usize>,
    pub excluded_by_category: BTreeMap<i64, usize>,
    pub no_category_records: usize,
    pub unsupported_graph_records: usize,
    pub unsupported_metadata_records: usize,
    /// Owners without a recovered category, per class name, in name order.
    pub no_category_classes: Vec<(String, usize)>,
}

/// A selected owner as the category pass saw it: a root record of the
/// metadata pass, with its projected metadata and without its graph, or a
/// definition owner with the category facts the definition context kept.
#[derive(Debug)]
pub enum SelectedRecord {
    Root(RootRecord),
    DefinitionOwner(u64, DefinitionOwnerCategoryCandidate),
}

/// The owner id of a selected record.
pub open spec fn record_id(r: SelectedRecord) -> u64 {
    match r {
        SelectedRecord::Root(rec) => rec.element_id,
        SelectedRecord::DefinitionOwner(id, _) => id,
    }
}

/// The owner ids of a sequence of selected records.
pub open spec fn record_ids(s: Seq<SelectedRecord>) -> Set<u64>
    decreases s.len(),
{
    if s.len() == 0 {
        Set::empty()
    } else {
        record_ids(s.drop_last()).insert(record_id(s.last()))
    }
}

/// The owners selected by a category pass, with the records the pass used
/// to decide, and its receipt.
#[derive(Debug)]
pub struct PreparedCategorySelection {
    pub selected_ids: BTreeSet<u64>,
    pub records: Vec<SelectedRecord>,
    pub receipt: CategorySelectionReceipt,
}

impl PreparedCategorySelection {
    pub open spec fn spec_selected_ids(&self) -> Set<u64> {
        self.selected_ids@
    }

    pub open spec fn spec_records(&self) -> Seq<SelectedRecord> {
        self.records@
    }

    /// The selected owner ids.
    pub fn selected_ids(&self) -> (r: BTreeSet<u64>)
        ensures
            r@ == self.spec_selected_ids(),
    {
        self.selected_ids.clone()
    }

    /// The records of the selected owners, one per selected id: root
    /// records in pass order, then definition owners in context order.
    pub fn records(&self) -> (r: &Vec<SelectedRecord>)
        ensures
            r@ == self.spec_records(),
    {
        &self.records
    }

    /// The records of the selected owners, for packaging.
    pub fn into_records(self) -> (r: Vec<SelectedRecord>)
        ensures
            r@ == self.spec_records(),
    {
        self.records
    }
}

/// `m` with the count of `k` raised by one.
pub open spec fn bump<K>(m: Map<K, nat>, k: K) -> Map<K, nat> {
    m.insert(
        k,
        if m.contains_key(k) {
            m[k] + 1
        } else {
            1
        },
    )
}

/// Counts held as `usize`, as natural numbers.
pub open spec fn nat_counts(m: Map<i64, usize>) -> Map<i64, nat> {
    Map::new(|k: i64| m.contains_key(k), |k: i64| m[k] as nat)
}

/// Class names occur at most once.
pub open spec fn class_unique(s: Seq<(String, usize)>) -> bool {
    forall|i: int, j: int|
        0 <= i < s.len() && 0 <= j < s.len() && i != j ==> (#[trigger] s[i]).0@ != (
        #[trigger] s[j]).0@
}

/// Per-class counts as a map from class name.
pub open spec fn class_counts(s: Seq<(String, usize)>) -> Map<Seq<char>, nat> {
    Map::new(
        |k: Seq<char>| exists|i: int| 0 <= i < s.len() && s[i].0@ == k,
        |k: Seq<char>| s[choose|i: int| 0 <= i < s.len() && s[i].0@ == k].1 as nat,
    )
}

proof fn lemma_class_at(s: Seq<(String, usize)>, j: int)
    requires
        class_unique(s),
        0 <= j < s.len(),
    ensures
        class_counts(s).contains_key(s[j].0@),
        class_counts(s)[s[j].0@] == s[j].1,
{
    let k = s[j].0@;
    assert(0 <= j < s.len() && s[j].0@ == k);
    let i = choose|i: int| 0 <= i < s.len() && s[i].0@ == k;
    assert(i == j);
}

proof fn lemma_class_push(s: Seq<(String, usize)>, e: (String, usize))
    requires
        class_unique(s),
        !class_counts(s).contains_key(e.0@),
    ensures
        class_unique(s.push(e)),
        class_counts(s.push(e)) == class_counts(s).insert(e.0@, e.1 as nat),
{
    let t = s.push(e);
    assert forall|i: int| 0 <= i < s.len() implies (#[trigger] s[i]).0@ != e.0@ by {
        if s[i].0@ == e.0@ {
            lemma_class_at(s, i);
        }
    }
    assert forall|i: int, j: int|
        0 <= i < t.len() && 0 <= j < t.len() && i != j implies (#[trigger] t[i]).0@ != (
        #[trigger] t[j]).0@ by {
        if i < s.len() && j < s.len() {
            assert(t[i] == s[i] && t[j] == s[j]);
        } else if i < s.len() {
            assert(t[i] == s[i]);
        } else {
            assert(t[j] == s[j]);
        }
    }
    let m = class_counts(s).insert(e.0@, e.1 as nat);
    assert(t[s.len() as int] == e);
    assert forall|k: Seq<char>| #[trigger] class_counts(t).contains_key(k) <==> m.contains_key(k) by {
        if k == e.0@ {
            assert(0 <= s.len() < t.len() && t[s.len() as int].0@ == k);
        }
        if m.contains_key(k) && k != e.0@ {
            let i = choose|i: int| 0 <= i < s.len() && s[i].0@ == k;
            assert(t[i] == s[i]);
        }
        if class_counts(t).contains_key(k) {
            let i = choose|i: int| 0 <= i < t.len() && t[i].0@ == k;
            if i < s.len() {
                assert(t[i] == s[i]);
            }
        }
    }
    assert forall|k: Seq<char>| class_counts(t).contains_key(k) implies #[trigger] class_counts(t)[k]
        == m[k] by {
        if k == e.0@ {
            lemma_class_at(t, s.len() as int);
        } else {
            let i = choose|i: int| 0 <= i < s.len() && s[i].0@ == k;
            lemma_class_at(s, i);
            assert(t[i] == s[i]);
            lemma_class_at(t, i);
        }
    }
    assert(class_counts(t) =~= m);
}

proof fn lemma_class_update(s: Seq<(String, usize)>, j: int, e: (String, usize))
    requires
        class_unique(s),
        0 <= j < s.len(),
        s[j].0@ == e.0@,
    ensures
        class_unique(s.update(j, e)),
        class_counts(s.update(j, e)) == class_counts(s).insert(e.0@, e.1 as nat),
{
    let t = s.update(j, e);
    assert forall|a: int, b: int|
        0 <= a < t.len() && 0 <= b < t.len() && a != b implies (#[trigger] t[a]).0@ != (
        #[trigger] t[b]).0@ by {
        assert(t[a].0@ == s[a].0@);
        assert(t[b].0@ == s[b].0@);
    }
    let m = class_counts(s).insert(e.0@, e.1 as nat);
    assert forall|k: Seq<char>| #[trigger] class_counts(t).contains_key(k) <==> m.contains_key(k) by {
        if m.contains_key(k) {
            if k == e.0@ {
                assert(t[j].0@ == k);
            } else {
                let i = choose|i: int| 0 <= i < s.len() && s[i].0@ == k;
                assert(t[i].0@ == k);
            }
        }
        if class_counts(t).contains_key(k) {
            let i = choose|i: int| 0 <= i < t.len() && t[i].0@ == k;
            assert(s[i].0@ == k);
        }
    }
    assert forall|k: Seq<char>| class_counts(t).contains_key(k) implies #[trigger] class_counts(t)[k]
        == m[k] by {
        if k == e.0@ {
            lemma_class_at(t, j);
        } else {
            let i = choose|i: int| 0 <= i < s.len() && s[i].0@ == k;
            lemma_class_at(s, i);
            assert(t[i] == s[i]);
            lemma_class_at(t, i);
        }
    }
    assert(class_counts(t) =~= m);
}

fn bump_count(m: &mut BTreeMap<i64, usize>, k: i64)
    requires
        old(m)@.contains_key(k) ==> old(m)@[k] < usize::MAX,
    ensures
        nat_counts(final(m)@) == bump(nat_counts(old(m)@), k),
{
    let n: usize = match m.get(&k) {
        Some(c) => *c + 1,
        None => 1,
    };
    m.insert(k, n);
    proof {
        assert(nat_counts(m@) =~= bump(nat_counts(old(m)@), k));
    }
}

fn bump_class(v: &mut Vec<(String, usize)>, name: &str)
    requires
        class_unique(old(v)@),
        class_counts(old(v)@).contains_key(name@) ==> class_counts(old(v)@)[name@] < usize::MAX,
    ensures
        class_unique(final(v)@),
        class_counts(final(v)@) == bump(class_counts(old(v)@), name@),
{
    let mut i: usize = 0;
    while i < v.len()
        invariant
            i <= v@.len(),
            v@ == old(v)@,
            class_unique(old(v)@),
            class_counts(old(v)@).contains_key(name@) ==> class_counts(old(v)@)[name@] < usize::MAX,
            forall|k: int| 0 <= k < i ==> (#[trigger] v@[k]).0@ != name@,
        decreases v@.len() - i,
    {
        if str_eq(v[i].0.as_str(), name) {
            let c = v[i].1;
            proof {
                lemma_class_at(v@, i as int);
            }
            let e = (name.to_owned(), c + 1);
            proof {
                lemma_class_update(v@, i as int, e);
            }
            v.set(i, e);
            return;
        }
        i += 1;
    }
    proof {
        if class_counts(v@).contains_key(name@) {
            let j = choose|j: int| 0 <= j < v@.len() && v@[j].0@ == name@;
            assert(v@[j].0@ != name@);
        }
    }
    let e = (name.to_owned(), 1usize);
    proof {
        lemma_class_push(v@, e);
    }
    v.push(e);
}

/// A category pass's counts and selected ids.
#[verifier::ext_equal]
pub struct Tally {
    pub scanned: nat,
    pub selected: nat,
    pub direct: nat,
    pub inherited: nat,
    pub owner_class: nat,
    pub room_space: nat,
    pub definition_context: nat,
    pub selected_by: Map<i64, nat>,
    pub excluded_by: Map<i64, nat>,
    pub no_category: nat,
    pub unsupported_graph: nat,
    pub unsupported_metadata: nat,
    pub no_category_classes: Map<Seq<char>, nat>,
    pub ids: Set<u64>,
}

/// The tally recorded by a receipt and its selected ids.
pub open spec fn tally_of(r: CategorySelectionReceipt, ids: Set<u64>) -> Tally {
    Tally {
        scanned: r.category_scan_records as nat,
        selected: r.selected_records as nat,
        direct: r.selected_direct_category_records as nat,
        inherited: r.selected_inherited_category_records as nat,
        owner_class: r.selected_owner_class_category_records as nat,
        room_space: r.selected_room_space_scheme_category_records as nat,
        definition_context: r.selected_definition_context_category_records as nat,
        selected_by: nat_counts(r.selected_by_category@),
        excluded_by: nat_counts(r.excluded_by_category@),
        no_category: r.no_category_records as nat,
        unsupported_graph: r.unsupported_graph_records as nat,
        unsupported_metadata: r.unsupported_metadata_records as nat,
        no_category_classes: class_counts(r.no_category_classes@),
        ids,
    }
}

/// The tally before any owner was seen.
pub open spec fn empty_tally() -> Tally {
    Tally {
        scanned: 0,
        selected: 0,
        direct: 0,
        inherited: 0,
        owner_class: 0,
        room_space: 0,
        definition_context: 0,
        selected_by: Map::empty(),
        excluded_by: Map::empty(),
        no_category: 0,
        unsupported_graph: 0,
        unsupported_metadata: 0,
        no_category_classes: Map::empty(),
        ids: Set::empty(),
    }
}

/// The class an owner without a category is counted under.
pub open spec fn class_key(rec: RootRecord) -> Seq<char> {
    match rec.class_name {
        Some(c) => c@,
        None => "<unregistered>"@,
    }
}

/// Counting one root record: scanned, unsupported graph and metadata,
/// then selected (by source), excluded or uncategorized by class.
pub open spec fn root_step(t: Tally, rec: RootRecord, reg: crate::parameter_definitions::RegistryView, requested: Set<i64>) -> Result<Tally, SelectionError> {
    let t1 = Tally {
        scanned: t.scanned + 1,
        unsupported_graph: t.unsupported_graph + if rec.graph_decoded {
            0nat
        } else {
            1nat
        },
        unsupported_metadata: t.unsupported_metadata + if rec.metadata_diagnostic {
            1nat
        } else {
            0nat
        },
        ..t
    };
    match spec_root_category(rec, reg) {
        Err(e) => Err(e),
        Ok(Some((c, src))) => if requested.contains(c) {
            if t1.ids.contains(rec.element_id) {
                Err(SelectionError::DuplicateSelectedRecord { element_id: rec.element_id })
            } else {
                Ok(
                    Tally {
                        selected: t1.selected + 1,
                        selected_by: bump(t1.selected_by, c),
                        direct: t1.direct + if src == CategorySource::DirectRootCategory {
                            1nat
                        } else {
                            0nat
                        },
                        inherited: t1.inherited + if src == CategorySource::SymbolFamilyCategoryChain {
                            1nat
                        } else {
                            0nat
                        },
                        room_space: t1.room_space + if src
                            == CategorySource::CheckedRoomSpaceSchemeCategory {
                            1nat
                        } else {
                            0nat
                        },
                        owner_class: t1.owner_class + if src
                            == CategorySource::CheckedOwnerClassCategory {
                            1nat
                        } else {
                            0nat
                        },
                        ids: t1.ids.insert(rec.element_id),
                        ..t1
                    },
                )
            }
        } else {
            Ok(Tally { excluded_by: bump(t1.excluded_by, c), ..t1 })
        },
        Ok(None) => Ok(
            Tally {
                no_category: t1.no_category + 1,
                no_category_classes: bump(t1.no_category_classes, class_key(rec)),
                ..t1
            },
        ),
    }
}

/// Counting the root records in order; the first refusal ends the pass.
pub open spec fn roots_fold(t: Tally, recs: Seq<RootRecord>, reg: crate::parameter_definitions::RegistryView, requested: Set<i64>) -> Result<Tally, SelectionError>
    decreases recs.len(),
{
    if recs.len() == 0 {
        Ok(t)
    } else {
        match roots_fold(t, recs.drop_last(), reg, requested) {
            Err(e) => Err(e),
            Ok(t1) => root_step(t1, recs.last(), reg, requested),
        }
    }
}

/// Counting one retained definition-owner candidate.
pub open spec fn candidate_step(t: Tally, id: u64, c: DefinitionOwnerCategoryCandidate, families: Map<i64, i64>, requested: Set<i64>) -> Result<Tally, SelectionError> {
    match spec_definition_owner_category(c, families) {
        Err(e) => Err(e),
        Ok(None) => Ok(t),
        Ok(Some((cat, _))) => if requested.contains(cat) {
            if t.ids.contains(id) {
                Err(SelectionError::DuplicateDefinitionSelection { element_id: id })
            } else {
                Ok(
                    Tally {
                        selected: t.selected + 1,
                        definition_context: t.definition_context + 1,
                        selected_by: bump(t.selected_by, cat),
                        ids: t.ids.insert(id),
                        ..t
                    },
                )
            }
        } else {
            Ok(Tally { excluded_by: bump(t.excluded_by, cat), ..t })
        },
    }
}

/// Counting the candidates in order; the first refusal ends the pass.
pub open spec fn candidates_fold(t: Tally, cs: Seq<(u64, DefinitionOwnerCategoryCandidate)>, families: Map<i64, i64>, requested: Set<i64>) -> Result<Tally, SelectionError>
    decreases cs.len(),
{
    if cs.len() == 0 {
        Ok(t)
    } else {
        match candidates_fold(t, cs.drop_last(), families, requested) {
            Err(e) => Err(e),
            Ok(t1) => candidate_step(t1, cs.last().0, cs.last().1, families, requested),
        }
    }
}

/// The whole selection: roots, then candidates, then the accounting check
/// that scanned and reused owners are exactly the current owners.
pub open spec fn spec_selection(
    recs: Seq<RootRecord>,
    cs: Seq<(u64, DefinitionOwnerCategoryCandidate)>,
    reg: crate::parameter_definitions::RegistryView,
    requested: Set<i64>,
    current: nat,
    reused: nat,
) -> Result<Tally, SelectionError> {
    if requested.len() == 0 {
        Err(SelectionError::EmptyRequest)
    } else {
        match roots_fold(empty_tally(), recs, reg, requested) {
            Err(e) => Err(e),
            Ok(t1) => match candidates_fold(t1, cs, reg.family_categories, requested) {
                Err(e) => Err(e),
                Ok(t2) => if t2.scanned + reused == current {
                    Ok(t2)
                } else {
                    Err(SelectionError::IncompleteAccounting)
                },
            },
        }
    }
}

/// Every count of a tally is at most `n`.
pub open spec fn bounded(t: Tally, n: nat) -> bool {
    &&& t.scanned <= n && t.selected <= n && t.direct <= n && t.inherited <= n
    &&& t.owner_class <= n && t.room_space <= n && t.definition_context <= n
    &&& t.no_category <= n && t.unsupported_graph <= n && t.unsupported_metadata <= n
    &&& forall|k: i64| #[trigger] t.selected_by.contains_key(k) ==> t.selected_by[k] <= n
    &&& forall|k: i64| #[trigger] t.excluded_by.contains_key(k) ==> t.excluded_by[k] <= n
    &&& forall|k: Seq<char>| #[trigger] t.no_category_classes.contains_key(k) ==> t.no_category_classes[k] <= n
}

/// The labels recorded for the requested ids.
pub open spec fn labels_recorded(labels: Map<i64, Option<&'static str>>, requested: Set<i64>) -> bool {
    &&& labels.dom() == requested
    &&& forall|k: i64| #[trigger] labels.contains_key(k) ==> match labels[k] {
        Some(l) => lookup_label(category_table(), k) == Some(l@),
        None => lookup_label(category_table(), k) is None,
    }
}

fn requested_labels(ids: &BTreeSet<i64>) -> (r: BTreeMap<i64, Option<&'static str>>)
    ensures
        labels_recorded(r@, ids@),
{
    let mut m: BTreeMap<i64, Option<&'static str>> = BTreeMap::new();
    for id in it: ids.iter()
        invariant
            it.seq().unref().to_set() == ids@,
            forall|k: i64| #[trigger] ids@.contains(k) ==> m@.contains_key(k) || exists|j: int| it.index() <= j < it.seq().len() && *it.seq()[j] == k,
            forall|k: i64| m@.contains_key(k) ==> #[trigger] ids@.contains(k),
            forall|k: i64| #[trigger] m@.contains_key(k) ==> match m@[k] {
                Some(l) => lookup_label(category_table(), k) == Some(l@),
                None => lookup_label(category_table(), k) is None,
            },
    {
        proof {
            assert(*it.seq()[it.index() as int] == *id);
            assert(it.seq().unref()[it.index() as int] == *id);
            assert(it.seq().unref().to_set().contains(*id));
        }
        m.insert(*id, category_label(*id));
    }
    proof {
        assert(m@.dom() =~= ids@);
    }
    m
}

proof fn lemma_bounded_step(t: Tally, n: nat, t2: Tally)
    requires
        bounded(t, n),
        t2.scanned <= n + 1 && t2.selected <= t.selected + 1 && t2.direct <= t.direct + 1,
        t2.inherited <= t.inherited + 1 && t2.owner_class <= t.owner_class + 1,
        t2.room_space <= t.room_space + 1 && t2.definition_context <= t.definition_context + 1,
        t2.no_category <= t.no_category + 1 && t2.unsupported_graph <= t.unsupported_graph + 1,
        t2.unsupported_metadata <= t.unsupported_metadata + 1,
        t2.selected_by == t.selected_by || exists|k: i64| t2.selected_by == bump(t.selected_by, k),
        t2.excluded_by == t.excluded_by || exists|k: i64| t2.excluded_by == bump(t.excluded_by, k),
        t2.no_category_classes == t.no_category_classes || exists|k: Seq<char>| t2.no_category_classes == bump(t.no_category_classes, k),
    ensures
        bounded(t2, n + 1),
{
}

/// Records one root record in the receipt; see [`root_step`].
fn record_root(
    receipt: &mut CategorySelectionReceipt,
    selected: &mut BTreeSet<u64>,
    rec: &RootRecord,
    registry: &Registry,
    n: Ghost<nat>,
) -> (r: Result<bool, SelectionError>)
    requires
        class_unique(old(receipt).no_category_classes@),
        bounded(tally_of(*old(receipt), old(selected)@), n@),
        n@ < usize::MAX,
    ensures
        class_unique(final(receipt).no_category_classes@),
        final(receipt).requested_category_ids == old(receipt).requested_category_ids,
        final(receipt).requested_category_labels == old(receipt).requested_category_labels,
        final(receipt).current_records == old(receipt).current_records,
        final(receipt).definition_context_records_reused == old(receipt).definition_context_records_reused,
        match root_step(tally_of(*old(receipt), old(selected)@), *rec, registry.view(), old(receipt).requested_category_ids@) {
            Err(e) => r == Err::<bool, SelectionError>(e),
            Ok(t) => r matches Ok(b) && b == root_selects(*rec, registry.view(), old(receipt).requested_category_ids@)
                && tally_of(*final(receipt), final(selected)@) == t && bounded(t, n@ + 1),
        },
{
    let ghost t0 = tally_of(*receipt, selected@);
    receipt.category_scan_records += 1;
    if !rec.graph_decoded {
        receipt.unsupported_graph_records += 1;
    }
    if rec.metadata_diagnostic {
        receipt.unsupported_metadata_records += 1;
    }
    let ghost t1 = tally_of(*receipt, selected@);
    let found = root_category_id_with_definitions(rec, registry)?;
    let mut chosen = false;
    match found {
        Some((c, src)) => {
            if receipt.requested_category_ids.contains(&c) {
                if selected.contains(&rec.element_id) {
                    return Err(SelectionError::DuplicateSelectedRecord { element_id: rec.element_id });
                }
                chosen = true;
                receipt.selected_records += 1;
                bump_count(&mut receipt.selected_by_category, c);
                match src {
                    CategorySource::DirectRootCategory => {
                        receipt.selected_direct_category_records += 1;
                    },
                    CategorySource::SymbolFamilyCategoryChain => {
                        receipt.selected_inherited_category_records += 1;
                    },
                    CategorySource::CheckedRoomSpaceSchemeCategory => {
                        receipt.selected_room_space_scheme_category_records += 1;
                    },
                    _ => {
                        receipt.selected_owner_class_category_records += 1;
                    },
                }
                selected.insert(rec.element_id);
            } else {
                bump_count(&mut receipt.excluded_by_category, c);
            }
        },
        None => {
            receipt.no_category_records += 1;
            match &rec.class_name {
                Some(name) => bump_class(&mut receipt.no_category_classes, name.as_str()),
                None => {
                    proof {
                        reveal_strlit("<unregistered>");
                    }
                    bump_class(&mut receipt.no_category_classes, "<unregistered>")
                },
            }
        },
    }
    proof {
        let t = root_step(t0, *rec, registry.view(), old(receipt).requested_category_ids@)->Ok_0;
        assert(tally_of(*receipt, selected@) =~= t);
        lemma_bounded_step(t0, n@, t);
    }
    Ok(chosen)
}

/// Records one definition-owner candidate; see [`candidate_step`].
fn record_candidate(
    receipt: &mut CategorySelectionReceipt,
    selected: &mut BTreeSet<u64>,
    id: u64,
    candidate: &DefinitionOwnerCategoryCandidate,
    registry: &Registry,
    n: Ghost<nat>,
) -> (r: Result<bool, SelectionError>)
    requires
        class_unique(old(receipt).no_category_classes@),
        bounded(tally_of(*old(receipt), old(selected)@), n@),
        n@ < usize::MAX,
    ensures
        class_unique(final(receipt).no_category_classes@),
        final(receipt).requested_category_ids == old(receipt).requested_category_ids,
        final(receipt).requested_category_labels == old(receipt).requested_category_labels,
        final(receipt).current_records == old(receipt).current_records,
        final(receipt).definition_context_records_reused == old(receipt).definition_context_records_reused,
        final(receipt).category_scan_records == old(receipt).category_scan_records,
        match candidate_step(tally_of(*old(receipt), old(selected)@), id, *candidate, registry.view().family_categories, old(receipt).requested_category_ids@) {
            Err(e) => r == Err::<bool, SelectionError>(e),
            Ok(t) => r matches Ok(b) && b == candidate_selects(*candidate, registry.view().family_categories, old(receipt).requested_category_ids@)
                && tally_of(*final(receipt), final(selected)@) == t && bounded(t, n@ + 1),
        },
{
    let ghost t0 = tally_of(*receipt, selected@);
    let found = definition_owner_category_id(candidate, registry)?;
    let mut chosen = false;
    match found {
        None => {},
        Some((c, _)) => {
            if receipt.requested_category_ids.contains(&c) {
                if selected.contains(&id) {
                    return Err(SelectionError::DuplicateDefinitionSelection { element_id: id });
                }
                chosen = true;
                receipt.selected_records += 1;
                receipt.selected_definition_context_category_records += 1;
                bump_count(&mut receipt.selected_by_category, c);
                selected.insert(id);
            } else {
                bump_count(&mut receipt.excluded_by_category, c);
            }
        },
    }
    proof {
        let t = candidate_step(t0, id, *candidate, registry.view().family_categories, old(receipt).requested_category_ids@)->Ok_0;
        assert(tally_of(*receipt, selected@) =~= t);
        lemma_bounded_step(t0, n@, t);
    }
    Ok(chosen)
}

proof fn lemma_roots_fold_err(t: Tally, recs: Seq<RootRecord>, reg: crate::parameter_definitions::RegistryView, requested: Set<i64>, n: int)
    requires
        0 <= n <= recs.len(),
        roots_fold(t, recs.take(n), reg, requested) is Err,
    ensures
        roots_fold(t, recs, reg, requested) == roots_fold(t, recs.take(n), reg, requested),
    decreases recs.len() - n,
{
    if n == recs.len() {
        assert(recs.take(n) =~= recs);
    } else {
        assert(recs.take(n + 1).drop_last() =~= recs.take(n));
        lemma_roots_fold_err(t, recs, reg, requested, n + 1);
    }
}

proof fn lemma_candidates_fold_err(t: Tally, cs: Seq<(u64, DefinitionOwnerCategoryCandidate)>, families: Map<i64, i64>, requested: Set<i64>, n: int)
    requires
        0 <= n <= cs.len(),
        candidates_fold(t, cs.take(n), families, requested) is Err,
    ensures
        candidates_fold(t, cs, families, requested) == candidates_fold(t, cs.take(n), families, requested),
    decreases cs.len() - n,
{
    if n == cs.len() {
        assert(cs.take(n) =~= cs);
    } else {
        assert(cs.take(n + 1).drop_last() =~= cs.take(n));
        lemma_candidates_fold_err(t, cs, families, requested, n + 1);
    }
}

/// The records of the selected root records, in pass order.
pub open spec fn root_entries(recs: Seq<RootRecord>, reg: crate::parameter_definitions::RegistryView, requested: Set<i64>) -> Seq<SelectedRecord>
    decreases recs.len(),
{
    if recs.len() == 0 {
        Seq::empty()
    } else {
        let s = root_entries(recs.drop_last(), reg, requested);
        if root_selects(recs.last(), reg, requested) {
            s.push(SelectedRecord::Root(recs.last()))
        } else {
            s
        }
    }
}

/// The records of the selected definition owners, in context order.
pub open spec fn candidate_entries(cs: Seq<(u64, DefinitionOwnerCategoryCandidate)>, families: Map<i64, i64>, requested: Set<i64>) -> Seq<SelectedRecord>
    decreases cs.len(),
{
    if cs.len() == 0 {
        Seq::empty()
    } else {
        let s = candidate_entries(cs.drop_last(), families, requested);
        if candidate_selects(cs.last().1, families, requested) {
            s.push(SelectedRecord::DefinitionOwner(cs.last().0, cs.last().1))
        } else {
            s
        }
    }
}

/// The records a selection hands on: selected root records, then
/// selected definition owners.
pub open spec fn selection_records(
    recs: Seq<RootRecord>,
    cs: Seq<(u64, DefinitionOwnerCategoryCandidate)>,
    reg: crate::parameter_definitions::RegistryView,
    requested: Set<i64>,
) -> Seq<SelectedRecord> {
    root_entries(recs, reg, requested) + candidate_entries(cs, reg.family_categories, requested)
}

fn blank_root() -> (r: RootRecord) {
    RootRecord {
        element_id: 0,
        class_name: None,
        graph_decoded: false,
        metadata_diagnostic: false,
        metadata_fields: Vec::new(),
        root: None,
        metadata: None,
    }
}

fn copy_candidate(c: &DefinitionOwnerCategoryCandidate) -> (r: DefinitionOwnerCategoryCandidate)
    ensures
        r == *c,
{
    DefinitionOwnerCategoryCandidate {
        class_name: c.class_name.clone(),
        direct_category_id: c.direct_category_id,
        family_id: c.family_id,
    }
}

/// Selects the current owners whose recovered category is requested: the
/// root records of a metadata pass over the owners outside the definition
/// context, then the definition owners' retained facts. The root records
/// are one per current channel-102 owner outside the definition context,
/// as the metadata pass produces them; every current owner must be
/// accounted for as scanned or reused. The root
/// records of the selected owners, with their projected metadata, are
/// handed on so that packaging needs no second metadata pass.
pub fn prepare_category_selection(
    physical_index: &PhysicalIndex,
    definition_context: &DefinitionContext,
    roots: Vec<RootRecord>,
    category_ids: BTreeSet<i64>,
) -> (r: Result<PreparedCategorySelection, SelectionError>)
    requires
        physical_index.wf(),
        roots@.len() + definition_context.definition_owner_category_candidates@.len() < usize::MAX,
        forall|i: int| 0 <= i < roots@.len() ==> spec_current_ids(physical_index.view(), 102).contains(
            #[trigger] roots@[i].element_id,
        ),
        forall|i: int| 0 <= i < roots@.len() ==> !definition_context.definition_owner_ids@.contains(
            #[trigger] roots@[i].element_id,
        ),
        forall|i: int, j: int| 0 <= i < j < roots@.len() ==> (#[trigger] roots@[i]).element_id != (#[trigger] roots@[j]).element_id,
    ensures
        r matches Ok(p) ==> record_ids(p.spec_records()) == p.spec_selected_ids()
            && p.spec_records().len() == p.receipt.selected_records
            && p.receipt.selected_records == p.spec_selected_ids().len(),
        r matches Ok(p) ==> p.spec_selected_ids().subset_of(
            spec_current_ids(physical_index.view(), 102).union(
                candidate_ids(definition_context.definition_owner_category_candidates@),
            ),
        ),
        match spec_selection(
            roots@,
            definition_context.definition_owner_category_candidates@,
            definition_context.registry.view(),
            category_ids@,
            spec_current_ids(physical_index.view(), 102).len(),
            definition_context.definition_owner_ids@.len(),
        ) {
            Err(e) => r == Err::<PreparedCategorySelection, SelectionError>(e),
            Ok(t) => r matches Ok(p) && tally_of(p.receipt, p.spec_selected_ids()) == t
                && p.spec_records() == selection_records(
                    roots@,
                    definition_context.definition_owner_category_candidates@,
                    definition_context.registry.view(),
                    category_ids@,
                )
                && p.receipt.requested_category_ids@ == category_ids@
                && labels_recorded(p.receipt.requested_category_labels@, category_ids@)
                && p.receipt.current_records == spec_current_ids(physical_index.view(), 102).len()
                && p.receipt.definition_context_records_reused == definition_context.definition_owner_ids@.len(),
        },
{
    if category_ids.is_empty() {
        return Err(SelectionError::EmptyRequest);
    }
    let current = physical_index.current_ids(102);
    let mut receipt = CategorySelectionReceipt {
        requested_category_labels: requested_labels(&category_ids),
        requested_category_ids: category_ids,
        current_records: current.len(),
        definition_context_records_reused: definition_context.definition_owner_ids.len(),
        category_scan_records: 0,
        selected_records: 0,
        selected_direct_category_records: 0,
        selected_inherited_category_records: 0,
        selected_owner_class_category_records: 0,
        selected_room_space_scheme_category_records: 0,
        selected_definition_context_category_records: 0,
        selected_by_category: BTreeMap::new(),
        excluded_by_category: BTreeMap::new(),
        no_category_records: 0,
        unsupported_graph_records: 0,
        unsupported_metadata_records: 0,
        no_category_classes: Vec::new(),
    };
    let mut selected: BTreeSet<u64> = BTreeSet::new();
    let mut records: Vec<SelectedRecord> = Vec::new();
    let ghost orig = roots@;
    let mut rest = roots;
    let ghost reg = definition_context.registry.view();
    let ghost requested = receipt.requested_category_ids@;
    proof {
        assert(tally_of(receipt, selected@) =~= empty_tally());
        assert(orig.take(0) =~= Seq::<RootRecord>::empty());
    }
    let mut i: usize = 0;
    while i < rest.len()
        invariant
            i <= orig.len(),
            orig == roots@,
            rest@.len() == orig.len(),
            forall|k: int| i <= k < orig.len() ==> rest@[k] == orig[k],
            orig.len() + definition_context.definition_owner_category_candidates@.len() < usize::MAX,
            reg == definition_context.registry.view(),
            requested == receipt.requested_category_ids@,
            requested == category_ids@,
            requested.len() != 0,
            class_unique(receipt.no_category_classes@),
            roots_fold(empty_tally(), orig.take(i as int), reg, requested) == Ok::<Tally, SelectionError>(tally_of(receipt, selected@)),
            records@ == root_entries(orig.take(i as int), reg, requested),
            bounded(tally_of(receipt, selected@), i as nat),
            receipt.category_scan_records == i,
            labels_recorded(receipt.requested_category_labels@, category_ids@),
            receipt.current_records == spec_current_ids(physical_index.view(), 102).len(),
            receipt.definition_context_records_reused == definition_context.definition_owner_ids@.len(),
        decreases orig.len() - i,
    {
        proof {
            assert(orig.take(i + 1).drop_last() =~= orig.take(i as int));
            assert(orig.take(i + 1).last() == orig[i as int]);
        }
        let chosen = match record_root(&mut receipt, &mut selected, &rest[i], &definition_context.registry, Ghost(i as nat)) {
            Ok(b) => b,
            Err(e) => {
                proof {
                    lemma_roots_fold_err(empty_tally(), orig, reg, requested, i + 1);
                }
                return Err(e);
            },
        };
        if chosen {
            let mut slot = blank_root();
            rest.set_and_swap(i, &mut slot);
            records.push(SelectedRecord::Root(slot));
        }
        i += 1;
    }
    proof {
        assert(orig.take(orig.len() as int) =~= orig);
    }
    let ghost t1 = tally_of(receipt, selected@);
    let cs = &definition_context.definition_owner_category_candidates;
    proof {
        assert(cs@.take(0) =~= Seq::<(u64, DefinitionOwnerCategoryCandidate)>::empty());
        assert(records@ + Seq::<SelectedRecord>::empty() =~= records@);
    }
    let mut j: usize = 0;
    while j < cs.len()
        invariant
            j <= cs@.len(),
            orig == roots@,
            cs@ == definition_context.definition_owner_category_candidates@,
            orig.len() + cs@.len() < usize::MAX,
            reg == definition_context.registry.view(),
            requested == receipt.requested_category_ids@,
            requested == category_ids@,
            class_unique(receipt.no_category_classes@),
            candidates_fold(t1, cs@.take(j as int), reg.family_categories, requested) == Ok::<Tally, SelectionError>(tally_of(receipt, selected@)),
            roots_fold(empty_tally(), orig, reg, requested) == Ok::<Tally, SelectionError>(t1),
            records@ == root_entries(orig, reg, requested) + candidate_entries(cs@.take(j as int), reg.family_categories, requested),
            requested.len() != 0,
            bounded(tally_of(receipt, selected@), (orig.len() + j) as nat),
            receipt.category_scan_records == orig.len(),
            labels_recorded(receipt.requested_category_labels@, category_ids@),
            receipt.current_records == spec_current_ids(physical_index.view(), 102).len(),
            receipt.definition_context_records_reused == definition_context.definition_owner_ids@.len(),
        decreases cs@.len() - j,
    {
        proof {
            assert(cs@.take(j + 1).drop_last() =~= cs@.take(j as int));
            assert(cs@.take(j + 1).last() == cs@[j as int]);
        }
        let entry = &cs[j];
        let chosen = match record_candidate(&mut receipt, &mut selected, entry.0, &entry.1, &definition_context.registry, Ghost((orig.len() + j) as nat)) {
            Ok(b) => b,
            Err(e) => {
                proof {
                    lemma_candidates_fold_err(t1, cs@, reg.family_categories, requested, j + 1);
                }
                return Err(e);
            },
        };
        if chosen {
            let ghost before = records@;
            records.push(SelectedRecord::DefinitionOwner(entry.0, copy_candidate(&entry.1)));
            proof {
                let a = root_entries(orig, reg, requested);
                let c = candidate_entries(cs@.take(j as int), reg.family_categories, requested);
                assert(records@ =~= a + c.push(SelectedRecord::DefinitionOwner(cs@[j as int].0, cs@[j as int].1)));
            }
        }
        j += 1;
    }
    proof {
        assert(cs@.take(cs@.len() as int) =~= cs@);
    }
    if receipt.category_scan_records as u128 + receipt.definition_context_records_reused as u128
        != receipt.current_records as u128 {
        return Err(SelectionError::IncompleteAccounting);
    }
    proof {
        lemma_selection_exact(orig, cs@, reg, requested, receipt.current_records as nat, receipt.definition_context_records_reused as nat);
        lemma_records_match_selection(orig, cs@, reg, requested, receipt.current_records as nat, receipt.definition_context_records_reused as nat);
        let cur = spec_current_ids(physical_index.view(), 102);
        assert forall|id: u64| #[trigger] selected@.contains(id) implies cur.union(candidate_ids(cs@)).contains(id) by {
            if selected_roots(orig, reg, requested).contains(id) {
                let i = choose|i: int| 0 <= i < orig.len() && orig[i].element_id == id && #[trigger] root_selects(orig[i], reg, requested);
                assert(cur.contains(roots@[i].element_id));
            } else {
                let i = choose|i: int| 0 <= i < cs@.len() && cs@[i].0 == id && #[trigger] candidate_selects(cs@[i].1, reg.family_categories, requested);
                assert(cs@[i].0 == id);
            }
        }
    }
    Ok(PreparedCategorySelection { selected_ids: selected, records, receipt })
}

/// The ids of the definition owners whose facts the context kept.
pub open spec fn candidate_ids(cs: Seq<(u64, DefinitionOwnerCategoryCandidate)>) -> Set<u64> {
    Set::new(|id: u64| exists|i: int| 0 <= i < cs.len() && (#[trigger] cs[i]).0 == id)
}


/// A root record is selected when its recovered category is requested.
pub open spec fn root_selects(rec: RootRecord, reg: crate::parameter_definitions::RegistryView, requested: Set<i64>) -> bool {
    spec_root_category(rec, reg) matches Ok(Some((c, _))) && requested.contains(c)
}

/// A candidate is selected when its recovered category is requested.
pub open spec fn candidate_selects(c: DefinitionOwnerCategoryCandidate, families: Map<i64, i64>, requested: Set<i64>) -> bool {
    spec_definition_owner_category(c, families) matches Ok(Some((k, _))) && requested.contains(k)
}

/// The ids of the selected root records.
pub open spec fn selected_roots(recs: Seq<RootRecord>, reg: crate::parameter_definitions::RegistryView, requested: Set<i64>) -> Set<u64> {
    Set::new(|id: u64| exists|i: int| 0 <= i < recs.len() && recs[i].element_id == id && #[trigger] root_selects(recs[i], reg, requested))
}

/// The ids of the selected candidates.
pub open spec fn selected_candidates(cs: Seq<(u64, DefinitionOwnerCategoryCandidate)>, families: Map<i64, i64>, requested: Set<i64>) -> Set<u64> {
    Set::new(|id: u64| exists|i: int| 0 <= i < cs.len() && cs[i].0 == id && #[trigger] candidate_selects(cs[i].1, families, requested))
}

/// The selected count equals the number of selected ids and splits
/// exactly over the selection sources.
pub open spec fn tally_consistent(t: Tally) -> bool {
    &&& t.ids.finite()
    &&& t.selected == t.ids.len()
    &&& t.selected == t.direct + t.inherited + t.room_space + t.owner_class + t.definition_context
}

proof fn lemma_roots_fold(t0: Tally, recs: Seq<RootRecord>, reg: crate::parameter_definitions::RegistryView, requested: Set<i64>)
    requires
        tally_consistent(t0),
        roots_fold(t0, recs, reg, requested) is Ok,
    ensures
        ({
            let t = roots_fold(t0, recs, reg, requested)->Ok_0;
            &&& tally_consistent(t)
            &&& t.ids == t0.ids + selected_roots(recs, reg, requested)
            &&& t.scanned == t0.scanned + recs.len()
            &&& t.definition_context == t0.definition_context
            &&& t.selected == t0.selected + root_entries(recs, reg, requested).len()
            &&& record_ids(root_entries(recs, reg, requested)) == selected_roots(recs, reg, requested)
        }),
    decreases recs.len(),
{
    if recs.len() == 0 {
        assert(selected_roots(recs, reg, requested) =~= Set::empty());
        assert(t0.ids + Set::<u64>::empty() =~= t0.ids);
    } else {
        let p = recs.drop_last();
        lemma_roots_fold(t0, p, reg, requested);
        let t1 = roots_fold(t0, p, reg, requested)->Ok_0;
        let rec = recs.last();
        let t = roots_fold(t0, recs, reg, requested)->Ok_0;
        let sp = selected_roots(p, reg, requested);
        let sr = selected_roots(recs, reg, requested);
        let ep = root_entries(p, reg, requested);
        if root_selects(rec, reg, requested) {
            assert(ep.push(SelectedRecord::Root(rec)).drop_last() =~= ep);
            assert(sr =~= sp.insert(rec.element_id)) by {
                assert(recs[recs.len() - 1] == rec);
                assert forall|id: u64| sr.contains(id) implies sp.insert(rec.element_id).contains(id) by {
                    let i = choose|i: int| 0 <= i < recs.len() && recs[i].element_id == id && #[trigger] root_selects(recs[i], reg, requested);
                    if i < recs.len() - 1 {
                        assert(p[i] == recs[i]);
                    }
                }
                assert forall|id: u64| sp.contains(id) implies sr.contains(id) by {
                    let i = choose|i: int| 0 <= i < p.len() && p[i].element_id == id && #[trigger] root_selects(p[i], reg, requested);
                    assert(recs[i] == p[i]);
                }
            }
            assert(t.ids =~= t0.ids + sr);
            assert(!t1.ids.contains(rec.element_id));
        } else {
            assert(sr =~= sp) by {
                assert forall|id: u64| sr.contains(id) implies sp.contains(id) by {
                    let i = choose|i: int| 0 <= i < recs.len() && recs[i].element_id == id && #[trigger] root_selects(recs[i], reg, requested);
                    if i < recs.len() - 1 {
                        assert(p[i] == recs[i]);
                    }
                }
                assert forall|id: u64| sp.contains(id) implies sr.contains(id) by {
                    let i = choose|i: int| 0 <= i < p.len() && p[i].element_id == id && #[trigger] root_selects(p[i], reg, requested);
                    assert(recs[i] == p[i]);
                }
            }
        }
    }
}

proof fn lemma_candidates_fold(t0: Tally, cs: Seq<(u64, DefinitionOwnerCategoryCandidate)>, families: Map<i64, i64>, requested: Set<i64>)
    requires
        tally_consistent(t0),
        candidates_fold(t0, cs, families, requested) is Ok,
    ensures
        ({
            let t = candidates_fold(t0, cs, families, requested)->Ok_0;
            &&& tally_consistent(t)
            &&& t.ids == t0.ids + selected_candidates(cs, families, requested)
            &&& t.scanned == t0.scanned
            &&& t.selected == t0.selected + candidate_entries(cs, families, requested).len()
            &&& record_ids(candidate_entries(cs, families, requested)) == selected_candidates(cs, families, requested)
        }),
    decreases cs.len(),
{
    if cs.len() == 0 {
        assert(selected_candidates(cs, families, requested) =~= Set::empty());
        assert(t0.ids + Set::<u64>::empty() =~= t0.ids);
    } else {
        let p = cs.drop_last();
        lemma_candidates_fold(t0, p, families, requested);
        let t1 = candidates_fold(t0, p, families, requested)->Ok_0;
        let e = cs.last();
        let t = candidates_fold(t0, cs, families, requested)->Ok_0;
        let sp = selected_candidates(p, families, requested);
        let sr = selected_candidates(cs, families, requested);
        let ep = candidate_entries(p, families, requested);
        if candidate_selects(e.1, families, requested) {
            assert(ep.push(SelectedRecord::DefinitionOwner(e.0, e.1)).drop_last() =~= ep);
            assert(sr =~= sp.insert(e.0)) by {
                assert(cs[cs.len() - 1] == e);
                assert forall|id: u64| sr.contains(id) implies sp.insert(e.0).contains(id) by {
                    let i = choose|i: int| 0 <= i < cs.len() && cs[i].0 == id && #[trigger] candidate_selects(cs[i].1, families, requested);
                    if i < cs.len() - 1 {
                        assert(p[i] == cs[i]);
                    }
                }
                assert forall|id: u64| sp.contains(id) implies sr.contains(id) by {
                    let i = choose|i: int| 0 <= i < p.len() && p[i].0 == id && #[trigger] candidate_selects(p[i].1, families, requested);
                    assert(cs[i] == p[i]);
                }
            }
            assert(t.ids =~= t0.ids + sr);
            assert(!t1.ids.contains(e.0));
        } else {
            assert(sr =~= sp) by {
                assert forall|id: u64| sr.contains(id) implies sp.contains(id) by {
                    let i = choose|i: int| 0 <= i < cs.len() && cs[i].0 == id && #[trigger] candidate_selects(cs[i].1, families, requested);
                    if i < cs.len() - 1 {
                        assert(p[i] == cs[i]);
                    }
                }
                assert forall|id: u64| sp.contains(id) implies sr.contains(id) by {
                    let i = choose|i: int| 0 <= i < p.len() && p[i].0 == id && #[trigger] candidate_selects(p[i].1, families, requested);
                    assert(cs[i] == p[i]);
                }
            }
        }
    }
}

/// A successful category selection selects exactly the root records and
/// definition owners whose recovered category is requested; its selected
/// count is the number of selected ids and splits exactly over the
/// direct, inherited, room-space, owner-class and definition-context
/// sources; and the scanned and reused owners are the current owners.
pub proof fn lemma_selection_exact(
    recs: Seq<RootRecord>,
    cs: Seq<(u64, DefinitionOwnerCategoryCandidate)>,
    reg: crate::parameter_definitions::RegistryView,
    requested: Set<i64>,
    current: nat,
    reused: nat,
)
    requires
        spec_selection(recs, cs, reg, requested, current, reused) is Ok,
    ensures
        ({
            let t = spec_selection(recs, cs, reg, requested, current, reused)->Ok_0;
            &&& t.ids == selected_roots(recs, reg, requested) + selected_candidates(cs, reg.family_categories, requested)
            &&& t.ids.finite()
            &&& t.selected == t.ids.len()
            &&& t.selected == t.direct + t.inherited + t.room_space + t.owner_class + t.definition_context
            &&& t.scanned == recs.len()
            &&& t.scanned + reused == current
        }),
{
    let t0 = empty_tally();
    assert(tally_consistent(t0));
    lemma_roots_fold(t0, recs, reg, requested);
    let t1 = roots_fold(t0, recs, reg, requested)->Ok_0;
    lemma_candidates_fold(t1, cs, reg.family_categories, requested);
    assert(Set::<u64>::empty() + selected_roots(recs, reg, requested) =~= selected_roots(recs, reg, requested));
}

proof fn lemma_record_ids_add(a: Seq<SelectedRecord>, b: Seq<SelectedRecord>)
    ensures
        record_ids(a + b) == record_ids(a) + record_ids(b),
    decreases b.len(),
{
    if b.len() == 0 {
        assert(a + b =~= a);
        assert(record_ids(a) + Set::<u64>::empty() =~= record_ids(a));
    } else {
        lemma_record_ids_add(a, b.drop_last());
        assert((a + b).drop_last() =~= a + b.drop_last());
        assert((a + b).last() == b.last());
        assert(record_ids(a + b) =~= record_ids(a) + record_ids(b));
    }
}

/// A successful category selection hands on one record per selected owner:
/// as many records as selected owners, and their owner ids are exactly the
/// selected ids.
pub proof fn lemma_records_match_selection(
    recs: Seq<RootRecord>,
    cs: Seq<(u64, DefinitionOwnerCategoryCandidate)>,
    reg: crate::parameter_definitions::RegistryView,
    requested: Set<i64>,
    current: nat,
    reused: nat,
)
    requires
        spec_selection(recs, cs, reg, requested, current, reused) is Ok,
    ensures
        ({
            let t = spec_selection(recs, cs, reg, requested, current, reused)->Ok_0;
            let records = selection_records(recs, cs, reg, requested);
            &&& records.len() == t.selected
            &&& records.len() == t.ids.len()
            &&& record_ids(records) == t.ids
        }),
{
    let t0 = empty_tally();
    assert(tally_consistent(t0));
    lemma_roots_fold(t0, recs, reg, requested);
    let t1 = roots_fold(t0, recs, reg, requested)->Ok_0;
    lemma_candidates_fold(t1, cs, reg.family_categories, requested);
    assert(Set::<u64>::empty() + selected_roots(recs, reg, requested) =~= selected_roots(recs, reg, requested));
    lemma_record_ids_add(root_entries(recs, reg, requested), candidate_entries(cs, reg.family_categories, requested));
}

/// Selection is monotonic in the requested categories: over the same
/// records and context, every owner selected for a set of categories is
/// also selected for any larger set.
pub proof fn lemma_selection_monotonic(
    recs: Seq<RootRecord>,
    cs: Seq<(u64, DefinitionOwnerCategoryCandidate)>,
    reg: crate::parameter_definitions::RegistryView,
    small: Set<i64>,
    large: Set<i64>,
    current: nat,
    reused: nat,
)
    requires
        small.subset_of(large),
        spec_selection(recs, cs, reg, small, current, reused) is Ok,
        spec_selection(recs, cs, reg, large, current, reused) is Ok,
    ensures
        spec_selection(recs, cs, reg, small, current, reused)->Ok_0.ids.subset_of(
            spec_selection(recs, cs, reg, large, current, reused)->Ok_0.ids,
        ),
{
    lemma_selection_exact(recs, cs, reg, small, current, reused);
    lemma_selection_exact(recs, cs, reg, large, current, reused);
    assert forall|id: u64| #[trigger] selected_roots(recs, reg, small).contains(id) implies selected_roots(recs, reg, large).contains(id) by {
        let i = choose|i: int| 0 <= i < recs.len() && recs[i].element_id == id && #[trigger] root_selects(recs[i], reg, small);
        assert(root_selects(recs[i], reg, large));
    }
    assert forall|id: u64| #[trigger] selected_candidates(cs, reg.family_categories, small).contains(id) implies selected_candidates(cs, reg.family_categories, large).contains(id) by {
        let i = choose|i: int| 0 <= i < cs.len() && cs[i].0 == id && #[trigger] candidate_selects(cs[i].1, reg.family_categories, small);
        assert(candidate_selects(cs[i].1, reg.family_categories, large));
    }
}


/// Two tallies count the same selections for every category of `cats`.
pub open spec fn counts_agree(a: Tally, b: Tally, cats: Set<i64>) -> bool {
    forall|c: i64| #[trigger] cats.contains(c) ==> (a.selected_by.contains_key(c) == b.selected_by.contains_key(c)
        && (a.selected_by.contains_key(c) ==> a.selected_by[c] == b.selected_by[c]))
}

proof fn lemma_roots_counts_agree(
    t1: Tally,
    t2: Tally,
    recs: Seq<RootRecord>,
    reg: crate::parameter_definitions::RegistryView,
    small: Set<i64>,
    large: Set<i64>,
)
    requires
        small.subset_of(large),
        counts_agree(t1, t2, small),
        roots_fold(t1, recs, reg, small) is Ok,
        roots_fold(t2, recs, reg, large) is Ok,
    ensures
        counts_agree(roots_fold(t1, recs, reg, small)->Ok_0, roots_fold(t2, recs, reg, large)->Ok_0, small),
    decreases recs.len(),
{
    if recs.len() > 0 {
        let p = recs.drop_last();
        lemma_roots_counts_agree(t1, t2, p, reg, small, large);
        let a1 = roots_fold(t1, p, reg, small)->Ok_0;
        let a2 = roots_fold(t2, p, reg, large)->Ok_0;
        let b1 = roots_fold(t1, recs, reg, small)->Ok_0;
        let b2 = roots_fold(t2, recs, reg, large)->Ok_0;
        assert forall|c: i64| #[trigger] small.contains(c) implies (b1.selected_by.contains_key(c) == b2.selected_by.contains_key(c)
            && (b1.selected_by.contains_key(c) ==> b1.selected_by[c] == b2.selected_by[c])) by {
            assert(small.contains(c) ==> large.contains(c));
        }
    }
}

proof fn lemma_candidates_counts_agree(
    t1: Tally,
    t2: Tally,
    cs: Seq<(u64, DefinitionOwnerCategoryCandidate)>,
    families: Map<i64, i64>,
    small: Set<i64>,
    large: Set<i64>,
)
    requires
        small.subset_of(large),
        counts_agree(t1, t2, small),
        candidates_fold(t1, cs, families, small) is Ok,
        candidates_fold(t2, cs, families, large) is Ok,
    ensures
        counts_agree(candidates_fold(t1, cs, families, small)->Ok_0, candidates_fold(t2, cs, families, large)->Ok_0, small),
    decreases cs.len(),
{
    if cs.len() > 0 {
        let p = cs.drop_last();
        lemma_candidates_counts_agree(t1, t2, p, families, small, large);
        let b1 = candidates_fold(t1, cs, families, small)->Ok_0;
        let b2 = candidates_fold(t2, cs, families, large)->Ok_0;
        assert forall|c: i64| #[trigger] small.contains(c) implies (b1.selected_by.contains_key(c) == b2.selected_by.contains_key(c)
            && (b1.selected_by.contains_key(c) ==> b1.selected_by[c] == b2.selected_by[c])) by {
            assert(small.contains(c) ==> large.contains(c));
        }
    }
}

/// Over the same records and context, a request and a larger one count
/// the same selected owners for every category of the smaller request.
pub proof fn lemma_selection_counts_agree(
    recs: Seq<RootRecord>,
    cs: Seq<(u64, DefinitionOwnerCategoryCandidate)>,
    reg: crate::parameter_definitions::RegistryView,
    small: Set<i64>,
    large: Set<i64>,
    current: nat,
    reused: nat,
)
    requires
        small.subset_of(large),
        spec_selection(recs, cs, reg, small, current, reused) is Ok,
        spec_selection(recs, cs, reg, large, current, reused) is Ok,
    ensures
        counts_agree(
            spec_selection(recs, cs, reg, small, current, reused)->Ok_0,
            spec_selection(recs, cs, reg, large, current, reused)->Ok_0,
            small,
        ),
{
    let t0 = empty_tally();
    lemma_roots_counts_agree(t0, t0, recs, reg, small, large);
    let a1 = roots_fold(t0, recs, reg, small)->Ok_0;
    let a2 = roots_fold(t0, recs, reg, large)->Ok_0;
    lemma_candidates_counts_agree(a1, a2, cs, reg.family_categories, small, large);
}


/// The sum of the counts of a finite map.
pub open spec fn map_total(m: Map<i64, nat>) -> nat
    decreases m.dom().len(),
    when m.dom().finite()
{
    if m.dom().len() == 0 {
        0
    } else {
        let k = m.dom().choose();
        m[k] + map_total(m.remove(k))
    }
}

proof fn lemma_map_total_remove(m: Map<i64, nat>, k: i64)
    requires
        m.dom().finite(),
        m.contains_key(k),
    ensures
        map_total(m) == m[k] + map_total(m.remove(k)),
    decreases m.dom().len(),
{
    let c = m.dom().choose();
    assert(m.dom().contains(k));
    if c != k {
        let mc = m.remove(c);
        let mk = m.remove(k);
        assert(mc.dom() =~= m.dom().remove(c));
        assert(mk.dom() =~= m.dom().remove(k));
        lemma_map_total_remove(mc, k);
        lemma_map_total_remove(mk, c);
        assert(mc.remove(k) =~= mk.remove(c));
    }
}

proof fn lemma_map_total_bump(m: Map<i64, nat>, k: i64)
    requires
        m.dom().finite(),
    ensures
        bump(m, k).dom().finite(),
        map_total(bump(m, k)) == map_total(m) + 1,
{
    let b = bump(m, k);
    assert(b.dom() =~= m.dom().insert(k));
    lemma_map_total_remove(b, k);
    if m.contains_key(k) {
        assert(b.remove(k) =~= m.remove(k));
        lemma_map_total_remove(m, k);
    } else {
        assert(b.remove(k) =~= m);
    }
}

/// A tally's selected count is the sum of its per-category counts.
pub open spec fn total_consistent(t: Tally) -> bool {
    t.selected_by.dom().finite() && t.selected == map_total(t.selected_by)
}

proof fn lemma_roots_fold_total(t0: Tally, recs: Seq<RootRecord>, reg: crate::parameter_definitions::RegistryView, requested: Set<i64>)
    requires
        total_consistent(t0),
        roots_fold(t0, recs, reg, requested) is Ok,
    ensures
        total_consistent(roots_fold(t0, recs, reg, requested)->Ok_0),
    decreases recs.len(),
{
    if recs.len() > 0 {
        lemma_roots_fold_total(t0, recs.drop_last(), reg, requested);
        let t1 = roots_fold(t0, recs.drop_last(), reg, requested)->Ok_0;
        if let Ok(Some((c, _))) = spec_root_category(recs.last(), reg) {
            lemma_map_total_bump(t1.selected_by, c);
        }
    }
}

proof fn lemma_candidates_fold_total(t0: Tally, cs: Seq<(u64, DefinitionOwnerCategoryCandidate)>, families: Map<i64, i64>, requested: Set<i64>)
    requires
        total_consistent(t0),
        candidates_fold(t0, cs, families, requested) is Ok,
    ensures
        total_consistent(candidates_fold(t0, cs, families, requested)->Ok_0),
    decreases cs.len(),
{
    if cs.len() > 0 {
        lemma_candidates_fold_total(t0, cs.drop_last(), families, requested);
        let t1 = candidates_fold(t0, cs.drop_last(), families, requested)->Ok_0;
        if let Ok(Some((c, _))) = spec_definition_owner_category(cs.last().1, families) {
            lemma_map_total_bump(t1.selected_by, c);
        }
    }
}

/// A successful selection's selected count is the sum of its per-category
/// selected counts.
pub proof fn lemma_selected_is_category_total(
    recs: Seq<RootRecord>,
    cs: Seq<(u64, DefinitionOwnerCategoryCandidate)>,
    reg: crate::parameter_definitions::RegistryView,
    requested: Set<i64>,
    current: nat,
    reused: nat,
)
    requires
        spec_selection(recs, cs, reg, requested, current, reused) is Ok,
    ensures
        total_consistent(spec_selection(recs, cs, reg, requested, current, reused)->Ok_0),
{
    let t0 = empty_tally();
    assert(t0.selected_by.dom() =~= Set::<i64>::empty());
    assert(map_total(t0.selected_by) == 0);
    lemma_roots_fold_total(t0, recs, reg, requested);
    let t1 = roots_fold(t0, recs, reg, requested)->Ok_0;
    lemma_candidates_fold_total(t1, cs, reg.family_categories, requested);
}

} // verus!
