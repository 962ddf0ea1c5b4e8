//! The document binding context of parameter definitions: category
//! bindings, family categories and names, and symbol-to-family edges.
//! Every fact is keyed by native id; a restated fact must agree with the
//! one already recorded.
use vstd::prelude::*;
use std::collections::BTreeMap;

use crate::definition_units::{enrich_builtins, enrich_definitions, sorted_ids};
use crate::extensible_storage::{guid_string_at, guid_text};
use crate::graph::GraphEdge;
use crate::metadata_projection::{
    FamilyParameterSlots, SlotView,
    as_u64, copy_tokens, field_pos, first_edge_from, member_pos, member_u64, member_u64_exec,
    tokens_eq, value_tokens, value_tokens_exec,
};
use crate::object_graph::{GraphView, ObjectGraph};
use crate::order::{name_lt, name_lt_exec};
use crate::text::{concat, str_eq, text_of};
use crate::token_tree::{
    identifier, identifier_exec, lemma_member_from_in_bounds, lemma_value_end_after, member, member_exec,
    member_from, opt_pos, text_member, text_member_exec, text_outcome, value_end, value_end_exec,
};
use crate::value_grammar::{tokens_view, Token, TokenView};

verus! {

broadcast use vstd::std_specs::btree::group_btree_axioms;

/// Native classes whose `m_familyId` is the serialized type-to-family
/// edge: an explicit vocabulary, not a name pattern.
pub open spec fn spec_is_family_symbol_class(class_name: Seq<char>) -> bool {
    class_name == "FamilySymbol"@ || class_name == "SysMullionFamSym"@ || class_name
        == "SysPanelFamSym"@
}

/// Whether `class_name` is a family symbol definition owner.
pub fn is_family_symbol_definition_owner(class_name: &str) -> (r: bool)
    ensures
        r == spec_is_family_symbol_class(class_name@),
{
    str_eq(class_name, "FamilySymbol") || str_eq(class_name, "SysMullionFamSym") || str_eq(
        class_name,
        "SysPanelFamSym",
    )
}

/// One category binding of a custom parameter.
#[derive(Clone, Copy, Debug, PartialEq, Eq, Structural)]
pub struct Binding {
    pub binding_id: i64,
    pub parameter_id: i64,
    pub category_id: i64,
    pub elem_or_symbol: i64,
}

/// Why a binding-context owner was not recorded.
#[derive(Clone, Copy, Debug, PartialEq, Eq, Structural)]
pub enum RegistryError {
    /// A field the owner's class requires is absent.
    MissingField,
    ConflictingBinding,
    ConflictingFamilyCategory,
    ConflictingFamilyName,
    ConflictingOmniClassCode,
    ConflictingClassificationDescription,
    ConflictingStructuralCodeName,
    ConflictingSymbolFamily,
    UnsupportedClass,
}

/// The fields of a binding-context owner's root object, decoded.
#[derive(Clone, Debug)]
pub struct BindingContextFacts {
    pub class_name: String,
    pub id: i64,
    pub parameter_id: Option<i64>,
    pub category_id: Option<i64>,
    pub elem_or_symbol: Option<i64>,
    pub family_id: Option<i64>,
    pub name: Option<String>,
    pub omniclass_code: Option<String>,
    pub classification_description: Option<String>,
    pub structural_code_name: Option<String>,
}

/// The facts of a binding-context owner as plain values.
pub struct BindingFactsView {
    pub class_name: Seq<char>,
    pub id: i64,
    pub parameter_id: Option<i64>,
    pub category_id: Option<i64>,
    pub elem_or_symbol: Option<i64>,
    pub family_id: Option<i64>,
    pub name: Option<Seq<char>>,
    pub omniclass_code: Option<Seq<char>>,
    pub classification_description: Option<Seq<char>>,
    pub structural_code_name: Option<Seq<char>>,
}

/// An optional text by its characters.
pub open spec fn opt_text(o: Option<String>) -> Option<Seq<char>> {
    match o {
        Some(s) => Some(s@),
        None => None,
    }
}

impl BindingContextFacts {
    pub open spec fn view(&self) -> BindingFactsView {
        BindingFactsView {
            class_name: self.class_name@,
            id: self.id,
            parameter_id: self.parameter_id,
            category_id: self.category_id,
            elem_or_symbol: self.elem_or_symbol,
            family_id: self.family_id,
            name: opt_text(self.name),
            omniclass_code: opt_text(self.omniclass_code),
            classification_description: opt_text(self.classification_description),
            structural_code_name: opt_text(self.structural_code_name),
        }
    }
}

/// The binding context recovered from a document's definition owners.
#[derive(Clone, Debug)]
pub struct Registry {
    pub bindings: BTreeMap<i64, Binding>,
    pub family_categories: BTreeMap<i64, i64>,
    pub family_names: BTreeMap<i64, String>,
    pub family_omniclass_codes: BTreeMap<i64, String>,
    pub family_classification_descriptions: BTreeMap<i64, String>,
    pub family_structural_code_names: BTreeMap<i64, String>,
    pub symbol_families: BTreeMap<i64, i64>,
    /// Custom parameter definitions by parameter id.
    pub definitions: BTreeMap<i64, Definition>,
    /// Project display unit formats by specification, in name order.
    pub unit_formats: Vec<(String, Vec<Token>)>,
    /// Built-in parameter definitions of the qualified catalog, by id.
    pub builtin_definitions: BTreeMap<i64, BuiltinDefinition>,
}

/// The registry as maps; text values by their characters.
#[verifier::ext_equal]
pub struct RegistryView {
    pub bindings: Map<i64, Binding>,
    pub family_categories: Map<i64, i64>,
    pub family_names: Map<i64, Seq<char>>,
    pub family_omniclass_codes: Map<i64, Seq<char>>,
    pub family_classification_descriptions: Map<i64, Seq<char>>,
    pub family_structural_code_names: Map<i64, Seq<char>>,
    pub symbol_families: Map<i64, i64>,
    pub definitions: Map<i64, DefinitionView>,
    pub unit_formats: Seq<(Seq<char>, Seq<TokenView>)>,
    pub builtin_definitions: Map<i64, BuiltinView>,
}

/// Text values of a map by their characters.
pub open spec fn text_map(m: Map<i64, String>) -> Map<i64, Seq<char>> {
    Map::new(|k: i64| m.contains_key(k), |k: i64| m[k]@)
}

/// Records `k -> v` unless `k` already holds another value.
pub open spec fn put<V>(m: Map<i64, V>, k: i64, v: V) -> Option<Map<i64, V>> {
    if m.contains_key(k) && m[k] != v {
        None
    } else {
        Some(m.insert(k, v))
    }
}

/// Records an optional text fact; absent facts change nothing.
pub open spec fn put_text(m: Map<i64, Seq<char>>, k: i64, v: Option<Seq<char>>) -> Option<
    Map<i64, Seq<char>>,
> {
    match v {
        None => Some(m),
        Some(s) => put(m, k, s),
    }
}

/// Ingesting one binding-context owner. Family facts are recorded in a
/// fixed order; on a later conflict the earlier ones stay recorded.
pub open spec fn spec_ingest(v: RegistryView, f: BindingFactsView) -> (RegistryView, Result<
    (),
    RegistryError,
>) {
    let c = f.class_name;
    if c == "ParamBinding"@ {
        if f.parameter_id is None || f.category_id is None || f.elem_or_symbol is None {
            (v, Err(RegistryError::MissingField))
        } else {
            let b = Binding {
                binding_id: f.id,
                parameter_id: f.parameter_id->0,
                category_id: f.category_id->0,
                elem_or_symbol: f.elem_or_symbol->0,
            };
            match put(v.bindings, f.id, b) {
                None => (v, Err(RegistryError::ConflictingBinding)),
                Some(m) => (RegistryView { bindings: m, ..v }, Ok(())),
            }
        }
    } else if c == "Family"@ {
        if f.category_id is None {
            (v, Err(RegistryError::MissingField))
        } else {
            match put(v.family_categories, f.id, f.category_id->0) {
                None => (v, Err(RegistryError::ConflictingFamilyCategory)),
                Some(m1) => {
                    let v1 = RegistryView { family_categories: m1, ..v };
                    match put_text(v1.family_names, f.id, f.name) {
                        None => (v1, Err(RegistryError::ConflictingFamilyName)),
                        Some(m2) => {
                            let v2 = RegistryView { family_names: m2, ..v1 };
                            match put_text(v2.family_omniclass_codes, f.id, f.omniclass_code) {
                                None => (v2, Err(RegistryError::ConflictingOmniClassCode)),
                                Some(m3) => {
                                    let v3 = RegistryView { family_omniclass_codes: m3, ..v2 };
                                    match put_text(
                                        v3.family_classification_descriptions,
                                        f.id,
                                        f.classification_description,
                                    ) {
                                        None => (
                                            v3,
                                            Err(RegistryError::ConflictingClassificationDescription),
                                        ),
                                        Some(m4) => {
                                            let v4 = RegistryView {
                                                family_classification_descriptions: m4,
                                                ..v3
                                            };
                                            match put_text(
                                                v4.family_structural_code_names,
                                                f.id,
                                                f.structural_code_name,
                                            ) {
                                                None => (
                                                    v4,
                                                    Err(
                                                        RegistryError::ConflictingStructuralCodeName,
                                                    ),
                                                ),
                                                Some(m5) => (
                                                    RegistryView {
                                                        family_structural_code_names: m5,
                                                        ..v4
                                                    },
                                                    Ok(()),
                                                ),
                                            }
                                        },
                                    }
                                },
                            }
                        },
                    }
                },
            }
        }
    } else if spec_is_family_symbol_class(c) {
        if f.family_id is None {
            (v, Err(RegistryError::MissingField))
        } else {
            match put(v.symbol_families, f.id, f.family_id->0) {
                None => (v, Err(RegistryError::ConflictingSymbolFamily)),
                Some(m) => (RegistryView { symbol_families: m, ..v }, Ok(())),
            }
        }
    } else {
        (v, Err(RegistryError::UnsupportedClass))
    }
}

/// Records `k -> v` in `m` unless `k` holds another value.
fn put_int(m: &mut BTreeMap<i64, i64>, k: i64, v: i64) -> (r: bool)
    ensures
        r == (put(old(m)@, k, v) is Some),
        r ==> final(m)@ == put(old(m)@, k, v)->0,
        !r ==> final(m)@ == old(m)@,
{
    match m.get(&k) {
        Some(prev) => if *prev != v {
            return false;
        },
        None => {},
    }
    m.insert(k, v);
    true
}

/// Records an optional text fact `k -> v` in `m` unless `k` holds other text.
fn put_text_exec(m: &mut BTreeMap<i64, String>, k: i64, v: &Option<String>) -> (r: bool)
    ensures
        r == (put_text(text_map(old(m)@), k, opt_text(*v)) is Some),
        r ==> text_map(final(m)@) == put_text(text_map(old(m)@), k, opt_text(*v))->0,
        !r ==> final(m)@ == old(m)@,
{
    match v {
        None => {
            return true;
        },
        Some(s) => {
            match m.get(&k) {
                Some(prev) => if !str_eq(prev.as_str(), s.as_str()) {
                    return false;
                },
                None => {},
            }
            m.insert(k, s.clone());
            proof {
                assert(text_map(m@) =~= text_map(old(m)@).insert(k, s@));
            }
            true
        },
    }
}

impl Registry {
    pub open spec fn view(&self) -> RegistryView {
        RegistryView {
            bindings: self.bindings@,
            family_categories: self.family_categories@,
            family_names: text_map(self.family_names@),
            family_omniclass_codes: text_map(self.family_omniclass_codes@),
            family_classification_descriptions: text_map(self.family_classification_descriptions@),
            family_structural_code_names: text_map(self.family_structural_code_names@),
            symbol_families: self.symbol_families@,
            definitions: definitions_view(self.definitions@),
            unit_formats: named_view(self.unit_formats@),
            builtin_definitions: builtins_view(self.builtin_definitions@),
        }
    }

    /// The registry that records nothing.
    pub open spec fn new_spec() -> RegistryView {
        RegistryView {
            bindings: Map::empty(),
            family_categories: Map::empty(),
            family_names: Map::empty(),
            family_omniclass_codes: Map::empty(),
            family_classification_descriptions: Map::empty(),
            family_structural_code_names: Map::empty(),
            symbol_families: Map::empty(),
            definitions: Map::empty(),
            unit_formats: Seq::empty(),
            builtin_definitions: Map::empty(),
        }
    }

    /// A registry that records nothing.
    pub fn new() -> (r: Self)
        ensures
            r.view() == Self::new_spec(),
    {
        let r = Registry {
            bindings: BTreeMap::new(),
            family_categories: BTreeMap::new(),
            family_names: BTreeMap::new(),
            family_omniclass_codes: BTreeMap::new(),
            family_classification_descriptions: BTreeMap::new(),
            family_structural_code_names: BTreeMap::new(),
            symbol_families: BTreeMap::new(),
            definitions: BTreeMap::new(),
            unit_formats: Vec::new(),
            builtin_definitions: BTreeMap::new(),
        };
        proof {
            assert(builtins_view(r.builtin_definitions@) =~= Map::empty());
            assert(definitions_view(r.definitions@) =~= Map::empty());
            assert(named_view(r.unit_formats@) =~= Seq::empty());
            assert(text_map(r.family_names@) =~= Map::empty());
            assert(text_map(r.family_omniclass_codes@) =~= Map::empty());
            assert(text_map(r.family_classification_descriptions@) =~= Map::empty());
            assert(text_map(r.family_structural_code_names@) =~= Map::empty());
        }
        r
    }

    /// The family category of `family`, if recorded.
    pub fn family_category(&self, family: i64) -> (r: Option<i64>)
        ensures
            r == (if self.view().family_categories.contains_key(family) {
                Some(self.view().family_categories[family])
            } else {
                None
            }),
    {
        match self.family_categories.get(&family) {
            Some(c) => Some(*c),
            None => None,
        }
    }

    /// The family of `symbol`, if recorded.
    pub fn symbol_family(&self, symbol: i64) -> (r: Option<i64>)
        ensures
            r == (if self.view().symbol_families.contains_key(symbol) {
                Some(self.view().symbol_families[symbol])
            } else {
                None
            }),
    {
        match self.symbol_families.get(&symbol) {
            Some(f) => Some(*f),
            None => None,
        }
    }

    /// Records the facts of one binding-context owner: a `ParamBinding`, a
    /// `Family` (category, then optional name and classification texts) or
    /// a family symbol's family edge. Other classes are refused.
    pub fn ingest_binding_facts(&mut self, facts: &BindingContextFacts) -> (r: Result<
        (),
        RegistryError,
    >)
        ensures
            (final(self).view(), r) == spec_ingest(old(self).view(), facts.view()),
    {
        let c = facts.class_name.as_str();
        if str_eq(c, "ParamBinding") {
            let (parameter_id, category_id, elem_or_symbol) = match (
                facts.parameter_id,
                facts.category_id,
                facts.elem_or_symbol,
            ) {
                (Some(p), Some(c), Some(e)) => (p, c, e),
                _ => return Err(RegistryError::MissingField),
            };
            let binding = Binding {
                binding_id: facts.id,
                parameter_id,
                category_id,
                elem_or_symbol,
            };
            match self.bindings.get(&facts.id) {
                Some(prev) => if *prev != binding {
                    return Err(RegistryError::ConflictingBinding);
                },
                None => {},
            }
            self.bindings.insert(facts.id, binding);
            proof {
                assert(self.view() =~= RegistryView { bindings: old(self).view().bindings.insert(facts.id, binding), ..old(self).view() });
            }
            Ok(())
        } else if str_eq(c, "Family") {
            let category = match facts.category_id {
                Some(c) => c,
                None => return Err(RegistryError::MissingField),
            };
            if !put_int(&mut self.family_categories, facts.id, category) {
                proof { assert(self.view() =~= old(self).view()); }
                return Err(RegistryError::ConflictingFamilyCategory);
            }
            let ghost v1 = self.view();
            proof {
                assert(v1 =~= RegistryView { family_categories: put(old(self).view().family_categories, facts.id, category)->0, ..old(self).view() });
            }
            if !put_text_exec(&mut self.family_names, facts.id, &facts.name) {
                proof { assert(self.view() =~= v1); }
                return Err(RegistryError::ConflictingFamilyName);
            }
            let ghost v2 = self.view();
            proof {
                assert(v2 =~= RegistryView { family_names: put_text(v1.family_names, facts.id, opt_text(facts.name))->0, ..v1 });
            }
            if !put_text_exec(&mut self.family_omniclass_codes, facts.id, &facts.omniclass_code) {
                proof { assert(self.view() =~= v2); }
                return Err(RegistryError::ConflictingOmniClassCode);
            }
            let ghost v3 = self.view();
            proof {
                assert(v3 =~= RegistryView { family_omniclass_codes: put_text(v2.family_omniclass_codes, facts.id, opt_text(facts.omniclass_code))->0, ..v2 });
            }
            if !put_text_exec(
                &mut self.family_classification_descriptions,
                facts.id,
                &facts.classification_description,
            ) {
                proof { assert(self.view() =~= v3); }
                return Err(RegistryError::ConflictingClassificationDescription);
            }
            let ghost v4 = self.view();
            proof {
                assert(v4 =~= RegistryView { family_classification_descriptions: put_text(v3.family_classification_descriptions, facts.id, opt_text(facts.classification_description))->0, ..v3 });
            }
            if !put_text_exec(
                &mut self.family_structural_code_names,
                facts.id,
                &facts.structural_code_name,
            ) {
                proof { assert(self.view() =~= v4); }
                return Err(RegistryError::ConflictingStructuralCodeName);
            }
            proof {
                assert(self.view() =~= RegistryView { family_structural_code_names: put_text(v4.family_structural_code_names, facts.id, opt_text(facts.structural_code_name))->0, ..v4 });
            }
            Ok(())
        } else if is_family_symbol_definition_owner(c) {
            let family = match facts.family_id {
                Some(f) => f,
                None => return Err(RegistryError::MissingField),
            };
            if !put_int(&mut self.symbol_families, facts.id, family) {
                proof { assert(self.view() =~= old(self).view()); }
                return Err(RegistryError::ConflictingSymbolFamily);
            }
            proof {
                assert(self.view() =~= RegistryView { symbol_families: put(old(self).view().symbol_families, facts.id, family)->0, ..old(self).view() });
            }
            Ok(())
        } else {
            Err(RegistryError::UnsupportedClass)
        }
    }
}



/// The saved element id stored in the root object's field `key`.
pub open spec fn field_id(t: Seq<TokenView>, key: Seq<char>) -> Result<i64, Seq<char>> {
    identifier(t, member(t, 0, key))
}

/// The facts a binding-context owner's root fields state: its id, then
/// the ids its class requires, in the order the class reads them, and
/// a family's optional text facts. Ids are read before any fact is
/// recorded; a class outside the context is refused only later.
pub open spec fn spec_graph_facts(class_name: Seq<char>, t: Seq<TokenView>) -> Result<
    BindingFactsView,
    Seq<char>,
> {
    let bare = |id: i64|
        BindingFactsView {
            class_name,
            id,
            parameter_id: None,
            category_id: None,
            elem_or_symbol: None,
            family_id: None,
            name: None,
            omniclass_code: None,
            classification_description: None,
            structural_code_name: None,
        };
    match field_id(t, "m_id"@) {
        Err(e) => Err(e),
        Ok(id) => if class_name == "ParamBinding"@ {
            match field_id(t, "m_paramId"@) {
                Err(e) => Err(e),
                Ok(p) => match field_id(t, "m_categoryId"@) {
                    Err(e) => Err(e),
                    Ok(c) => match field_id(t, "m_elemOrSymbol"@) {
                        Err(e) => Err(e),
                        Ok(k) => Ok(
                            BindingFactsView {
                                parameter_id: Some(p),
                                category_id: Some(c),
                                elem_or_symbol: Some(k),
                                ..bare(id)
                            },
                        ),
                    },
                },
            }
        } else if class_name == "Family"@ {
            match field_id(t, "m_categoryId"@) {
                Err(e) => Err(e),
                Ok(c) => Ok(
                    BindingFactsView {
                        category_id: Some(c),
                        name: text_member(t, 0, "m_name"@),
                        omniclass_code: text_member(t, 0, "m_omniClassCode"@),
                        classification_description: text_member(t, 0, "m_classificationDescription"@),
                        structural_code_name: text_member(t, 0, "m_structuralCodeName"@),
                        ..bare(id)
                    },
                ),
            }
        } else if spec_is_family_symbol_class(class_name) {
            match field_id(t, "m_familyId"@) {
                Err(e) => Err(e),
                Ok(f) => Ok(BindingFactsView { family_id: Some(f), ..bare(id) }),
            }
        } else {
            Ok(bare(id))
        },
    }
}

/// The message a refused binding-context owner is answered with.
pub open spec fn registry_error_text(e: RegistryError) -> Seq<char> {
    match e {
        RegistryError::MissingField => "binding context field absent"@,
        RegistryError::ConflictingBinding => "conflicting parameter bindings"@,
        RegistryError::ConflictingFamilyCategory => "conflicting family categories"@,
        RegistryError::ConflictingFamilyName => "conflicting family names"@,
        RegistryError::ConflictingOmniClassCode => "conflicting family OmniClass code"@,
        RegistryError::ConflictingClassificationDescription => "conflicting family classification description"@,
        RegistryError::ConflictingStructuralCodeName => "conflicting family structural code name"@,
        RegistryError::ConflictingSymbolFamily => "conflicting symbol family references"@,
        RegistryError::UnsupportedClass => "unsupported parameter binding context class"@,
    }
}

impl RegistryError {
    /// The message this refusal is answered with.
    pub fn message(&self) -> (r: String)
        ensures
            r@ == registry_error_text(*self),
    {
        match self {
            RegistryError::MissingField => text_of("binding context field absent"),
            RegistryError::ConflictingBinding => text_of("conflicting parameter bindings"),
            RegistryError::ConflictingFamilyCategory => text_of("conflicting family categories"),
            RegistryError::ConflictingFamilyName => text_of("conflicting family names"),
            RegistryError::ConflictingOmniClassCode => text_of("conflicting family OmniClass code"),
            RegistryError::ConflictingClassificationDescription => text_of(
                "conflicting family classification description",
            ),
            RegistryError::ConflictingStructuralCodeName => text_of(
                "conflicting family structural code name",
            ),
            RegistryError::ConflictingSymbolFamily => text_of("conflicting symbol family references"),
            RegistryError::UnsupportedClass => text_of("unsupported parameter binding context class"),
        }
    }
}

/// Ingesting a decoded binding-context owner: its root object's facts,
/// recorded as `spec_ingest` records them.
pub open spec fn spec_ingest_context(v: RegistryView, g: GraphView) -> (RegistryView, Result<
    (),
    Seq<char>,
>) {
    if g.objects.len() == 0 {
        (v, Err("empty binding context"@))
    } else {
        match spec_graph_facts(g.objects[0].class_name, g.objects[0].fields) {
            Err(e) => (v, Err(e)),
            Ok(f) => {
                let (w, r) = spec_ingest(v, f);
                (
                    w,
                    match r {
                        Ok(u) => Ok(u),
                        Err(e) => Err(registry_error_text(e)),
                    },
                )
            },
        }
    }
}

/// A unit result with its message by its characters.
pub open spec fn unit_text(r: Result<(), String>) -> Result<(), Seq<char>> {
    match r {
        Ok(u) => Ok(u),
        Err(e) => Err(e@),
    }
}

/// The saved element id stored in the root object's field `key`.
fn field_id_exec(t: &[Token], key: &str) -> (r: Result<i64, String>)
    ensures
        text_outcome(r, field_id(tokens_view(t@), key@)),
{
    proof {
        lemma_member_from_in_bounds(tokens_view(t@), 1, key@);
    }
    let pos = member_exec(t, 0, key);
    let len = t.len();
    proof {
        let m = member(tokens_view(t@), 0, key@);
        match m {
            Some(j) => {
                assert(m == member_from(tokens_view(t@), 1, key@));
                assert(1 < j < len);
                assert(pos == Some(j as usize));
                assert(opt_pos(pos) == m);
            },
            None => {
                assert(pos is None);
            },
        }
    }
    identifier_exec(t, pos)
}

/// The facts of a binding-context owner from its class and decoded root
/// fields.
pub fn binding_context_facts(class_name: &str, fields: &[Token]) -> (r: Result<
    BindingContextFacts,
    String,
>)
    ensures
        match spec_graph_facts(class_name@, tokens_view(fields@)) {
            Ok(f) => r is Ok && r->Ok_0.view() == f,
            Err(e) => r is Err && r->Err_0@ == e,
        },
{
    let id = match field_id_exec(fields, "m_id") {
        Ok(n) => n,
        Err(e) => return Err(e),
    };
    let mut facts = BindingContextFacts {
        class_name: text_of(class_name),
        id,
        parameter_id: None,
        category_id: None,
        elem_or_symbol: None,
        family_id: None,
        name: None,
        omniclass_code: None,
        classification_description: None,
        structural_code_name: None,
    };
    if str_eq(class_name, "ParamBinding") {
        let p = match field_id_exec(fields, "m_paramId") {
            Ok(n) => n,
            Err(e) => return Err(e),
        };
        let c = match field_id_exec(fields, "m_categoryId") {
            Ok(n) => n,
            Err(e) => return Err(e),
        };
        let k = match field_id_exec(fields, "m_elemOrSymbol") {
            Ok(n) => n,
            Err(e) => return Err(e),
        };
        facts.parameter_id = Some(p);
        facts.category_id = Some(c);
        facts.elem_or_symbol = Some(k);
    } else if str_eq(class_name, "Family") {
        let c = match field_id_exec(fields, "m_categoryId") {
            Ok(n) => n,
            Err(e) => return Err(e),
        };
        facts.category_id = Some(c);
        facts.name = text_member_exec(fields, 0, "m_name");
        facts.omniclass_code = text_member_exec(fields, 0, "m_omniClassCode");
        facts.classification_description = text_member_exec(
            fields,
            0,
            "m_classificationDescription",
        );
        facts.structural_code_name = text_member_exec(fields, 0, "m_structuralCodeName");
    } else if is_family_symbol_definition_owner(class_name) {
        let f = match field_id_exec(fields, "m_familyId") {
            Ok(n) => n,
            Err(e) => return Err(e),
        };
        facts.family_id = Some(f);
    }
    Ok(facts)
}

impl Registry {
    /// Retains the native links of one decoded binding-context owner: a
    /// parameter binding, a family's category and texts, or a family
    /// symbol's family. All ids come from the owner's document.
    pub fn ingest_binding_context(&mut self, graph: &ObjectGraph) -> (r: Result<(), String>)
        ensures
            (final(self).view(), unit_text(r)) == spec_ingest_context(old(self).view(), graph.view()),
    {
        if graph.objects.len() == 0 {
            return Err(text_of("empty binding context"));
        }
        let root = &graph.objects[0];
        proof {
            assert(graph.view().objects[0] == root.view());
        }
        let facts = match binding_context_facts(root.class_name.as_str(), root.fields.as_slice()) {
            Ok(f) => f,
            Err(e) => return Err(e),
        };
        match self.ingest_binding_facts(&facts) {
            Ok(()) => Ok(()),
            Err(e) => Err(e.message()),
        }
    }
}


/// A custom parameter's definition, recovered through its owner's
/// explicit definition edge. Captions never identify a parameter.
#[derive(Clone, Debug)]
pub struct Definition {
    pub parameter_id: i64,
    pub source_object: usize,
    pub definition_class: String,
    pub owner_class: String,
    pub caption: String,
    pub type_id: Option<String>,
    pub spec_type_id: Option<String>,
    pub group_type_id: Option<String>,
    pub spec_evidence: &'static str,
    pub unit_type_id: Option<String>,
    pub unit_format_fields: Option<Vec<Token>>,
    pub unit_resolution: String,
    pub shared_guid: Option<String>,
    pub is_shared: Option<bool>,
    pub storage_type: Option<String>,
    pub storage_evidence: &'static str,
    pub definition_fields: Vec<Token>,
    /// The owner's retained fields, by name in name order.
    pub owner_fields: Vec<(String, Vec<Token>)>,
}

/// A definition as plain values.
pub struct DefinitionView {
    pub parameter_id: i64,
    pub source_object: usize,
    pub definition_class: Seq<char>,
    pub owner_class: Seq<char>,
    pub caption: Seq<char>,
    pub type_id: Option<Seq<char>>,
    pub spec_type_id: Option<Seq<char>>,
    pub group_type_id: Option<Seq<char>>,
    pub spec_evidence: Seq<char>,
    pub unit_type_id: Option<Seq<char>>,
    pub unit_format_fields: Option<Seq<TokenView>>,
    pub unit_resolution: Seq<char>,
    pub shared_guid: Option<Seq<char>>,
    pub is_shared: Option<bool>,
    pub storage_type: Option<Seq<char>>,
    pub storage_evidence: Seq<char>,
    pub definition_fields: Seq<TokenView>,
    pub owner_fields: Seq<(Seq<char>, Seq<TokenView>)>,
}

/// Optional tokens as plain values.
pub open spec fn opt_tokens(o: Option<Vec<Token>>) -> Option<Seq<TokenView>> {
    match o {
        Some(t) => Some(tokens_view(t@)),
        None => None,
    }
}

/// Named token values as plain values.
pub open spec fn named_view(v: Seq<(String, Vec<Token>)>) -> Seq<(Seq<char>, Seq<TokenView>)> {
    v.map_values(|x: (String, Vec<Token>)| (x.0@, tokens_view(x.1@)))
}

impl Definition {
    pub open spec fn view(&self) -> DefinitionView {
        DefinitionView {
            parameter_id: self.parameter_id,
            source_object: self.source_object,
            definition_class: self.definition_class@,
            owner_class: self.owner_class@,
            caption: self.caption@,
            type_id: opt_text(self.type_id),
            spec_type_id: opt_text(self.spec_type_id),
            group_type_id: opt_text(self.group_type_id),
            spec_evidence: self.spec_evidence@,
            unit_type_id: opt_text(self.unit_type_id),
            unit_format_fields: opt_tokens(self.unit_format_fields),
            unit_resolution: self.unit_resolution@,
            shared_guid: opt_text(self.shared_guid),
            is_shared: self.is_shared,
            storage_type: opt_text(self.storage_type),
            storage_evidence: self.storage_evidence@,
            definition_fields: tokens_view(self.definition_fields@),
            owner_fields: named_view(self.owner_fields@),
        }
    }
}

/// How many edges from index `i` on leave `source` at `offset`.
pub open spec fn count_edges(es: Seq<GraphEdge>, i: int, source: usize, offset: u64) -> nat
    decreases es.len() - i,
{
    if i < 0 || i >= es.len() {
        0
    } else {
        (if es[i].source_object_index == source && es[i].pointer_offset as int == offset as int {
            1nat
        } else {
            0nat
        }) + count_edges(es, i + 1, source, offset)
    }
}

/// The type id saved under `name` in a definition: absent, or an object
/// whose `m_typeId` is text.
pub open spec fn type_id_of(t: Seq<TokenView>, name: Seq<char>) -> Result<Option<Seq<char>>, Seq<char>> {
    match member(t, 0, name) {
        None => Ok(None),
        Some(j) => match text_member(t, j, "m_typeId"@) {
            Some(s) => Ok(Some(s)),
            None => Err("invalid definition "@ + name),
        },
    }
}

/// The storage type a concrete definition class fixes: exact classes, not
/// inheritance.
pub open spec fn class_storage(c: Seq<char>) -> Option<Seq<char>> {
    if c == "ParamDefString"@ {
        Some("String"@)
    } else if c == "ParamDefValue"@ {
        Some("Double"@)
    } else if c == "ParamDefInt"@ || c == "ParamDefYesNo"@ {
        Some("Integer"@)
    } else if c == "ParamDefMaterialBrowse"@ {
        Some("ElementId"@)
    } else {
        None
    }
}

/// The specification a concrete definition class fixes.
pub open spec fn class_spec(c: Seq<char>) -> Option<Seq<char>> {
    if c == "ParamDefString"@ {
        Some("autodesk.spec:spec.string-2.0.0"@)
    } else if c == "ParamDefInt"@ {
        Some("autodesk.spec:spec.int64-2.0.0"@)
    } else if c == "ParamDefYesNo"@ {
        Some("autodesk.spec:spec.bool-1.0.0"@)
    } else if c == "ParamDefMaterialBrowse"@ {
        Some("autodesk.spec.aec:material-1.0.0"@)
    } else {
        None
    }
}

/// The positions of an array's elements from `p` on.
pub open spec fn item_positions(t: Seq<TokenView>, p: int) -> Seq<int>
    decreases t.len() - p,
{
    if p < 0 || p >= t.len() || t[p] is EndArray {
        Seq::empty()
    } else {
        match value_end(t, p) {
            None => Seq::empty(),
            Some(e) => if p < e <= t.len() {
                seq![p] + item_positions(t, e)
            } else {
                seq![p]
            },
        }
    }
}

/// The GUID bytes at the listed positions, each an unsigned number that
/// fits a byte.
pub open spec fn guid_byte_values(t: Seq<TokenView>, ps: Seq<int>) -> Result<Seq<u8>, Seq<char>>
    decreases ps.len(),
{
    if ps.len() == 0 {
        Ok(Seq::empty())
    } else {
        match guid_byte_values(t, ps.drop_last()) {
            Err(e) => Err(e),
            Ok(bs) => match (if 0 <= ps.last() < t.len() {
                as_u64(t[ps.last()])
            } else {
                None
            }) {
                None => Err("invalid GUID byte"@),
                Some(n) => if n <= 255 {
                    Ok(bs.push(n as u8))
                } else {
                    Err("out of range integral type conversion attempted"@)
                },
            },
        }
    }
}

/// The array of GUID bytes under an external key at `k`.
pub open spec fn guid_array(t: Seq<TokenView>, k: int) -> Option<int> {
    match member(t, k, "m_guidValue"@) {
        Some(a) => match member(t, a, "m_guid"@) {
            Some(b) => match member(t, b, "guid_bytes"@) {
                Some(c) => if 0 <= c < t.len() && t[c] is BeginArray {
                    Some(c)
                } else {
                    None
                },
                None => None,
            },
            None => None,
        },
        None => None,
    }
}

/// A shared parameter's GUID, from its owner's external key.
pub open spec fn shared_guid_of(t: Seq<TokenView>) -> Result<Option<Seq<char>>, Seq<char>> {
    match member(t, 0, "m_externalParamKey"@) {
        None => Ok(None),
        Some(k) => match guid_array(t, k) {
            None => Err("shared GUID bytes absent"@),
            Some(a) => {
                let ps = item_positions(t, a + 1);
                if ps.len() != 16 {
                    Err("shared GUID length invalid"@)
                } else {
                    match guid_byte_values(t, ps) {
                        Err(e) => Err(e),
                        Ok(bs) => Ok(Some(guid_text(bs))),
                    }
                }
            },
        }
    }
}

/// The owner fields a definition retains, in name order.
pub open spec fn owner_field_names() -> Seq<Seq<char>> {
    seq![
        "m_bindingIds"@,
        "m_description"@,
        "m_famId"@,
        "m_hideWhenNoValue"@,
        "m_instanceParam"@,
        "m_userModifiable"@,
    ]
}

/// The listed fields an owner stores, with their values.
pub open spec fn owner_fields_of(t: Seq<TokenView>, names: Seq<Seq<char>>) -> Seq<(Seq<char>, Seq<TokenView>)>
    decreases names.len(),
{
    if names.len() == 0 {
        Seq::empty()
    } else {
        let r = owner_fields_of(t, names.drop_last());
        match member(t, 0, names.last()) {
            Some(j) => r.push((names.last(), value_tokens(t, j))),
            None => r,
        }
    }
}

/// The definition the root of a graph owns through its `m_pParamDef`
/// pointer; none when it owns none. A missing or ambiguous edge and a
/// mismatching id are refusals, never caption-based fallbacks.
pub open spec fn spec_project_definition(g: GraphView) -> Result<Option<DefinitionView>, Seq<char>> {
    if g.objects.len() == 0 {
        Err("empty native graph"@)
    } else {
        let root = g.objects[0];
        let t = root.fields;
        match member(t, 0, "m_pParamDef"@) {
            None => Ok(None),
            Some(j) => if member_u64(t, j, "pointer_token"@) == Some(0u64) {
                Ok(None)
            } else {
                match member_u64(t, j, "offset"@) {
                    None => Err("definition pointer offset absent"@),
                    Some(off) => if count_edges(g.edges, 0, 0, off) != 1 {
                        Err("definition pointer must have exactly one edge"@)
                    } else {
                        let source = g.edges[first_edge_from(g.edges, 0, 0, off)->Some_0].target_object_index;
                        if source >= g.objects.len() {
                            Err("definition edge outside graph"@)
                        } else {
                            let d = g.objects[source as int];
                            let td = d.fields;
                            match identifier(t, member(t, 0, "m_id"@)) {
                                Err(e) => Err(e),
                                Ok(pid) => match identifier(td, member(td, 0, "m_paramElemId"@)) {
                                    Err(e) => Err(e),
                                    Ok(eid) => if eid != pid {
                                        Err("definition owner ID mismatch"@)
                                    } else {
                                        match text_member(td, 0, "m_caption"@) {
                                            None => Err("definition caption absent"@),
                                            Some(caption) => match type_id_of(td, "m_specTypeId"@) {
                                                Err(e) => Err(e),
                                                Ok(saved) => definition_tail(
                                                    root.class_name,
                                                    t,
                                                    d.class_name,
                                                    td,
                                                    source,
                                                    pid,
                                                    caption,
                                                    saved,
                                                ),
                                            },
                                        }
                                    },
                                },
                            }
                        }
                    },
                }
            },
        }
    }
}

/// The rest of a definition once its id, caption and saved
/// specification are read: the specification check, the shared GUID,
/// then the type and group ids.
pub open spec fn definition_tail(
    owner_class: Seq<char>,
    t: Seq<TokenView>,
    class: Seq<char>,
    td: Seq<TokenView>,
    source: usize,
    pid: i64,
    caption: Seq<char>,
    saved: Option<Seq<char>>,
) -> Result<Option<DefinitionView>, Seq<char>> {
    let storage = class_storage(class);
    let expected = class_spec(class);
    if saved is Some && expected is Some && saved != expected {
        Err("definition class and serialized specification disagree"@)
    } else {
        match shared_guid_of(t) {
            Err(e) => Err(e),
            Ok(guid) => match type_id_of(td, "m_typeId"@) {
                Err(e) => Err(e),
                Ok(type_id) => match type_id_of(td, "m_groupTypeId"@) {
                    Err(e) => Err(e),
                    Ok(group) => Ok(
                        Some(
                            DefinitionView {
                                parameter_id: pid,
                                source_object: source,
                                definition_class: class,
                                owner_class,
                                caption,
                                type_id,
                                spec_type_id: if saved is Some {
                                    saved
                                } else {
                                    expected
                                },
                                group_type_id: group,
                                spec_evidence: if saved is Some {
                                    "serialized_spec_type_id"@
                                } else if expected is Some {
                                    "validated_concrete_definition_class"@
                                } else {
                                    "unresolved"@
                                },
                                unit_type_id: None,
                                unit_format_fields: None,
                                unit_resolution: if storage is Some && storage != Some("Double"@) {
                                    "not_applicable"@
                                } else {
                                    "unresolved"@
                                },
                                shared_guid: guid,
                                is_shared: if owner_class == "ParamElemExternal"@ {
                                    Some(true)
                                } else if owner_class == "ParamElemFamily"@ {
                                    Some(false)
                                } else {
                                    None
                                },
                                storage_type: storage,
                                storage_evidence: if storage is Some {
                                    "validated_concrete_definition_class"@
                                } else {
                                    "unsupported_definition_class"@
                                },
                                definition_fields: td,
                                owner_fields: owner_fields_of(t, owner_field_names()),
                            },
                        ),
                    ),
                },
            },
        }
    }
}


/// The type id saved under `name` in a definition.
fn type_id_exec(t: &[Token], name: &str) -> (r: Result<Option<String>, String>)
    ensures
        match type_id_of(tokens_view(t@), name@) {
            Ok(v) => r is Ok && opt_text(r->Ok_0) == v,
            Err(e) => r is Err && r->Err_0@ == e,
        },
{
    match field_pos(t, name) {
        None => Ok(None),
        Some(j) => match text_member_exec(t, j, "m_typeId") {
            Some(s) => Ok(Some(s)),
            None => Err(concat(text_of("invalid definition "), name)),
        },
    }
}

/// The number of edges that leave `source` at `offset`, and the index of
/// the first.
fn edges_at(edges: &[GraphEdge], source: usize, offset: u64) -> (r: (usize, Option<usize>))
    ensures
        r.0 == count_edges(edges@, 0, source, offset),
        opt_pos(r.1) == first_edge_from(edges@, 0, source, offset),
        r.1 matches Some(k) ==> k < edges@.len(),
        r.1 is None ==> r.0 == 0,
{
    let mut i: usize = 0;
    let mut n: usize = 0;
    let mut first: Option<usize> = None;
    while i < edges.len()
        invariant
            i <= edges@.len(),
            n <= i,
            count_edges(edges@, 0, source, offset) == n + count_edges(edges@, i as int, source, offset),
            first is None ==> first_edge_from(edges@, 0, source, offset) == first_edge_from(
                edges@,
                i as int,
                source,
                offset,
            ),
            first is None ==> n == 0,
            first matches Some(k) ==> k < i && opt_pos(first) == first_edge_from(edges@, 0, source, offset),
        decreases edges@.len() - i,
    {
        if edges[i].source_object_index == source && edges[i].pointer_offset as u64 == offset {
            if first.is_none() {
                first = Some(i);
            }
            n += 1;
        }
        i += 1;
    }
    (n, first)
}

/// The positions of an array's elements from `p` on.
fn item_positions_exec(t: &[Token], p: usize) -> (r: Vec<usize>)
    ensures
        r@.map_values(|x: usize| x as int) == item_positions(tokens_view(t@), p as int),
{
    let ghost tv = tokens_view(t@);
    let mut out: Vec<usize> = Vec::new();
    let mut q = p;
    proof {
        assert(out@.map_values(|x: usize| x as int) + item_positions(tv, p as int) =~= item_positions(tv, p as int));
    }
    loop
        invariant
            tv == tokens_view(t@),
            p <= q,
            item_positions(tv, p as int) == out@.map_values(|x: usize| x as int) + item_positions(tv, q as int),
        decreases t@.len() - q,
    {
        let ghost acc = out@.map_values(|x: usize| x as int);
        if q >= t.len() {
            proof {
                assert(acc + item_positions(tv, q as int) =~= acc);
            }
            return out;
        }
        proof {
            assert(tv[q as int] == t@[q as int]@);
            lemma_value_end_after(tv, q as int);
        }
        match &t[q] {
            Token::EndArray => {
                proof {
                    assert(acc + item_positions(tv, q as int) =~= acc);
                }
                return out;
            },
            _ => {},
        }
        match value_end_exec(t, q) {
            None => {
                proof {
                    assert(acc + item_positions(tv, q as int) =~= acc);
                }
                return out;
            },
            Some(e) => {
                out.push(q);
                proof {
                    assert(out@.map_values(|x: usize| x as int) =~= acc.push(q as int));
                    assert(acc + (seq![q as int] + item_positions(tv, e as int)) =~= acc.push(q as int)
                        + item_positions(tv, e as int));
                }
                q = e;
            },
        }
    }
}

proof fn lemma_guid_bytes_err(t: Seq<TokenView>, ps: Seq<int>, n: int)
    requires
        0 <= n <= ps.len(),
        guid_byte_values(t, ps.take(n)) is Err,
    ensures
        guid_byte_values(t, ps) == guid_byte_values(t, ps.take(n)),
    decreases ps.len() - n,
{
    if n == ps.len() {
        assert(ps.take(n) =~= ps);
    } else {
        assert(ps.take(n + 1).drop_last() =~= ps.take(n));
        lemma_guid_bytes_err(t, ps, n + 1);
    }
}

/// A shared parameter's GUID, from its owner's external key.
fn shared_guid_exec(t: &[Token]) -> (r: Result<Option<String>, String>)
    ensures
        match shared_guid_of(tokens_view(t@)) {
            Ok(v) => r is Ok && opt_text(r->Ok_0) == v,
            Err(e) => r is Err && r->Err_0@ == e,
        },
{
    let ghost tv = tokens_view(t@);
    let k = match field_pos(t, "m_externalParamKey") {
        None => return Ok(None),
        Some(k) => k,
    };
    let a = match member_pos(t, k, "m_guidValue") {
        Some(a) => a,
        None => return Err(text_of("shared GUID bytes absent")),
    };
    let b = match member_pos(t, a, "m_guid") {
        Some(b) => b,
        None => return Err(text_of("shared GUID bytes absent")),
    };
    let c = match member_pos(t, b, "guid_bytes") {
        Some(c) => c,
        None => return Err(text_of("shared GUID bytes absent")),
    };
    proof {
        assert(tv[c as int] == t@[c as int]@);
    }
    match &t[c] {
        Token::BeginArray => {},
        _ => return Err(text_of("shared GUID bytes absent")),
    }
    let ps = item_positions_exec(t, c + 1);
    let ghost pv = ps@.map_values(|x: usize| x as int);
    if ps.len() != 16 {
        return Err(text_of("shared GUID length invalid"));
    }
    let mut bytes: Vec<u8> = Vec::new();
    proof {
        assert(pv.take(0) =~= Seq::<int>::empty());
        assert(tv.len() == t@.len());
    }
    let mut i: usize = 0;
    while i < ps.len()
        invariant
            i <= ps@.len(),
            tv == tokens_view(t@),
            pv == ps@.map_values(|x: usize| x as int),
            guid_byte_values(tv, pv.take(i as int)) == Ok::<Seq<u8>, Seq<char>>(bytes@),
            bytes@.len() == i,
            tv.len() == t@.len(),
            shared_guid_of(tv) == (match guid_byte_values(tv, pv) {
                Err(e) => Err(e),
                Ok(bs) => Ok(Some(guid_text(bs))),
            }),
        decreases ps@.len() - i,
    {
        proof {
            assert(pv.take(i + 1).drop_last() =~= pv.take(i as int));
            assert(pv.take(i + 1).last() == ps@[i as int] as int);
            assert(pv.take(i + 1).len() == i + 1);
        }
        let q = ps[i];
        if q >= t.len() {
            proof {
                lemma_guid_bytes_err(tv, pv, i + 1);
            }
            return Err(text_of("invalid GUID byte"));
        }
        proof {
            assert(tv[q as int] == t@[q as int]@);
        }
        let value: u64 = match &t[q] {
            Token::UInt(n) => *n,
            Token::Int(n) => if *n >= 0 {
                *n as u64
            } else {
                proof {
                    lemma_guid_bytes_err(tv, pv, i + 1);
                }
                return Err(text_of("invalid GUID byte"));
            },
            _ => {
                proof {
                    lemma_guid_bytes_err(tv, pv, i + 1);
                }
                return Err(text_of("invalid GUID byte"));
            },
        };
        if value > 255 {
            proof {
                lemma_guid_bytes_err(tv, pv, i + 1);
            }
            return Err(text_of("out of range integral type conversion attempted"));
        }
        bytes.push(value as u8);
        i += 1;
    }
    proof {
        assert(pv.take(16) =~= pv);
        assert(bytes@.subrange(0, 16) =~= bytes@);
    }
    Ok(Some(guid_string_at(bytes.as_slice(), 0)))
}

/// The listed owner fields a definition retains.
fn owner_fields_exec(t: &[Token]) -> (r: Vec<(String, Vec<Token>)>)
    ensures
        named_view(r@) == owner_fields_of(tokens_view(t@), owner_field_names()),
{
    let ghost tv = tokens_view(t@);
    let mut names: Vec<&'static str> = Vec::new();
    names.push("m_bindingIds");
    names.push("m_description");
    names.push("m_famId");
    names.push("m_hideWhenNoValue");
    names.push("m_instanceParam");
    names.push("m_userModifiable");
    let ghost nv = names@.map_values(|x: &str| x@);
    proof {
        assert(nv =~= owner_field_names());
        assert(nv.take(0) =~= Seq::<Seq<char>>::empty());
    }
    let mut out: Vec<(String, Vec<Token>)> = Vec::new();
    proof {
        assert(named_view(out@) =~= Seq::<(Seq<char>, Seq<TokenView>)>::empty());
    }
    let mut i: usize = 0;
    while i < names.len()
        invariant
            i <= names@.len(),
            tv == tokens_view(t@),
            nv == names@.map_values(|x: &str| x@),
            named_view(out@) == owner_fields_of(tv, nv.take(i as int)),
        decreases names@.len() - i,
    {
        proof {
            assert(nv.take(i + 1).drop_last() =~= nv.take(i as int));
            assert(nv.take(i + 1).last() == names@[i as int]@);
        }
        let name = names[i];
        match field_pos(t, name) {
            Some(j) => {
                let ghost before = out@;
                out.push((text_of(name), value_tokens_exec(t, j)));
                proof {
                    assert(named_view(out@) =~= named_view(before).push(
                        (name@, value_tokens(tv, j as int)),
                    ));
                }
            },
            None => {},
        }
        i += 1;
    }
    proof {
        assert(nv.take(names@.len() as int) =~= nv);
    }
    out
}

/// The storage type a concrete definition class fixes.
fn class_storage_exec(c: &str) -> (r: Option<&'static str>)
    ensures
        match r {
            Some(s) => class_storage(c@) == Some(s@),
            None => class_storage(c@) is None,
        },
{
    if str_eq(c, "ParamDefString") {
        Some("String")
    } else if str_eq(c, "ParamDefValue") {
        Some("Double")
    } else if str_eq(c, "ParamDefInt") || str_eq(c, "ParamDefYesNo") {
        Some("Integer")
    } else if str_eq(c, "ParamDefMaterialBrowse") {
        Some("ElementId")
    } else {
        None
    }
}

/// The specification a concrete definition class fixes.
fn class_spec_exec(c: &str) -> (r: Option<&'static str>)
    ensures
        match r {
            Some(s) => class_spec(c@) == Some(s@),
            None => class_spec(c@) is None,
        },
{
    if str_eq(c, "ParamDefString") {
        Some("autodesk.spec:spec.string-2.0.0")
    } else if str_eq(c, "ParamDefInt") {
        Some("autodesk.spec:spec.int64-2.0.0")
    } else if str_eq(c, "ParamDefYesNo") {
        Some("autodesk.spec:spec.bool-1.0.0")
    } else if str_eq(c, "ParamDefMaterialBrowse") {
        Some("autodesk.spec.aec:material-1.0.0")
    } else {
        None
    }
}

/// An optional text by its characters, from an optional `&str`.
pub open spec fn opt_str(o: Option<&str>) -> Option<Seq<char>> {
    match o {
        Some(s) => Some(s@),
        None => None,
    }
}

/// An owned copy of an optional text.
fn opt_string(o: Option<&str>) -> (r: Option<String>)
    ensures
        opt_text(r) == opt_str(o),
{
    match o {
        Some(s) => Some(text_of(s)),
        None => None,
    }
}

/// Returns the definition the graph's root owns through its explicit
/// `m_pParamDef` edge, or none for a record that owns no definition.
/// Missing or ambiguous edges and mismatching ids are refused, not
/// resolved by caption.
pub fn project(graph: &ObjectGraph) -> (r: Result<Option<Definition>, String>)
    ensures
        match spec_project_definition(graph.view()) {
            Ok(None) => r matches Ok(None),
            Ok(Some(v)) => r matches Ok(Some(d)) && d@ == v,
            Err(e) => r is Err && r->Err_0@ == e,
        },
{
    let ghost g = graph.view();
    if graph.objects.len() == 0 {
        return Err(text_of("empty native graph"));
    }
    proof {
        assert(g.objects[0] == graph.objects@[0]@);
    }
    let root = &graph.objects[0];
    let t = root.fields.as_slice();
    let j = match field_pos(t, "m_pParamDef") {
        None => return Ok(None),
        Some(j) => j,
    };
    if member_u64_exec(t, j, "pointer_token") == Some(0u64) {
        return Ok(None);
    }
    let off = match member_u64_exec(t, j, "offset") {
        None => return Err(text_of("definition pointer offset absent")),
        Some(o) => o,
    };
    let (count, first) = edges_at(graph.edges.as_slice(), 0, off);
    if count != 1 {
        return Err(text_of("definition pointer must have exactly one edge"));
    }
    let k = match first {
        Some(k) => k,
        None => return Err(text_of("definition pointer must have exactly one edge")),
    };
    let source = graph.edges[k].target_object_index;
    if source >= graph.objects.len() {
        return Err(text_of("definition edge outside graph"));
    }
    proof {
        assert(g.objects[source as int] == graph.objects@[source as int]@);
    }
    let d = &graph.objects[source];
    let td = d.fields.as_slice();
    let pid = match identifier_exec(t, field_pos(t, "m_id")) {
        Ok(n) => n,
        Err(e) => return Err(e),
    };
    let eid = match identifier_exec(td, field_pos(td, "m_paramElemId")) {
        Ok(n) => n,
        Err(e) => return Err(e),
    };
    if eid != pid {
        return Err(text_of("definition owner ID mismatch"));
    }
    let caption = match text_member_exec(td, 0, "m_caption") {
        Some(c) => c,
        None => return Err(text_of("definition caption absent")),
    };
    let saved = match type_id_exec(td, "m_specTypeId") {
        Ok(s) => s,
        Err(e) => return Err(e),
    };
    let class = d.class_name.as_str();
    let storage = class_storage_exec(class);
    let expected = class_spec_exec(class);
    match (&saved, expected) {
        (Some(sv), Some(ex)) => if !str_eq(sv.as_str(), ex) {
            return Err(text_of("definition class and serialized specification disagree"));
        },
        _ => {},
    }
    let guid = match shared_guid_exec(t) {
        Ok(g) => g,
        Err(e) => return Err(e),
    };
    let type_id = match type_id_exec(td, "m_typeId") {
        Ok(v) => v,
        Err(e) => return Err(e),
    };
    let group = match type_id_exec(td, "m_groupTypeId") {
        Ok(v) => v,
        Err(e) => return Err(e),
    };
    let spec_evidence: &'static str = if saved.is_some() {
        "serialized_spec_type_id"
    } else if expected.is_some() {
        "validated_concrete_definition_class"
    } else {
        "unresolved"
    };
    let spec_type_id = match saved {
        Some(sv) => Some(sv),
        None => opt_string(expected),
    };
    let unit_resolution = match storage {
        Some(st) => if str_eq(st, "Double") {
            text_of("unresolved")
        } else {
            text_of("not_applicable")
        },
        None => text_of("unresolved"),
    };
    let owner_class = root.class_name.as_str();
    let is_shared = if str_eq(owner_class, "ParamElemExternal") {
        Some(true)
    } else if str_eq(owner_class, "ParamElemFamily") {
        Some(false)
    } else {
        None
    };
    let storage_evidence: &'static str = if storage.is_some() {
        "validated_concrete_definition_class"
    } else {
        "unsupported_definition_class"
    };
    let definition = Definition {
        parameter_id: pid,
        source_object: source,
        definition_class: text_of(class),
        owner_class: text_of(owner_class),
        caption,
        type_id,
        spec_type_id,
        group_type_id: group,
        spec_evidence,
        unit_type_id: None,
        unit_format_fields: None,
        unit_resolution,
        shared_guid: guid,
        is_shared,
        storage_type: opt_string(storage),
        storage_evidence,
        definition_fields: copy_tokens(td),
        owner_fields: owner_fields_exec(t),
    };
    proof {
        reveal_strlit("Double");
        reveal_strlit("String");
        reveal_strlit("Integer");
        reveal_strlit("ElementId");
    }
    Ok(Some(definition))
}


/// Definitions by their plain values.
pub open spec fn definitions_view(m: Map<i64, Definition>) -> Map<i64, DefinitionView> {
    Map::new(|k: i64| m.contains_key(k), |k: i64| m[k]@)
}

/// The format of the first unit entry named `spec`.
pub open spec fn unit_format(formats: Seq<(Seq<char>, Seq<TokenView>)>, spec: Seq<char>) -> Option<
    Seq<TokenView>,
>
    decreases formats.len(),
{
    if formats.len() == 0 {
        None
    } else if formats[0].0 == spec {
        Some(formats[0].1)
    } else {
        unit_format(formats.drop_first(), spec)
    }
}

/// The display unit type a format names.
pub open spec fn unit_type_of(f: Seq<TokenView>) -> Option<Seq<char>> {
    match member(f, 0, "m_unitTypeId"@) {
        Some(a) => text_member(f, a, "m_typeId"@),
        None => None,
    }
}

/// A definition with the project display unit of its specification,
/// when the project records one; values are never converted.
pub open spec fn enrich(d: DefinitionView, formats: Seq<(Seq<char>, Seq<TokenView>)>) -> DefinitionView {
    match d.spec_type_id {
        Some(s) => match unit_format(formats, s) {
            Some(f) => DefinitionView {
                unit_type_id: unit_type_of(f),
                unit_format_fields: Some(f),
                unit_resolution: "resolved_native_project_units"@,
                ..d
            },
            None => d,
        },
        None => d,
    }
}

/// Every definition enriched with the project display units.
pub open spec fn enrich_all(m: Map<i64, DefinitionView>, formats: Seq<(Seq<char>, Seq<TokenView>)>) -> Map<
    i64,
    DefinitionView,
> {
    Map::new(|k: i64| m.contains_key(k), |k: i64| enrich(m[k], formats))
}

/// Recording a definition, enriched with the project units: a restated
/// definition must be identical to the recorded one.
pub open spec fn spec_insert(v: RegistryView, d: DefinitionView) -> (RegistryView, Result<(), Seq<char>>) {
    let e = enrich(d, v.unit_formats);
    if v.definitions.contains_key(e.parameter_id) {
        if v.definitions[e.parameter_id] == e {
            (v, Ok(()))
        } else {
            (v, Err("conflicting native parameter definitions"@))
        }
    } else {
        (RegistryView { definitions: v.definitions.insert(e.parameter_id, e), ..v }, Ok(()))
    }
}

/// A unit format placed in a name-ordered list; none when the name is
/// already listed.
pub open spec fn insert_unit(
    s: Seq<(Seq<char>, Seq<TokenView>)>,
    name: Seq<char>,
    f: Seq<TokenView>,
) -> Option<Seq<(Seq<char>, Seq<TokenView>)>>
    decreases s.len(),
{
    if s.len() == 0 {
        Some(seq![(name, f)])
    } else if s[0].0 == name {
        None
    } else if name_lt(s[0].0, name) {
        match insert_unit(s.drop_first(), name, f) {
            Some(r) => Some(seq![s[0]] + r),
            None => None,
        }
    } else {
        Some(seq![(name, f)] + s)
    }
}

/// The unit formats of the pair array elements from `p` on, added to
/// `acc`: each pair names its specification under `first`, its format
/// under `second`, and the format names a display unit type.
pub open spec fn formats_from(t: Seq<TokenView>, p: int, acc: Seq<(Seq<char>, Seq<TokenView>)>) -> Result<
    Seq<(Seq<char>, Seq<TokenView>)>,
    Seq<char>,
>
    decreases t.len() - p,
{
    if p < 0 || p >= t.len() || t[p] is EndArray {
        Ok(acc)
    } else {
        match value_end(t, p) {
            None => Ok(acc),
            Some(e) => {
                let spec = match member(t, p, "first"@) {
                    Some(a) => text_member(t, a, "m_typeId"@),
                    None => None,
                };
                match spec {
                    None => Err("native unit specification absent"@),
                    Some(name) => match member(t, p, "second"@) {
                        None => Err("native unit format absent"@),
                        Some(fpos) => if (match member(t, fpos, "m_unitTypeId"@) {
                            Some(a) => text_member(t, a, "m_typeId"@),
                            None => None,
                        }) is None {
                            Err("native display unit type absent"@)
                        } else {
                            match insert_unit(acc, name, value_tokens(t, fpos)) {
                                None => Err("duplicate native unit specification"@),
                                Some(acc2) => if p < e <= t.len() {
                                    formats_from(t, e, acc2)
                                } else {
                                    Ok(acc2)
                                },
                            }
                        },
                    },
                }
            },
        }
    }
}

/// The format map array of a units element's fields.
pub open spec fn units_array(t: Seq<TokenView>) -> Option<int> {
    match member(t, 0, "m_units"@) {
        Some(u) => match member(t, u, "m_formatOptionsMap"@) {
            Some(a) => if 0 <= a < t.len() && t[a] is BeginArray {
                Some(a)
            } else {
                None
            },
            None => None,
        },
        None => None,
    }
}

/// Ingesting the project display units of the current `UnitsElem`: a
/// second registry must be identical to the first; every recorded
/// definition is enriched.
pub open spec fn spec_ingest_units(v: RegistryView, g: GraphView) -> (RegistryView, Result<(), Seq<char>>) {
    if g.objects.len() == 0 {
        (v, Err("empty units graph"@))
    } else if g.objects[0].class_name != "UnitsElem"@ {
        (v, Err("unit registry requires UnitsElem"@))
    } else {
        let t = g.objects[0].fields;
        match units_array(t) {
            None => (v, Err("native unit format map absent"@)),
            Some(a) => match formats_from(t, a + 1, Seq::empty()) {
                Err(e) => (v, Err(e)),
                Ok(fs) => if v.unit_formats.len() != 0 && v.unit_formats != fs {
                    (v, Err("conflicting native unit registries"@))
                } else {
                    (
                        RegistryView {
                            unit_formats: fs,
                            definitions: enrich_all(v.definitions, fs),
                            builtin_definitions: enrich_all_builtins(v.builtin_definitions, fs),
                            ..v
                        },
                        Ok(()),
                    )
                },
            },
        }
    }
}


/// The index of the first unit entry named `spec`.
fn unit_format_index(formats: &Vec<(String, Vec<Token>)>, spec: &str) -> (r: Option<usize>)
    ensures
        match r {
            Some(i) => i < formats@.len() && unit_format(named_view(formats@), spec@) == Some(
                named_view(formats@)[i as int].1,
            ),
            None => unit_format(named_view(formats@), spec@) is None,
        },
{
    let ghost fv = named_view(formats@);
    proof {
        assert(fv.skip(0) =~= fv);
    }
    let mut i: usize = 0;
    while i < formats.len()
        invariant
            i <= formats@.len(),
            fv == named_view(formats@),
            unit_format(fv, spec@) == unit_format(fv.skip(i as int), spec@),
        decreases formats@.len() - i,
    {
        proof {
            assert(fv.skip(i as int)[0] == fv[i as int]);
            assert(fv.skip(i as int).drop_first() =~= fv.skip(i + 1));
        }
        if str_eq(formats[i].0.as_str(), spec) {
            return Some(i);
        }
        i += 1;
    }
    proof {
        assert(fv.skip(i as int) =~= Seq::<(Seq<char>, Seq<TokenView>)>::empty());
    }
    None
}

/// The display unit type a format names.
fn unit_type_exec(f: &[Token]) -> (r: Option<String>)
    ensures
        opt_text(r) == unit_type_of(tokens_view(f@)),
{
    match field_pos(f, "m_unitTypeId") {
        Some(a) => text_member_exec(f, a, "m_typeId"),
        None => None,
    }
}

/// A definition with the project display unit of its specification.
pub fn enrich_exec(d: Definition, formats: &Vec<(String, Vec<Token>)>) -> (r: Definition)
    ensures
        r@ == enrich(d@, named_view(formats@)),
{
    let mut d = d;
    let i = match &d.spec_type_id {
        Some(s) => unit_format_index(formats, s.as_str()),
        None => None,
    };
    match i {
        Some(i) => {
            proof {
                assert(named_view(formats@)[i as int] == (formats@[i as int].0@, tokens_view(
                    formats@[i as int].1@,
                )));
            }
            let f = formats[i].1.as_slice();
            d.unit_type_id = unit_type_exec(f);
            d.unit_format_fields = Some(copy_tokens(f));
            d.unit_resolution = text_of("resolved_native_project_units");
            d
        },
        None => d,
    }
}

/// Optional texts are equal.
fn opt_text_eq(a: &Option<String>, b: &Option<String>) -> (r: bool)
    ensures
        r == (opt_text(*a) == opt_text(*b)),
{
    match (a, b) {
        (Some(x), Some(y)) => str_eq(x.as_str(), y.as_str()),
        (None, None) => true,
        _ => false,
    }
}

/// Named token values are equal.
pub fn named_eq(a: &Vec<(String, Vec<Token>)>, b: &Vec<(String, Vec<Token>)>) -> (r: bool)
    ensures
        r == (named_view(a@) == named_view(b@)),
{
    let ghost (av, bv) = (named_view(a@), named_view(b@));
    if a.len() != b.len() {
        proof {
            assert(av.len() != bv.len());
        }
        return false;
    }
    let mut i: usize = 0;
    while i < a.len()
        invariant
            i <= a@.len(),
            a@.len() == b@.len(),
            av == named_view(a@),
            bv == named_view(b@),
            forall|k: int| 0 <= k < i ==> av[k] == bv[k],
        decreases a@.len() - i,
    {
        if !str_eq(a[i].0.as_str(), b[i].0.as_str()) || !tokens_eq(a[i].1.as_slice(), b[i].1.as_slice()) {
            proof {
                assert(av[i as int] != bv[i as int]);
            }
            return false;
        }
        i += 1;
    }
    proof {
        assert(av =~= bv);
    }
    true
}

/// Definitions are equal in every field.
fn definition_eq(a: &Definition, b: &Definition) -> (r: bool)
    ensures
        r == (a@ == b@),
{
    let same_units = match (&a.unit_format_fields, &b.unit_format_fields) {
        (Some(x), Some(y)) => tokens_eq(x.as_slice(), y.as_slice()),
        (None, None) => true,
        _ => false,
    };
    a.parameter_id == b.parameter_id && a.source_object == b.source_object && str_eq(
        a.definition_class.as_str(),
        b.definition_class.as_str(),
    ) && str_eq(a.owner_class.as_str(), b.owner_class.as_str()) && str_eq(
        a.caption.as_str(),
        b.caption.as_str(),
    ) && opt_text_eq(&a.type_id, &b.type_id) && opt_text_eq(&a.spec_type_id, &b.spec_type_id)
        && opt_text_eq(&a.group_type_id, &b.group_type_id) && str_eq(a.spec_evidence, b.spec_evidence)
        && opt_text_eq(&a.unit_type_id, &b.unit_type_id) && same_units && str_eq(
        a.unit_resolution.as_str(),
        b.unit_resolution.as_str(),
    ) && opt_text_eq(&a.shared_guid, &b.shared_guid) && a.is_shared == b.is_shared && opt_text_eq(
        &a.storage_type,
        &b.storage_type,
    ) && str_eq(a.storage_evidence, b.storage_evidence) && tokens_eq(
        a.definition_fields.as_slice(),
        b.definition_fields.as_slice(),
    ) && named_eq(&a.owner_fields, &b.owner_fields)
}

impl Registry {
    /// Records a definition, enriched with the project display units; a
    /// restated definition must be identical to the recorded one.
    pub fn insert(&mut self, definition: Definition) -> (r: Result<(), String>)
        ensures
            (final(self).view(), unit_text(r)) == spec_insert(old(self).view(), definition@),
    {
        let e = enrich_exec(definition, &self.unit_formats);
        let id = e.parameter_id;
        match self.definitions.get(&id) {
            Some(existing) => {
                if definition_eq(existing, &e) {
                    Ok(())
                } else {
                    Err(text_of("conflicting native parameter definitions"))
                }
            },
            None => {
                let ghost ev = e@;
                self.definitions.insert(id, e);
                proof {
                    assert(definitions_view(self.definitions@) =~= old(self).view().definitions.insert(
                        id,
                        ev,
                    ));
                    assert(self.view() =~= RegistryView {
                        definitions: old(self).view().definitions.insert(id, ev),
                        ..old(self).view()
                    });
                }
                Ok(())
            },
        }
    }
}


/// Placing a unit entry where the first entry not ordered before it
/// stands, or refusing a listed name.
proof fn lemma_insert_unit_at(
    s: Seq<(Seq<char>, Seq<TokenView>)>,
    name: Seq<char>,
    f: Seq<TokenView>,
    j: int,
)
    requires
        0 <= j <= s.len(),
        forall|i: int| 0 <= i < j ==> (#[trigger] s[i]).0 != name && name_lt(s[i].0, name),
        j < s.len() ==> s[j].0 == name || !name_lt(s[j].0, name),
    ensures
        insert_unit(s, name, f) == (if j < s.len() && s[j].0 == name {
            None
        } else {
            Some(s.take(j) + seq![(name, f)] + s.skip(j))
        }),
    decreases j,
{
    if j == 0 {
        assert(s.take(0) + seq![(name, f)] + s.skip(0) =~= seq![(name, f)] + s);
        if s.len() == 0 {
            assert(seq![(name, f)] + s =~= seq![(name, f)]);
        }
    } else {
        let d = s.drop_first();
        assert forall|i: int| 0 <= i < j - 1 implies (#[trigger] d[i]).0 != name && name_lt(d[i].0, name) by {
            assert(d[i] == s[i + 1]);
        }
        assert(s[0].0 != name && name_lt(s[0].0, name));
        lemma_insert_unit_at(d, name, f, j - 1);
        assert(s.take(j) + seq![(name, f)] + s.skip(j) =~= seq![s[0]] + (d.take(j - 1) + seq![(name, f)]
            + d.skip(j - 1)));
    }
}

/// Places a unit entry in a name-ordered list; false when the name is
/// already listed.
fn insert_unit_exec(acc: &mut Vec<(String, Vec<Token>)>, name: String, f: Vec<Token>) -> (r: bool)
    ensures
        r == (insert_unit(named_view(old(acc)@), name@, tokens_view(f@)) is Some),
        r ==> named_view(final(acc)@) == insert_unit(named_view(old(acc)@), name@, tokens_view(f@))->Some_0,
        !r ==> final(acc)@ == old(acc)@,
{
    let ghost sv = named_view(acc@);
    let mut j: usize = 0;
    while j < acc.len() && !str_eq(acc[j].0.as_str(), name.as_str()) && name_lt_exec(
        acc[j].0.as_str(),
        name.as_str(),
    )
        invariant
            j <= acc@.len(),
            sv == named_view(acc@),
            forall|i: int| 0 <= i < j ==> (#[trigger] sv[i]).0 != name@ && name_lt(sv[i].0, name@),
        decreases acc@.len() - j,
    {
        j += 1;
    }
    proof {
        lemma_insert_unit_at(sv, name@, tokens_view(f@), j as int);
    }
    if j < acc.len() && str_eq(acc[j].0.as_str(), name.as_str()) {
        return false;
    }
    let ghost fv = tokens_view(f@);
    let ghost nm = name@;
    acc.insert(j, (name, f));
    proof {
        assert(named_view(acc@) =~= sv.take(j as int) + seq![(nm, fv)] + sv.skip(j as int));
    }
    true
}

/// The unit formats of the pair array elements from `p` on.
fn formats_exec(t: &[Token], p: usize) -> (r: Result<Vec<(String, Vec<Token>)>, String>)
    ensures
        match formats_from(tokens_view(t@), p as int, Seq::empty()) {
            Ok(v) => r is Ok && named_view(r->Ok_0@) == v,
            Err(e) => r is Err && r->Err_0@ == e,
        },
{
    let ghost tv = tokens_view(t@);
    let mut acc: Vec<(String, Vec<Token>)> = Vec::new();
    proof {
        assert(named_view(acc@) =~= Seq::<(Seq<char>, Seq<TokenView>)>::empty());
    }
    let mut q = p;
    loop
        invariant
            tv == tokens_view(t@),
            p <= q,
            formats_from(tv, p as int, Seq::empty()) == formats_from(tv, q as int, named_view(acc@)),
        decreases t@.len() - q,
    {
        if q >= t.len() {
            return Ok(acc);
        }
        proof {
            assert(tv[q as int] == t@[q as int]@);
            lemma_value_end_after(tv, q as int);
        }
        match &t[q] {
            Token::EndArray => {
                return Ok(acc);
            },
            _ => {},
        }
        let e = match value_end_exec(t, q) {
            None => {
                return Ok(acc);
            },
            Some(e) => e,
        };
        let name = match member_pos(t, q, "first") {
            Some(a) => text_member_exec(t, a, "m_typeId"),
            None => None,
        };
        let name = match name {
            Some(n) => n,
            None => return Err(text_of("native unit specification absent")),
        };
        let fpos = match member_pos(t, q, "second") {
            Some(x) => x,
            None => return Err(text_of("native unit format absent")),
        };
        let unit = match member_pos(t, fpos, "m_unitTypeId") {
            Some(a) => text_member_exec(t, a, "m_typeId"),
            None => None,
        };
        if unit.is_none() {
            return Err(text_of("native display unit type absent"));
        }
        if !insert_unit_exec(&mut acc, name, value_tokens_exec(t, fpos)) {
            return Err(text_of("duplicate native unit specification"));
        }
        q = e;
    }
}

impl Registry {
    /// Ingests the project display units of the current `UnitsElem` and
    /// enriches every recorded definition. Values stay in native
    /// internal units; nothing is converted.
    pub fn ingest_units(&mut self, graph: &ObjectGraph) -> (r: Result<(), String>)
        ensures
            (final(self).view(), unit_text(r)) == spec_ingest_units(old(self).view(), graph.view()),
    {
        let ghost g = graph.view();
        if graph.objects.len() == 0 {
            return Err(text_of("empty units graph"));
        }
        proof {
            assert(g.objects[0] == graph.objects@[0]@);
        }
        if !str_eq(graph.objects[0].class_name.as_str(), "UnitsElem") {
            return Err(text_of("unit registry requires UnitsElem"));
        }
        let t = graph.objects[0].fields.as_slice();
        let u = match field_pos(t, "m_units") {
            Some(u) => u,
            None => return Err(text_of("native unit format map absent")),
        };
        let a = match member_pos(t, u, "m_formatOptionsMap") {
            Some(a) => a,
            None => return Err(text_of("native unit format map absent")),
        };
        proof {
            assert(tokens_view(t@)[a as int] == t@[a as int]@);
        }
        match &t[a] {
            Token::BeginArray => {},
            _ => return Err(text_of("native unit format map absent")),
        }
        let fs = match formats_exec(t, a + 1) {
            Ok(fs) => fs,
            Err(e) => return Err(e),
        };
        if self.unit_formats.len() != 0 && !named_eq(&self.unit_formats, &fs) {
            return Err(text_of("conflicting native unit registries"));
        }
        self.unit_formats = fs;
        enrich_definitions(&mut self.definitions, &self.unit_formats);
        enrich_builtins(&mut self.builtin_definitions, &self.unit_formats);
        proof {
            assert(self.view() =~= RegistryView {
                unit_formats: named_view(self.unit_formats@),
                definitions: enrich_all(old(self).view().definitions, named_view(self.unit_formats@)),
                builtin_definitions: enrich_all_builtins(
                    old(self).view().builtin_definitions,
                    named_view(self.unit_formats@),
                ),
                ..old(self).view()
            });
        }
        Ok(())
    }
}


/// Ids in strictly increasing order.
pub open spec fn increasing_ids(s: Seq<i64>) -> bool {
    forall|i: int, j: int| 0 <= i < j < s.len() ==> s[i] < s[j]
}


/// Two increasing enumerations of one set are the same sequence.
pub proof fn lemma_increasing_unique(s1: Seq<i64>, s2: Seq<i64>)
    requires
        increasing_ids(s1),
        increasing_ids(s2),
        s1.to_set() == s2.to_set(),
    ensures
        s1 == s2,
    decreases s1.len(),
{
    if s1.len() == 0 {
        if s2.len() > 0 {
            assert(s2.to_set().contains(s2[0]));
        }
        assert(s1 =~= s2);
    } else if s2.len() == 0 {
        assert(s1.to_set().contains(s1[0]));
    } else {
        assert(s2.to_set().contains(s2[0]));
        assert(s1.to_set().contains(s1[0]));
        let k1 = choose|k: int| 0 <= k < s1.len() && s1[k] == s2[0];
        let k2 = choose|k: int| 0 <= k < s2.len() && s2[k] == s1[0];
        if k1 > 0 {
            assert(s1[0] < s1[k1]);
        }
        if k2 > 0 {
            assert(s2[0] < s2[k2]);
        }
        assert(s1[0] == s2[0]);
        let (d1, d2) = (s1.drop_first(), s2.drop_first());
        assert forall|x: i64| d1.to_set().contains(x) <==> d2.to_set().contains(x) by {
            if d1.to_set().contains(x) {
                let k = choose|k: int| 0 <= k < d1.len() && d1[k] == x;
                assert(s1[k + 1] == x && s1[0] < x);
                assert(s2.to_set().contains(x));
                let m = choose|m: int| 0 <= m < s2.len() && s2[m] == x;
                assert(m != 0);
                assert(d2[m - 1] == x);
            }
            if d2.to_set().contains(x) {
                let k = choose|k: int| 0 <= k < d2.len() && d2[k] == x;
                assert(s2[k + 1] == x && s2[0] < x);
                assert(s1.to_set().contains(x));
                let m = choose|m: int| 0 <= m < s1.len() && s1[m] == x;
                assert(m != 0);
                assert(d1[m - 1] == x);
            }
        }
        assert(d1.to_set() =~= d2.to_set());
        lemma_increasing_unique(d1, d2);
        assert(s1 =~= seq![s1[0]] + d1);
        assert(s2 =~= seq![s2[0]] + d2);
    }
}

/// The binding ids of a registry, in increasing order.
pub open spec fn binding_order(m: Map<i64, Binding>) -> Seq<i64> {
    choose|s: Seq<i64>| increasing_ids(s) && s.to_set() == m.dom()
}

/// The family and binding kind of a binding owner: a family symbol's
/// family (kind 2), or a family instance's symbol's family (kind 1);
/// none for other owners or an unrecorded symbol.
pub open spec fn owner_family(v: RegistryView, c: Seq<char>, t: Seq<TokenView>) -> Result<Option<(i64, i64)>, Seq<char>> {
    if spec_is_family_symbol_class(c) {
        match field_id(t, "m_familyId"@) {
            Err(e) => Err(e),
            Ok(f) => Ok(Some((f, 2))),
        }
    } else if c == "FamilyInstance"@ {
        match field_id(t, "m_masterSymbolId"@) {
            Err(e) => Err(e),
            Ok(sym) => if v.symbol_families.contains_key(sym) {
                Ok(Some((v.symbol_families[sym], 1)))
            } else {
                Ok(None)
            },
        }
    } else {
        Ok(None)
    }
}

/// The value of the first named entry called `name`.
pub open spec fn named_lookup(v: Seq<(Seq<char>, Seq<TokenView>)>, name: Seq<char>) -> Option<Seq<TokenView>>
    decreases v.len(),
{
    if v.len() == 0 {
        None
    } else if v[0].0 == name {
        Some(v[0].1)
    } else {
        named_lookup(v.drop_first(), name)
    }
}

/// The ids saved at the listed positions; the first refused one ends
/// the list.
pub open spec fn ids_at(t: Seq<TokenView>, ps: Seq<int>) -> Result<Seq<i64>, Seq<char>>
    decreases ps.len(),
{
    if ps.len() == 0 {
        Ok(Seq::empty())
    } else {
        match ids_at(t, ps.drop_last()) {
            Err(e) => Err(e),
            Ok(r) => match identifier(t, Some(ps.last())) {
                Err(e) => Err(e),
                Ok(n) => Ok(r.push(n)),
            },
        }
    }
}

/// The binding backlinks a parameter's definition saves; none without a
/// definition or without a backlink array.
pub open spec fn backlinks(v: RegistryView, parameter_id: i64) -> Option<Result<Seq<i64>, Seq<char>>> {
    if !v.definitions.contains_key(parameter_id) {
        None
    } else {
        match named_lookup(v.definitions[parameter_id].owner_fields, "m_bindingIds"@) {
            None => None,
            Some(tok) => if tok.len() > 0 && tok[0] is BeginArray {
                Some(ids_at(tok, item_positions(tok, 1)))
            } else {
                None
            },
        }
    }
}

/// A category-matching binding is kept when its definition links back
/// to it, skipped without a definition or backlinks, and refused when
/// the backlinks cannot be read or omit it.
pub open spec fn binding_verdict(v: RegistryView, b: Binding) -> Option<Result<Binding, Seq<char>>> {
    match backlinks(v, b.parameter_id) {
        None => None,
        Some(Err(e)) => Some(Err(e)),
        Some(Ok(ids)) => if ids.contains(b.binding_id) {
            Some(Ok(b))
        } else {
            Some(Err("parameter binding lacks definition backlink"@))
        },
    }
}

/// The bindings among `ids` of a category and kind, in order.
pub open spec fn select_bindings(v: RegistryView, ids: Seq<i64>, category: i64, kind: i64) -> Result<
    Seq<Binding>,
    Seq<char>,
>
    decreases ids.len(),
{
    if ids.len() == 0 {
        Ok(Seq::empty())
    } else {
        match select_bindings(v, ids.drop_last(), category, kind) {
            Err(e) => Err(e),
            Ok(r) => {
                let b = v.bindings[ids.last()];
                if b.category_id == category && b.elem_or_symbol == kind {
                    match binding_verdict(v, b) {
                        None => Ok(r),
                        Some(Err(e)) => Err(e),
                        Some(Ok(x)) => Ok(r.push(x)),
                    }
                } else {
                    Ok(r)
                }
            },
        }
    }
}

/// The custom parameter bindings an owner matches through its family's
/// category, in binding id order, each confirmed by its definition's
/// backlink.
pub open spec fn spec_matching_bindings(v: RegistryView, g: GraphView) -> Result<Seq<Binding>, Seq<char>> {
    if g.objects.len() == 0 {
        Err("empty binding owner"@)
    } else {
        match owner_family(v, g.objects[0].class_name, g.objects[0].fields) {
            Err(e) => Err(e),
            Ok(None) => Ok(Seq::empty()),
            Ok(Some((family, kind))) => if v.family_categories.contains_key(family) {
                select_bindings(v, binding_order(v.bindings), v.family_categories[family], kind)
            } else {
                Ok(Seq::empty())
            },
        }
    }
}

proof fn lemma_select_err(v: RegistryView, ids: Seq<i64>, category: i64, kind: i64, n: int)
    requires
        0 <= n <= ids.len(),
        select_bindings(v, ids.take(n), category, kind) is Err,
    ensures
        select_bindings(v, ids, category, kind) == select_bindings(v, ids.take(n), category, kind),
    decreases ids.len() - n,
{
    if n == ids.len() {
        assert(ids.take(n) =~= ids);
    } else {
        assert(ids.take(n + 1).drop_last() =~= ids.take(n));
        lemma_select_err(v, ids, category, kind, n + 1);
    }
}

proof fn lemma_ids_at_err(t: Seq<TokenView>, ps: Seq<int>, n: int)
    requires
        0 <= n <= ps.len(),
        ids_at(t, ps.take(n)) is Err,
    ensures
        ids_at(t, ps) == ids_at(t, ps.take(n)),
    decreases ps.len() - n,
{
    if n == ps.len() {
        assert(ps.take(n) =~= ps);
    } else {
        assert(ps.take(n + 1).drop_last() =~= ps.take(n));
        lemma_ids_at_err(t, ps, n + 1);
    }
}

/// The index of the first named entry called `name`.
fn named_lookup_index(v: &Vec<(String, Vec<Token>)>, name: &str) -> (r: Option<usize>)
    ensures
        match r {
            Some(i) => i < v@.len() && named_lookup(named_view(v@), name@) == Some(named_view(v@)[i as int].1),
            None => named_lookup(named_view(v@), name@) is None,
        },
{
    let ghost nv = named_view(v@);
    proof {
        assert(nv.skip(0) =~= nv);
    }
    let mut i: usize = 0;
    while i < v.len()
        invariant
            i <= v@.len(),
            nv == named_view(v@),
            named_lookup(nv, name@) == named_lookup(nv.skip(i as int), name@),
        decreases v@.len() - i,
    {
        proof {
            assert(nv.skip(i as int)[0] == nv[i as int]);
            assert(nv.skip(i as int).drop_first() =~= nv.skip(i + 1));
        }
        if str_eq(v[i].0.as_str(), name) {
            return Some(i);
        }
        i += 1;
    }
    proof {
        assert(nv.skip(i as int) =~= Seq::<(Seq<char>, Seq<TokenView>)>::empty());
    }
    None
}

/// The binding backlinks a parameter's definition saves.
fn backlinks_exec(self_: &Registry, parameter_id: i64) -> (r: Option<Result<Vec<i64>, String>>)
    ensures
        match backlinks(self_.view(), parameter_id) {
            None => r is None,
            Some(Ok(ids)) => r matches Some(Ok(x)) && x@ == ids,
            Some(Err(e)) => r matches Some(Err(x)) && x@ == e,
        },
{
    let d = match self_.definitions.get(&parameter_id) {
        Some(d) => d,
        None => return None,
    };
    let i = match named_lookup_index(&d.owner_fields, "m_bindingIds") {
        Some(i) => i,
        None => return None,
    };
    proof {
        assert(named_view(d.owner_fields@)[i as int].1 == tokens_view(d.owner_fields@[i as int].1@));
    }
    let tok = d.owner_fields[i].1.as_slice();
    let ghost tv = tokens_view(tok@);
    if tok.len() == 0 {
        return None;
    }
    proof {
        assert(tv[0] == tok@[0]@);
    }
    match &tok[0] {
        Token::BeginArray => {},
        _ => return None,
    }
    let ps = item_positions_exec(tok, 1);
    let ghost pv = ps@.map_values(|x: usize| x as int);
    let mut ids: Vec<i64> = Vec::new();
    proof {
        assert(pv.take(0) =~= Seq::<int>::empty());
        assert(self_.view().definitions[parameter_id] == d@);
        assert(backlinks(self_.view(), parameter_id) == Some(ids_at(tv, pv)));
    }
    let mut k: usize = 0;
    while k < ps.len()
        invariant
            k <= ps@.len(),
            tv == tokens_view(tok@),
            pv == ps@.map_values(|x: usize| x as int),
            ids_at(tv, pv.take(k as int)) == Ok::<Seq<i64>, Seq<char>>(ids@),
            backlinks(self_.view(), parameter_id) == Some(ids_at(tv, pv)),
        decreases ps@.len() - k,
    {
        proof {
            assert(pv.take(k + 1).drop_last() =~= pv.take(k as int));
            assert(pv.take(k + 1).last() == ps@[k as int] as int);
        }
        match identifier_exec(tok, Some(ps[k])) {
            Ok(n) => {
                ids.push(n);
            },
            Err(e) => {
                proof {
                    lemma_ids_at_err(tv, pv, k + 1);
                }
                return Some(Err(e));
            },
        }
        k += 1;
    }
    proof {
        assert(pv.take(ps@.len() as int) =~= pv);
    }
    Some(Ok(ids))
}

impl Registry {
    /// The custom parameter bindings an owner matches through its
    /// family's category, in binding id order; a binding must be
    /// confirmed by its definition's backlink.
    pub fn matching_bindings(&self, graph: &ObjectGraph) -> (r: Result<Vec<Binding>, String>)
        ensures
            match spec_matching_bindings(self.view(), graph.view()) {
                Ok(v) => r is Ok && r->Ok_0@ == v,
                Err(e) => r is Err && r->Err_0@ == e,
            },
    {
        let ghost v = self.view();
        let ghost g = graph.view();
        if graph.objects.len() == 0 {
            return Err(text_of("empty binding owner"));
        }
        proof {
            assert(g.objects[0] == graph.objects@[0]@);
        }
        let c = graph.objects[0].class_name.as_str();
        let t = graph.objects[0].fields.as_slice();
        let (family, kind): (i64, i64) = if is_family_symbol_definition_owner(c) {
            match field_id_exec(t, "m_familyId") {
                Ok(f) => (f, 2),
                Err(e) => return Err(e),
            }
        } else if str_eq(c, "FamilyInstance") {
            let symbol = match field_id_exec(t, "m_masterSymbolId") {
                Ok(s) => s,
                Err(e) => return Err(e),
            };
            match self.symbol_families.get(&symbol) {
                Some(f) => (*f, 1),
                None => return Ok(Vec::new()),
            }
        } else {
            return Ok(Vec::new());
        };
        let category = match self.family_categories.get(&family) {
            Some(c) => *c,
            None => return Ok(Vec::new()),
        };
        let ids = sorted_ids(&self.bindings);
        proof {
            let o = binding_order(v.bindings);
            assert(increasing_ids(ids@) && ids@.to_set() == v.bindings.dom());
            assert(increasing_ids(o) && o.to_set() == v.bindings.dom());
            lemma_increasing_unique(ids@, o);
            assert(ids@.take(0) =~= Seq::<i64>::empty());
        }
        let mut out: Vec<Binding> = Vec::new();
        proof {
            assert(spec_matching_bindings(v, g) == select_bindings(v, ids@, category, kind));
        }
        let mut i: usize = 0;
        while i < ids.len()
            invariant
                i <= ids@.len(),
                v == self.view(),
                g == graph.view(),
                ids@.to_set() == v.bindings.dom(),
                spec_matching_bindings(v, g) == select_bindings(v, ids@, category, kind),
                select_bindings(v, ids@.take(i as int), category, kind) == Ok::<Seq<Binding>, Seq<char>>(out@),
            decreases ids@.len() - i,
        {
            proof {
                assert(ids@.take(i + 1).drop_last() =~= ids@.take(i as int));
                assert(ids@.take(i + 1).last() == ids@[i as int]);
                assert(ids@.to_set().contains(ids@[i as int]));
            }
            let id = ids[i];
            let b = match self.bindings.get(&id) {
                Some(b) => *b,
                None => {
                    proof {
                        assert(false);
                    }
                    return Err(text_of("empty binding owner"));
                },
            };
            if b.category_id == category && b.elem_or_symbol == kind {
                match backlinks_exec(self, b.parameter_id) {
                    None => {},
                    Some(Err(e)) => {
                        proof {
                            lemma_select_err(v, ids@, category, kind, i + 1);
                        }
                        return Err(e);
                    },
                    Some(Ok(links)) => {
                        let mut found = false;
                        let mut k: usize = 0;
                        while k < links.len()
                            invariant
                                k <= links@.len(),
                                found <==> exists|j: int| 0 <= j < k && links@[j] == b.binding_id,
                            decreases links@.len() - k,
                        {
                            if links[k] == b.binding_id {
                                found = true;
                            }
                            k += 1;
                        }
                        proof {
                            assert(found == links@.contains(b.binding_id));
                        }
                        if !found {
                            proof {
                                lemma_select_err(v, ids@, category, kind, i + 1);
                            }
                            return Err(text_of("parameter binding lacks definition backlink"));
                        }
                        out.push(b);
                    },
                }
            }
            i += 1;
        }
        proof {
            assert(ids@.take(ids@.len() as int) =~= ids@);
        }
        Ok(out)
    }
}


/// A built-in parameter definition of the schema-qualified API catalog.
#[derive(Clone, Debug)]
pub struct BuiltinDefinition {
    pub parameter_id: i64,
    pub caption: String,
    pub storage_type: String,
    pub spec_type_id: String,
    pub group_type_id: String,
    pub is_shared: bool,
    pub unit_type_id: Option<String>,
    pub unit_format_fields: Option<Vec<Token>>,
    pub unit_resolution: String,
    pub definition_evidence: String,
    pub caption_locale: String,
}

/// A built-in definition as plain values.
pub struct BuiltinView {
    pub parameter_id: i64,
    pub caption: Seq<char>,
    pub storage_type: Seq<char>,
    pub spec_type_id: Seq<char>,
    pub group_type_id: Seq<char>,
    pub is_shared: bool,
    pub unit_type_id: Option<Seq<char>>,
    pub unit_format_fields: Option<Seq<TokenView>>,
    pub unit_resolution: Seq<char>,
    pub definition_evidence: Seq<char>,
    pub caption_locale: Seq<char>,
}

impl BuiltinDefinition {
    pub open spec fn view(&self) -> BuiltinView {
        BuiltinView {
            parameter_id: self.parameter_id,
            caption: self.caption@,
            storage_type: self.storage_type@,
            spec_type_id: self.spec_type_id@,
            group_type_id: self.group_type_id@,
            is_shared: self.is_shared,
            unit_type_id: opt_text(self.unit_type_id),
            unit_format_fields: opt_tokens(self.unit_format_fields),
            unit_resolution: self.unit_resolution@,
            definition_evidence: self.definition_evidence@,
            caption_locale: self.caption_locale@,
        }
    }
}

/// Built-in definitions by their plain values.
pub open spec fn builtins_view(m: Map<i64, BuiltinDefinition>) -> Map<i64, BuiltinView> {
    Map::new(|k: i64| m.contains_key(k), |k: i64| m[k]@)
}

/// A built-in definition with the project display unit of its
/// specification, when the project records one.
pub open spec fn enrich_builtin(d: BuiltinView, formats: Seq<(Seq<char>, Seq<TokenView>)>) -> BuiltinView {
    match unit_format(formats, d.spec_type_id) {
        Some(f) => BuiltinView {
            unit_type_id: unit_type_of(f),
            unit_format_fields: Some(f),
            unit_resolution: "resolved_native_project_units"@,
            ..d
        },
        None => d,
    }
}

/// Every built-in definition enriched with the project display units.
pub open spec fn enrich_all_builtins(m: Map<i64, BuiltinView>, formats: Seq<(Seq<char>, Seq<TokenView>)>) -> Map<
    i64,
    BuiltinView,
> {
    Map::new(|k: i64| m.contains_key(k), |k: i64| enrich_builtin(m[k], formats))
}

/// Activating one catalog entry: a built-in id is negative; the entry is
/// marked as schema-qualified catalog evidence in English, its unit
/// resolution follows its storage and the project units, and an id may
/// be activated once (a repeated one replaces the earlier entry and is
/// refused).
pub open spec fn spec_add_builtin(v: RegistryView, d: BuiltinView) -> (RegistryView, Result<(), Seq<char>>) {
    if d.parameter_id >= 0 {
        (v, Err("built-in catalog contains nonnegative ID"@))
    } else {
        let marked = BuiltinView {
            definition_evidence: "schema_qualified_api_definition_catalog"@,
            caption_locale: "en-US"@,
            unit_resolution: if d.storage_type == "Double"@ {
                "unresolved"@
            } else {
                "not_applicable"@
            },
            ..d
        };
        let e = enrich_builtin(marked, v.unit_formats);
        let w = RegistryView { builtin_definitions: v.builtin_definitions.insert(d.parameter_id, e), ..v };
        if v.builtin_definitions.contains_key(d.parameter_id) {
            (w, Err("duplicate builtin catalog activation or ID"@))
        } else {
            (w, Ok(()))
        }
    }
}

/// A family parameter slot selected through its definition's storage.
#[derive(Clone, Debug)]
pub struct ResolvedFamilyParameter {
    pub source_object: usize,
    pub parameter_id: i64,
    pub storage_type: String,
    pub raw_value: Vec<Token>,
    pub stored_instance_flag: bool,
    pub reporting: bool,
    pub definition_parameter_id: i64,
    pub has_value: bool,
    pub has_value_evidence: &'static str,
    pub value_semantics: &'static str,
}

/// A resolved slot as plain values.
pub struct ResolvedView {
    pub source_object: usize,
    pub parameter_id: i64,
    pub storage_type: Seq<char>,
    pub raw_value: Seq<TokenView>,
    pub stored_instance_flag: bool,
    pub reporting: bool,
    pub definition_parameter_id: i64,
    pub has_value: bool,
    pub has_value_evidence: Seq<char>,
    pub value_semantics: Seq<char>,
}

impl ResolvedFamilyParameter {
    pub open spec fn view(&self) -> ResolvedView {
        ResolvedView {
            source_object: self.source_object,
            parameter_id: self.parameter_id,
            storage_type: self.storage_type@,
            raw_value: tokens_view(self.raw_value@),
            stored_instance_flag: self.stored_instance_flag,
            reporting: self.reporting,
            definition_parameter_id: self.definition_parameter_id,
            has_value: self.has_value,
            has_value_evidence: self.has_value_evidence@,
            value_semantics: self.value_semantics@,
        }
    }
}

/// The storage type a recorded definition gives a parameter: a built-in
/// one for a negative id, a custom one otherwise.
pub open spec fn slot_storage(v: RegistryView, parameter_id: i64) -> Option<Seq<char>> {
    if parameter_id < 0 {
        if v.builtin_definitions.contains_key(parameter_id) {
            Some(v.builtin_definitions[parameter_id].storage_type)
        } else {
            None
        }
    } else if v.definitions.contains_key(parameter_id) {
        v.definitions[parameter_id].storage_type
    } else {
        None
    }
}

/// A family slot selected only through an independently recovered
/// definition; no HasValue, evaluated formula or inheritance is claimed.
pub open spec fn spec_resolve_slot(v: RegistryView, slot: SlotView) -> Option<ResolvedView> {
    match slot_storage(v, slot.parameter_id) {
        None => None,
        Some(st) => {
            let raw = if st == "Double"@ {
                Some(slot.double_slot)
            } else if st == "Integer"@ {
                Some(slot.integer_slot)
            } else if st == "String"@ {
                Some(slot.string_slot)
            } else if st == "ElementId"@ {
                Some(seq![TokenView::Int(slot.element_id_slot)])
            } else {
                None
            };
            match raw {
                None => None,
                Some(r) => Some(
                    ResolvedView {
                        source_object: slot.source_object,
                        parameter_id: slot.parameter_id,
                        storage_type: st,
                        raw_value: r,
                        stored_instance_flag: slot.stored_instance_flag,
                        reporting: slot.reporting,
                        definition_parameter_id: slot.parameter_id,
                        has_value: true,
                        has_value_evidence: "validated_present_family_parameter_slot"@,
                        value_semantics: "serialized_not_evaluated"@,
                    },
                ),
            }
        },
    }
}


/// A built-in definition with the project display unit of its
/// specification.
pub fn enrich_builtin_exec(d: BuiltinDefinition, formats: &Vec<(String, Vec<Token>)>) -> (r: BuiltinDefinition)
    ensures
        r@ == enrich_builtin(d@, named_view(formats@)),
{
    let mut d = d;
    match unit_format_index(formats, d.spec_type_id.as_str()) {
        Some(i) => {
            proof {
                assert(named_view(formats@)[i as int] == (formats@[i as int].0@, tokens_view(
                    formats@[i as int].1@,
                )));
            }
            let f = formats[i].1.as_slice();
            d.unit_type_id = unit_type_exec(f);
            d.unit_format_fields = Some(copy_tokens(f));
            d.unit_resolution = text_of("resolved_native_project_units");
            d
        },
        None => d,
    }
}

impl Registry {
    /// Activates one entry of the schema-qualified built-in catalog.
    pub fn add_builtin_definition(&mut self, definition: BuiltinDefinition) -> (r: Result<(), String>)
        ensures
            (final(self).view(), unit_text(r)) == spec_add_builtin(old(self).view(), definition@),
    {
        if definition.parameter_id >= 0 {
            return Err(text_of("built-in catalog contains nonnegative ID"));
        }
        let mut d = definition;
        d.definition_evidence = text_of("schema_qualified_api_definition_catalog");
        d.caption_locale = text_of("en-US");
        d.unit_resolution = if str_eq(d.storage_type.as_str(), "Double") {
            text_of("unresolved")
        } else {
            text_of("not_applicable")
        };
        let e = enrich_builtin_exec(d, &self.unit_formats);
        let id = e.parameter_id;
        let ghost ev = e@;
        let previous = self.builtin_definitions.insert(id, e);
        proof {
            assert(builtins_view(self.builtin_definitions@) =~= old(self).view().builtin_definitions.insert(
                id,
                ev,
            ));
            assert(self.view() =~= RegistryView {
                builtin_definitions: old(self).view().builtin_definitions.insert(id, ev),
                ..old(self).view()
            });
        }
        match previous {
            Some(_) => Err(text_of("duplicate builtin catalog activation or ID")),
            None => Ok(()),
        }
    }

    /// Selects a family slot only through an independently recovered
    /// definition's storage type.
    pub fn resolve_slot(&self, slot: &FamilyParameterSlots) -> (r: Option<ResolvedFamilyParameter>)
        ensures
            match spec_resolve_slot(self.view(), slot@) {
                None => r is None,
                Some(v) => r matches Some(x) && x@ == v,
            },
    {
        let storage: &str = if slot.parameter_id < 0 {
            match self.builtin_definitions.get(&slot.parameter_id) {
                Some(b) => b.storage_type.as_str(),
                None => return None,
            }
        } else {
            match self.definitions.get(&slot.parameter_id) {
                Some(d) => match &d.storage_type {
                    Some(st) => st.as_str(),
                    None => return None,
                },
                None => return None,
            }
        };
        let raw = if str_eq(storage, "Double") {
            copy_tokens(slot.double_slot.as_slice())
        } else if str_eq(storage, "Integer") {
            copy_tokens(slot.integer_slot.as_slice())
        } else if str_eq(storage, "String") {
            copy_tokens(slot.string_slot.as_slice())
        } else if str_eq(storage, "ElementId") {
            let v = vec![Token::Int(slot.element_id_slot)];
            proof {
                assert(tokens_view(v@) =~= seq![TokenView::Int(slot.element_id_slot)]);
            }
            v
        } else {
            return None;
        };
        Some(
            ResolvedFamilyParameter {
                source_object: slot.source_object,
                parameter_id: slot.parameter_id,
                storage_type: text_of(storage),
                raw_value: raw,
                stored_instance_flag: slot.stored_instance_flag,
                reporting: slot.reporting,
                definition_parameter_id: slot.parameter_id,
                has_value: true,
                has_value_evidence: "validated_present_family_parameter_slot",
                value_semantics: "serialized_not_evaluated",
            },
        )
    }
}

/// `m2` keeps every entry of `m1`.
pub open spec fn keeps<V>(m1: Map<i64, V>, m2: Map<i64, V>) -> bool {
    forall|k: i64| #[trigger] m1.contains_key(k) ==> m2.contains_key(k) && m2[k] == m1[k]
}

/// Ingesting an owner, accepted or refused, never changes or removes a
/// recorded fact: every map of the registry only grows.
pub proof fn lemma_ingest_keeps_recorded_facts(v: RegistryView, f: BindingFactsView)
    ensures
        ({
            let w = spec_ingest(v, f).0;
            &&& keeps(v.bindings, w.bindings)
            &&& keeps(v.family_categories, w.family_categories)
            &&& keeps(v.family_names, w.family_names)
            &&& keeps(v.family_omniclass_codes, w.family_omniclass_codes)
            &&& keeps(v.family_classification_descriptions, w.family_classification_descriptions)
            &&& keeps(v.family_structural_code_names, w.family_structural_code_names)
            &&& keeps(v.symbol_families, w.symbol_families)
        }),
{
}

/// Ingesting an accepted owner again is accepted and changes nothing.
pub proof fn lemma_ingest_idempotent(v: RegistryView, f: BindingFactsView)
    requires
        spec_ingest(v, f).1 is Ok,
    ensures
        spec_ingest(spec_ingest(v, f).0, f) == (spec_ingest(v, f).0, Ok::<(), RegistryError>(())),
{
    let w = spec_ingest(v, f).0;
    let c = f.class_name;
    if c == "ParamBinding"@ {
        assert(w.bindings.insert(f.id, w.bindings[f.id]) =~= w.bindings);
    } else if c == "Family"@ {
        assert(w.family_categories.insert(f.id, w.family_categories[f.id]) =~= w.family_categories);
        if f.name is Some {
            assert(w.family_names.insert(f.id, w.family_names[f.id]) =~= w.family_names);
        }
        if f.omniclass_code is Some {
            assert(w.family_omniclass_codes.insert(f.id, w.family_omniclass_codes[f.id]) =~= w.family_omniclass_codes);
        }
        if f.classification_description is Some {
            assert(w.family_classification_descriptions.insert(f.id, w.family_classification_descriptions[f.id]) =~= w.family_classification_descriptions);
        }
        if f.structural_code_name is Some {
            assert(w.family_structural_code_names.insert(f.id, w.family_structural_code_names[f.id]) =~= w.family_structural_code_names);
        }
    } else if spec_is_family_symbol_class(c) {
        assert(w.symbol_families.insert(f.id, w.symbol_families[f.id]) =~= w.symbol_families);
    }
    assert(spec_ingest(w, f).0 =~= w);
}


/// Ingesting a decoded owner, accepted or refused, never changes or
/// removes a recorded fact.
pub proof fn lemma_context_ingest_keeps_recorded_facts(v: RegistryView, g: GraphView)
    ensures
        ({
            let w = spec_ingest_context(v, g).0;
            &&& keeps(v.bindings, w.bindings)
            &&& keeps(v.family_categories, w.family_categories)
            &&& keeps(v.family_names, w.family_names)
            &&& keeps(v.family_omniclass_codes, w.family_omniclass_codes)
            &&& keeps(v.family_classification_descriptions, w.family_classification_descriptions)
            &&& keeps(v.family_structural_code_names, w.family_structural_code_names)
            &&& keeps(v.symbol_families, w.symbol_families)
        }),
{
    if g.objects.len() > 0 {
        if let Ok(f) = spec_graph_facts(g.objects[0].class_name, g.objects[0].fields) {
            lemma_ingest_keeps_recorded_facts(v, f);
        }
    }
}

/// Ingesting an accepted owner again is accepted and changes nothing.
pub proof fn lemma_context_ingest_idempotent(v: RegistryView, g: GraphView)
    requires
        spec_ingest_context(v, g).1 is Ok,
    ensures
        spec_ingest_context(spec_ingest_context(v, g).0, g) == (
            spec_ingest_context(v, g).0,
            Ok::<(), Seq<char>>(()),
        ),
{
    let f = spec_graph_facts(g.objects[0].class_name, g.objects[0].fields)->Ok_0;
    lemma_ingest_idempotent(v, f);
}

} // verus!
