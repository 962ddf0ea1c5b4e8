//! Saved metadata enriched with the document's parameter definitions:
//! family reference chains, the definitions an owner's values use, its
//! resolved family slots, its global parameter drivers and its declared
//! custom parameters. Missing definitions stay unresolved.
use vstd::prelude::*;

use std::collections::BTreeMap;

use crate::definition_units::{insert_unique_increasing, sorted_ids};
use crate::document::{optional_id, optional_id_exec};
use crate::metadata::{DeclaredCustomParameter, GlobalParameterAssociation};
use crate::metadata_projection::{
    bool_at, bool_at_exec, copy_tokens, declared_view, first_edge, first_edge_from, field_pos,
    global_associations, member_pos, member_u64, member_u64_exec, params_view, project,
    project_global_associations, rows_view, sets_view, slots_view, spec_project, DeclaredView,
    FamilyParameterSlots, MetadataView, ParameterView, RawFieldParameter, RawFieldView, SavedMetadata,
    SavedParameterSet, SetView, SlotView,
};
use crate::object_graph::{GraphView, ObjectGraph};
use crate::parameter_definitions::{
    increasing_ids, is_family_symbol_definition_owner, lemma_increasing_unique, named_view, opt_text,
    opt_tokens, spec_is_family_symbol_class, spec_matching_bindings, spec_resolve_slot, text_map, Binding,
    BuiltinDefinition, BuiltinView, Definition, DefinitionView, Registry, RegistryView, ResolvedFamilyParameter,
    ResolvedView,
};
use crate::text::{str_eq, text_of};
use crate::token_tree::{member, text_outcome};
use crate::value_grammar::{tokens_view, Token, TokenView};

verus! {

broadcast use vstd::std_specs::btree::group_btree_axioms;

/// The family an owner's reference chain reaches: a family symbol's own
/// family, or the family of a family instance's recorded symbol.
pub open spec fn owner_family_id(v: RegistryView, c: Seq<char>, t: Seq<TokenView>) -> Result<Option<i64>, Seq<char>> {
    if spec_is_family_symbol_class(c) {
        optional_id(t, "m_familyId"@)
    } else if c == "FamilyInstance"@ {
        match optional_id(t, "m_masterSymbolId"@) {
            Err(e) => Err(e),
            Ok(None) => Ok(None),
            Ok(Some(s)) => if v.symbol_families.contains_key(s) {
                Ok(Some(v.symbol_families[s]))
            } else {
                Ok(None)
            },
        }
    } else {
        Ok(None)
    }
}

/// A row projected through the owner's family reference chain.
pub open spec fn chain_row(
    parameter_id: i64,
    field: Seq<char>,
    family: i64,
    rule: Seq<char>,
    storage: Seq<char>,
    raw: Seq<TokenView>,
) -> RawFieldView {
    RawFieldView {
        parameter_id,
        source_object: 0,
        source_field: field,
        source_element_id: Some(family),
        projection_rule: rule,
        storage_type: storage,
        raw_value: raw,
        value_semantics: "serialized_not_evaluated"@,
    }
}

/// A family's recorded text as a chain row.
pub open spec fn text_row(m: Map<i64, Seq<char>>, family: i64, parameter_id: i64, field: Seq<char>) -> Seq<RawFieldView> {
    if m.contains_key(family) {
        seq![
            chain_row(
                parameter_id,
                field,
                family,
                "owner_symbol_family_string_reference_chain"@,
                "String"@,
                seq![TokenView::Text(m[family])],
            ),
        ]
    } else {
        Seq::empty()
    }
}

/// The rows of the family reference chain: the family's category (both
/// category parameters), and for a family symbol the family's name and
/// classification texts, each only when the registry records it.
pub open spec fn family_rows(v: RegistryView, c: Seq<char>, f: Option<i64>) -> Seq<RawFieldView> {
    match f {
        None => Seq::empty(),
        Some(family) => {
            let category = if v.family_categories.contains_key(family) {
                let raw = seq![TokenView::Int(v.family_categories[family])];
                seq![
                    chain_row(-1140362i64, "m_categoryId"@, family, "owner_symbol_family_category_reference_chain"@, "ElementId"@, raw),
                    chain_row(-1140363i64, "m_categoryId"@, family, "owner_symbol_family_category_reference_chain"@, "ElementId"@, raw),
                ]
            } else {
                Seq::empty()
            };
            if spec_is_family_symbol_class(c) {
                let name = if v.family_names.contains_key(family) {
                    seq![
                        chain_row(
                            -1002002i64,
                            "m_familyId->Family.m_name"@,
                            family,
                            "owner_symbol_family_name_reference_chain"@,
                            "String"@,
                            seq![TokenView::Text(v.family_names[family])],
                        ),
                    ]
                } else {
                    Seq::empty()
                };
                category + name + text_row(v.family_omniclass_codes, family, -1002502i64, "m_familyId->Family.m_omniClassCode"@)
                    + text_row(
                    v.family_classification_descriptions,
                    family,
                    -1002503i64,
                    "m_familyId->Family.m_classificationDescription"@,
                ) + text_row(v.family_structural_code_names, family, -1005556i64, "m_familyId->Family.m_structuralCodeName"@)
            } else {
                category
            }
        },
    }
}

/// The parameter ids of every saved parameter of the sets, in order.
pub open spec fn set_ids(sets: Seq<SetView>) -> Seq<i64>
    decreases sets.len(),
{
    if sets.len() == 0 {
        Seq::empty()
    } else {
        set_ids(sets.drop_last()) + sets.last().parameters.map_values(|p: ParameterView| p.serialized_parameter_id)
    }
}

/// Every parameter id an owner's values carry: its sets, its rows, its
/// family slots.
pub open spec fn value_ids(m: MetadataView, rows: Seq<RawFieldView>) -> Seq<i64> {
    set_ids(m.parameter_sets) + rows.map_values(|r: RawFieldView| r.parameter_id)
        + m.family_parameter_slots.map_values(|s: SlotView| s.parameter_id)
}

/// The ids of a finite set in increasing order.
pub open spec fn sorted_set(s: Set<i64>) -> Seq<i64> {
    choose|q: Seq<i64>| increasing_ids(q) && q.to_set() == s
}

/// The recorded custom definitions of the listed ids, in list order.
pub open spec fn definitions_in(v: RegistryView, ids: Seq<i64>) -> Seq<DefinitionView>
    decreases ids.len(),
{
    if ids.len() == 0 {
        Seq::empty()
    } else {
        definitions_in(v, ids.drop_last()) + if v.definitions.contains_key(ids.last()) {
            seq![v.definitions[ids.last()]]
        } else {
            Seq::empty()
        }
    }
}

/// The recorded built-in definitions of the listed ids, in list order.
pub open spec fn builtins_in(v: RegistryView, ids: Seq<i64>) -> Seq<BuiltinView>
    decreases ids.len(),
{
    if ids.len() == 0 {
        Seq::empty()
    } else {
        builtins_in(v, ids.drop_last()) + if v.builtin_definitions.contains_key(ids.last()) {
            seq![v.builtin_definitions[ids.last()]]
        } else {
            Seq::empty()
        }
    }
}

/// The pointer field of an owner's own family parameters, by class.
pub open spec fn slot_owner_field(c: Seq<char>) -> Option<Seq<char>> {
    if c == "Family"@ {
        Some("m_familyParams"@)
    } else if c == "FamilySymbol"@ {
        Some("m_pParams"@)
    } else if c == "FamilyInstance"@ {
        Some("m_pInstParams"@)
    } else {
        None
    }
}

/// The object the owner's family parameter pointer reaches, if any.
pub open spec fn owner_target(g: GraphView) -> Option<usize> {
    let t = g.objects[0].fields;
    match slot_owner_field(g.objects[0].class_name) {
        None => None,
        Some(f) => match member(t, 0, f) {
            None => None,
            Some(j) => match member_u64(t, j, "offset"@) {
                None => None,
                Some(off) => match first_edge_from(g.edges, 0, 0, off) {
                    None => None,
                    Some(k) => Some(g.edges[k].target_object_index),
                },
            },
        },
    }
}

/// The owner's own family slots resolved through their definitions.
pub open spec fn resolved_for(v: RegistryView, slots: Seq<SlotView>, target: Option<usize>) -> Seq<ResolvedView>
    decreases slots.len(),
{
    if slots.len() == 0 {
        Seq::empty()
    } else {
        let s = slots.last();
        resolved_for(v, slots.drop_last(), target) + if Some(s.source_object) == target {
            match spec_resolve_slot(v, s) {
                Some(r) => seq![r],
                None => Seq::empty(),
            }
        } else {
            Seq::empty()
        }
    }
}

/// Every saved parameter of the sets with its set's object, in order.
pub open spec fn typed_rows(sets: Seq<SetView>) -> Seq<(usize, ParameterView)>
    decreases sets.len(),
{
    if sets.len() == 0 {
        Seq::empty()
    } else {
        typed_rows(sets.drop_last()) + sets.last().parameters.map_values(
            |p: ParameterView| (sets.last().source_object, p),
        )
    }
}

/// A custom parameter with a stored value.
pub open spec fn present_state(id: i64, storage: Seq<char>, evidence: Seq<char>, source: usize) -> DeclaredView {
    DeclaredView {
        parameter_id: id,
        storage_type: storage,
        has_value: true,
        has_value_evidence: evidence,
        source_object: Some(source),
        binding_id: None,
        owner_category_id: None,
        is_read_only: None,
        read_only_evidence: None,
        associated_global_parameter_id: None,
    }
}

/// The custom parameters an owner's typed sets store: positive ids with
/// a recorded definition; a later value of one id replaces an earlier.
pub open spec fn typed_states(v: RegistryView, rows: Seq<(usize, ParameterView)>) -> Map<i64, DeclaredView>
    decreases rows.len(),
{
    if rows.len() == 0 {
        Map::empty()
    } else {
        let m = typed_states(v, rows.drop_last());
        let (src, p) = rows.last();
        if p.serialized_parameter_id > 0 && v.definitions.contains_key(p.serialized_parameter_id) {
            m.insert(
                p.serialized_parameter_id,
                present_state(p.serialized_parameter_id, p.storage_type, "validated_present_owner_typed_parameter"@, src),
            )
        } else {
            m
        }
    }
}

/// The custom parameters the owner's resolved family slots store; one
/// also stored by a typed set is refused.
pub open spec fn slot_states(m: Map<i64, DeclaredView>, resolved: Seq<ResolvedView>) -> Result<
    Map<i64, DeclaredView>,
    Seq<char>,
>
    decreases resolved.len(),
{
    if resolved.len() == 0 {
        Ok(m)
    } else {
        match slot_states(m, resolved.drop_last()) {
            Err(e) => Err(e),
            Ok(m1) => {
                let r = resolved.last();
                if r.parameter_id > 0 {
                    if m1.contains_key(r.parameter_id) {
                        Err("custom parameter present in both owner typed set and family slots"@)
                    } else {
                        Ok(
                            m1.insert(
                                r.parameter_id,
                                present_state(
                                    r.parameter_id,
                                    r.storage_type,
                                    "validated_present_family_parameter_slot"@,
                                    r.source_object,
                                ),
                            ),
                        )
                    }
                } else {
                    Ok(m1)
                }
            },
        }
    }
}

/// The custom parameters the owner's matching bindings declare: each
/// binds a stored or absent parameter of a typed definition, at most
/// once.
pub open spec fn binding_states(v: RegistryView, m: Map<i64, DeclaredView>, bs: Seq<Binding>) -> Result<
    Map<i64, DeclaredView>,
    Seq<char>,
>
    decreases bs.len(),
{
    if bs.len() == 0 {
        Ok(m)
    } else {
        match binding_states(v, m, bs.drop_last()) {
            Err(e) => Err(e),
            Ok(m1) => {
                let b = bs.last();
                let pid = b.parameter_id;
                match (if v.definitions.contains_key(pid) {
                    v.definitions[pid].storage_type
                } else {
                    None
                }) {
                    None => Ok(m1),
                    Some(storage) => {
                        let s = if m1.contains_key(pid) {
                            m1[pid]
                        } else {
                            DeclaredView {
                                parameter_id: pid,
                                storage_type: storage,
                                has_value: false,
                                has_value_evidence: "matched_category_binding_absent_owner_value"@,
                                source_object: None,
                                binding_id: None,
                                owner_category_id: None,
                                is_read_only: None,
                                read_only_evidence: None,
                                associated_global_parameter_id: None,
                            }
                        };
                        if s.binding_id is Some {
                            Err("ambiguous matching custom parameter bindings"@)
                        } else {
                            Ok(
                                m1.insert(
                                    pid,
                                    DeclaredView {
                                        binding_id: Some(b.binding_id),
                                        owner_category_id: Some(b.category_id),
                                        ..s
                                    },
                                ),
                            )
                        }
                    },
                }
            },
        }
    }
}

/// A parameter's saved read-only flag, from its definition.
pub open spec fn with_read_only(v: RegistryView, s: DeclaredView) -> DeclaredView {
    if v.definitions.contains_key(s.parameter_id) {
        let df = v.definitions[s.parameter_id].definition_fields;
        match bool_at(df, member(df, 0, "m_readOnly"@)) {
            Some(ro) => DeclaredView {
                is_read_only: Some(ro),
                read_only_evidence: Some("saved_definition_flag_and_owner_global_associations"@),
                ..s
            },
            None => s,
        }
    } else {
        s
    }
}

/// A global parameter driver of the parameter: a recognized one (no
/// geometry tag, the owner's symbol side, a global parameter target)
/// makes it read-only, at most once; another leaves it unresolved.
pub open spec fn driver_step(v: RegistryView, s: DeclaredView, a: GlobalParameterAssociation, is_symbol: bool) -> Result<
    DeclaredView,
    Seq<char>,
> {
    if a.parameter_id != s.parameter_id {
        Ok(s)
    } else if a.geometry_tag == -1 && a.stored_is_symbol == is_symbol && v.definitions.contains_key(
        a.global_parameter_id,
    ) && v.definitions[a.global_parameter_id].owner_class == "ParamElemGlobal"@ {
        if s.associated_global_parameter_id is Some {
            Err("multiple global parameter drivers for owner parameter"@)
        } else {
            Ok(
                DeclaredView {
                    is_read_only: Some(true),
                    read_only_evidence: Some("verified_owner_global_parameter_association"@),
                    associated_global_parameter_id: Some(a.global_parameter_id),
                    ..s
                },
            )
        }
    } else {
        Ok(
            DeclaredView {
                is_read_only: None,
                read_only_evidence: Some("unresolved_project_parameter_driver"@),
                ..s
            },
        )
    }
}

/// The drivers applied in order.
pub open spec fn drivers_fold(v: RegistryView, s: DeclaredView, assocs: Seq<GlobalParameterAssociation>, is_symbol: bool) -> Result<
    DeclaredView,
    Seq<char>,
>
    decreases assocs.len(),
{
    if assocs.len() == 0 {
        Ok(s)
    } else {
        match drivers_fold(v, s, assocs.drop_last(), is_symbol) {
            Err(e) => Err(e),
            Ok(s1) => driver_step(v, s1, assocs.last(), is_symbol),
        }
    }
}

/// The declared custom parameters of the listed ids, each with its
/// read-only state, in list order.
pub open spec fn declared_list(
    v: RegistryView,
    m: Map<i64, DeclaredView>,
    keys: Seq<i64>,
    assocs: Seq<GlobalParameterAssociation>,
    is_symbol: bool,
) -> Result<Seq<DeclaredView>, Seq<char>>
    decreases keys.len(),
{
    if keys.len() == 0 {
        Ok(Seq::empty())
    } else {
        match declared_list(v, m, keys.drop_last(), assocs, is_symbol) {
            Err(e) => Err(e),
            Ok(r) => match drivers_fold(v, with_read_only(v, m[keys.last()]), assocs, is_symbol) {
                Err(e) => Err(e),
                Ok(s) => Ok(r.push(s)),
            },
        }
    }
}

/// The metadata of an owner enriched with the document's definitions.
pub open spec fn spec_project_with_definitions(v: RegistryView, g: GraphView) -> Result<MetadataView, Seq<char>> {
    match spec_project(g) {
        Err(e) => Err(e),
        Ok(base) => match global_associations(g) {
            Err(e) => Err(e),
            Ok(assocs) => {
                let c = g.objects[0].class_name;
                match owner_family_id(v, c, g.objects[0].fields) {
                    Err(e) => Err(e),
                    Ok(f) => {
                        let rows = base.raw_field_parameters + family_rows(v, c, f);
                        let ids = sorted_set(value_ids(base, rows).to_set());
                        let defs = definitions_in(v, ids);
                        let resolved = resolved_for(v, base.family_parameter_slots, owner_target(g));
                        let m = MetadataView {
                            global_parameter_associations: assocs,
                            raw_field_parameters: rows,
                            parameter_definitions: defs,
                            builtin_parameter_definitions: builtins_in(v, ids),
                            resolved_family_parameters: resolved,
                            ..base
                        };
                        if c == "FamilyInstance"@ || c == "FamilySymbol"@ {
                            match slot_states(typed_states(v, typed_rows(base.parameter_sets)), resolved) {
                                Err(e) => Err(e),
                                Ok(m1) => match spec_matching_bindings(v, g) {
                                    Err(e) => Err(e),
                                    Ok(bs) => match binding_states(v, m1, bs) {
                                        Err(e) => Err(e),
                                        Ok(m2) => match declared_list(
                                            v,
                                            m2,
                                            sorted_set(m2.dom()),
                                            assocs,
                                            c == "FamilySymbol"@,
                                        ) {
                                            Err(e) => Err(e),
                                            Ok(declared) => {
                                                let ids2 = sorted_set(
                                                    defs.map_values(|d: DefinitionView| d.parameter_id).to_set()
                                                        + declared.map_values(|d: DeclaredView| d.parameter_id).to_set(),
                                                );
                                                Ok(
                                                    MetadataView {
                                                        declared_custom_parameters: declared,
                                                        parameter_definitions: definitions_in(v, ids2),
                                                        ..m
                                                    },
                                                )
                                            },
                                        },
                                    },
                                },
                            }
                        } else {
                            Ok(m)
                        }
                    },
                }
            },
        },
    }
}


/// An owned copy of an optional text.
fn copy_opt_text(o: &Option<String>) -> (r: Option<String>)
    ensures
        opt_text(r) == opt_text(*o),
{
    match o {
        Some(s) => Some(s.clone()),
        None => None,
    }
}

/// An owned copy of optional tokens.
fn copy_opt_tokens(o: &Option<Vec<Token>>) -> (r: Option<Vec<Token>>)
    ensures
        opt_tokens(r) == opt_tokens(*o),
{
    match o {
        Some(t) => Some(copy_tokens(t.as_slice())),
        None => None,
    }
}

/// An owned copy of named token values.
fn copy_named(v: &Vec<(String, Vec<Token>)>) -> (r: Vec<(String, Vec<Token>)>)
    ensures
        named_view(r@) == named_view(v@),
{
    let mut out: Vec<(String, Vec<Token>)> = Vec::new();
    let mut i: usize = 0;
    while i < v.len()
        invariant
            i <= v@.len(),
            named_view(out@) == named_view(v@).take(i as int),
        decreases v@.len() - i,
    {
        let ghost before = out@;
        let name = v[i].0.clone();
        let value = copy_tokens(v[i].1.as_slice());
        out.push((name, value));
        proof {
            assert(named_view(out@) =~= named_view(before).push((v@[i as int].0@, tokens_view(v@[i as int].1@))));
            assert(named_view(v@)[i as int] == (v@[i as int].0@, tokens_view(v@[i as int].1@)));
            assert(named_view(out@) =~= named_view(v@).take(i + 1));
        }
        i += 1;
    }
    proof {
        assert(named_view(v@).take(v@.len() as int) =~= named_view(v@));
    }
    out
}

/// An owned copy of a definition.
fn copy_definition(d: &Definition) -> (r: Definition)
    ensures
        r@ == d@,
{
    Definition {
        parameter_id: d.parameter_id,
        source_object: d.source_object,
        definition_class: d.definition_class.clone(),
        owner_class: d.owner_class.clone(),
        caption: d.caption.clone(),
        type_id: copy_opt_text(&d.type_id),
        spec_type_id: copy_opt_text(&d.spec_type_id),
        group_type_id: copy_opt_text(&d.group_type_id),
        spec_evidence: d.spec_evidence,
        unit_type_id: copy_opt_text(&d.unit_type_id),
        unit_format_fields: copy_opt_tokens(&d.unit_format_fields),
        unit_resolution: d.unit_resolution.clone(),
        shared_guid: copy_opt_text(&d.shared_guid),
        is_shared: d.is_shared,
        storage_type: copy_opt_text(&d.storage_type),
        storage_evidence: d.storage_evidence,
        definition_fields: copy_tokens(d.definition_fields.as_slice()),
        owner_fields: copy_named(&d.owner_fields),
    }
}

/// An owned copy of a built-in definition.
fn copy_builtin(d: &BuiltinDefinition) -> (r: BuiltinDefinition)
    ensures
        r@ == d@,
{
    BuiltinDefinition {
        parameter_id: d.parameter_id,
        caption: d.caption.clone(),
        storage_type: d.storage_type.clone(),
        spec_type_id: d.spec_type_id.clone(),
        group_type_id: d.group_type_id.clone(),
        is_shared: d.is_shared,
        unit_type_id: copy_opt_text(&d.unit_type_id),
        unit_format_fields: copy_opt_tokens(&d.unit_format_fields),
        unit_resolution: d.unit_resolution.clone(),
        definition_evidence: d.definition_evidence.clone(),
        caption_locale: d.caption_locale.clone(),
    }
}

/// The family an owner's reference chain reaches.
fn owner_family_id_exec(registry: &Registry, c: &str, t: &[Token]) -> (r: Result<Option<i64>, String>)
    ensures
        text_outcome(r, owner_family_id(registry.view(), c@, tokens_view(t@))),
{
    if is_family_symbol_definition_owner(c) {
        optional_id_exec(t, "m_familyId")
    } else if str_eq(c, "FamilyInstance") {
        match optional_id_exec(t, "m_masterSymbolId") {
            Err(e) => Err(e),
            Ok(None) => Ok(None),
            Ok(Some(s)) => match registry.symbol_families.get(&s) {
                Some(f) => Ok(Some(*f)),
                None => Ok(None),
            },
        }
    } else {
        Ok(None)
    }
}

/// A chain row with owned fields.
fn chain_row_exec(
    parameter_id: i64,
    field: &str,
    family: i64,
    rule: &'static str,
    storage: &str,
    raw: Vec<Token>,
) -> (r: RawFieldParameter)
    ensures
        r@ == chain_row(parameter_id, field@, family, rule@, storage@, tokens_view(raw@)),
{
    RawFieldParameter {
        parameter_id,
        source_object: 0,
        source_field: text_of(field),
        source_element_id: Some(family),
        projection_rule: rule,
        storage_type: text_of(storage),
        raw_value: raw,
        value_semantics: "serialized_not_evaluated",
    }
}

/// A family's recorded text as a chain row.
fn text_row_exec(
    rows: &mut Vec<RawFieldParameter>,
    m: &BTreeMap<i64, String>,
    family: i64,
    parameter_id: i64,
    field: &str,
)
    ensures
        rows_view(final(rows)@) == rows_view(old(rows)@) + text_row(text_map(m@), family, parameter_id, field@),
{
    match m.get(&family) {
        Some(s) => {
            let raw = vec![Token::Text(s.clone())];
            proof {
                assert(tokens_view(raw@) =~= seq![TokenView::Text(text_map(m@)[family])]);
            }
            let row = chain_row_exec(
                parameter_id,
                field,
                family,
                "owner_symbol_family_string_reference_chain",
                "String",
                raw,
            );
            let ghost before = rows@;
            rows.push(row);
            proof {
                assert(rows_view(rows@) =~= rows_view(before) + seq![row@]);
            }
        },
        None => {
            proof {
                assert(rows_view(rows@) + Seq::<RawFieldView>::empty() =~= rows_view(rows@));
            }
        },
    }
}

/// The rows of the family reference chain.
fn family_rows_exec(registry: &Registry, c: &str, f: Option<i64>) -> (r: Vec<RawFieldParameter>)
    ensures
        rows_view(r@) == family_rows(registry.view(), c@, f),
{
    let ghost v = registry.view();
    let mut rows: Vec<RawFieldParameter> = Vec::new();
    let family = match f {
        None => {
            proof {
                assert(rows_view(rows@) =~= Seq::<RawFieldView>::empty());
            }
            return rows;
        },
        Some(family) => family,
    };
    match registry.family_categories.get(&family) {
        Some(category) => {
            let a = vec![Token::Int(*category)];
            let b = vec![Token::Int(*category)];
            let ra = chain_row_exec(-1140362, "m_categoryId", family, "owner_symbol_family_category_reference_chain", "ElementId", a);
            let rb = chain_row_exec(-1140363, "m_categoryId", family, "owner_symbol_family_category_reference_chain", "ElementId", b);
            rows.push(ra);
            rows.push(rb);
            proof {
                assert(tokens_view(a@) =~= seq![TokenView::Int(*category)]);
                assert(tokens_view(b@) =~= seq![TokenView::Int(*category)]);
            }
        },
        None => {},
    }
    let ghost category = rows_view(rows@);
    if !is_family_symbol_definition_owner(c) {
        proof {
            assert(category =~= family_rows(v, c@, f));
        }
        return rows;
    }
    match registry.family_names.get(&family) {
        Some(name) => {
            let raw = vec![Token::Text(name.clone())];
            proof {
                assert(tokens_view(raw@) =~= seq![TokenView::Text(text_map(registry.family_names@)[family])]);
            }
            let row = chain_row_exec(
                -1002002,
                "m_familyId->Family.m_name",
                family,
                "owner_symbol_family_name_reference_chain",
                "String",
                raw,
            );
            rows.push(row);
        },
        None => {},
    }
    let ghost named = rows_view(rows@);
    text_row_exec(&mut rows, &registry.family_omniclass_codes, family, -1002502, "m_familyId->Family.m_omniClassCode");
    text_row_exec(
        &mut rows,
        &registry.family_classification_descriptions,
        family,
        -1002503,
        "m_familyId->Family.m_classificationDescription",
    );
    text_row_exec(
        &mut rows,
        &registry.family_structural_code_names,
        family,
        -1005556,
        "m_familyId->Family.m_structuralCodeName",
    );
    proof {
        assert(rows_view(rows@) =~= family_rows(v, c@, f));
    }
    rows
}


/// Every parameter id an owner's values carry.
fn value_ids_exec(base: &SavedMetadata, rows: &Vec<RawFieldParameter>) -> (r: Vec<i64>)
    ensures
        r@ == value_ids(base@, rows_view(rows@)),
{
    let ghost sv = sets_view(base.parameter_sets@);
    let mut out: Vec<i64> = Vec::new();
    proof {
        assert(sv.take(0) =~= Seq::<SetView>::empty());
    }
    let mut i: usize = 0;
    while i < base.parameter_sets.len()
        invariant
            i <= base.parameter_sets@.len(),
            sv == sets_view(base.parameter_sets@),
            out@ == set_ids(sv.take(i as int)),
        decreases base.parameter_sets@.len() - i,
    {
        proof {
            assert(sv.take(i + 1).drop_last() =~= sv.take(i as int));
            assert(sv.take(i + 1).last() == base.parameter_sets@[i as int]@);
        }
        let ps = &base.parameter_sets[i].parameters;
        let ghost ids = params_view(ps@).map_values(|p: ParameterView| p.serialized_parameter_id);
        let ghost before = out@;
        let mut k: usize = 0;
        proof {
            assert(before + ids.take(0) =~= before);
        }
        while k < ps.len()
            invariant
                k <= ps@.len(),
                ids == params_view(ps@).map_values(|p: ParameterView| p.serialized_parameter_id),
                out@ == before + ids.take(k as int),
            decreases ps@.len() - k,
        {
            out.push(ps[k].serialized_parameter_id);
            proof {
                assert(out@ =~= before + ids.take(k + 1));
            }
            k += 1;
        }
        proof {
            assert(ids.take(ps@.len() as int) =~= ids);
        }
        i += 1;
    }
    proof {
        assert(sv.take(base.parameter_sets@.len() as int) =~= sv);
    }
    let ghost after_sets = out@;
    let ghost row_ids = rows_view(rows@).map_values(|r: RawFieldView| r.parameter_id);
    let mut k: usize = 0;
    proof {
        assert(after_sets + row_ids.take(0) =~= after_sets);
    }
    while k < rows.len()
        invariant
            k <= rows@.len(),
            row_ids == rows_view(rows@).map_values(|r: RawFieldView| r.parameter_id),
            out@ == after_sets + row_ids.take(k as int),
        decreases rows@.len() - k,
    {
        out.push(rows[k].parameter_id);
        proof {
            assert(out@ =~= after_sets + row_ids.take(k + 1));
        }
        k += 1;
    }
    proof {
        assert(row_ids.take(rows@.len() as int) =~= row_ids);
    }
    let ghost after_rows = out@;
    let ghost slot_ids = slots_view(base.family_parameter_slots@).map_values(|s: SlotView| s.parameter_id);
    let mut k: usize = 0;
    proof {
        assert(after_rows + slot_ids.take(0) =~= after_rows);
    }
    while k < base.family_parameter_slots.len()
        invariant
            k <= base.family_parameter_slots@.len(),
            slot_ids == slots_view(base.family_parameter_slots@).map_values(|s: SlotView| s.parameter_id),
            out@ == after_rows + slot_ids.take(k as int),
        decreases base.family_parameter_slots@.len() - k,
    {
        out.push(base.family_parameter_slots[k].parameter_id);
        proof {
            assert(out@ =~= after_rows + slot_ids.take(k + 1));
        }
        k += 1;
    }
    proof {
        assert(slot_ids.take(base.family_parameter_slots@.len() as int) =~= slot_ids);
    }
    out
}

/// The distinct ids of a sequence, in increasing order.
fn sorted_unique(flat: &Vec<i64>) -> (r: Vec<i64>)
    ensures
        r@ == sorted_set(flat@.to_set()),
{
    let mut out: Vec<i64> = Vec::new();
    proof {
        assert(out@.to_set() =~= flat@.take(0).to_set());
    }
    let mut i: usize = 0;
    while i < flat.len()
        invariant
            i <= flat@.len(),
            increasing_ids(out@),
            out@.to_set() == flat@.take(i as int).to_set(),
        decreases flat@.len() - i,
    {
        insert_unique_increasing(&mut out, flat[i]);
        proof {
            assert(flat@.take(i + 1) =~= flat@.take(i as int).push(flat@[i as int]));
            flat@.take(i as int).lemma_push_to_set_commute(flat@[i as int]);
        }
        i += 1;
    }
    proof {
        assert(flat@.take(flat@.len() as int) =~= flat@);
        let q = sorted_set(flat@.to_set());
        assert(increasing_ids(q) && q.to_set() == flat@.to_set());
        lemma_increasing_unique(out@, q);
    }
    out
}

/// The recorded custom definitions of the listed ids.
fn definitions_in_exec(registry: &Registry, ids: &Vec<i64>) -> (r: Vec<Definition>)
    ensures
        r@.map_values(|d: Definition| d@) == definitions_in(registry.view(), ids@),
{
    let ghost v = registry.view();
    let mut out: Vec<Definition> = Vec::new();
    proof {
        assert(ids@.take(0) =~= Seq::<i64>::empty());
        assert(out@.map_values(|d: Definition| d@) =~= Seq::<DefinitionView>::empty());
    }
    let mut i: usize = 0;
    while i < ids.len()
        invariant
            i <= ids@.len(),
            v == registry.view(),
            out@.map_values(|d: Definition| d@) == definitions_in(v, ids@.take(i as int)),
        decreases ids@.len() - i,
    {
        proof {
            assert(ids@.take(i + 1).drop_last() =~= ids@.take(i as int));
            assert(ids@.take(i + 1).last() == ids@[i as int]);
        }
        let ghost before = out@.map_values(|d: Definition| d@);
        match registry.definitions.get(&ids[i]) {
            Some(d) => {
                let c = copy_definition(d);
                out.push(c);
                proof {
                    assert(out@.map_values(|d: Definition| d@) =~= before + seq![c@]);
                }
            },
            None => {
                proof {
                    assert(before + Seq::<DefinitionView>::empty() =~= before);
                }
            },
        }
        i += 1;
    }
    proof {
        assert(ids@.take(ids@.len() as int) =~= ids@);
    }
    out
}

/// The recorded built-in definitions of the listed ids.
fn builtins_in_exec(registry: &Registry, ids: &Vec<i64>) -> (r: Vec<BuiltinDefinition>)
    ensures
        r@.map_values(|d: BuiltinDefinition| d@) == builtins_in(registry.view(), ids@),
{
    let ghost v = registry.view();
    let mut out: Vec<BuiltinDefinition> = Vec::new();
    proof {
        assert(ids@.take(0) =~= Seq::<i64>::empty());
        assert(out@.map_values(|d: BuiltinDefinition| d@) =~= Seq::<BuiltinView>::empty());
    }
    let mut i: usize = 0;
    while i < ids.len()
        invariant
            i <= ids@.len(),
            v == registry.view(),
            out@.map_values(|d: BuiltinDefinition| d@) == builtins_in(v, ids@.take(i as int)),
        decreases ids@.len() - i,
    {
        proof {
            assert(ids@.take(i + 1).drop_last() =~= ids@.take(i as int));
            assert(ids@.take(i + 1).last() == ids@[i as int]);
        }
        let ghost before = out@.map_values(|d: BuiltinDefinition| d@);
        match registry.builtin_definitions.get(&ids[i]) {
            Some(d) => {
                let c = copy_builtin(d);
                out.push(c);
                proof {
                    assert(out@.map_values(|d: BuiltinDefinition| d@) =~= before + seq![c@]);
                }
            },
            None => {
                proof {
                    assert(before + Seq::<BuiltinView>::empty() =~= before);
                }
            },
        }
        i += 1;
    }
    proof {
        assert(ids@.take(ids@.len() as int) =~= ids@);
    }
    out
}

/// The object the owner's family parameter pointer reaches, if any.
fn owner_target_exec(graph: &ObjectGraph) -> (r: Option<usize>)
    requires
        graph.objects@.len() > 0,
    ensures
        r == owner_target(graph.view()),
{
    proof {
        assert(graph.view().objects[0] == graph.objects@[0]@);
    }
    let c = graph.objects[0].class_name.as_str();
    let field = if str_eq(c, "Family") {
        "m_familyParams"
    } else if str_eq(c, "FamilySymbol") {
        "m_pParams"
    } else if str_eq(c, "FamilyInstance") {
        "m_pInstParams"
    } else {
        return None;
    };
    let t = graph.objects[0].fields.as_slice();
    let j = match field_pos(t, field) {
        None => return None,
        Some(j) => j,
    };
    let off = match member_u64_exec(t, j, "offset") {
        None => return None,
        Some(o) => o,
    };
    match first_edge(graph.edges.as_slice(), 0, off) {
        None => None,
        Some(k) => Some(graph.edges[k].target_object_index),
    }
}

/// The owner's own family slots resolved through their definitions.
fn resolved_for_exec(registry: &Registry, slots: &Vec<FamilyParameterSlots>, target: Option<usize>) -> (r: Vec<
    ResolvedFamilyParameter,
>)
    ensures
        r@.map_values(|x: ResolvedFamilyParameter| x@) == resolved_for(registry.view(), slots_view(slots@), target),
{
    let ghost v = registry.view();
    let ghost sv = slots_view(slots@);
    let mut out: Vec<ResolvedFamilyParameter> = Vec::new();
    proof {
        assert(sv.take(0) =~= Seq::<SlotView>::empty());
        assert(out@.map_values(|x: ResolvedFamilyParameter| x@) =~= Seq::<ResolvedView>::empty());
    }
    let mut i: usize = 0;
    while i < slots.len()
        invariant
            i <= slots@.len(),
            v == registry.view(),
            sv == slots_view(slots@),
            out@.map_values(|x: ResolvedFamilyParameter| x@) == resolved_for(v, sv.take(i as int), target),
        decreases slots@.len() - i,
    {
        proof {
            assert(sv.take(i + 1).drop_last() =~= sv.take(i as int));
            assert(sv.take(i + 1).last() == slots@[i as int]@);
        }
        let ghost before = out@.map_values(|x: ResolvedFamilyParameter| x@);
        if Some(slots[i].source_object) == target {
            match registry.resolve_slot(&slots[i]) {
                Some(x) => {
                    out.push(x);
                    proof {
                        assert(out@.map_values(|x: ResolvedFamilyParameter| x@) =~= before + seq![x@]);
                    }
                },
                None => {
                    proof {
                        assert(before + Seq::<ResolvedView>::empty() =~= before);
                    }
                },
            }
        } else {
            proof {
                assert(before + Seq::<ResolvedView>::empty() =~= before);
            }
        }
        i += 1;
    }
    proof {
        assert(sv.take(slots@.len() as int) =~= sv);
    }
    out
}


/// Declared custom parameters by their plain values.
pub open spec fn states_view(m: Map<i64, DeclaredCustomParameter>) -> Map<i64, DeclaredView> {
    Map::new(|k: i64| m.contains_key(k), |k: i64| declared_view(m[k]))
}

/// An owned copy of a declared custom parameter.
fn copy_declared(d: &DeclaredCustomParameter) -> (r: DeclaredCustomParameter)
    ensures
        declared_view(r) == declared_view(*d),
{
    DeclaredCustomParameter {
        parameter_id: d.parameter_id,
        storage_type: d.storage_type.clone(),
        has_value: d.has_value,
        has_value_evidence: d.has_value_evidence,
        source_object: d.source_object,
        binding_id: d.binding_id,
        owner_category_id: d.owner_category_id,
        is_read_only: d.is_read_only,
        read_only_evidence: d.read_only_evidence,
        associated_global_parameter_id: d.associated_global_parameter_id,
    }
}

/// A custom parameter with a stored value.
fn present_state_exec(id: i64, storage: &String, evidence: &'static str, source: usize) -> (r: DeclaredCustomParameter)
    ensures
        declared_view(r) == present_state(id, storage@, evidence@, source),
{
    DeclaredCustomParameter {
        parameter_id: id,
        storage_type: storage.clone(),
        has_value: true,
        has_value_evidence: evidence,
        source_object: Some(source),
        binding_id: None,
        owner_category_id: None,
        is_read_only: None,
        read_only_evidence: None,
        associated_global_parameter_id: None,
    }
}

/// The custom parameters an owner's typed sets store.
fn typed_states_exec(registry: &Registry, sets: &Vec<SavedParameterSet>) -> (r: BTreeMap<i64, DeclaredCustomParameter>)
    ensures
        states_view(r@) == typed_states(registry.view(), typed_rows(sets_view(sets@))),
{
    let ghost v = registry.view();
    let ghost sv = sets_view(sets@);
    let mut m: BTreeMap<i64, DeclaredCustomParameter> = BTreeMap::new();
    proof {
        assert(sv.take(0) =~= Seq::<SetView>::empty());
        assert(states_view(m@) =~= Map::<i64, DeclaredView>::empty());
    }
    let mut i: usize = 0;
    while i < sets.len()
        invariant
            i <= sets@.len(),
            v == registry.view(),
            sv == sets_view(sets@),
            states_view(m@) == typed_states(v, typed_rows(sv.take(i as int))),
        decreases sets@.len() - i,
    {
        proof {
            assert(sv.take(i + 1).drop_last() =~= sv.take(i as int));
            assert(sv.take(i + 1).last() == sets@[i as int]@);
        }
        let set = &sets[i];
        let ghost base = typed_rows(sv.take(i as int));
        let ghost pairs = params_view(set.parameters@).map_values(|p: ParameterView| (set.source_object, p));
        proof {
            assert(base + pairs.take(0) =~= base);
        }
        let mut k: usize = 0;
        while k < set.parameters.len()
            invariant
                k <= set.parameters@.len(),
                v == registry.view(),
                pairs == params_view(set.parameters@).map_values(|p: ParameterView| (set.source_object, p)),
                states_view(m@) == typed_states(v, base + pairs.take(k as int)),
            decreases set.parameters@.len() - k,
        {
            proof {
                assert((base + pairs.take(k + 1)).drop_last() =~= base + pairs.take(k as int));
                assert((base + pairs.take(k + 1)).last() == (set.source_object, set.parameters@[k as int]@));
            }
            let p = &set.parameters[k];
            let id = p.serialized_parameter_id;
            if id > 0 && registry.definitions.contains_key(&id) {
                let state = present_state_exec(id, &p.storage_type, "validated_present_owner_typed_parameter", set.source_object);
                let ghost sv0 = states_view(m@);
                m.insert(id, state);
                proof {
                    assert(states_view(m@) =~= sv0.insert(id, declared_view(state)));
                }
            }
            k += 1;
        }
        proof {
            assert(pairs.take(set.parameters@.len() as int) =~= pairs);
        }
        i += 1;
    }
    proof {
        assert(sv.take(sets@.len() as int) =~= sv);
    }
    m
}

proof fn lemma_slot_states_err(m: Map<i64, DeclaredView>, rs: Seq<ResolvedView>, n: int)
    requires
        0 <= n <= rs.len(),
        slot_states(m, rs.take(n)) is Err,
    ensures
        slot_states(m, rs) == slot_states(m, rs.take(n)),
    decreases rs.len() - n,
{
    if n == rs.len() {
        assert(rs.take(n) =~= rs);
    } else {
        assert(rs.take(n + 1).drop_last() =~= rs.take(n));
        lemma_slot_states_err(m, rs, n + 1);
    }
}

/// Adds the custom parameters the owner's resolved family slots store.
fn slot_states_exec(m: &mut BTreeMap<i64, DeclaredCustomParameter>, resolved: &Vec<ResolvedFamilyParameter>) -> (r: Result<
    (),
    String,
>)
    ensures
        match slot_states(states_view(old(m)@), resolved@.map_values(|x: ResolvedFamilyParameter| x@)) {
            Ok(m1) => r is Ok && states_view(final(m)@) == m1,
            Err(e) => r is Err && r->Err_0@ == e,
        },
{
    let ghost m0 = states_view(m@);
    let ghost rv = resolved@.map_values(|x: ResolvedFamilyParameter| x@);
    proof {
        assert(rv.take(0) =~= Seq::<ResolvedView>::empty());
    }
    let mut i: usize = 0;
    while i < resolved.len()
        invariant
            i <= resolved@.len(),
            rv == resolved@.map_values(|x: ResolvedFamilyParameter| x@),
            m0 == states_view(old(m)@),
            slot_states(m0, rv.take(i as int)) == Ok::<Map<i64, DeclaredView>, Seq<char>>(states_view(m@)),
        decreases resolved@.len() - i,
    {
        proof {
            assert(rv.take(i + 1).drop_last() =~= rv.take(i as int));
            assert(rv.take(i + 1).last() == resolved@[i as int]@);
        }
        let x = &resolved[i];
        if x.parameter_id > 0 {
            if m.contains_key(&x.parameter_id) {
                proof {
                    lemma_slot_states_err(m0, rv, i + 1);
                }
                return Err(text_of("custom parameter present in both owner typed set and family slots"));
            }
            let state = present_state_exec(
                x.parameter_id,
                &x.storage_type,
                "validated_present_family_parameter_slot",
                x.source_object,
            );
            let ghost sv0 = states_view(m@);
            m.insert(x.parameter_id, state);
            proof {
                assert(states_view(m@) =~= sv0.insert(x.parameter_id, declared_view(state)));
            }
        }
        i += 1;
    }
    proof {
        assert(rv.take(resolved@.len() as int) =~= rv);
    }
    Ok(())
}

proof fn lemma_binding_states_err(v: RegistryView, m: Map<i64, DeclaredView>, bs: Seq<Binding>, n: int)
    requires
        0 <= n <= bs.len(),
        binding_states(v, m, bs.take(n)) is Err,
    ensures
        binding_states(v, m, bs) == binding_states(v, m, bs.take(n)),
    decreases bs.len() - n,
{
    if n == bs.len() {
        assert(bs.take(n) =~= bs);
    } else {
        assert(bs.take(n + 1).drop_last() =~= bs.take(n));
        lemma_binding_states_err(v, m, bs, n + 1);
    }
}

/// Adds the custom parameters the owner's matching bindings declare.
fn binding_states_exec(registry: &Registry, m: &mut BTreeMap<i64, DeclaredCustomParameter>, bs: &Vec<Binding>) -> (r:
    Result<(), String>)
    ensures
        match binding_states(registry.view(), states_view(old(m)@), bs@) {
            Ok(m1) => r is Ok && states_view(final(m)@) == m1,
            Err(e) => r is Err && r->Err_0@ == e,
        },
{
    let ghost v = registry.view();
    let ghost m0 = states_view(m@);
    proof {
        assert(bs@.take(0) =~= Seq::<Binding>::empty());
    }
    let mut i: usize = 0;
    while i < bs.len()
        invariant
            i <= bs@.len(),
            v == registry.view(),
            m0 == states_view(old(m)@),
            binding_states(v, m0, bs@.take(i as int)) == Ok::<Map<i64, DeclaredView>, Seq<char>>(states_view(m@)),
        decreases bs@.len() - i,
    {
        proof {
            assert(bs@.take(i + 1).drop_last() =~= bs@.take(i as int));
            assert(bs@.take(i + 1).last() == bs@[i as int]);
        }
        let b = bs[i];
        let pid = b.parameter_id;
        let storage = match registry.definitions.get(&pid) {
            Some(d) => match &d.storage_type {
                Some(st) => st.clone(),
                None => {
                    i += 1;
                    continue;
                },
            },
            None => {
                i += 1;
                continue;
            },
        };
        let ghost sv0 = states_view(m@);
        let state = match m.remove(&pid) {
            Some(s) => s,
            None => DeclaredCustomParameter {
                parameter_id: pid,
                storage_type: storage,
                has_value: false,
                has_value_evidence: "matched_category_binding_absent_owner_value",
                source_object: None,
                binding_id: None,
                owner_category_id: None,
                is_read_only: None,
                read_only_evidence: None,
                associated_global_parameter_id: None,
            },
        };
        if state.binding_id.is_some() {
            proof {
                lemma_binding_states_err(v, m0, bs@, i + 1);
            }
            return Err(text_of("ambiguous matching custom parameter bindings"));
        }
        let mut state = state;
        state.binding_id = Some(b.binding_id);
        state.owner_category_id = Some(b.category_id);
        m.insert(pid, state);
        proof {
            assert(states_view(m@) =~= sv0.insert(pid, declared_view(state)));
        }
        i += 1;
    }
    proof {
        assert(bs@.take(bs@.len() as int) =~= bs@);
    }
    Ok(())
}


/// A parameter's saved read-only flag, from its definition.
fn with_read_only_exec(registry: &Registry, s: DeclaredCustomParameter) -> (r: DeclaredCustomParameter)
    ensures
        declared_view(r) == with_read_only(registry.view(), declared_view(s)),
{
    let mut s = s;
    match registry.definitions.get(&s.parameter_id) {
        Some(d) => {
            let df = d.definition_fields.as_slice();
            match bool_at_exec(df, field_pos(df, "m_readOnly")) {
                Some(ro) => {
                    s.is_read_only = Some(ro);
                    s.read_only_evidence = Some("saved_definition_flag_and_owner_global_associations");
                    s
                },
                None => s,
            }
        },
        None => s,
    }
}

proof fn lemma_drivers_err(
    v: RegistryView,
    s: DeclaredView,
    assocs: Seq<GlobalParameterAssociation>,
    is_symbol: bool,
    n: int,
)
    requires
        0 <= n <= assocs.len(),
        drivers_fold(v, s, assocs.take(n), is_symbol) is Err,
    ensures
        drivers_fold(v, s, assocs, is_symbol) == drivers_fold(v, s, assocs.take(n), is_symbol),
    decreases assocs.len() - n,
{
    if n == assocs.len() {
        assert(assocs.take(n) =~= assocs);
    } else {
        assert(assocs.take(n + 1).drop_last() =~= assocs.take(n));
        lemma_drivers_err(v, s, assocs, is_symbol, n + 1);
    }
}

/// The global parameter drivers of a parameter applied in order.
fn drivers_exec(
    registry: &Registry,
    s: DeclaredCustomParameter,
    assocs: &Vec<GlobalParameterAssociation>,
    is_symbol: bool,
) -> (r: Result<DeclaredCustomParameter, String>)
    ensures
        match drivers_fold(registry.view(), declared_view(s), assocs@, is_symbol) {
            Ok(x) => r is Ok && declared_view(r->Ok_0) == x,
            Err(e) => r is Err && r->Err_0@ == e,
        },
{
    let ghost v = registry.view();
    let ghost s0 = declared_view(s);
    let ghost target = drivers_fold(v, s0, assocs@, is_symbol);
    let mut cur = s;
    proof {
        assert(assocs@.take(0) =~= Seq::<GlobalParameterAssociation>::empty());
    }
    let mut i: usize = 0;
    while i < assocs.len()
        invariant
            i <= assocs@.len(),
            v == registry.view(),
            target == drivers_fold(v, s0, assocs@, is_symbol),
            s0 == declared_view(s),
            drivers_fold(v, s0, assocs@.take(i as int), is_symbol) == Ok::<DeclaredView, Seq<char>>(
                declared_view(cur),
            ),
        decreases assocs@.len() - i,
    {
        proof {
            assert(assocs@.take(i + 1).drop_last() =~= assocs@.take(i as int));
            assert(assocs@.take(i + 1).last() == assocs@[i as int]);
        }
        let a = assocs[i];
        if a.parameter_id == cur.parameter_id {
            let global = match registry.definitions.get(&a.global_parameter_id) {
                Some(t) => str_eq(t.owner_class.as_str(), "ParamElemGlobal"),
                None => false,
            };
            if a.geometry_tag == -1 && a.stored_is_symbol == is_symbol && global {
                if cur.associated_global_parameter_id.is_some() {
                    proof {
                        lemma_drivers_err(v, s0, assocs@, is_symbol, i + 1);
                        assert(target == drivers_fold(v, s0, assocs@.take(i + 1), is_symbol));
                    }
                    return Err(text_of("multiple global parameter drivers for owner parameter"));
                }
                cur.is_read_only = Some(true);
                cur.read_only_evidence = Some("verified_owner_global_parameter_association");
                cur.associated_global_parameter_id = Some(a.global_parameter_id);
            } else {
                cur.is_read_only = None;
                cur.read_only_evidence = Some("unresolved_project_parameter_driver");
            }
        }
        i += 1;
    }
    proof {
        assert(assocs@.take(assocs@.len() as int) =~= assocs@);
    }
    Ok(cur)
}

proof fn lemma_declared_err(
    v: RegistryView,
    m: Map<i64, DeclaredView>,
    keys: Seq<i64>,
    assocs: Seq<GlobalParameterAssociation>,
    is_symbol: bool,
    n: int,
)
    requires
        0 <= n <= keys.len(),
        declared_list(v, m, keys.take(n), assocs, is_symbol) is Err,
    ensures
        declared_list(v, m, keys, assocs, is_symbol) == declared_list(v, m, keys.take(n), assocs, is_symbol),
    decreases keys.len() - n,
{
    if n == keys.len() {
        assert(keys.take(n) =~= keys);
    } else {
        assert(keys.take(n + 1).drop_last() =~= keys.take(n));
        lemma_declared_err(v, m, keys, assocs, is_symbol, n + 1);
    }
}

/// The declared custom parameters in id order, each with its read-only
/// state.
fn declared_list_exec(
    registry: &Registry,
    m: &BTreeMap<i64, DeclaredCustomParameter>,
    assocs: &Vec<GlobalParameterAssociation>,
    is_symbol: bool,
) -> (r: Result<Vec<DeclaredCustomParameter>, String>)
    ensures
        match declared_list(
            registry.view(),
            states_view(m@),
            sorted_set(states_view(m@).dom()),
            assocs@,
            is_symbol,
        ) {
            Ok(l) => r is Ok && r->Ok_0@.map_values(|d: DeclaredCustomParameter| declared_view(d)) == l,
            Err(e) => r is Err && r->Err_0@ == e,
        },
{
    let ghost v = registry.view();
    let ghost sm = states_view(m@);
    let keys = sorted_ids(m);
    proof {
        assert(sm.dom() =~= m@.dom());
        let q = sorted_set(sm.dom());
        assert(increasing_ids(keys@) && keys@.to_set() == sm.dom());
        assert(increasing_ids(q) && q.to_set() == sm.dom());
        lemma_increasing_unique(keys@, q);
        assert(keys@.take(0) =~= Seq::<i64>::empty());
    }
    let mut out: Vec<DeclaredCustomParameter> = Vec::new();
    proof {
        assert(out@.map_values(|d: DeclaredCustomParameter| declared_view(d)) =~= Seq::<DeclaredView>::empty());
    }
    let mut i: usize = 0;
    while i < keys.len()
        invariant
            i <= keys@.len(),
            v == registry.view(),
            sm == states_view(m@),
            keys@.to_set() == m@.dom(),
            keys@ == sorted_set(sm.dom()),
            declared_list(v, sm, keys@.take(i as int), assocs@, is_symbol) == Ok::<Seq<DeclaredView>, Seq<char>>(
                out@.map_values(|d: DeclaredCustomParameter| declared_view(d)),
            ),
        decreases keys@.len() - i,
    {
        proof {
            assert(keys@.take(i + 1).drop_last() =~= keys@.take(i as int));
            assert(keys@.take(i + 1).last() == keys@[i as int]);
            assert(keys@.to_set().contains(keys@[i as int]));
        }
        let k = keys[i];
        let state = match m.get(&k) {
            Some(s) => copy_declared(s),
            None => {
                proof {
                    assert(false);
                }
                return Err(text_of("multiple global parameter drivers for owner parameter"));
            },
        };
        let state = with_read_only_exec(registry, state);
        let ghost before = out@.map_values(|d: DeclaredCustomParameter| declared_view(d));
        match drivers_exec(registry, state, assocs, is_symbol) {
            Ok(x) => {
                out.push(x);
                proof {
                    assert(out@.map_values(|d: DeclaredCustomParameter| declared_view(d)) =~= before.push(
                        declared_view(x),
                    ));
                }
            },
            Err(e) => {
                proof {
                    lemma_declared_err(v, sm, keys@, assocs@, is_symbol, i + 1);
                }
                return Err(e);
            },
        }
        i += 1;
    }
    proof {
        assert(keys@.take(keys@.len() as int) =~= keys@);
    }
    Ok(out)
}

/// The union of two sequences' elements is the elements of their
/// concatenation.
proof fn lemma_concat_to_set(a: Seq<i64>, b: Seq<i64>)
    ensures
        (a + b).to_set() == a.to_set() + b.to_set(),
{
    assert forall|x: i64| (a + b).to_set().contains(x) <==> (a.to_set() + b.to_set()).contains(x) by {
        if (a + b).to_set().contains(x) {
            let k = choose|k: int| 0 <= k < (a + b).len() && (a + b)[k] == x;
            if k < a.len() {
                assert(a[k] == x);
            } else {
                assert(b[k - a.len()] == x);
            }
        }
        if a.to_set().contains(x) {
            let k = choose|k: int| 0 <= k < a.len() && a[k] == x;
            assert((a + b)[k] == x);
        }
        if b.to_set().contains(x) {
            let k = choose|k: int| 0 <= k < b.len() && b[k] == x;
            assert((a + b)[a.len() + k] == x);
        }
    }
    assert((a + b).to_set() =~= a.to_set() + b.to_set());
}

/// Enriches an owner's saved metadata with the definitions of its
/// document: family reference chains, the definitions its values use,
/// its own resolved family slots, its global parameter drivers and, for
/// family instances and symbols, its declared custom parameters.
/// Missing definitions remain unresolved, negative built-in ids too.
pub fn project_with_definitions(graph: &ObjectGraph, registry: &Registry) -> (r: Result<SavedMetadata, String>)
    ensures
        match spec_project_with_definitions(registry.view(), graph.view()) {
            Ok(v) => r is Ok && r->Ok_0@ == v,
            Err(e) => r is Err && r->Err_0@ == e,
        },
{
    let ghost v = registry.view();
    let ghost g = graph.view();
    let mut result = match project(graph) {
        Ok(m) => m,
        Err(e) => return Err(e),
    };
    let ghost base = result@;
    proof {
        assert(graph.objects@.len() > 0);
        assert(g.objects[0] == graph.objects@[0]@);
    }
    let assocs = match project_global_associations(graph) {
        Ok(a) => a,
        Err(e) => return Err(e),
    };
    let c = graph.objects[0].class_name.as_str();
    let f = match owner_family_id_exec(registry, c, graph.objects[0].fields.as_slice()) {
        Ok(f) => f,
        Err(e) => return Err(e),
    };
    let chain = family_rows_exec(registry, c, f);
    let ghost (r0, r1) = (result.raw_field_parameters@, chain@);
    let mut chain = chain;
    result.raw_field_parameters.append(&mut chain);
    proof {
        assert(rows_view(r0 + r1) =~= rows_view(r0) + rows_view(r1));
    }
    let flat = value_ids_exec(&result, &result.raw_field_parameters);
    let ids = sorted_unique(&flat);
    let defs = definitions_in_exec(registry, &ids);
    let builtins = builtins_in_exec(registry, &ids);
    let target = owner_target_exec(graph);
    let resolved = resolved_for_exec(registry, &result.family_parameter_slots, target);
    let ghost defs_view = defs@.map_values(|d: Definition| d@);
    result.global_parameter_associations = assocs;
    result.parameter_definitions = defs;
    result.builtin_parameter_definitions = builtins;
    result.resolved_family_parameters = resolved;
    let ghost mid = result@;
    proof {
        let rows = base.raw_field_parameters + family_rows(v, c@, f);
        assert(mid.raw_field_parameters == rows);
        assert(mid.parameter_sets == base.parameter_sets);
        assert(mid.family_parameter_slots == base.family_parameter_slots);
    }
    if !(str_eq(c, "FamilyInstance") || str_eq(c, "FamilySymbol")) {
        proof {
            assert(result@ =~= MetadataView {
                global_parameter_associations: mid.global_parameter_associations,
                raw_field_parameters: mid.raw_field_parameters,
                parameter_definitions: mid.parameter_definitions,
                builtin_parameter_definitions: mid.builtin_parameter_definitions,
                resolved_family_parameters: mid.resolved_family_parameters,
                ..base
            });
        }
        return Ok(result);
    }
    let mut states = typed_states_exec(registry, &result.parameter_sets);
    match slot_states_exec(&mut states, &result.resolved_family_parameters) {
        Ok(()) => {},
        Err(e) => return Err(e),
    }
    let bindings = match registry.matching_bindings(graph) {
        Ok(b) => b,
        Err(e) => return Err(e),
    };
    match binding_states_exec(registry, &mut states, &bindings) {
        Ok(()) => {},
        Err(e) => return Err(e),
    }
    let declared = match declared_list_exec(registry, &states, &result.global_parameter_associations, str_eq(c, "FamilySymbol")) {
        Ok(d) => d,
        Err(e) => return Err(e),
    };
    let mut flat2: Vec<i64> = Vec::new();
    let mut k: usize = 0;
    while k < result.parameter_definitions.len()
        invariant
            k <= result.parameter_definitions@.len(),
            flat2@ == result.parameter_definitions@.map_values(|d: Definition| d@).map_values(
                |d: DefinitionView| d.parameter_id,
            ).take(k as int),
        decreases result.parameter_definitions@.len() - k,
    {
        flat2.push(result.parameter_definitions[k].parameter_id);
        proof {
            assert(flat2@ =~= result.parameter_definitions@.map_values(|d: Definition| d@).map_values(
                |d: DefinitionView| d.parameter_id,
            ).take(k + 1));
        }
        k += 1;
    }
    let ghost first = flat2@;
    let mut k: usize = 0;
    while k < declared.len()
        invariant
            k <= declared@.len(),
            flat2@ == first + declared@.map_values(|d: DeclaredCustomParameter| declared_view(d)).map_values(
                |d: DeclaredView| d.parameter_id,
            ).take(k as int),
        decreases declared@.len() - k,
    {
        flat2.push(declared[k].parameter_id);
        proof {
            assert(flat2@ =~= first + declared@.map_values(|d: DeclaredCustomParameter| declared_view(d)).map_values(
                |d: DeclaredView| d.parameter_id,
            ).take(k + 1));
        }
        k += 1;
    }
    proof {
        let dv = result.parameter_definitions@.map_values(|d: Definition| d@).map_values(|d: DefinitionView| d.parameter_id);
        let cv = declared@.map_values(|d: DeclaredCustomParameter| declared_view(d)).map_values(|d: DeclaredView| d.parameter_id);
        assert(dv.take(dv.len() as int) =~= dv);
        assert(cv.take(cv.len() as int) =~= cv);
        assert(flat2@ == dv + cv);
        lemma_concat_to_set(dv, cv);
    }
    let ids2 = sorted_unique(&flat2);
    result.parameter_definitions = definitions_in_exec(registry, &ids2);
    result.declared_custom_parameters = declared;
    Ok(result)
}

} // verus!
