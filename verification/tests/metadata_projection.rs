use rvt_native::graph::GraphEdge;
use rvt_native::metadata_projection::{project, RawFieldParameter};
use rvt_native::object_graph::{GraphObject, ObjectGraph};
use rvt_native::value_grammar::Token;

/// A number as the decoder writes it.
fn n(v: i64) -> Vec<Token> {
    if v < 0 {
        vec![Token::Int(v)]
    } else {
        vec![Token::UInt(v as u64)]
    }
}

fn f(v: f64) -> Vec<Token> {
    vec![Token::F64(v.to_bits())]
}

fn s(v: &str) -> Vec<Token> {
    vec![Token::Text(v.to_string())]
}

fn b(v: bool) -> Vec<Token> {
    vec![Token::Bool(v)]
}

fn obj(members: &[(&str, Vec<Token>)]) -> Vec<Token> {
    let mut t = vec![Token::BeginObject];
    for (k, v) in members {
        t.push(Token::Key((*k).to_string()));
        t.extend(v.iter().cloned());
    }
    t.push(Token::EndObject);
    t
}

fn arr(items: &[Vec<Token>]) -> Vec<Token> {
    let mut t = vec![Token::BeginArray];
    for v in items {
        t.extend(v.iter().cloned());
    }
    t.push(Token::EndArray);
    t
}

fn pointer(offset: i64) -> Vec<Token> {
    obj(&[("offset", n(offset)), ("pointer_token", n(4294967295))])
}

fn object(name: &str, fields: Vec<Token>) -> GraphObject {
    GraphObject { class_tag: 20, class_name: name.into(), token: 4294967295, start: 2, fields_end: 4, fields }
}

fn root(name: &str, fields: Vec<Token>) -> GraphObject {
    GraphObject { class_tag: 20, class_name: name.into(), token: 0, start: 2, fields_end: 12, fields }
}

fn edge(source: usize, offset: usize, target: usize) -> GraphEdge {
    GraphEdge {
        source_object_index: source,
        pointer_offset: offset,
        pointer_token: 4294967295,
        target_object_index: target,
        target_class_tag: 20,
    }
}

fn graph(objects: Vec<GraphObject>, edges: Vec<GraphEdge>) -> ObjectGraph {
    ObjectGraph { consumed_bytes: 12, objects, edges }
}

fn row(rows: &[RawFieldParameter], id: i64) -> &RawFieldParameter {
    rows.iter().find(|p| p.parameter_id == id).unwrap()
}

#[test]
fn material_fraction_projects_integer_percent_through_owner_edge() {
    let mut g = graph(
        vec![
            object("MaterialElem", obj(&[("m_pMaterial", pointer(2))])),
            object(
                "Material",
                obj(&[
                    ("m_name", s("Glass")),
                    ("m_color", n(255)),
                    ("m_transparency", f(0.8999999761581421)),
                    ("m_smoothness", f(0.23000000417232513)),
                    ("m_shininess", n(17)),
                ]),
            ),
        ],
        vec![edge(0, 2, 1)],
    );
    let projection = project(&g).unwrap();
    let rows = &projection.raw_field_parameters;
    // A fraction row keeps the saved fraction; its value is the nearest
    // integer percent.
    let percent = |p: &RawFieldParameter| match p.raw_value.as_slice() {
        [Token::F64(bits)] => (f64::from_bits(*bits) * 100.0).round() as i64,
        other => panic!("unexpected fraction {other:?}"),
    };
    let transparency = row(rows, -1002551);
    assert_eq!(percent(transparency), 90);
    assert_eq!(percent(row(rows, -1002553)), 23);
    assert_eq!(row(rows, -1002554).raw_value, n(17));
    assert_eq!(transparency.projection_rule, "normalized_fraction_to_nearest_integer_percent");
    g.objects[1].fields = obj(&[("m_transparency", f(1.2))]);
    assert!(project(&g).is_err());
}

#[test]
fn follows_asset_parameter_container_edges() {
    let mut g = graph(
        vec![
            object("PropertySetElement", obj(&[("m_oParamSet", pointer(2))])),
            object("ParamSet", obj(&[("m_pDoubleParams", pointer(6))])),
            object(
                "ParamValueSetDouble",
                obj(&[("m_paramSet", arr(&[obj(&[("m_paramId", n(-99)), ("m_value", f(321.25))])]))]),
            ),
        ],
        vec![edge(0, 2, 1), edge(1, 6, 2)],
    );
    let projected = project(&g).unwrap();
    assert_eq!(projected.parameter_sets[0].root_pointer_field, "m_oParamSet.m_pDoubleParams");
    assert_eq!(projected.parameter_sets[0].parameters[0].raw_value, f(321.25));
    g.edges[1].source_object_index = 0;
    assert!(project(&g).is_err());
}

#[test]
fn projects_witnessed_hvac_load_type_fields_without_schedule_alias_guessing() {
    let g = graph(
        vec![root(
            "HVACLoadSpaceTypeElem",
            obj(&[
                ("m_idOccupancySchedule", n(91)),
                ("m_heatingSetPoint", f(288.7)),
                ("m_coolingSetPoint", f(299.8)),
                ("m_LightingLoadDensity", f(8.6)),
                ("m_dAreaPerPerson", f(358.7)),
                ("m_PowerLoadDensity", f(3.2)),
                ("m_dLatentHeatGainPerPerson", f(630.9)),
                ("m_dOutdoorAirPerPerson", f(0.08)),
                ("m_idLightingSchedule", n(92)),
                ("m_idPowerSchedule", n(93)),
            ]),
        )],
        vec![],
    );
    let projected = project(&g).unwrap();
    let ids = projected.raw_field_parameters.iter().map(|p| p.parameter_id).collect::<Vec<_>>();
    assert_eq!(ids, vec![-1114349, -1114708, -1114709, -1114220, -1114175, -1114219, -1114189, -1154665]);
    assert!(projected.raw_field_parameters.iter().all(|p| p.value_semantics == "serialized_not_evaluated"));
}

#[test]
fn projects_only_the_witnessed_analytical_and_part_level_fields() {
    let analytical = graph(vec![root("AnalyticalMember", obj(&[("m_sectionType", n(41))]))], vec![]);
    let analytical = project(&analytical).unwrap();
    assert_eq!(analytical.raw_field_parameters.len(), 1);
    assert_eq!(analytical.raw_field_parameters[0].parameter_id, -1009533);
    assert_eq!(analytical.raw_field_parameters[0].raw_value, vec![Token::Int(41)]);
    let part = graph(vec![root("DPart", obj(&[("m_assocLevelId", obj(&[("m_id64", n(61))]))]))], vec![]);
    let part = project(&part).unwrap();
    assert_eq!(part.raw_field_parameters.len(), 1);
    assert_eq!(part.raw_field_parameters[0].parameter_id, -1152335);
    assert_eq!(part.raw_field_parameters[0].raw_value, vec![Token::Int(61)]);
}

#[test]
fn analytical_member_direct_fields_keep_their_witnessed_storage_types() {
    let g = graph(
        vec![root(
            "AnalyticalMember",
            obj(&[
                ("m_lowestAssocLevel", n(41)),
                ("m_highestAssocLevel", n(42)),
                ("m_materialId", n(43)),
                ("m_crossSectionRotation", f(-1.5)),
                ("m_structuralRole", n(2)),
            ]),
        )],
        vec![],
    );
    let projected = project(&g).unwrap();
    let values = projected
        .raw_field_parameters
        .iter()
        .map(|p| (p.parameter_id, p.storage_type.as_str(), p.raw_value.clone()))
        .collect::<Vec<_>>();
    assert_eq!(
        values,
        vec![
            (-1_155_257, "ElementId", vec![Token::Int(41)]),
            (-1_155_256, "ElementId", vec![Token::Int(42)]),
            (-1_005_500, "ElementId", vec![Token::Int(43)]),
            (-1_013_456, "Double", f(-1.5)),
            (-1_013_453, "Integer", n(2)),
        ]
    );
}

#[test]
fn direct_fields_preserve_internal_sentinels_and_project_root_design_option() {
    let mut g = graph(
        vec![root("FamilyInstance", obj(&[("m_masterSymbolId", n(24)), ("m_designOptionId", n(-4))]))],
        vec![],
    );
    let projected = project(&g).unwrap();
    assert_eq!(projected.raw_field_parameters.len(), 5);
    assert_eq!(row(&projected.raw_field_parameters, -1013201).raw_value, vec![Token::Int(-4)]);
    g.objects[0].class_name = "UnknownOwner".into();
    let unknown = project(&g).unwrap();
    assert_eq!(unknown.raw_field_parameters.len(), 1);
    let design_option = &unknown.raw_field_parameters[0];
    assert_eq!(design_option.parameter_id, -1013201);
    assert_eq!(design_option.source_field, "m_designOptionId");
    assert_eq!(design_option.raw_value, vec![Token::Int(-4)]);
    assert_eq!(design_option.value_semantics, "serialized_not_evaluated");
}

#[test]
fn graphics_style_category_is_not_promoted_to_its_api_category_parameter() {
    let g = graph(vec![root("GStyleElem", obj(&[("m_categoryId", n(-2000011))]))], vec![]);
    let projected = project(&g).unwrap();
    assert!(projected.raw_field_parameters.is_empty());
}

#[test]
fn selects_owner_edge_and_preserves_all_family_slots() {
    let g = graph(
        vec![
            object("FamilyInstance", obj(&[("m_pParamValueSetAString", pointer(2))])),
            object(
                "ParamValueSetAString",
                obj(&[("m_paramSet", arr(&[obj(&[("m_paramId", n(-1001203)), ("m_value", s("WRONG OWNER"))])]))]),
            ),
            object(
                "ParamValueSetAString",
                obj(&[("m_paramSet", arr(&[obj(&[("m_paramId", n(-1001203)), ("m_value", s("EQ_1"))])]))]),
            ),
            object(
                "FamilyParams",
                obj(&[(
                    "m_params",
                    arr(&[obj(&[
                        ("m_paramId", n(2816)),
                        ("m_instance", b(false)),
                        ("m_reporting", b(false)),
                        ("m_value", f(0.0)),
                        ("m_int", n(0)),
                        ("m_str", s("")),
                        ("m_elemId", n(-1)),
                        ("m_oExpression", obj(&[("pointer_token", n(0))])),
                    ])]),
                )]),
            ),
        ],
        vec![edge(0, 2, 2)],
    );
    let projection = project(&g).unwrap();
    assert_eq!(projection.parameter_sets[0].parameters[0].raw_value, s("EQ_1"));
    assert_eq!(projection.family_parameter_slots[0].integer_slot, n(0));
    assert_eq!(projection.family_parameter_slots[0].string_slot, s(""));
    assert_eq!(projection.family_parameter_slots[0].element_id_slot, -1);
    let mut broken = g;
    broken.edges.clear();
    assert!(project(&broken).is_err());
}

#[test]
fn projection_refusals_name_their_cause() {
    assert_eq!(project(&graph(vec![], vec![])).err(), Some("empty native graph".to_string()));
    // An unset pointer reaches nothing.
    let unset = graph(
        vec![root("MaterialElem", obj(&[("m_pMaterial", obj(&[("offset", n(2)), ("pointer_token", n(0))]))]))],
        vec![],
    );
    assert!(project(&unset).unwrap().raw_field_parameters.is_empty());
    let g = graph(vec![root("MaterialElem", obj(&[("m_pMaterial", obj(&[("pointer_token", n(7))]))]))], vec![]);
    assert_eq!(project(&g).err(), Some("material pointer offset absent".to_string()));
    let g = graph(vec![root("MaterialElem", obj(&[("m_pMaterial", pointer(2))]))], vec![]);
    assert_eq!(project(&g).err(), Some("material edge absent".to_string()));
    let g = graph(vec![root("MaterialElem", obj(&[("m_pMaterial", pointer(2))]))], vec![edge(0, 2, 5)]);
    assert_eq!(project(&g).err(), Some("material outside graph".to_string()));
    let g = graph(
        vec![root("MaterialElem", obj(&[("m_pMaterial", pointer(2))])), object("Wall", obj(&[]))],
        vec![edge(0, 2, 1)],
    );
    assert_eq!(project(&g).err(), Some("material target class mismatch".to_string()));
    let g = graph(
        vec![root("MaterialElem", obj(&[("m_pMaterial", pointer(2))])), object("Material", obj(&[("m_smoothness", s("x"))]))],
        vec![edge(0, 2, 1)],
    );
    assert_eq!(project(&g).err(), Some("material normalized surface property is not numeric".to_string()));
    let g = graph(vec![root("AnalyticalMember", obj(&[("m_crossSectionRotation", s("x"))]))], vec![]);
    assert_eq!(project(&g).err(), Some("cross-section rotation is not numeric".to_string()));
    let g = graph(vec![root("AnalyticalMember", obj(&[("m_structuralRole", f(1.5))]))], vec![]);
    assert_eq!(project(&g).err(), Some("structural role is not an integer".to_string()));
    let g = graph(vec![root("DPart", obj(&[("m_assocLevelId", s("x"))]))], vec![]);
    assert_eq!(project(&g).err(), Some("unsupported saved identifier shape (string)".to_string()));
    let g = graph(vec![root("HVACLoadBuildingTypeElem", obj(&[("m_strEquipmentStartTime", n(8))]))], vec![]);
    assert_eq!(project(&g).err(), Some("native field storage shape mismatch".to_string()));
    let g = graph(
        vec![root("FamilyInstance", obj(&[("m_pParamValueSetInt", pointer(2))])), object("ParamValueSetInt", obj(&[]))],
        vec![edge(0, 2, 1)],
    );
    assert_eq!(project(&g).err(), Some("parameter pairs absent".to_string()));
    let g = graph(
        vec![root("FamilyParams", obj(&[("m_params", arr(&[obj(&[("m_paramId", n(1))])]))]))],
        vec![],
    );
    assert_eq!(project(&g).err(), Some("instance flag absent".to_string()));
}

#[test]
fn references_element_ids_and_symbol_name() {
    let g = graph(
        vec![
            root(
                "FamilySymbol",
                obj(&[
                    ("m_familyId", n(41)),
                    ("m_designOptionId", obj(&[("m_id", n(-1))])),
                    ("m_symbolInfo", pointer(4)),
                    ("m_pParamValueSetElementId", pointer(6)),
                ]),
            ),
            object("SymbolInfo", obj(&[("m_name", s("Type A"))])),
            object(
                "ParamValueSetElementId",
                obj(&[("m_paramSet", arr(&[obj(&[("m_paramId", n(-1001)), ("m_value", obj(&[("m_id", n(77))]))])]))]),
            ),
        ],
        vec![edge(0, 4, 1), edge(0, 6, 2)],
    );
    let projected = project(&g).unwrap();
    assert_eq!(
        projected.root_references,
        vec![("m_familyId".to_string(), 41), ("m_designOptionId".to_string(), -1)]
    );
    assert_eq!(projected.parameter_sets[0].parameters[0].raw_value, vec![Token::Int(77)]);
    let name = row(&projected.raw_field_parameters, -1002001);
    assert_eq!(name.source_field, "m_symbolInfo.m_name");
    assert_eq!(name.source_object, 1);
    assert_eq!(name.raw_value, s("Type A"));
    assert!(!projected.complete_element_metadata);
}
