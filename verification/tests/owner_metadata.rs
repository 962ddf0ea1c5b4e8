use rvt_native::graph::GraphEdge;
use rvt_native::metadata::effective_ifc_parameter;
use rvt_native::metadata_projection::{project, stored_parameters, Parameter, SavedParameterSet};
use rvt_native::object_graph::{GraphObject, ObjectGraph};
use rvt_native::owner_metadata::project_with_definitions;
use rvt_native::parameter_definitions::{project as project_definition, Registry};
use rvt_native::value_grammar::Token;

fn n(v: i64) -> Vec<Token> {
    if v < 0 {
        vec![Token::Int(v)]
    } else {
        vec![Token::UInt(v as u64)]
    }
}

fn f(v: f64) -> Vec<Token> {
    vec![Token::F64(v.to_bits())]
}

fn s(v: &str) -> Vec<Token> {
    vec![Token::Text(v.to_string())]
}

fn b(v: bool) -> Vec<Token> {
    vec![Token::Bool(v)]
}

fn obj(members: &[(&str, Vec<Token>)]) -> Vec<Token> {
    let mut t = vec![Token::BeginObject];
    for (k, v) in members {
        t.push(Token::Key((*k).to_string()));
        t.extend(v.iter().cloned());
    }
    t.push(Token::EndObject);
    t
}

fn arr(items: &[Vec<Token>]) -> Vec<Token> {
    let mut t = vec![Token::BeginArray];
    for v in items {
        t.extend(v.iter().cloned());
    }
    t.push(Token::EndArray);
    t
}

fn pointer(offset: i64) -> Vec<Token> {
    obj(&[("offset", n(offset)), ("pointer_token", n(4294967295))])
}

fn object(name: &str, fields: Vec<Token>) -> GraphObject {
    GraphObject { class_tag: 20, class_name: name.into(), token: 4294967295, start: 2, fields_end: 4, fields }
}

fn edge(source: usize, offset: usize, target: usize) -> GraphEdge {
    GraphEdge {
        source_object_index: source,
        pointer_offset: offset,
        pointer_token: 4294967295,
        target_object_index: target,
        target_class_tag: 20,
    }
}

fn graph(consumed_bytes: usize, objects: Vec<GraphObject>, edges: Vec<GraphEdge>) -> ObjectGraph {
    ObjectGraph { consumed_bytes, objects, edges }
}

#[test]
fn global_driver_changes_readonly_without_changing_stored_value() {
    let mut registry = Registry::new();
    for (id, class) in [(42, "ParamElemExternal"), (43, "ParamElemGlobal")] {
        let definition = graph(
            12,
            vec![
                object(class, obj(&[("m_id", n(id)), ("m_pParamDef", pointer(2))])),
                object(
                    "ParamDefValue",
                    obj(&[
                        ("m_caption", s("Length")),
                        ("m_paramElemId", n(id)),
                        ("m_readOnly", b(false)),
                        ("m_specTypeId", obj(&[("m_typeId", s("length"))])),
                    ]),
                ),
            ],
            vec![edge(0, 2, 1)],
        );
        registry.insert(project_definition(&definition).unwrap().unwrap()).unwrap();
    }
    let mut g = graph(
        12,
        vec![
            object(
                "FamilyInstance",
                obj(&[
                    ("m_cellList", pointer(4)),
                    ("m_masterSymbolId", n(-1)),
                    ("m_pParamValueSetDouble", pointer(2)),
                ]),
            ),
            object("ParamValueSetDouble", obj(&[("m_paramSet", arr(&[obj(&[("m_paramId", n(42)), ("m_value", f(14.375))])]))])),
            object("CellList", obj(&[("m_cells", arr(&[pointer(6)]))])),
            object(
                "ProjectParametrizedElemParamsCell",
                obj(&[(
                    "m_paramDrivenData",
                    arr(&[obj(&[
                        ("m_bIsSymbol", b(false)),
                        ("m_elemPropId", n(42)),
                        ("m_famParamId", n(43)),
                        ("m_geomTag", n(-1)),
                    ])]),
                )]),
            ),
        ],
        vec![edge(0, 2, 1), edge(0, 4, 2), edge(2, 6, 3)],
    );
    let associated = project_with_definitions(&g, &registry).unwrap();
    assert_eq!(associated.declared_custom_parameters[0].is_read_only, Some(true));
    assert_eq!(associated.declared_custom_parameters[0].associated_global_parameter_id, Some(43));
    assert_eq!(associated.parameter_sets[0].parameters[0].raw_value, f(14.375));
    g.objects[2].fields = obj(&[("m_cells", arr(&[]))]);
    let unassociated = project_with_definitions(&g, &registry).unwrap();
    assert_eq!(unassociated.declared_custom_parameters[0].is_read_only, Some(false));
    assert!(unassociated.global_parameter_associations.is_empty());
}

#[test]
fn family_symbol_name_requires_the_resolved_same_document_family() {
    let g = graph(12, vec![object("FamilySymbol", obj(&[("m_familyId", n(41))]))], vec![]);
    let mut registry = Registry::new();
    registry.family_names.insert(41, "Witnessed family".into());
    registry.family_omniclass_codes.insert(41, "23.25.05.17".into());
    registry.family_classification_descriptions.insert(41, "Witnessed classification".into());
    registry.family_structural_code_names.insert(41, "Witnessed code name".into());
    let projected = project_with_definitions(&g, &registry).unwrap();
    let parameter = projected.raw_field_parameters.iter().find(|p| p.parameter_id == -1002002).unwrap();
    assert_eq!(parameter.storage_type, "String");
    assert_eq!(parameter.raw_value, s("Witnessed family"));
    assert_eq!(parameter.source_element_id, Some(41));
    assert_eq!(parameter.projection_rule, "owner_symbol_family_name_reference_chain");
    let text = |id: i64| {
        projected.raw_field_parameters.iter().find(|p| p.parameter_id == id).map(|p| p.raw_value.clone())
    };
    assert_eq!(text(-1_002_502), Some(s("23.25.05.17")));
    assert_eq!(text(-1_002_503), Some(s("Witnessed classification")));
    assert_eq!(text(-1_005_556), Some(s("Witnessed code name")));
    let absent = project_with_definitions(&g, &Registry::new()).unwrap();
    assert!(absent.raw_field_parameters.iter().all(|p| p.parameter_id != -1002002));
}

/// A two-object definition graph owned by parameter 42.
fn definition_graph(class: &str, binding_ids: Vec<Token>) -> ObjectGraph {
    graph(
        200,
        vec![
            object("ParamElemExternal", obj(&[("m_bindingIds", binding_ids), ("m_id", n(42)), ("m_pParamDef", pointer(90))])),
            object(class, obj(&[("m_caption", s("Same caption")), ("m_paramElemId", n(42))])),
        ],
        vec![edge(0, 90, 1)],
    )
}

fn owner(class: &str, fields: Vec<Token>) -> ObjectGraph {
    graph(200, vec![object(class, fields)], vec![])
}

#[test]
fn absent_state_requires_category_kind_and_bidirectional_binding() {
    let definition = project_definition(&definition_graph("ParamDefString", arr(&[n(7)]))).unwrap().unwrap();
    let mut registry = Registry::new();
    registry.insert(definition).unwrap();
    registry
        .ingest_binding_context(&owner(
            "ParamBinding",
            obj(&[("m_id", n(7)), ("m_paramId", n(42)), ("m_categoryId", n(99)), ("m_elemOrSymbol", n(2))]),
        ))
        .unwrap();
    registry.ingest_binding_context(&owner("Family", obj(&[("m_id", n(8)), ("m_categoryId", n(99))]))).unwrap();
    let mut symbol = owner("FamilySymbol", obj(&[("m_id", n(10)), ("m_familyId", n(8))]));
    registry.ingest_binding_context(&symbol).unwrap();
    let projected = project_with_definitions(&symbol, &registry).unwrap();
    assert_eq!(projected.declared_custom_parameters.len(), 1);
    assert!(!projected.declared_custom_parameters[0].has_value);
    assert_eq!(projected.declared_custom_parameters[0].binding_id, Some(7));
    assert_eq!(projected.parameter_definitions[0].parameter_id, 42);
    let instance = owner("FamilyInstance", obj(&[("m_id", n(11)), ("m_masterSymbolId", n(10))]));
    assert!(registry.matching_bindings(&instance).unwrap().is_empty());
    symbol.objects[0].fields = obj(&[("m_id", n(10)), ("m_familyId", n(8))]);
    registry.definitions.get_mut(&42).unwrap().owner_fields = vec![("m_bindingIds".to_string(), arr(&[]))];
    assert!(registry.matching_bindings(&symbol).is_err());
}

#[test]
fn stored_ifc_parameter_overrides_parameter_value_without_changing_default() {
    let g = graph(2, vec![GraphObject { class_tag: 20, class_name: "FamilyInstance".into(), token: 0, start: 2, fields_end: 2, fields: obj(&[]) }], vec![]);
    let mut metadata = project(&g).unwrap();
    let default = "2dcivZ8tT0cvrYU1_3B247";
    // Without the built-in catalog nothing is claimed.
    let stored = stored_parameters(&metadata.parameter_sets);
    assert!(effective_ifc_parameter("FamilyInstance", false, &stored, default).unwrap().is_none());
    assert_eq!(effective_ifc_parameter("FamilyInstance", true, &stored, default).unwrap().unwrap().value, default);
    metadata.parameter_sets.push(SavedParameterSet {
        source_object: 7,
        root_pointer_field: "m_pParamValueSetAString".into(),
        parameters: vec![Parameter {
            serialized_parameter_id: -1019000,
            storage_type: "String".into(),
            raw_value: s("0AAAAAAAAAAAAAAAAAAAAA"),
        }],
    });
    let stored = stored_parameters(&metadata.parameter_sets);
    let effective = effective_ifc_parameter("FamilyInstance", true, &stored, default).unwrap().unwrap();
    assert_eq!(effective.value, "0AAAAAAAAAAAAAAAAAAAAA");
    assert_eq!(effective.value_source, "stored_parameter_override");
    assert_eq!(effective.stored_source_object, Some(7));
    assert_eq!(default, "2dcivZ8tT0cvrYU1_3B247");
}

#[test]
fn typed_values_and_family_slots_declare_custom_parameters() {
    let mut registry = Registry::new();
    registry.insert(project_definition(&definition_graph("ParamDefString", arr(&[]))).unwrap().unwrap()).unwrap();
    // A typed set stores parameter 42; the family slots of another object
    // are not the owner's own.
    let g = graph(
        12,
        vec![
            object(
                "FamilyInstance",
                obj(&[
                    ("m_masterSymbolId", n(10)),
                    ("m_pInstParams", pointer(4)),
                    ("m_pParamValueSetAString", pointer(2)),
                ]),
            ),
            object("ParamValueSetAString", obj(&[("m_paramSet", arr(&[obj(&[("m_paramId", n(42)), ("m_value", s("A"))])]))])),
            object(
                "FamilyParams",
                obj(&[(
                    "m_params",
                    arr(&[obj(&[
                        ("m_paramId", n(42)),
                        ("m_instance", b(true)),
                        ("m_reporting", b(false)),
                        ("m_value", f(0.0)),
                        ("m_int", n(0)),
                        ("m_str", s("B")),
                        ("m_elemId", n(-1)),
                        ("m_oExpression", obj(&[("pointer_token", n(0))])),
                    ])]),
                )]),
            ),
        ],
        vec![edge(0, 2, 1), edge(0, 4, 2)],
    );
    // The slots belong to the owner's own parameters, so 42 is stored twice.
    assert_eq!(
        project_with_definitions(&g, &registry).err(),
        Some("custom parameter present in both owner typed set and family slots".to_string())
    );
    let mut typed_only = g.clone();
    typed_only.edges = vec![edge(0, 2, 1)];
    let projected = project_with_definitions(&typed_only, &registry).unwrap();
    assert_eq!(projected.declared_custom_parameters.len(), 1);
    let declared = &projected.declared_custom_parameters[0];
    assert_eq!(declared.has_value_evidence, "validated_present_owner_typed_parameter");
    assert_eq!(declared.source_object, Some(1));
    assert!(projected.resolved_family_parameters.is_empty());
    assert_eq!(projected.parameter_definitions.len(), 1);
    // A non-family owner declares nothing.
    let mut wall = typed_only.clone();
    wall.objects[0].class_name = "SWall".into();
    let projected = project_with_definitions(&wall, &registry).unwrap();
    assert!(projected.declared_custom_parameters.is_empty());
    assert_eq!(projected.parameter_definitions.len(), 1);
}
