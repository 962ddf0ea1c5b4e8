use rvt_native::graph::GraphEdge;
use rvt_native::object_graph::{GraphObject, ObjectGraph};
use rvt_native::metadata_projection::FamilyParameterSlots;
use rvt_native::parameter_definitions::{
    binding_context_facts, is_family_symbol_definition_owner, project, Binding, BindingContextFacts, BuiltinDefinition,
    Registry, RegistryError,
};
use rvt_native::value_grammar::Token;

fn facts(class_name: &str, id: i64) -> BindingContextFacts {
    BindingContextFacts {
        class_name: class_name.into(),
        id,
        parameter_id: None,
        category_id: None,
        elem_or_symbol: None,
        family_id: None,
        name: None,
        omniclass_code: None,
        classification_description: None,
        structural_code_name: None,
    }
}

#[test]
fn facts_record_the_symbol_family_category_chain() {

    let mut registry = Registry::new();
    let mut family = facts("Family", 1532);
    family.category_id = Some(-2000171);
    registry.ingest_binding_facts(&family).unwrap();
    let mut family = facts("Family", 1497);
    family.category_id = Some(-2000170);
    registry.ingest_binding_facts(&family).unwrap();

    let mut symbol = facts("SysMullionFamSym", 17605165);
    symbol.family_id = Some(1532);
    registry.ingest_binding_facts(&symbol).unwrap();
    assert_eq!(registry.symbol_families.get(&17605165), Some(&1532));
    assert_eq!(registry.family_categories.get(&1532), Some(&-2000171));
    let mut symbol = facts("SysPanelFamSym", 5701313);
    symbol.family_id = Some(1497);
    registry.ingest_binding_facts(&symbol).unwrap();
    assert_eq!(registry.symbol_families.get(&5701313), Some(&1497));
    assert_eq!(registry.family_categories.get(&1497), Some(&-2000170));
}

#[test]
fn restated_facts_must_agree_and_earlier_facts_stay() {
    let mut registry = Registry::new();
    let mut binding = facts("ParamBinding", 7);
    binding.parameter_id = Some(42);
    binding.category_id = Some(99);
    binding.elem_or_symbol = Some(2);
    registry.ingest_binding_facts(&binding).unwrap();
    // Ingesting the same owner again changes nothing.
    registry.ingest_binding_facts(&binding).unwrap();
    assert_eq!(
        registry.bindings.get(&7),
        Some(&Binding { binding_id: 7, parameter_id: 42, category_id: 99, elem_or_symbol: 2 })
    );
    binding.category_id = Some(98);
    assert_eq!(registry.ingest_binding_facts(&binding), Err(RegistryError::ConflictingBinding));
    assert_eq!(registry.bindings.get(&7).unwrap().category_id, 99);

    let mut family = facts("Family", 8);
    family.category_id = Some(99);
    family.name = Some("Door".into());
    registry.ingest_binding_facts(&family).unwrap();
    family.name = Some("Window".into());
    family.omniclass_code = Some("23.30".into());
    assert_eq!(registry.ingest_binding_facts(&family), Err(RegistryError::ConflictingFamilyName));
    assert_eq!(registry.family_names.get(&8).map(String::as_str), Some("Door"));
    // The conflicting name stops the later facts.
    assert!(registry.family_omniclass_codes.get(&8).is_none());
    assert_eq!(registry.ingest_binding_facts(&facts("Family", 9)), Err(RegistryError::MissingField));
    assert_eq!(registry.ingest_binding_facts(&facts("Wall", 9)), Err(RegistryError::UnsupportedClass));
}

/// An object's fields as the decoder writes them: one object of members.
fn fields(members: &[(&str, Token)]) -> Vec<Token> {
    let mut t = vec![Token::BeginObject];
    for (k, v) in members {
        t.push(Token::Key((*k).to_string()));
        t.push(v.clone());
    }
    t.push(Token::EndObject);
    t
}

fn num(n: i64) -> Token {
    if n < 0 {
        Token::Int(n)
    } else {
        Token::UInt(n as u64)
    }
}

/// An object of members whose values may be nested.
fn tree(members: &[(&str, Vec<Token>)]) -> Vec<Token> {
    let mut t = vec![Token::BeginObject];
    for (k, v) in members {
        t.push(Token::Key((*k).to_string()));
        t.extend(v.iter().cloned());
    }
    t.push(Token::EndObject);
    t
}

fn list(items: &[Vec<Token>]) -> Vec<Token> {
    let mut t = vec![Token::BeginArray];
    for v in items {
        t.extend(v.iter().cloned());
    }
    t.push(Token::EndArray);
    t
}

fn text(v: &str) -> Vec<Token> {
    vec![Token::Text(v.to_string())]
}

/// A two-object graph whose root is a definition owner of `class`.
fn graph(class: &str) -> ObjectGraph {
    let guid: Vec<Vec<Token>> =
        [245u8, 6, 106, 179, 61, 175, 227, 78, 137, 172, 33, 127, 0, 0, 1, 1].iter().map(|b| vec![num(*b as i64)]).collect();
    ObjectGraph {
        consumed_bytes: 200,
        objects: vec![
            GraphObject {
                class_tag: 10,
                class_name: "ParamElemExternal".into(),
                token: 0,
                start: 2,
                fields_end: 100,
                fields: tree(&[
                    ("m_id", vec![num(42)]),
                    ("m_pParamDef", tree(&[("offset", vec![num(90)]), ("pointer_token", vec![num(4294967295)])])),
                    (
                        "m_externalParamKey",
                        tree(&[("m_guidValue", tree(&[("m_guid", tree(&[("guid_bytes", list(&guid))]))]))]),
                    ),
                ]),
            },
            GraphObject {
                class_tag: 11,
                class_name: class.into(),
                token: 4294967295,
                start: 100,
                fields_end: 200,
                fields: tree(&[
                    ("m_paramElemId", vec![num(42)]),
                    ("m_caption", text("Same caption")),
                    ("m_typeId", tree(&[("m_typeId", text("test:definition"))])),
                ]),
            },
        ],
        edges: vec![GraphEdge {
            source_object_index: 0,
            pointer_offset: 90,
            pointer_token: 4294967295,
            target_object_index: 1,
            target_class_tag: 11,
        }],
    }
}

#[test]
fn witnessed_system_mullion_symbol_uses_its_family_category_chain() {
    assert!(is_family_symbol_definition_owner("FamilySymbol"));
    assert!(is_family_symbol_definition_owner("SysMullionFamSym"));
    assert!(is_family_symbol_definition_owner("SysPanelFamSym"));
    assert!(!is_family_symbol_definition_owner("SysDoorFamSym"));

    let mut registry = Registry::new();
    let mut family = graph("Unused");
    family.objects.truncate(1);
    family.edges.clear();
    family.objects[0].class_name = "Family".into();
    family.objects[0].fields = fields(&[("m_id", num(1532)), ("m_categoryId", num(-2000171))]);
    registry.ingest_binding_context(&family).unwrap();
    family.objects[0].fields = fields(&[("m_id", num(1497)), ("m_categoryId", num(-2000170))]);
    registry.ingest_binding_context(&family).unwrap();

    let mut symbol = graph("Unused");
    symbol.objects.truncate(1);
    symbol.edges.clear();
    symbol.objects[0].class_name = "SysMullionFamSym".into();
    symbol.objects[0].fields = fields(&[("m_id", num(17605165)), ("m_familyId", num(1532))]);
    registry.ingest_binding_context(&symbol).unwrap();
    assert_eq!(registry.symbol_families.get(&17605165), Some(&1532));
    assert_eq!(registry.family_categories.get(&1532), Some(&-2000171));
    symbol.objects[0].class_name = "SysPanelFamSym".into();
    symbol.objects[0].fields = fields(&[("m_id", num(5701313)), ("m_familyId", num(1497))]);
    registry.ingest_binding_context(&symbol).unwrap();
    assert_eq!(registry.symbol_families.get(&5701313), Some(&1497));
    assert_eq!(registry.family_categories.get(&1497), Some(&-2000170));

    symbol.objects[0].class_name = "FamilyInstance".into();
    symbol.objects[0].fields = fields(&[("m_id", num(17429804)), ("m_masterSymbolId", num(17605165))]);
    assert!(registry.matching_bindings(&symbol).unwrap().is_empty());
}

#[test]
fn decoded_binding_and_family_texts_are_recorded() {
    let mut registry = Registry::new();
    let mut binding = graph("Unused");
    binding.objects[0].class_name = "ParamBinding".into();
    binding.objects[0].fields = fields(&[
        ("m_id", num(7)),
        ("m_paramId", num(42)),
        ("m_categoryId", num(99)),
        ("m_elemOrSymbol", num(2)),
    ]);
    registry.ingest_binding_context(&binding).unwrap();
    registry.ingest_binding_context(&binding).unwrap();
    assert_eq!(
        registry.bindings.get(&7),
        Some(&Binding { binding_id: 7, parameter_id: 42, category_id: 99, elem_or_symbol: 2 })
    );
    binding.objects[0].fields = fields(&[
        ("m_id", num(7)),
        ("m_paramId", num(42)),
        ("m_categoryId", num(98)),
        ("m_elemOrSymbol", num(2)),
    ]);
    assert_eq!(
        registry.ingest_binding_context(&binding),
        Err("conflicting parameter bindings".to_string())
    );

    let mut family = graph("Unused");
    family.objects[0].class_name = "Family".into();
    family.objects[0].fields = fields(&[
        ("m_id", num(8)),
        ("m_categoryId", num(99)),
        ("m_name", Token::Text("Door".into())),
        ("m_omniClassCode", Token::UInt(23)),
        ("m_structuralCodeName", Token::Text("W12".into())),
    ]);
    registry.ingest_binding_context(&family).unwrap();
    assert_eq!(registry.family_names.get(&8).map(String::as_str), Some("Door"));
    // A non-text value is no text fact.
    assert!(registry.family_omniclass_codes.get(&8).is_none());
    assert_eq!(registry.family_structural_code_names.get(&8).map(String::as_str), Some("W12"));
    family.objects[0].fields = fields(&[
        ("m_id", num(8)),
        ("m_categoryId", num(99)),
        ("m_name", Token::Text("Window".into())),
    ]);
    assert_eq!(registry.ingest_binding_context(&family), Err("conflicting family names".to_string()));
    family.objects[0].fields = fields(&[("m_id", num(8)), ("m_categoryId", num(100))]);
    assert_eq!(
        registry.ingest_binding_context(&family),
        Err("conflicting family categories".to_string())
    );
}

#[test]
fn decoded_owner_refusals_name_their_cause() {
    let mut registry = Registry::new();
    let mut empty = graph("Unused");
    empty.objects.clear();
    assert_eq!(registry.ingest_binding_context(&empty), Err("empty binding context".to_string()));

    let mut wall = graph("Unused");
    wall.objects[0].class_name = "Wall".into();
    assert_eq!(
        registry.ingest_binding_context(&wall),
        Err("unsupported parameter binding context class".to_string())
    );
    // The id is read before the class is judged.
    wall.objects[0].fields = fields(&[]);
    assert_eq!(
        registry.ingest_binding_context(&wall),
        Err("unsupported saved identifier shape (null)".to_string())
    );

    let mut symbol = graph("Unused");
    symbol.objects[0].class_name = "FamilySymbol".into();
    symbol.objects[0].fields = fields(&[("m_id", num(3)), ("m_familyId", Token::Text("x".into()))]);
    assert_eq!(
        registry.ingest_binding_context(&symbol),
        Err("unsupported saved identifier shape (string)".to_string())
    );
    symbol.objects[0].fields = fields(&[("m_id", num(3)), ("m_familyId", Token::UInt(u64::MAX))]);
    assert_eq!(
        registry.ingest_binding_context(&symbol),
        Err("unsupported saved identifier shape (non-integer number)".to_string())
    );
    symbol.objects[0].fields = vec![
        Token::BeginObject,
        Token::Key("m_id".into()),
        num(3),
        Token::Key("m_familyId".into()),
        Token::BeginObject,
        Token::Key("z".into()),
        Token::Null,
        Token::Key("b".into()),
        Token::BeginArray,
        Token::Bool(true),
        Token::Null,
        Token::EndArray,
        Token::EndObject,
        Token::EndObject,
    ];
    assert_eq!(
        registry.ingest_binding_context(&symbol),
        Err("unsupported saved identifier shape (object keys [b,z])".to_string())
    );
    assert!(registry.symbol_families.is_empty());
}

#[test]
fn nested_saved_ids_are_read_through_m_id_and_m_id64() {
    let nested = vec![
        Token::BeginObject,
        Token::Key("m_id".into()),
        Token::BeginObject,
        Token::Key("m_id".into()),
        Token::BeginObject,
        Token::Key("m_id64".into()),
        num(-5),
        Token::EndObject,
        Token::EndObject,
        Token::Key("m_familyId".into()),
        Token::BeginArray,
        num(1),
        num(2),
        num(3),
        Token::EndArray,
        Token::EndObject,
    ];
    assert_eq!(
        binding_context_facts("FamilySymbol", &nested).err(),
        Some("unsupported saved identifier shape (array length 3)".to_string())
    );
    let facts = binding_context_facts("Family", &fields(&[("m_id", num(1)), ("m_categoryId", num(-7))]))
        .unwrap();
    assert_eq!(facts.id, 1);
    assert_eq!(facts.category_id, Some(-7));
    let facts = binding_context_facts("Other", &nested).unwrap();
    assert_eq!(facts.id, -5);
    assert_eq!(facts.family_id, None);
}

fn units_graph(unit: &str) -> ObjectGraph {
    let mut units = graph("Unused");
    units.objects[0].class_name = "UnitsElem".into();
    units.objects[0].fields = tree(&[(
        "m_units",
        tree(&[(
            "m_formatOptionsMap",
            list(&[tree(&[
                ("first", tree(&[("m_typeId", text("test:length"))])),
                (
                    "second",
                    tree(&[
                        ("m_accuracy", vec![Token::F64(0.1f64.to_bits())]),
                        ("m_unitTypeId", tree(&[("m_typeId", text(unit))])),
                    ]),
                ),
            ])]),
        )]),
    )]);
    units
}

#[test]
fn integer_specs_and_native_units_are_independent_of_values() {
    let yes_no = project(&graph("ParamDefYesNo")).unwrap().unwrap();
    assert_eq!(yes_no.storage_type.as_deref(), Some("Integer"));
    assert_eq!(yes_no.spec_type_id.as_deref(), Some("autodesk.spec:spec.bool-1.0.0"));
    let mut value_graph = graph("ParamDefValue");
    value_graph.objects[1].fields = tree(&[
        ("m_paramElemId", vec![num(42)]),
        ("m_caption", text("Same caption")),
        ("m_specTypeId", tree(&[("m_typeId", text("test:length"))])),
        ("m_typeId", tree(&[("m_typeId", text("test:definition"))])),
    ]);
    let definition = project(&value_graph).unwrap().unwrap();
    let mut units = units_graph("test:millimeters");
    let mut registry = Registry::new();
    registry.insert(definition.clone()).unwrap();
    registry.ingest_units(&units).unwrap();
    assert_eq!(registry.definitions[&42].unit_type_id.as_deref(), Some("test:millimeters"));
    registry.insert(definition).unwrap();
    units = units_graph("test:feet");
    assert!(registry.ingest_units(&units).is_err());
}

#[test]
fn definition_identity_and_material_storage_are_structural() {
    let definition = project(&graph("ParamDefMaterialBrowse")).unwrap().unwrap();
    assert_eq!(definition.storage_type.as_deref(), Some("ElementId"));
    assert_eq!(definition.shared_guid.as_deref(), Some("b36a06f5-af3d-4ee3-89ac-217f00000101"));
    let mut invalid = graph("ParamDefString");
    invalid.objects[1].fields = tree(&[("m_paramElemId", vec![num(43)]), ("m_caption", text("Same caption"))]);
    assert!(project(&invalid).is_err());
    let mut invalid = graph("ParamDefString");
    invalid.edges.clear();
    assert!(project(&invalid).is_err());
}

fn slot() -> FamilyParameterSlots {
    FamilyParameterSlots {
        source_object: 2,
        parameter_id: 42,
        stored_instance_flag: true,
        reporting: false,
        double_slot: vec![num(99)],
        integer_slot: vec![num(77)],
        string_slot: text(""),
        element_id_slot: 6,
        expression_pointer: vec![Token::Null],
    }
}

#[test]
fn zero_slots_are_selected_from_definition_and_conflicts_rejected() {
    let mut registry = Registry::new();
    let definition = project(&graph("ParamDefString")).unwrap().unwrap();
    registry.insert(definition.clone()).unwrap();
    assert_eq!(registry.resolve_slot(&slot()).unwrap().raw_value, text(""));
    let mut conflict = definition;
    conflict.caption = "Different".into();
    assert!(registry.insert(conflict).is_err());
    let mut unknown = Registry::new();
    unknown.insert(project(&graph("ParamDefUnknown")).unwrap().unwrap()).unwrap();
    assert!(unknown.resolve_slot(&slot()).is_none());
}

#[test]
fn definition_projection_reads_specification_and_owner_fields() {
    let definition = project(&graph("ParamDefString")).unwrap().unwrap();
    assert_eq!(definition.parameter_id, 42);
    assert_eq!(definition.source_object, 1);
    assert_eq!(definition.caption, "Same caption");
    assert_eq!(definition.type_id.as_deref(), Some("test:definition"));
    assert_eq!(definition.spec_type_id.as_deref(), Some("autodesk.spec:spec.string-2.0.0"));
    assert_eq!(definition.spec_evidence, "validated_concrete_definition_class");
    assert_eq!(definition.unit_resolution, "not_applicable");
    assert_eq!(definition.is_shared, Some(true));
    assert!(definition.owner_fields.is_empty());
    // A saved specification must agree with the concrete class.
    let mut disagreeing = graph("ParamDefString");
    disagreeing.objects[1].fields = tree(&[
        ("m_paramElemId", vec![num(42)]),
        ("m_caption", text("Same caption")),
        ("m_specTypeId", tree(&[("m_typeId", text("test:length"))])),
    ]);
    assert_eq!(project(&disagreeing).err(), Some("definition class and serialized specification disagree".to_string()));
    // A record without a definition pointer owns none.
    let mut plain = graph("ParamDefString");
    plain.objects[0].fields = tree(&[("m_id", vec![num(42)]), ("m_bindingIds", list(&[vec![num(7)]]))]);
    assert!(project(&plain).unwrap().is_none());
    // Two edges at the pointer are ambiguous.
    let mut ambiguous = graph("ParamDefString");
    let extra = ambiguous.edges[0].clone();
    ambiguous.edges.push(extra);
    assert_eq!(project(&ambiguous).err(), Some("definition pointer must have exactly one edge".to_string()));
}

#[test]
fn bindings_require_category_kind_and_definition_backlink() {
    let mut registry = Registry::new();
    let mut definition_graph = graph("ParamDefString");
    definition_graph.objects[0].fields = tree(&[
        ("m_bindingIds", list(&[vec![num(7)]])),
        ("m_id", vec![num(42)]),
        ("m_pParamDef", tree(&[("offset", vec![num(90)]), ("pointer_token", vec![num(4294967295)])])),
    ]);
    let definition = project(&definition_graph).unwrap().unwrap();
    assert_eq!(definition.owner_fields.len(), 1);
    registry.insert(definition).unwrap();
    let mut binding = graph("Unused");
    binding.objects[0].class_name = "ParamBinding".into();
    binding.objects[0].fields =
        fields(&[("m_id", num(7)), ("m_paramId", num(42)), ("m_categoryId", num(99)), ("m_elemOrSymbol", num(2))]);
    registry.ingest_binding_context(&binding).unwrap();
    let mut family = graph("Unused");
    family.objects[0].class_name = "Family".into();
    family.objects[0].fields = fields(&[("m_id", num(8)), ("m_categoryId", num(99))]);
    registry.ingest_binding_context(&family).unwrap();
    let mut owner = graph("Unused");
    owner.objects.truncate(1);
    owner.edges.clear();
    owner.objects[0].class_name = "FamilySymbol".into();
    owner.objects[0].fields = fields(&[("m_id", num(10)), ("m_familyId", num(8))]);
    registry.ingest_binding_context(&owner).unwrap();
    let matched = registry.matching_bindings(&owner).unwrap();
    assert_eq!(matched, vec![Binding { binding_id: 7, parameter_id: 42, category_id: 99, elem_or_symbol: 2 }]);
    let mut instance = owner.clone();
    instance.objects[0].class_name = "FamilyInstance".into();
    instance.objects[0].fields = fields(&[("m_id", num(11)), ("m_masterSymbolId", num(10))]);
    assert!(registry.matching_bindings(&instance).unwrap().is_empty());
    registry.definitions.get_mut(&42).unwrap().owner_fields = vec![("m_bindingIds".to_string(), list(&[]))];
    assert_eq!(
        registry.matching_bindings(&owner).err(),
        Some("parameter binding lacks definition backlink".to_string())
    );
}

fn builtin(id: i64, storage: &str, spec: &str) -> BuiltinDefinition {
    BuiltinDefinition {
        parameter_id: id,
        caption: "Mark".into(),
        storage_type: storage.into(),
        spec_type_id: spec.into(),
        group_type_id: "autodesk.parameter.group:identity_data-1.0.0".into(),
        is_shared: false,
        unit_type_id: None,
        unit_format_fields: None,
        unit_resolution: String::new(),
        definition_evidence: String::new(),
        caption_locale: String::new(),
    }
}

#[test]
fn builtin_definitions_are_negative_once_and_take_project_units() {
    let mut registry = Registry::new();
    registry.add_builtin_definition(builtin(-1001203, "String", "autodesk.spec:spec.string-2.0.0")).unwrap();
    let mark = &registry.builtin_definitions[&-1001203];
    assert_eq!(mark.caption_locale, "en-US");
    assert_eq!(mark.definition_evidence, "schema_qualified_api_definition_catalog");
    assert_eq!(mark.unit_resolution, "not_applicable");
    assert_eq!(
        registry.add_builtin_definition(builtin(5, "String", "x")).err(),
        Some("built-in catalog contains nonnegative ID".to_string())
    );
    assert_eq!(
        registry.add_builtin_definition(builtin(-1001203, "String", "y")).err(),
        Some("duplicate builtin catalog activation or ID".to_string())
    );
    registry.add_builtin_definition(builtin(-1001375, "Double", "test:length")).unwrap();
    assert_eq!(registry.builtin_definitions[&-1001375].unit_resolution, "unresolved");
    registry.ingest_units(&units_graph("test:millimeters")).unwrap();
    assert_eq!(registry.builtin_definitions[&-1001375].unit_type_id.as_deref(), Some("test:millimeters"));
    let mut length = slot();
    length.parameter_id = -1001375;
    let resolved = registry.resolve_slot(&length).unwrap();
    assert_eq!(resolved.storage_type, "Double");
    assert_eq!(resolved.raw_value, vec![num(99)]);
    let mut missing = slot();
    missing.parameter_id = -7;
    assert!(registry.resolve_slot(&missing).is_none());
}
