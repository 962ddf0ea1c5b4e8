use rvt_native::identifiers::{derive_default_ifc_guid, guid_string, is_guid};
use rvt_native::metadata::{effective_ifc_parameter, IfcParameterError, StoredParameter};

#[test]
fn default_ifc_identifier_uses_original_suffix_and_rejects_bad_identity() {
    assert_eq!(
        derive_default_ifc_guid("a79ace63-2377-409b-9d62-781f832c2ec9-00000fce").unwrap(),
        "2dcivZ8tT0cvrYU1_3B247"
    );
    assert!(derive_default_ifc_guid("a79ace63-2377-409b-9d62-781f832c2ec9-invalid").is_err());
}

#[test]
fn stored_ifc_parameter_rows_override_the_derived_default() {
    let default = "2dcivZ8tT0cvrYU1_3B247";
    // Without the built-in catalog nothing is resolved.
    assert!(effective_ifc_parameter("FamilyInstance", false, &[], default).unwrap().is_none());
    assert_eq!(
        effective_ifc_parameter("FamilyInstance", true, &[], default).unwrap().unwrap().value,
        default
    );
    let stored = vec![StoredParameter {
        source_object: 7,
        root_pointer_field: "m_pParamValueSetAString".into(),
        serialized_parameter_id: -1019000,
        storage_type: "String".into(),
        raw_string: Some("0AAAAAAAAAAAAAAAAAAAAA".into()),
    }];
    let effective = effective_ifc_parameter("FamilyInstance", true, &stored, default).unwrap().unwrap();
    assert_eq!(effective.value, "0AAAAAAAAAAAAAAAAAAAAA");
    assert_eq!(effective.value_source, "stored_parameter_override");
    assert_eq!(effective.stored_source_object, Some(7));
    assert_eq!(default, "2dcivZ8tT0cvrYU1_3B247");
}

fn stored(id: i64, storage: &str, value: Option<&str>) -> StoredParameter {
    StoredParameter {
        source_object: 1,
        root_pointer_field: "m_pParamValueSet".into(),
        serialized_parameter_id: id,
        storage_type: storage.into(),
        raw_string: value.map(|v| v.to_string()),
    }
}

#[test]
fn ifc_parameter_refusals_are_explicit() {
    let default = "2dcivZ8tT0cvrYU1_3B247";
    let twice = vec![stored(-1019001, "String", Some("a")), stored(-1019001, "String", Some("b"))];
    assert_eq!(effective_ifc_parameter("FamilySymbol", true, &twice, default).unwrap_err(), IfcParameterError::Ambiguous);
    let integer = vec![stored(-1019001, "Integer", Some("a"))];
    assert_eq!(effective_ifc_parameter("FamilySymbol", true, &integer, default).unwrap_err(), IfcParameterError::NotString);
    let absent = vec![stored(-1019001, "String", None)];
    assert_eq!(effective_ifc_parameter("FamilySymbol", true, &absent, default).unwrap_err(), IfcParameterError::StringAbsent);
    // The instance parameter does not apply to a type class.
    let instance = vec![stored(-1019000, "String", Some("a"))];
    let effective = effective_ifc_parameter("FamilySymbol", true, &instance, default).unwrap().unwrap();
    assert_eq!(effective.parameter_id, -1019001);
    assert_eq!(effective.value_source, "derived_default_parameter_value");
    assert!(effective_ifc_parameter("Grid", true, &instance, default).unwrap().is_none());
}

#[test]
fn guid_text_is_lower_case_hex_with_dashes() {
    let raw = [
        0x63, 0xce, 0x9a, 0xa7, 0x77, 0x23, 0x9b, 0x40, 0x9d, 0x62, 0x78, 0x1f, 0x83, 0x2c, 0x2e, 0xc9,
    ];
    let text = guid_string(raw);
    assert_eq!(text, "a79ace63-2377-409b-9d62-781f832c2ec9");
    assert!(is_guid(&text));
    assert!(!is_guid("a79ace63-2377-409b-9d62-781f832c2ec"));
    assert!(!is_guid("a79ace63x2377-409b-9d62-781f832c2ec9"));
}
