use rvt_native::extensible_storage::{Catalog, CatalogError, Field, Schema};
use serde_json::Value;

fn field(index: u32, name: &str) -> Field {
    Field {
        index,
        name: name.into(),
        field_type: "int".into(),
        container_type: 0,
        subschema_guid: None,
        spec_type_id: None,
        raw_metadata: Value::Null,
    }
}

fn schema(guid: &str, fields: Vec<Field>) -> Schema {
    Schema { guid: guid.into(), name: "Order".into(), fields, source_bound_payload_prefix_bytes: None, raw_metadata: Value::Null }
}

#[test]
fn declaration_order_is_not_field_index_and_duplicates_are_refused() {
    let mut catalog = Catalog::new();
    catalog.insert(schema("test", vec![field(1, "A"), field(0, "Z")])).unwrap();
    assert!(catalog.insert(schema("test", vec![field(1, "A"), field(0, "Z")])).is_err());
    // The same fields under another GUID, with the first index changed to 0.
    assert!(catalog.insert(schema("other", vec![field(0, "A"), field(0, "Z")])).is_err());
    assert_eq!(catalog.len(), 1);
    assert_eq!(catalog.get("test").unwrap().fields[0].name, "A");
}

#[test]
fn source_bound_catalog_cannot_override_file_local_schema() {
    let guid = "00000000-0000-0000-0000-000000000001";
    let mut file_local = Catalog::new();
    file_local.insert(schema(guid, vec![])).unwrap();
    let mut witness = Catalog::new();
    witness.insert(schema(guid, vec![])).unwrap();
    assert!(file_local.extend_nonconflicting(witness).is_err());
    assert_eq!(file_local.len(), 1);
}

#[test]
fn field_declarations_are_checked_in_order() {
    let mut catalog = Catalog::new();
    assert_eq!(
        catalog.insert(schema("a", vec![field(0, "A"), field(1, "A")])),
        Err(CatalogError::DuplicateFieldName)
    );
    assert_eq!(
        catalog.insert(schema("a", vec![field(0, "A"), field(0, "B")])),
        Err(CatalogError::DuplicateFieldIndex)
    );
    assert_eq!(
        catalog.insert(schema("a", vec![field(0, "A"), field(2, "B")])),
        Err(CatalogError::NoncontiguousFieldIndices)
    );
    assert_eq!(catalog.len(), 0);
}

#[test]
fn merged_declarations_are_kept_in_guid_order() {
    let mut file_local = Catalog::new();
    file_local.insert(schema("b", vec![])).unwrap();
    let mut witness = Catalog::new();
    witness.insert(schema("c", vec![])).unwrap();
    witness.insert(schema("a", vec![field(0, "X")])).unwrap();
    file_local.extend_nonconflicting(witness).unwrap();
    assert_eq!(file_local.len(), 3);
    assert!(file_local.get("a").is_some() && file_local.get("c").is_some());
    let mut conflicting = Catalog::new();
    conflicting.insert(schema("a", vec![])).unwrap();
    conflicting.insert(schema("d", vec![])).unwrap();
    assert_eq!(
        file_local.extend_nonconflicting(conflicting),
        Err(CatalogError::ConflictsWithFileLocal("a".into()))
    );
    // The file-local declaration of "a" is unchanged; "d" was not reached.
    assert_eq!(file_local.get("a").unwrap().fields.len(), 1);
    assert!(file_local.get("d").is_none());
}

#[test]
fn source_bound_prefixes_follow_the_declared_lengths_in_guid_order() {
    let mut catalog = Catalog::new();
    let mut second = schema("00000000-0000-0000-0000-000000000002", vec![]);
    second.source_bound_payload_prefix_bytes = Some(8);
    catalog.insert(second).unwrap();
    catalog.insert(schema("00000000-0000-0000-0000-000000000001", vec![])).unwrap();
    assert_eq!(catalog.source_bound_prefixes(), vec![0, 8]);
}
