//! Declared custom parameters, global parameter associations, and the
//! effective IFC identifier parameter of an owner.
use vstd::prelude::*;

use crate::text::str_eq;

verus! {

/// A custom parameter declared for an owner through its category binding.
#[derive(Clone, Debug)]
pub struct DeclaredCustomParameter {
    pub parameter_id: i64,
    pub storage_type: String,
    pub has_value: bool,
    pub has_value_evidence: &'static str,
    pub source_object: Option<usize>,
    pub binding_id: Option<i64>,
    pub owner_category_id: Option<i64>,
    pub is_read_only: Option<bool>,
    pub read_only_evidence: Option<&'static str>,
    pub associated_global_parameter_id: Option<i64>,
}

/// A parameter driven by a global parameter.
#[derive(Clone, Copy, Debug, PartialEq, Eq, Structural)]
pub struct GlobalParameterAssociation {
    pub source_object: usize,
    pub parameter_id: i64,
    pub global_parameter_id: i64,
    pub stored_is_symbol: bool,
    pub geometry_tag: i64,
}

/// The IFC identifier parameter in effect for an owner.
#[derive(Clone, Debug)]
pub struct EffectiveIfcParameter {
    pub parameter_id: i64,
    pub value: String,
    pub value_source: &'static str,
    pub stored_source_object: Option<usize>,
    pub stored_pointer_field: Option<String>,
    pub exporter_behavior: &'static str,
}

/// One serialized parameter of an owner's saved parameter sets.
#[derive(Clone, Debug)]
pub struct StoredParameter {
    /// The object of the parameter set holding it.
    pub source_object: usize,
    /// The root pointer field of that set.
    pub root_pointer_field: String,
    pub serialized_parameter_id: i64,
    pub storage_type: String,
    /// The raw value when it is a string.
    pub raw_string: Option<String>,
}

/// Why the effective IFC parameter could not be resolved.
#[derive(Clone, Copy, Debug, PartialEq, Eq, Structural)]
pub enum IfcParameterError {
    /// More than one stored IFC identifier parameter.
    Ambiguous,
    /// The stored parameter's storage is not `String`.
    NotString,
    /// The stored parameter holds no string.
    StringAbsent,
}

/// The IFC identifier parameter of the classes that have one: instance
/// classes use the instance parameter, type classes the type parameter.
pub open spec fn ifc_parameter_id(class_name: Seq<char>) -> Option<i64> {
    if class_name == "FamilyInstance"@ || class_name == "MaterialElem"@ || class_name == "Level"@
        || class_name == "RbsPipeCurve"@ || class_name == "RbsPipingSystem"@ || class_name
        == "SWall"@ || class_name == "Floor"@ {
        Some(-1019000i64)
    } else if class_name == "FamilySymbol"@ || class_name == "LevelAttributes"@ || class_name
        == "BasicWallType"@ || class_name == "FloorAttributes"@ || class_name == "RbsPipeType"@ {
        Some(-1019001i64)
    } else {
        None
    }
}

fn ifc_parameter_id_exec(class_name: &str) -> (r: Option<i64>)
    ensures
        r == ifc_parameter_id(class_name@),
{
    if str_eq(class_name, "FamilyInstance") || str_eq(class_name, "MaterialElem") || str_eq(
        class_name,
        "Level",
    ) || str_eq(class_name, "RbsPipeCurve") || str_eq(class_name, "RbsPipingSystem") || str_eq(
        class_name,
        "SWall",
    ) || str_eq(class_name, "Floor") {
        Some(-1019000i64)
    } else if str_eq(class_name, "FamilySymbol") || str_eq(class_name, "LevelAttributes")
        || str_eq(class_name, "BasicWallType") || str_eq(class_name, "FloorAttributes") || str_eq(
        class_name,
        "RbsPipeType",
    ) {
        Some(-1019001i64)
    } else {
        None
    }
}

/// Two stored parameters carry the same id.
pub open spec fn ambiguous(stored: Seq<StoredParameter>, id: i64) -> bool {
    exists|i: int, j: int|
        0 <= i < j < stored.len() && (#[trigger] stored[i]).serialized_parameter_id == id
            && (#[trigger] stored[j]).serialized_parameter_id == id
}

/// Some stored parameter carries the id.
pub open spec fn stored_with(stored: Seq<StoredParameter>, id: i64) -> bool {
    exists|i: int| 0 <= i < stored.len() && (#[trigger] stored[i]).serialized_parameter_id == id
}

/// Resolves the witnessed IFC identifier parameter while keeping the
/// independent default export identifier: nothing without the built-in
/// catalog or for other classes; otherwise the one stored string
/// override, or the default identifier when none is stored.
pub fn effective_ifc_parameter(
    class_name: &str,
    builtin_catalog_enabled: bool,
    stored: &[StoredParameter],
    default_guid: &str,
) -> (r: Result<Option<EffectiveIfcParameter>, IfcParameterError>)
    ensures
        !builtin_catalog_enabled || ifc_parameter_id(class_name@) is None ==> r matches Ok(None),
        builtin_catalog_enabled && ifc_parameter_id(class_name@) is Some ==> {
            let id = ifc_parameter_id(class_name@)->0;
            if ambiguous(stored@, id) {
                r == Err::<Option<EffectiveIfcParameter>, IfcParameterError>(IfcParameterError::Ambiguous)
            } else if stored_with(stored@, id) {
                let k = choose|i: int| 0 <= i < stored@.len() && (#[trigger] stored@[i]).serialized_parameter_id == id;
                let p = stored@[k];
                if p.storage_type@ != "String"@ {
                    r == Err::<Option<EffectiveIfcParameter>, IfcParameterError>(IfcParameterError::NotString)
                } else if p.raw_string is None {
                    r == Err::<Option<EffectiveIfcParameter>, IfcParameterError>(IfcParameterError::StringAbsent)
                } else {
                    r matches Ok(Some(e)) && e.parameter_id == id && e.value@ == p.raw_string->0@
                        && e.value_source@ == "stored_parameter_override"@
                        && e.stored_source_object == Some(p.source_object)
                        && e.stored_pointer_field is Some && e.stored_pointer_field->0@ == p.root_pointer_field@
                        && e.exporter_behavior@ == "exporter_use_of_parameter_override_not_inferred"@
                }
            } else {
                r matches Ok(Some(e)) && e.parameter_id == id && e.value@ == default_guid@
                    && e.value_source@ == "derived_default_parameter_value"@
                    && e.stored_source_object is None && e.stored_pointer_field is None
                    && e.exporter_behavior@ == "exporter_use_of_parameter_override_not_inferred"@
            }
        },
{
    if !builtin_catalog_enabled {
        return Ok(None);
    }
    let id = match ifc_parameter_id_exec(class_name) {
        Some(id) => id,
        None => return Ok(None),
    };
    let mut found: Option<usize> = None;
    let mut i: usize = 0;
    while i < stored.len()
        invariant
            i <= stored@.len(),
            builtin_catalog_enabled,
            ifc_parameter_id(class_name@) == Some(id),
            found is None ==> forall|k: int| 0 <= k < i ==> (#[trigger] stored@[k]).serialized_parameter_id != id,
            found matches Some(f) ==> f < i && stored@[f as int].serialized_parameter_id == id
                && forall|k: int| 0 <= k < i && k != f ==> (#[trigger] stored@[k]).serialized_parameter_id != id,
        decreases stored@.len() - i,
    {
        if stored[i].serialized_parameter_id == id {
            if let Some(f) = found {
                proof {
                    assert(stored@[f as int].serialized_parameter_id == id && stored@[i as int].serialized_parameter_id == id);
                }
                return Err(IfcParameterError::Ambiguous);
            }
            found = Some(i);
        }
        i += 1;
    }
    match found {
        None => {
            Ok(Some(EffectiveIfcParameter {
                parameter_id: id,
                value: default_guid.to_owned(),
                value_source: "derived_default_parameter_value",
                stored_source_object: None,
                stored_pointer_field: None,
                exporter_behavior: "exporter_use_of_parameter_override_not_inferred",
            }))
        },
        Some(f) => {
            proof {
                let k = choose|i: int| 0 <= i < stored@.len() && (#[trigger] stored@[i]).serialized_parameter_id == id;
                assert(k == f);
            }
            let p = &stored[f];
            if !str_eq(p.storage_type.as_str(), "String") {
                return Err(IfcParameterError::NotString);
            }
            match &p.raw_string {
                None => Err(IfcParameterError::StringAbsent),
                Some(value) => Ok(Some(EffectiveIfcParameter {
                    parameter_id: id,
                    value: value.clone(),
                    value_source: "stored_parameter_override",
                    stored_source_object: Some(p.source_object),
                    stored_pointer_field: Some(p.root_pointer_field.clone()),
                    exporter_behavior: "exporter_use_of_parameter_override_not_inferred",
                })),
            }
        },
    }
}

} // verus!
