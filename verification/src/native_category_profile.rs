//! Closed `BuiltInCategory` vocabularies for the BIM delivery product.
//!
//! The values are a caller convenience over the native numeric category
//! contract, not a decoder fallback: they follow Autodesk's documented
//! `BuiltInCategory` enum for Revit 2025.3, unchanged in the 2027 enum.
//! Unknown labels deliberately fail.
use vstd::prelude::*;
use std::collections::BTreeSet;

use crate::text::{push_str, str_eq};

verus! {

broadcast use vstd::std_specs::btree::group_btree_axioms;

/// Version tag of the checked vocabulary.
pub const VOCABULARY_VERSION: &'static str = "revit-2025.3-2027-bim-product-v1";

/// Why a label, a profile or a label list was refused.
#[derive(Clone, Debug)]
pub enum CategoryError {
    /// The profile name is not one of [`profile_names`].
    UnknownProfile(String),
    /// The label is not in the vocabulary.
    UnknownLabel(String),
    /// The label resolves to an id already resolved from an earlier label.
    DuplicateLabel(String),
}

/// The quoted, escaped form that `Debug` gives a text.
pub uninterp spec fn debug_quoted_text(s: Seq<char>) -> Seq<char>;

/// `<str as Debug>::fmt`: a text in double quotes with its special
/// characters escaped. Its result is named, not stated: it depends on the
/// text alone.
#[verifier::external_body]
fn debug_quoted(s: &str) -> (r: String)
    ensures
        r@ == debug_quoted_text(s@),
{
    format!("{:?}", s)
}

/// The text that explains a refusal.
pub open spec fn category_error_text(e: CategoryError) -> Seq<char> {
    match e {
        CategoryError::UnknownProfile(n) => "unknown native category profile "@ + debug_quoted_text(n@)
            + "; supported: arch-bul-v1, mep-bul-v1"@,
        CategoryError::UnknownLabel(l) => "unknown native BuiltInCategory label "@ + debug_quoted_text(l@)
            + " in vocabulary "@ + VOCABULARY_VERSION@,
        CategoryError::DuplicateLabel(l) => "duplicate native BuiltInCategory label "@ + debug_quoted_text(l@),
    }
}

impl CategoryError {
    /// The text that explains the refusal; an unknown profile lists the
    /// supported ones.
    pub fn message(&self) -> (r: String)
        ensures
            r@ == category_error_text(*self),
    {
        let mut out = String::new();
        match self {
            CategoryError::UnknownProfile(n) => {
                push_str(&mut out, "unknown native category profile ");
                push_str(&mut out, debug_quoted(n.as_str()).as_str());
                push_str(&mut out, "; supported: arch-bul-v1, mep-bul-v1");
            },
            CategoryError::UnknownLabel(l) => {
                push_str(&mut out, "unknown native BuiltInCategory label ");
                push_str(&mut out, debug_quoted(l.as_str()).as_str());
                push_str(&mut out, " in vocabulary ");
                push_str(&mut out, VOCABULARY_VERSION);
            },
            CategoryError::DuplicateLabel(l) => {
                push_str(&mut out, "duplicate native BuiltInCategory label ");
                push_str(&mut out, debug_quoted(l.as_str()).as_str());
            },
        }
        assert(out@ =~= category_error_text(*self));
        out
    }
}

/// The checked vocabulary: label and native category id.
pub open spec fn category_table() -> Seq<(Seq<char>, i64)> {
    seq![
        ("OST_CableTray"@, -2008130i64),
        ("OST_CableTrayFitting"@, -2008126i64),
        ("OST_Casework"@, -2001000i64),
        ("OST_Ceilings"@, -2000038i64),
        ("OST_Columns"@, -2000100i64),
        ("OST_CommunicationDevices"@, -2008081i64),
        ("OST_Conduit"@, -2008132i64),
        ("OST_ConduitFitting"@, -2008128i64),
        ("OST_CurtainWallMullions"@, -2000171i64),
        ("OST_CurtainWallPanels"@, -2000170i64),
        ("OST_DataDevices"@, -2008083i64),
        ("OST_Doors"@, -2000023i64),
        ("OST_DuctAccessory"@, -2008016i64),
        ("OST_DuctCurves"@, -2008000i64),
        ("OST_DuctFitting"@, -2008010i64),
        ("OST_DuctInsulations"@, -2008123i64),
        ("OST_DuctSystem"@, -2008015i64),
        ("OST_DuctTerminal"@, -2008013i64),
        ("OST_ElectricalEquipment"@, -2001040i64),
        ("OST_ElectricalFixtures"@, -2001060i64),
        ("OST_FireAlarmDevices"@, -2008085i64),
        ("OST_FlexDuctCurves"@, -2008020i64),
        ("OST_FlexPipeCurves"@, -2008050i64),
        ("OST_Floors"@, -2000032i64),
        ("OST_Furniture"@, -2000080i64),
        ("OST_FurnitureSystems"@, -2001100i64),
        ("OST_GenericModel"@, -2000151i64),
        ("OST_Grids"@, -2000220i64),
        ("OST_Levels"@, -2000240i64),
        ("OST_LightingDevices"@, -2008087i64),
        ("OST_LightingFixtures"@, -2001120i64),
        ("OST_MEPSpaces"@, -2003600i64),
        ("OST_MechanicalEquipment"@, -2001140i64),
        ("OST_NurseCallDevices"@, -2008077i64),
        ("OST_PipeAccessory"@, -2008055i64),
        ("OST_PipeCurves"@, -2008044i64),
        ("OST_PipeFitting"@, -2008049i64),
        ("OST_PipeInsulations"@, -2008122i64),
        ("OST_PipingSystem"@, -2008043i64),
        ("OST_PlumbingFixtures"@, -2001160i64),
        ("OST_Railings"@, -2000175i64),
        ("OST_Ramps"@, -2000180i64),
        ("OST_Roofs"@, -2000035i64),
        ("OST_Rooms"@, -2000160i64),
        ("OST_SecurityDevices"@, -2008079i64),
        ("OST_SpecialityEquipment"@, -2001350i64),
        ("OST_Sprinklers"@, -2008099i64),
        ("OST_Stairs"@, -2000120i64),
        ("OST_StairsLandings"@, -2000920i64),
        ("OST_StairsRuns"@, -2000919i64),
        ("OST_StructuralColumns"@, -2001330i64),
        ("OST_StructuralFoundation"@, -2001300i64),
        ("OST_StructuralFraming"@, -2001320i64),
        ("OST_TelephoneDevices"@, -2008075i64),
        ("OST_Walls"@, -2000011i64),
        ("OST_Windows"@, -2000014i64),
    ]
}

/// Serialized owner classes whose category is a structural class fact.
pub open spec fn owner_class_table() -> Seq<(Seq<char>, i64)> {
    seq![
        ("CableTray"@, -2008130i64),
        ("RbsCableTrayCurve"@, -2008130i64),
        ("RbsConduitCurve"@, -2008132i64),
        ("RbsDuctCurve"@, -2008000i64),
        ("RbsDuctInsulation"@, -2008123i64),
        ("RbsFlexDuctCurve"@, -2008020i64),
        ("RbsFlexPipeCurve"@, -2008050i64),
        ("RbsHvacSystem"@, -2008015i64),
        ("RbsHvacSystemType"@, -2008015i64),
        ("RbsPipeCurve"@, -2008044i64),
        ("RbsPipeInsulation"@, -2008122i64),
        ("RbsPipingSystem"@, -2008043i64),
        ("RbsPipingSystemType"@, -2008043i64),
        ("Level"@, -2000240i64),
        ("LevelAttributes"@, -2000240i64),
        ("SWall"@, -2000011i64),
        ("BasicWallType"@, -2000011i64),
        ("NewCurtainWallType"@, -2000011i64),
        ("Floor"@, -2000032i64),
        ("FloorAttributes"@, -2000032i64),
        ("Ceiling"@, -2000038i64),
        ("CompoundCeilingType"@, -2000038i64),
        ("Grid"@, -2000220i64),
        ("GridAttributes"@, -2000220i64),
        ("ProfileRoof"@, -2000035i64),
        ("RoofAttributes"@, -2000035i64),
        ("CurtainRoofAttributes"@, -2000035i64),
        ("StairsElement"@, -2000120i64),
        ("StairsType"@, -2000120i64),
        ("StairsAttributes"@, -2000120i64),
        ("StairsRun"@, -2000919i64),
        ("StairsRunType"@, -2000919i64),
        ("StairsLanding"@, -2000920i64),
        ("StairsLandingType"@, -2000920i64),
        ("ContFooting"@, -2001300i64),
        ("ContFootingType"@, -2001300i64),
        ("RampAttributes"@, -2000180i64),
        ("Text3dAttrSymbol"@, -2000151i64),
    ]
}

/// Labels of the `arch-bul-v1` profile.
pub open spec fn arch_bul() -> Seq<Seq<char>> {
    seq![
        "OST_Walls"@,
        "OST_Floors"@,
        "OST_Roofs"@,
        "OST_Ceilings"@,
        "OST_Doors"@,
        "OST_Windows"@,
        "OST_Rooms"@,
        "OST_Stairs"@,
        "OST_StairsRuns"@,
        "OST_StairsLandings"@,
        "OST_Railings"@,
        "OST_Ramps"@,
        "OST_Columns"@,
        "OST_StructuralColumns"@,
        "OST_StructuralFraming"@,
        "OST_StructuralFoundation"@,
        "OST_CurtainWallPanels"@,
        "OST_CurtainWallMullions"@,
        "OST_Furniture"@,
        "OST_FurnitureSystems"@,
        "OST_Casework"@,
        "OST_GenericModel"@,
        "OST_SpecialityEquipment"@,
        "OST_PlumbingFixtures"@,
        "OST_LightingFixtures"@,
        "OST_MechanicalEquipment"@,
        "OST_ElectricalEquipment"@,
        "OST_Levels"@,
        "OST_Grids"@,
    ]
}

/// Labels of the `mep-bul-v1` profile.
pub open spec fn mep_bul() -> Seq<Seq<char>> {
    seq![
        "OST_MechanicalEquipment"@,
        "OST_ElectricalEquipment"@,
        "OST_PipeCurves"@,
        "OST_PipeFitting"@,
        "OST_PipeAccessory"@,
        "OST_PipeInsulations"@,
        "OST_FlexPipeCurves"@,
        "OST_DuctCurves"@,
        "OST_DuctFitting"@,
        "OST_DuctAccessory"@,
        "OST_DuctInsulations"@,
        "OST_FlexDuctCurves"@,
        "OST_DuctTerminal"@,
        "OST_CableTray"@,
        "OST_CableTrayFitting"@,
        "OST_Conduit"@,
        "OST_ConduitFitting"@,
        "OST_ElectricalFixtures"@,
        "OST_LightingFixtures"@,
        "OST_LightingDevices"@,
        "OST_PlumbingFixtures"@,
        "OST_Sprinklers"@,
        "OST_FireAlarmDevices"@,
        "OST_DataDevices"@,
        "OST_CommunicationDevices"@,
        "OST_SecurityDevices"@,
        "OST_TelephoneDevices"@,
        "OST_NurseCallDevices"@,
        "OST_GenericModel"@,
        "OST_SpecialityEquipment"@,
        "OST_Levels"@,
        "OST_PipingSystem"@,
        "OST_DuctSystem"@,
        "OST_MEPSpaces"@,
    ]
}

/// The id of the first entry of `t` labelled `label`.
pub open spec fn lookup_id(t: Seq<(Seq<char>, i64)>, label: Seq<char>) -> Option<i64>
    decreases t.len(),
{
    if t.len() == 0 {
        None
    } else if t[0].0 == label {
        Some(t[0].1)
    } else {
        lookup_id(t.drop_first(), label)
    }
}

/// The label of the first entry of `t` with id `id`.
pub open spec fn lookup_label(t: Seq<(Seq<char>, i64)>, id: i64) -> Option<Seq<char>>
    decreases t.len(),
{
    if t.len() == 0 {
        None
    } else if t[0].1 == id {
        Some(t[0].0)
    } else {
        lookup_label(t.drop_first(), id)
    }
}

/// The views of a table of string-labelled ids.
pub open spec fn table_view(t: Seq<(&str, i64)>) -> Seq<(Seq<char>, i64)> {
    t.map_values(|e: (&str, i64)| (e.0@, e.1))
}

/// The views of a sequence of string slices.
pub open spec fn str_views(t: Seq<&str>) -> Seq<Seq<char>> {
    t.map_values(|e: &str| e@)
}

fn categories() -> (t: Vec<(&'static str, i64)>)
    ensures
        table_view(t@) == category_table(),
{
    let t = vec![
        ("OST_CableTray", -2008130i64),
        ("OST_CableTrayFitting", -2008126i64),
        ("OST_Casework", -2001000i64),
        ("OST_Ceilings", -2000038i64),
        ("OST_Columns", -2000100i64),
        ("OST_CommunicationDevices", -2008081i64),
        ("OST_Conduit", -2008132i64),
        ("OST_ConduitFitting", -2008128i64),
        ("OST_CurtainWallMullions", -2000171i64),
        ("OST_CurtainWallPanels", -2000170i64),
        ("OST_DataDevices", -2008083i64),
        ("OST_Doors", -2000023i64),
        ("OST_DuctAccessory", -2008016i64),
        ("OST_DuctCurves", -2008000i64),
        ("OST_DuctFitting", -2008010i64),
        ("OST_DuctInsulations", -2008123i64),
        ("OST_DuctSystem", -2008015i64),
        ("OST_DuctTerminal", -2008013i64),
        ("OST_ElectricalEquipment", -2001040i64),
        ("OST_ElectricalFixtures", -2001060i64),
        ("OST_FireAlarmDevices", -2008085i64),
        ("OST_FlexDuctCurves", -2008020i64),
        ("OST_FlexPipeCurves", -2008050i64),
        ("OST_Floors", -2000032i64),
        ("OST_Furniture", -2000080i64),
        ("OST_FurnitureSystems", -2001100i64),
        ("OST_GenericModel", -2000151i64),
        ("OST_Grids", -2000220i64),
        ("OST_Levels", -2000240i64),
        ("OST_LightingDevices", -2008087i64),
        ("OST_LightingFixtures", -2001120i64),
        ("OST_MEPSpaces", -2003600i64),
        ("OST_MechanicalEquipment", -2001140i64),
        ("OST_NurseCallDevices", -2008077i64),
        ("OST_PipeAccessory", -2008055i64),
        ("OST_PipeCurves", -2008044i64),
        ("OST_PipeFitting", -2008049i64),
        ("OST_PipeInsulations", -2008122i64),
        ("OST_PipingSystem", -2008043i64),
        ("OST_PlumbingFixtures", -2001160i64),
        ("OST_Railings", -2000175i64),
        ("OST_Ramps", -2000180i64),
        ("OST_Roofs", -2000035i64),
        ("OST_Rooms", -2000160i64),
        ("OST_SecurityDevices", -2008079i64),
        ("OST_SpecialityEquipment", -2001350i64),
        ("OST_Sprinklers", -2008099i64),
        ("OST_Stairs", -2000120i64),
        ("OST_StairsLandings", -2000920i64),
        ("OST_StairsRuns", -2000919i64),
        ("OST_StructuralColumns", -2001330i64),
        ("OST_StructuralFoundation", -2001300i64),
        ("OST_StructuralFraming", -2001320i64),
        ("OST_TelephoneDevices", -2008075i64),
        ("OST_Walls", -2000011i64),
        ("OST_Windows", -2000014i64),
    ];
    assert(table_view(t@) =~= category_table());
    t
}

fn owner_classes() -> (t: Vec<(&'static str, i64)>)
    ensures
        table_view(t@) == owner_class_table(),
{
    let t = vec![
        ("CableTray", -2008130i64),
        ("RbsCableTrayCurve", -2008130i64),
        ("RbsConduitCurve", -2008132i64),
        ("RbsDuctCurve", -2008000i64),
        ("RbsDuctInsulation", -2008123i64),
        ("RbsFlexDuctCurve", -2008020i64),
        ("RbsFlexPipeCurve", -2008050i64),
        ("RbsHvacSystem", -2008015i64),
        ("RbsHvacSystemType", -2008015i64),
        ("RbsPipeCurve", -2008044i64),
        ("RbsPipeInsulation", -2008122i64),
        ("RbsPipingSystem", -2008043i64),
        ("RbsPipingSystemType", -2008043i64),
        ("Level", -2000240i64),
        ("LevelAttributes", -2000240i64),
        ("SWall", -2000011i64),
        ("BasicWallType", -2000011i64),
        ("NewCurtainWallType", -2000011i64),
        ("Floor", -2000032i64),
        ("FloorAttributes", -2000032i64),
        ("Ceiling", -2000038i64),
        ("CompoundCeilingType", -2000038i64),
        ("Grid", -2000220i64),
        ("GridAttributes", -2000220i64),
        ("ProfileRoof", -2000035i64),
        ("RoofAttributes", -2000035i64),
        ("CurtainRoofAttributes", -2000035i64),
        ("StairsElement", -2000120i64),
        ("StairsType", -2000120i64),
        ("StairsAttributes", -2000120i64),
        ("StairsRun", -2000919i64),
        ("StairsRunType", -2000919i64),
        ("StairsLanding", -2000920i64),
        ("StairsLandingType", -2000920i64),
        ("ContFooting", -2001300i64),
        ("ContFootingType", -2001300i64),
        ("RampAttributes", -2000180i64),
        ("Text3dAttrSymbol", -2000151i64),
    ];
    assert(table_view(t@) =~= owner_class_table());
    t
}

fn find_id(t: &Vec<(&'static str, i64)>, label: &str) -> (r: Option<i64>)
    ensures
        r == lookup_id(table_view(t@), label@),
{
    let ghost tv = table_view(t@);
    let mut i: usize = 0;
    assert(tv.skip(0) =~= tv);
    while i < t.len()
        invariant
            tv == table_view(t@),
            i <= t@.len(),
            lookup_id(tv, label@) == lookup_id(tv.skip(i as int), label@),
        decreases t@.len() - i,
    {
        assert(tv.skip(i as int).drop_first() =~= tv.skip(i + 1));
        if str_eq(t[i].0, label) {
            return Some(t[i].1);
        }
        i += 1;
    }
    None
}

fn find_label(t: &Vec<(&'static str, i64)>, id: i64) -> (r: Option<&'static str>)
    ensures
        match r {
            Some(l) => lookup_label(table_view(t@), id) == Some(l@),
            None => lookup_label(table_view(t@), id) is None,
        },
{
    let ghost tv = table_view(t@);
    let mut i: usize = 0;
    assert(tv.skip(0) =~= tv);
    while i < t.len()
        invariant
            tv == table_view(t@),
            i <= t@.len(),
            lookup_label(tv, id) == lookup_label(tv.skip(i as int), id),
        decreases t@.len() - i,
    {
        assert(tv.skip(i as int).drop_first() =~= tv.skip(i + 1));
        if t[i].1 == id {
            return Some(t[i].0);
        }
        i += 1;
    }
    None
}

/// The native category id of a vocabulary label.
pub fn category_id(label: &str) -> (r: Option<i64>)
    ensures
        r == lookup_id(category_table(), label@),
{
    find_id(&categories(), label)
}

/// The vocabulary label of a native category id.
pub fn category_label(id: i64) -> (r: Option<&'static str>)
    ensures
        match r {
            Some(l) => lookup_label(category_table(), id) == Some(l@),
            None => lookup_label(category_table(), id) is None,
        },
{
    find_label(&categories(), id)
}

/// Checked category of a serialized owner class that stores or inherits no
/// category reference.
pub fn owner_class_category_id(class_name: &str) -> (r: Option<i64>)
    ensures
        r == lookup_id(owner_class_table(), class_name@),
{
    find_id(&owner_classes(), class_name)
}

/// Names of the checked category profiles.
pub fn profile_names() -> (r: Vec<&'static str>)
    ensures
        str_views(r@) == seq!["arch-bul-v1"@, "mep-bul-v1"@],
{
    let r = vec!["arch-bul-v1", "mep-bul-v1"];
    assert(str_views(r@) =~= seq!["arch-bul-v1"@, "mep-bul-v1"@]);
    r
}

/// The labels of a checked category profile.
pub fn profile_labels(name: &str) -> (r: Result<Vec<&'static str>, CategoryError>)
    ensures
        name@ == "arch-bul-v1"@ ==> (r matches Ok(v) && str_views(v@) == arch_bul() && v@.len() == 29
            && str_views(v@).contains("OST_Doors"@)),
        name@ != "arch-bul-v1"@ && name@ == "mep-bul-v1"@ ==> (r matches Ok(v) && str_views(v@)
            == mep_bul()),
        name@ != "arch-bul-v1"@ && name@ != "mep-bul-v1"@ ==> (r matches Err(
            CategoryError::UnknownProfile(n),
        ) && n@ == name@),
{
    if str_eq(name, "arch-bul-v1") {
        let v = vec![
            "OST_Walls",
        "OST_Floors",
        "OST_Roofs",
        "OST_Ceilings",
        "OST_Doors",
        "OST_Windows",
        "OST_Rooms",
        "OST_Stairs",
        "OST_StairsRuns",
        "OST_StairsLandings",
        "OST_Railings",
        "OST_Ramps",
        "OST_Columns",
        "OST_StructuralColumns",
        "OST_StructuralFraming",
        "OST_StructuralFoundation",
        "OST_CurtainWallPanels",
        "OST_CurtainWallMullions",
        "OST_Furniture",
        "OST_FurnitureSystems",
        "OST_Casework",
        "OST_GenericModel",
        "OST_SpecialityEquipment",
        "OST_PlumbingFixtures",
        "OST_LightingFixtures",
        "OST_MechanicalEquipment",
        "OST_ElectricalEquipment",
        "OST_Levels",
        "OST_Grids",
        ];
        assert(str_views(v@) =~= arch_bul());
        Ok(v)
    } else if str_eq(name, "mep-bul-v1") {
        let v = vec![
            "OST_MechanicalEquipment",
        "OST_ElectricalEquipment",
        "OST_PipeCurves",
        "OST_PipeFitting",
        "OST_PipeAccessory",
        "OST_PipeInsulations",
        "OST_FlexPipeCurves",
        "OST_DuctCurves",
        "OST_DuctFitting",
        "OST_DuctAccessory",
        "OST_DuctInsulations",
        "OST_FlexDuctCurves",
        "OST_DuctTerminal",
        "OST_CableTray",
        "OST_CableTrayFitting",
        "OST_Conduit",
        "OST_ConduitFitting",
        "OST_ElectricalFixtures",
        "OST_LightingFixtures",
        "OST_LightingDevices",
        "OST_PlumbingFixtures",
        "OST_Sprinklers",
        "OST_FireAlarmDevices",
        "OST_DataDevices",
        "OST_CommunicationDevices",
        "OST_SecurityDevices",
        "OST_TelephoneDevices",
        "OST_NurseCallDevices",
        "OST_GenericModel",
        "OST_SpecialityEquipment",
        "OST_Levels",
        "OST_PipingSystem",
        "OST_DuctSystem",
        "OST_MEPSpaces",
        ];
        assert(str_views(v@) =~= mep_bul());
        Ok(v)
    } else {
        Err(CategoryError::UnknownProfile(name.to_owned()))
    }
}

/// How a label list resolves: `Ok` with the id set, or the first refusal as
/// (0 unknown label, 1 duplicate id) and the label.
pub open spec fn resolve_spec(labels: Seq<Seq<char>>) -> Result<Set<i64>, (int, Seq<char>)>
    decreases labels.len(),
{
    if labels.len() == 0 {
        Ok(Set::empty())
    } else {
        match resolve_spec(labels.drop_last()) {
            Err(e) => Err(e),
            Ok(ids) => match lookup_id(category_table(), labels.last()) {
                None => Err((0, labels.last())),
                Some(id) => if ids.contains(id) {
                    Err((1, labels.last()))
                } else {
                    Ok(ids.insert(id))
                },
            },
        }
    }
}

/// How a profile name resolves: as its label list, or refused as an
/// unknown profile (kind 2).
pub open spec fn profile_resolution(name: Seq<char>) -> Result<Set<i64>, (int, Seq<char>)> {
    if name == "arch-bul-v1"@ {
        resolve_spec(arch_bul())
    } else if name == "mep-bul-v1"@ {
        resolve_spec(mep_bul())
    } else {
        Err((2, name))
    }
}

/// Whether `r` is the outcome that a resolution spec describes: the id set,
/// or the refusal of kind 0 (unknown label), 1 (duplicate) or 2 (unknown
/// profile) with its text.
pub open spec fn resolved_as(r: Result<BTreeSet<i64>, CategoryError>, s: Result<Set<i64>, (int, Seq<char>)>) -> bool {
    match s {
        Ok(ids) => r matches Ok(set) && set@ == ids,
        Err((kind, label)) => if kind == 0 {
            r matches Err(CategoryError::UnknownLabel(l)) && l@ == label
        } else if kind == 1 {
            r matches Err(CategoryError::DuplicateLabel(l)) && l@ == label
        } else {
            r matches Err(CategoryError::UnknownProfile(l)) && l@ == label
        },
    }
}

/// Resolved ids in label order, or the first refusal.
pub(crate) fn resolve_label_ids(labels: &[&str]) -> (r: Result<Vec<i64>, CategoryError>)
    ensures
        match resolve_spec(str_views(labels@)) {
            Ok(ids) => r matches Ok(v) && v@.to_set() == ids,
            Err(e) => r is Err && resolved_as(Err(r->Err_0), Err(e)),
        },
{
    let ghost all = str_views(labels@);
    let table = categories();
    let mut ids: Vec<i64> = Vec::new();
    let mut i: usize = 0;
    assert(ids@.to_set() =~= Set::<i64>::empty());
    assert(all.subrange(0, 0) =~= Seq::<Seq<char>>::empty());
    while i < labels.len()
        invariant
            all == str_views(labels@),
            table_view(table@) == category_table(),
            i <= labels@.len(),
            resolve_spec(all.subrange(0, i as int)) == Ok::<Set<i64>, (int, Seq<char>)>(ids@.to_set()),
        decreases labels@.len() - i,
    {
        let label = labels[i];
        proof {
            assert(all.subrange(0, i + 1).drop_last() =~= all.subrange(0, i as int));
            assert(all.subrange(0, i + 1).last() == label@);
        }
        match find_id(&table, label) {
            None => {
                proof {
                    lemma_resolve_prefix_err(all, (i + 1) as int);
                }
                return Err(CategoryError::UnknownLabel(label.to_owned()));
            },
            Some(id) => {
                if contains_id(&ids, id) {
                    proof {
                        lemma_resolve_prefix_err(all, (i + 1) as int);
                    }
                    return Err(CategoryError::DuplicateLabel(label.to_owned()));
                }
                proof {
                    ids@.lemma_push_to_set_commute(id);
                }
                ids.push(id);
            },
        }
        i += 1;
    }
    proof {
        assert(all.subrange(0, labels@.len() as int) =~= all);
    }
    Ok(ids)
}

fn contains_id(ids: &Vec<i64>, id: i64) -> (r: bool)
    ensures
        r == ids@.to_set().contains(id),
{
    let mut i: usize = 0;
    while i < ids.len()
        invariant
            i <= ids@.len(),
            forall|k: int| 0 <= k < i ==> ids@[k] != id,
        decreases ids@.len() - i,
    {
        if ids[i] == id {
            assert(ids@.contains(id));
            return true;
        }
        i += 1;
    }
    false
}

/// The set of `ids`.
pub(crate) fn set_of(ids: &Vec<i64>) -> (r: BTreeSet<i64>)
    ensures
        r@ == ids@.to_set(),
{
    let mut set: BTreeSet<i64> = BTreeSet::new();
    add_all(&mut set, ids);
    proof {
        assert(set@ =~= ids@.to_set());
    }
    set
}

/// Inserts every id of `ids` into `set`.
pub(crate) fn add_all(set: &mut BTreeSet<i64>, ids: &Vec<i64>)
    ensures
        final(set)@ == old(set)@.union(ids@.to_set()),
{
    let mut i: usize = 0;
    assert(ids@.subrange(0, 0).to_set() =~= Set::<i64>::empty());
    while i < ids.len()
        invariant
            i <= ids@.len(),
            set@ == old(set)@.union(ids@.subrange(0, i as int).to_set()),
        decreases ids@.len() - i,
    {
        set.insert(ids[i]);
        proof {
            assert(ids@.subrange(0, i + 1) =~= ids@.subrange(0, i as int).push(ids@[i as int]));
            ids@.subrange(0, i as int).lemma_push_to_set_commute(ids@[i as int]);
            assert(set@ =~= old(set)@.union(ids@.subrange(0, i + 1).to_set()));
        }
        i += 1;
    }
    proof {
        assert(ids@.subrange(0, ids@.len() as int) =~= ids@);
    }
}

/// Resolves vocabulary labels to their native ids, refusing unknown labels
/// and labels whose id was already resolved.
pub fn resolve_labels(labels: &[&str]) -> (r: Result<BTreeSet<i64>, CategoryError>)
    ensures
        resolved_as(r, resolve_spec(str_views(labels@))),
{
    let ids = resolve_label_ids(labels)?;
    Ok(set_of(&ids))
}

proof fn lemma_resolve_prefix_err(labels: Seq<Seq<char>>, n: int)
    requires
        0 <= n <= labels.len(),
        resolve_spec(labels.subrange(0, n)) is Err,
    ensures
        resolve_spec(labels) == resolve_spec(labels.subrange(0, n)),
    decreases labels.len() - n,
{
    if n < labels.len() {
        let m = labels.len() - 1;
        assert(labels.drop_last().subrange(0, n) =~= labels.subrange(0, n));
        lemma_resolve_prefix_err(labels.drop_last(), n);
    } else {
        assert(labels.subrange(0, n) =~= labels);
    }
}

/// Resolved ids of a profile's labels in label order, or the refusal.
pub(crate) fn resolve_profile_ids(name: &str) -> (r: Result<Vec<i64>, CategoryError>)
    ensures
        match profile_resolution(name@) {
            Ok(ids) => r matches Ok(v) && v@.to_set() == ids,
            Err(e) => r is Err && resolved_as(Err(r->Err_0), Err(e)),
        },
{
    let labels = profile_labels(name)?;
    resolve_label_ids(labels.as_slice())
}

/// Resolves the labels of a checked category profile.
pub fn resolve_profile(name: &str) -> (r: Result<BTreeSet<i64>, CategoryError>)
    ensures
        resolved_as(r, profile_resolution(name@)),
{
    let ids = resolve_profile_ids(name)?;
    Ok(set_of(&ids))
}

} // verus!

verus! {

/// The architectural profile resolves exactly its 29 checked labels
/// (walls, floors, roofs, ceilings, doors, windows, rooms, stairs, railings,
/// ramps, columns, structure, curtain walls, furniture, casework, generic
/// models, equipment and fixtures, levels and grids), and the MEP profile
/// its 34 checked labels; `profile_labels` hands out exactly these lists.
pub proof fn lemma_profiles_hold_their_checked_labels()
    ensures
        arch_bul().len() == 29,
        arch_bul().contains("OST_Walls"@),
        arch_bul().contains("OST_Floors"@),
        arch_bul().contains("OST_Roofs"@),
        arch_bul().contains("OST_Ceilings"@),
        arch_bul().contains("OST_Doors"@),
        arch_bul().contains("OST_Windows"@),
        arch_bul().contains("OST_Rooms"@),
        arch_bul().contains("OST_Stairs"@),
        arch_bul().contains("OST_StairsRuns"@),
        arch_bul().contains("OST_StairsLandings"@),
        arch_bul().contains("OST_Railings"@),
        arch_bul().contains("OST_Ramps"@),
        arch_bul().contains("OST_Columns"@),
        arch_bul().contains("OST_StructuralColumns"@),
        arch_bul().contains("OST_StructuralFraming"@),
        arch_bul().contains("OST_StructuralFoundation"@),
        arch_bul().contains("OST_CurtainWallPanels"@),
        arch_bul().contains("OST_CurtainWallMullions"@),
        arch_bul().contains("OST_Furniture"@),
        arch_bul().contains("OST_FurnitureSystems"@),
        arch_bul().contains("OST_Casework"@),
        arch_bul().contains("OST_GenericModel"@),
        arch_bul().contains("OST_SpecialityEquipment"@),
        arch_bul().contains("OST_PlumbingFixtures"@),
        arch_bul().contains("OST_LightingFixtures"@),
        arch_bul().contains("OST_MechanicalEquipment"@),
        arch_bul().contains("OST_ElectricalEquipment"@),
        arch_bul().contains("OST_Levels"@),
        arch_bul().contains("OST_Grids"@),
        mep_bul().len() == 34,
        mep_bul().contains("OST_MechanicalEquipment"@),
        mep_bul().contains("OST_ElectricalEquipment"@),
        mep_bul().contains("OST_PipeCurves"@),
        mep_bul().contains("OST_PipeFitting"@),
        mep_bul().contains("OST_PipeAccessory"@),
        mep_bul().contains("OST_PipeInsulations"@),
        mep_bul().contains("OST_FlexPipeCurves"@),
        mep_bul().contains("OST_DuctCurves"@),
        mep_bul().contains("OST_DuctFitting"@),
        mep_bul().contains("OST_DuctAccessory"@),
        mep_bul().contains("OST_DuctInsulations"@),
        mep_bul().contains("OST_FlexDuctCurves"@),
        mep_bul().contains("OST_DuctTerminal"@),
        mep_bul().contains("OST_CableTray"@),
        mep_bul().contains("OST_CableTrayFitting"@),
        mep_bul().contains("OST_Conduit"@),
        mep_bul().contains("OST_ConduitFitting"@),
        mep_bul().contains("OST_ElectricalFixtures"@),
        mep_bul().contains("OST_LightingFixtures"@),
        mep_bul().contains("OST_LightingDevices"@),
        mep_bul().contains("OST_PlumbingFixtures"@),
        mep_bul().contains("OST_Sprinklers"@),
        mep_bul().contains("OST_FireAlarmDevices"@),
        mep_bul().contains("OST_DataDevices"@),
        mep_bul().contains("OST_CommunicationDevices"@),
        mep_bul().contains("OST_SecurityDevices"@),
        mep_bul().contains("OST_TelephoneDevices"@),
        mep_bul().contains("OST_NurseCallDevices"@),
        mep_bul().contains("OST_GenericModel"@),
        mep_bul().contains("OST_SpecialityEquipment"@),
        mep_bul().contains("OST_Levels"@),
        mep_bul().contains("OST_PipingSystem"@),
        mep_bul().contains("OST_DuctSystem"@),
        mep_bul().contains("OST_MEPSpaces"@),
{
    assert(arch_bul()[0] == "OST_Walls"@);
    assert(arch_bul()[1] == "OST_Floors"@);
    assert(arch_bul()[2] == "OST_Roofs"@);
    assert(arch_bul()[3] == "OST_Ceilings"@);
    assert(arch_bul()[4] == "OST_Doors"@);
    assert(arch_bul()[5] == "OST_Windows"@);
    assert(arch_bul()[6] == "OST_Rooms"@);
    assert(arch_bul()[7] == "OST_Stairs"@);
    assert(arch_bul()[8] == "OST_StairsRuns"@);
    assert(arch_bul()[9] == "OST_StairsLandings"@);
    assert(arch_bul()[10] == "OST_Railings"@);
    assert(arch_bul()[11] == "OST_Ramps"@);
    assert(arch_bul()[12] == "OST_Columns"@);
    assert(arch_bul()[13] == "OST_StructuralColumns"@);
    assert(arch_bul()[14] == "OST_StructuralFraming"@);
    assert(arch_bul()[15] == "OST_StructuralFoundation"@);
    assert(arch_bul()[16] == "OST_CurtainWallPanels"@);
    assert(arch_bul()[17] == "OST_CurtainWallMullions"@);
    assert(arch_bul()[18] == "OST_Furniture"@);
    assert(arch_bul()[19] == "OST_FurnitureSystems"@);
    assert(arch_bul()[20] == "OST_Casework"@);
    assert(arch_bul()[21] == "OST_GenericModel"@);
    assert(arch_bul()[22] == "OST_SpecialityEquipment"@);
    assert(arch_bul()[23] == "OST_PlumbingFixtures"@);
    assert(arch_bul()[24] == "OST_LightingFixtures"@);
    assert(arch_bul()[25] == "OST_MechanicalEquipment"@);
    assert(arch_bul()[26] == "OST_ElectricalEquipment"@);
    assert(arch_bul()[27] == "OST_Levels"@);
    assert(arch_bul()[28] == "OST_Grids"@);
    assert(mep_bul()[0] == "OST_MechanicalEquipment"@);
    assert(mep_bul()[1] == "OST_ElectricalEquipment"@);
    assert(mep_bul()[2] == "OST_PipeCurves"@);
    assert(mep_bul()[3] == "OST_PipeFitting"@);
    assert(mep_bul()[4] == "OST_PipeAccessory"@);
    assert(mep_bul()[5] == "OST_PipeInsulations"@);
    assert(mep_bul()[6] == "OST_FlexPipeCurves"@);
    assert(mep_bul()[7] == "OST_DuctCurves"@);
    assert(mep_bul()[8] == "OST_DuctFitting"@);
    assert(mep_bul()[9] == "OST_DuctAccessory"@);
    assert(mep_bul()[10] == "OST_DuctInsulations"@);
    assert(mep_bul()[11] == "OST_FlexDuctCurves"@);
    assert(mep_bul()[12] == "OST_DuctTerminal"@);
    assert(mep_bul()[13] == "OST_CableTray"@);
    assert(mep_bul()[14] == "OST_CableTrayFitting"@);
    assert(mep_bul()[15] == "OST_Conduit"@);
    assert(mep_bul()[16] == "OST_ConduitFitting"@);
    assert(mep_bul()[17] == "OST_ElectricalFixtures"@);
    assert(mep_bul()[18] == "OST_LightingFixtures"@);
    assert(mep_bul()[19] == "OST_LightingDevices"@);
    assert(mep_bul()[20] == "OST_PlumbingFixtures"@);
    assert(mep_bul()[21] == "OST_Sprinklers"@);
    assert(mep_bul()[22] == "OST_FireAlarmDevices"@);
    assert(mep_bul()[23] == "OST_DataDevices"@);
    assert(mep_bul()[24] == "OST_CommunicationDevices"@);
    assert(mep_bul()[25] == "OST_SecurityDevices"@);
    assert(mep_bul()[26] == "OST_TelephoneDevices"@);
    assert(mep_bul()[27] == "OST_NurseCallDevices"@);
    assert(mep_bul()[28] == "OST_GenericModel"@);
    assert(mep_bul()[29] == "OST_SpecialityEquipment"@);
    assert(mep_bul()[30] == "OST_Levels"@);
    assert(mep_bul()[31] == "OST_PipingSystem"@);
    assert(mep_bul()[32] == "OST_DuctSystem"@);
    assert(mep_bul()[33] == "OST_MEPSpaces"@);
}

} // verus!
