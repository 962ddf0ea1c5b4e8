use rvt_native::native_category_profile::{
    category_id, category_label, owner_class_category_id, profile_labels, profile_names,
    resolve_labels, resolve_profile,
};

#[test]
fn bul_profiles_are_closed_and_resolve_to_unique_native_ids() {
    assert_eq!(
        resolve_profile("arch-bul-v1").unwrap().len(),
        profile_labels("arch-bul-v1").unwrap().len()
    );
    assert_eq!(
        resolve_profile("mep-bul-v1").unwrap().len(),
        profile_labels("mep-bul-v1").unwrap().len()
    );
    assert_eq!(category_label(-2_008_044), Some("OST_PipeCurves"));
    assert_eq!(owner_class_category_id("RbsPipeCurve"), Some(-2_008_044));
    assert_eq!(owner_class_category_id("SWall"), Some(-2_000_011));
    assert_eq!(owner_class_category_id("Floor"), Some(-2_000_032));
    assert_eq!(owner_class_category_id("Ceiling"), Some(-2_000_038));
    assert_eq!(owner_class_category_id("Grid"), Some(-2_000_220));
    assert_eq!(owner_class_category_id("ProfileRoof"), Some(-2_000_035));
    assert_eq!(owner_class_category_id("StairsElement"), Some(-2_000_120));
    assert_eq!(owner_class_category_id("StairsRun"), Some(-2_000_919));
    assert_eq!(owner_class_category_id("StairsLanding"), Some(-2_000_920));
    assert_eq!(owner_class_category_id("ContFooting"), Some(-2_001_300));
    for (class_name, category_id) in [
        ("LevelAttributes", -2_000_240),
        ("BasicWallType", -2_000_011),
        ("NewCurtainWallType", -2_000_011),
        ("FloorAttributes", -2_000_032),
        ("CompoundCeilingType", -2_000_038),
        ("GridAttributes", -2_000_220),
        ("RoofAttributes", -2_000_035),
        ("CurtainRoofAttributes", -2_000_035),
        ("StairsType", -2_000_120),
        ("StairsAttributes", -2_000_120),
        ("StairsRunType", -2_000_919),
        ("StairsLandingType", -2_000_920),
        ("ContFootingType", -2_001_300),
        ("RampAttributes", -2_000_180),
        ("Text3dAttrSymbol", -2_000_151),
    ] {
        assert_eq!(owner_class_category_id(class_name), Some(category_id));
    }
    assert!(owner_class_category_id("RoomElem").is_none());
    assert!(owner_class_category_id("UnqualifiedNativeClass").is_none());
    assert!(resolve_profile("not-a-profile").is_err());
    assert!(resolve_labels(&["OST_NotARevitCategory"]).is_err());
}

#[test]
fn labels_and_ids_round_trip_through_the_vocabulary() {
    assert_eq!(category_id("OST_PipeCurves"), Some(-2_008_044));
    assert_eq!(category_id("OST_Walls"), Some(-2_000_011));
    assert_eq!(category_id("Walls"), None);
    assert_eq!(category_label(category_id("OST_Floors").unwrap()), Some("OST_Floors"));
    assert_eq!(category_label(1), None);
}

#[test]
fn profile_names_are_the_checked_profiles() {
    assert_eq!(profile_names(), vec!["arch-bul-v1", "mep-bul-v1"]);
    assert!(profile_labels("arch-bul-v1").unwrap().contains(&"OST_Walls"));
    assert!(profile_labels("mep-bul-v1").unwrap().contains(&"OST_PipeCurves"));
}

#[test]
fn repeated_labels_are_refused() {
    assert!(resolve_labels(&["OST_Walls", "OST_Walls"]).is_err());
    let ids = resolve_labels(&["OST_Walls", "OST_Floors"]).unwrap();
    assert_eq!(ids.len(), 2);
}

#[test]
fn unknown_profile_message_lists_the_supported_profiles() {
    let error = profile_labels("nope").unwrap_err();
    assert_eq!(
        error.message(),
        "unknown native category profile \"nope\"; supported: arch-bul-v1, mep-bul-v1"
    );
}
