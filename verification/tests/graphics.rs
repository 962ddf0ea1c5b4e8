use rvt_native::graphics::{current_graph_owner_matches, graphics_visibility};

#[test]
fn current_graph_owner_supports_older_tag_without_overriding_present_identity() {
    // {"m_GInfo":{"m_tag":42}}
    assert!(current_graph_owner_matches("GElement", None, Some(42), 42));
    assert!(!current_graph_owner_matches("GElement", None, Some(42), 43));
    // m_elementId = 43 is present
    assert!(!current_graph_owner_matches("GElement", Some(Some(43)), Some(42), 42));
    assert!(current_graph_owner_matches("GElement", Some(Some(43)), Some(42), 43));
}

#[test]
fn non_element_roots_and_malformed_ids_never_match() {
    assert!(!current_graph_owner_matches("GNode", Some(Some(42)), None, 42));
    assert!(!current_graph_owner_matches("GElement", Some(None), Some(42), 42));
    assert!(!current_graph_owner_matches("GElement", None, None, 42));
}

#[test]
fn visibility_classes_follow_the_flag_bits() {
    assert_eq!(graphics_visibility(0), 0);
    assert_eq!(graphics_visibility(0xe0), 3);
    assert_eq!(graphics_visibility(0x20), 1);
    assert_eq!(graphics_visibility(0x40), 2);
    assert_eq!(graphics_visibility(0x100), 1);
    assert_eq!(graphics_visibility(0x180), 2);
    assert_eq!(graphics_visibility(0x1e0), 2);
}

use rvt_native::graphics::{condition, condition_at_detail, ConditionError};

#[test]
fn visibility_conditions_and_unknown_type() {
    // {"m_param":1,"m_value":3,"m_comp":3}
    assert_eq!(condition("GConditionInt", Some(1), Some(3), Some(3)), Ok(false));
    // {"m_param":3,"m_value":1,"m_comp":0}
    assert_eq!(condition("GConditionInt", Some(3), Some(1), Some(0)), Ok(true));
    // {"m_param":7,"m_value":3,"m_comp":0}
    assert!(condition("GConditionInt", Some(7), Some(3), Some(0)).is_err());
    // GConditionCut with {}
    assert!(condition("GConditionCut", None, None, None).is_err());
}

#[test]
fn explicit_detail_profile_changes_only_detail_condition() {
    // {"m_param":3,"m_value":1,"m_comp":0}
    assert_eq!(condition_at_detail("GConditionInt", Some(3), Some(1), Some(0), 1), Ok(false));
    assert_eq!(condition_at_detail("GConditionInt", Some(3), Some(1), Some(0), 2), Ok(true));
    assert_eq!(condition_at_detail("GConditionInt", Some(3), Some(1), Some(0), 3), Ok(true));
}

#[test]
fn condition_comparisons_and_refusals() {
    assert_eq!(condition("GConditionViewType", Some(6), Some(0), Some(-1)), Ok(true));
    assert_eq!(condition("GConditionVModeType", Some(1), Some(5), Some(1)), Ok(true));
    assert_eq!(condition("GConditionInt", Some(1), Some(4), Some(2)), Ok(true));
    assert_eq!(condition("GConditionInt", Some(1), Some(4), Some(4)), Ok(true));
    assert_eq!(condition("GConditionInt", Some(1), Some(4), Some(5)), Ok(false));
    assert_eq!(condition("GConditionInt", Some(7), Some(2), Some(0)), Ok(true));
    assert_eq!(condition("GConditionInt", Some(9), Some(2), Some(0)), Err(ConditionError::UnsupportedParameter(9)));
    assert_eq!(condition("GConditionInt", None, Some(2), Some(0)), Err(ConditionError::MissingParameter));
    assert_eq!(condition("GConditionInt", Some(1), None, Some(0)), Err(ConditionError::MissingValue));
    assert_eq!(condition("GConditionInt", Some(1), Some(2), Some(9)), Err(ConditionError::UnsupportedComparison));
    assert_eq!(condition("GConditionCut", Some(1), Some(2), Some(0)), Err(ConditionError::UnsupportedCondition));
}
