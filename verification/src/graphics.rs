//! Decisions of the saved-graphics traversal that do not need the graph.
use vstd::prelude::*;

use crate::text::str_eq;

verus! {

/// One refusal recorded while walking a saved graphics graph.
#[derive(Clone, Debug)]
pub struct TraversalDiagnostic {
    pub object_index: usize,
    pub message: String,
}

/// Visibility class of a graphics node from its flag word: 0 when none of
/// bits 5..8 is set, 3 when bits 5..7 are all set and bit 8 is clear, and
/// otherwise 1 or 2 by the bit-6/bit-5 (bit 8 clear) or bit-7/bit-5 (bit 8
/// set) pattern.
pub open spec fn spec_graphics_visibility(flags: u64) -> u8 {
    let bits = flags & 0x1e0;
    if bits == 0 {
        0
    } else if bits == 0xe0 {
        3
    } else if bits < 0xe0 {
        if flags & 0x160 == 0x20 {
            1
        } else {
            2
        }
    } else if flags & 0x1a0 == 0x100 {
        1
    } else {
        2
    }
}

/// Visibility class of a graphics node from its flag word.
pub fn graphics_visibility(flags: u64) -> (r: u8)
    ensures
        r == spec_graphics_visibility(flags),
        r <= 3,
        r == 0 <==> flags & 0x1e0 == 0,
        r == 3 <==> flags & 0x1e0 == 0xe0,
{
    let bits = flags & 0x1e0;
    if bits == 0 {
        0
    } else if bits == 0xe0 {
        3
    } else if bits < 0xe0 {
        if flags & 0x160 == 0x20 {
            1
        } else {
            2
        }
    } else if flags & 0x1a0 == 0x100 {
        1
    } else {
        2
    }
}

/// Whether a graph root is the current graphics owner `id`: a `GElement`
/// whose `m_elementId` is `id`, or, when that field is absent, whose
/// `m_GInfo.m_tag` is `id`.  A field that is present but not an unsigned
/// integer is `Some(None)`.
pub fn current_graph_owner_matches(
    class_name: &str,
    element_id: Option<Option<u64>>,
    info_tag: Option<u64>,
    id: u64,
) -> (r: bool)
    ensures
        r == (class_name@ == "GElement"@ && match element_id {
            Some(value) => value == Some(id),
            None => info_tag == Some(id),
        }),
{
    str_eq(class_name, "GElement") && match element_id {
        Some(value) => match value {
            Some(v) => v == id,
            None => false,
        },
        None => match info_tag {
            Some(t) => t == id,
            None => false,
        },
    }
}


/// Why a solid-affecting condition could not be evaluated.
#[derive(Clone, Copy, Debug, PartialEq, Eq, Structural)]
pub enum ConditionError {
    /// The condition class is not one of the integer conditions.
    UnsupportedCondition,
    /// `m_param` is absent or not an integer.
    MissingParameter,
    /// `m_value` is absent or not an integer.
    MissingValue,
    /// The parameter type has no known runtime value.
    UnsupportedParameter(i64),
    /// `m_comp` is absent or not a known comparison.
    UnsupportedComparison,
}

/// The integer condition classes.
pub open spec fn is_integer_condition(class: Seq<char>) -> bool {
    class == "GConditionInt"@ || class == "GConditionViewType"@ || class
        == "GConditionViewDetailLevel"@ || class == "GConditionVModeType"@
}

/// Whether a saved integer condition holds at `detail_level`: the runtime
/// value is 4 for parameter type 1, the detail level for type 3 and 0 for
/// type 6, compared with the saved value by `m_comp`. A type-7 condition
/// saved as 2 with comparison 0 always holds.
pub open spec fn spec_condition(
    class: Seq<char>,
    param: Option<i64>,
    value: Option<i64>,
    comp: Option<i64>,
    detail_level: i64,
) -> Result<bool, ConditionError> {
    if !is_integer_condition(class) {
        Err(ConditionError::UnsupportedCondition)
    } else if param is None {
        Err(ConditionError::MissingParameter)
    } else if value is None {
        Err(ConditionError::MissingValue)
    } else {
        let kind = param->0;
        let saved = value->0;
        if kind == 7 && saved == 2 && comp == Some(0i64) {
            Ok(true)
        } else if kind != 1 && kind != 3 && kind != 6 {
            Err(ConditionError::UnsupportedParameter(kind))
        } else {
            let actual = if kind == 1 {
                4
            } else if kind == 3 {
                detail_level
            } else {
                0
            };
            match comp {
                Some(c) => if c == -1 || c == 3 {
                    Ok(saved == actual)
                } else if c == 0 {
                    Ok(saved != actual)
                } else if c == 1 {
                    Ok(saved > actual)
                } else if c == 2 {
                    Ok(saved >= actual)
                } else if c == 4 {
                    Ok(saved <= actual)
                } else if c == 5 {
                    Ok(saved < actual)
                } else {
                    Err(ConditionError::UnsupportedComparison)
                },
                None => Err(ConditionError::UnsupportedComparison),
            }
        }
    }
}

/// Evaluates a saved integer condition at `detail_level`; see
/// [`spec_condition`].
pub fn condition_at_detail(
    class: &str,
    param: Option<i64>,
    value: Option<i64>,
    comp: Option<i64>,
    detail_level: i64,
) -> (r: Result<bool, ConditionError>)
    ensures
        r == spec_condition(class@, param, value, comp, detail_level),
{
    if !(str_eq(class, "GConditionInt") || str_eq(class, "GConditionViewType") || str_eq(
        class,
        "GConditionViewDetailLevel",
    ) || str_eq(class, "GConditionVModeType")) {
        return Err(ConditionError::UnsupportedCondition);
    }
    let kind = match param {
        Some(k) => k,
        None => return Err(ConditionError::MissingParameter),
    };
    let saved = match value {
        Some(v) => v,
        None => return Err(ConditionError::MissingValue),
    };
    if kind == 7 && saved == 2 && comp == Some(0i64) {
        return Ok(true);
    }
    let actual: i64 = if kind == 1 {
        4
    } else if kind == 3 {
        detail_level
    } else if kind == 6 {
        0
    } else {
        return Err(ConditionError::UnsupportedParameter(kind));
    };
    match comp {
        Some(c) => if c == -1 || c == 3 {
            Ok(saved == actual)
        } else if c == 0 {
            Ok(saved != actual)
        } else if c == 1 {
            Ok(saved > actual)
        } else if c == 2 {
            Ok(saved >= actual)
        } else if c == 4 {
            Ok(saved <= actual)
        } else if c == 5 {
            Ok(saved < actual)
        } else {
            Err(ConditionError::UnsupportedComparison)
        },
        None => Err(ConditionError::UnsupportedComparison),
    }
}

/// How the comparisons of a saved integer condition relate: for a
/// supported condition class with a parameter type of 1, 3 or 6 and a saved
/// value, comparison 3 (and -1) tests the saved value for equality with the
/// runtime value (4 for type 1, the detail level for type 3, 0 for type 6);
/// comparison 0 answers the opposite of 3, 4 the opposite of 1, and 5 the
/// opposite of 2; 2 holds exactly when 1 or 3 does; a parameter type other
/// than 3 answers alike at every detail level; any other comparison is
/// refused. An unsupported class is refused whatever the fields hold.
pub proof fn lemma_condition_comparisons(class: Seq<char>, kind: i64, saved: i64, c: Option<i64>, d: i64, d2: i64)
    ensures
        !is_integer_condition(class) ==> spec_condition(class, Some(kind), Some(saved), c, d) == Err::<bool, ConditionError>(
            ConditionError::UnsupportedCondition,
        ),
        is_integer_condition(class) && (kind == 1 || kind == 3 || kind == 6) ==> {
            let eq = spec_condition(class, Some(kind), Some(saved), Some(3i64), d);
            let actual: int = if kind == 1 { 4 } else if kind == 3 { d as int } else { 0 };
            &&& eq == Ok::<bool, ConditionError>(saved == actual)
            &&& spec_condition(class, Some(kind), Some(saved), Some(-1i64), d) == eq
            &&& spec_condition(class, Some(kind), Some(saved), Some(0i64), d) == Ok::<bool, ConditionError>(!eq->Ok_0)
            &&& spec_condition(class, Some(kind), Some(saved), Some(4i64), d) == Ok::<bool, ConditionError>(
                !spec_condition(class, Some(kind), Some(saved), Some(1i64), d)->Ok_0)
            &&& spec_condition(class, Some(kind), Some(saved), Some(5i64), d) == Ok::<bool, ConditionError>(
                !spec_condition(class, Some(kind), Some(saved), Some(2i64), d)->Ok_0)
            &&& spec_condition(class, Some(kind), Some(saved), Some(2i64), d) == Ok::<bool, ConditionError>(
                spec_condition(class, Some(kind), Some(saved), Some(1i64), d)->Ok_0 || eq->Ok_0)
            &&& spec_condition(class, Some(kind), Some(saved), Some(1i64), d) == Ok::<bool, ConditionError>(saved > actual)
            &&& kind != 3 ==> spec_condition(class, Some(kind), Some(saved), c, d) == spec_condition(
                class, Some(kind), Some(saved), c, d2)
            &&& (c is None || c->0 < -1 || c->0 > 5) ==> spec_condition(class, Some(kind), Some(saved), c, d)
                == Err::<bool, ConditionError>(ConditionError::UnsupportedComparison)
        },
{
}

/// Evaluates a saved integer condition at the finest detail level, 3.
pub fn condition(class: &str, param: Option<i64>, value: Option<i64>, comp: Option<i64>) -> (r: Result<bool, ConditionError>)
    ensures
        r == spec_condition(class@, param, value, comp, 3),
{
    condition_at_detail(class, param, value, comp, 3)
}

} // verus!
