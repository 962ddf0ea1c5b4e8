//! Budgets and usage of native object-graph decoding, the graph's pointer
//! edges and field spans, and the adaptive budget retry rule.
use vstd::prelude::*;

verus! {

/// The span of one declared field inside an object body.
#[derive(Clone, Debug)]
pub struct FieldSpan {
    pub class_tag: u16,
    pub name: String,
    pub start: usize,
    pub end: usize,
}

/// One resolved pointer between two objects of a graph.
#[derive(Clone, Copy, Debug, PartialEq, Eq, Structural)]
pub struct GraphEdge {
    pub source_object_index: usize,
    pub pointer_offset: usize,
    pub pointer_token: u32,
    pub target_object_index: usize,
    pub target_class_tag: u16,
}

/// Resource budgets of one graph decode; implementation limits, not
/// limits of the file format.
#[derive(Clone, Copy, Debug, PartialEq, Eq, Structural)]
pub struct GraphLimits {
    pub max_values: usize,
    pub max_objects: usize,
    pub max_depth: usize,
}

impl Default for GraphLimits {
    fn default() -> (r: Self)
        ensures
            r == (GraphLimits { max_values: 100_000, max_objects: 100_000, max_depth: 128 }),
    {
        GraphLimits { max_values: 100_000, max_objects: 100_000, max_depth: 128 }
    }
}

/// What one graph decode consumed.
#[derive(Clone, Copy, Debug, PartialEq, Eq, Structural)]
pub struct GraphUsage {
    pub values: usize,
    pub objects: usize,
}

/// Ceiling of the adaptive value budget.
pub const ADAPTIVE_GRAPH_MAX_VALUES: usize = 1_000_000;

/// Ceiling of the adaptive object budget.
pub const ADAPTIVE_GRAPH_MAX_OBJECTS: usize = 1_000_000;

/// Which budget a failed decode exhausted.
#[derive(Clone, Copy, Debug, PartialEq, Eq, Structural)]
pub struct BudgetFailure {
    /// A field value or container count budget.
    pub values: bool,
    /// The object budget.
    pub objects: bool,
}

/// The initial limits of an extraction: its value and object budgets, the
/// default depth.
pub fn initial_graph_limits(max_graph_values: usize, max_graph_objects: usize) -> (r: GraphLimits)
    ensures
        r == (GraphLimits { max_values: max_graph_values, max_objects: max_graph_objects, max_depth: 128 }),
{
    GraphLimits { max_values: max_graph_values, max_objects: max_graph_objects, ..Default::default() }
}

/// The grown budget: four times `current`, at least one more, at most
/// `ceiling`; none once `current` reached the ceiling.
pub open spec fn grown_limit(current: usize, ceiling: usize) -> Option<usize> {
    if current >= ceiling {
        None
    } else {
        let times4 = if current * 4 > usize::MAX {
            usize::MAX as int
        } else {
            current * 4
        };
        let at_least = if times4 > current + 1 {
            times4
        } else {
            current + 1
        };
        Some(
            (if at_least < ceiling {
                at_least
            } else {
                ceiling as int
            }) as usize,
        )
    }
}

/// The limits of the retry after a budget failure: each exhausted budget
/// grows toward its ceiling; none when nothing can grow, so the failure
/// stands.
pub open spec fn spec_next_graph_limits(limits: GraphLimits, failure: BudgetFailure) -> Option<GraphLimits> {
    let v = if failure.values {
        match grown_limit(limits.max_values, ADAPTIVE_GRAPH_MAX_VALUES) {
            Some(n) => n,
            None => limits.max_values,
        }
    } else {
        limits.max_values
    };
    let o = if failure.objects {
        match grown_limit(limits.max_objects, ADAPTIVE_GRAPH_MAX_OBJECTS) {
            Some(n) => n,
            None => limits.max_objects,
        }
    } else {
        limits.max_objects
    };
    if v == limits.max_values && o == limits.max_objects {
        None
    } else {
        Some(GraphLimits { max_values: v, max_objects: o, ..limits })
    }
}

/// Decides the retry after a budget failure; see [`spec_next_graph_limits`].
pub fn next_graph_limits(limits: GraphLimits, failure: BudgetFailure) -> (r: Option<GraphLimits>)
    ensures
        r == spec_next_graph_limits(limits, failure),
{
    let values = if failure.values {
        match crate::document::adaptive_graph_limit(limits.max_values, ADAPTIVE_GRAPH_MAX_VALUES) {
            Some(n) => n,
            None => limits.max_values,
        }
    } else {
        limits.max_values
    };
    let objects = if failure.objects {
        match crate::document::adaptive_graph_limit(limits.max_objects, ADAPTIVE_GRAPH_MAX_OBJECTS) {
            Some(n) => n,
            None => limits.max_objects,
        }
    } else {
        limits.max_objects
    };
    if values == limits.max_values && objects == limits.max_objects {
        None
    } else {
        Some(GraphLimits { max_values: values, max_objects: objects, ..limits })
    }
}

/// A retry never shrinks a budget and never passes its ceiling, and some
/// exhausted budget strictly grows; so retries end after finitely many
/// steps.
pub proof fn lemma_retry_grows_within_ceilings(limits: GraphLimits, failure: BudgetFailure)
    requires
        spec_next_graph_limits(limits, failure) is Some,
    ensures
        ({
            let n = spec_next_graph_limits(limits, failure)->0;
            &&& n.max_values >= limits.max_values && n.max_objects >= limits.max_objects
            &&& n.max_depth == limits.max_depth
            &&& (n.max_values > limits.max_values ==> n.max_values <= ADAPTIVE_GRAPH_MAX_VALUES)
            &&& (n.max_objects > limits.max_objects ==> n.max_objects <= ADAPTIVE_GRAPH_MAX_OBJECTS)
            &&& n.max_values + n.max_objects > limits.max_values + limits.max_objects
        }),
{
}

} // verus!
