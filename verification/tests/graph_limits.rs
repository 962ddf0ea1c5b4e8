use rvt_native::graph::{initial_graph_limits, next_graph_limits, BudgetFailure, GraphLimits};

#[test]
fn default_limits_are_the_implementation_budgets() {
    let limits = GraphLimits::default();
    assert_eq!((limits.max_values, limits.max_objects, limits.max_depth), (100_000, 100_000, 128));
    assert_eq!(initial_graph_limits(5, 6), GraphLimits { max_values: 5, max_objects: 6, max_depth: 128 });
}

#[test]
fn retries_grow_only_the_exhausted_budget_up_to_its_ceiling() {
    let limits = initial_graph_limits(100_000, 100_000);
    let values = BudgetFailure { values: true, objects: false };
    let grown = next_graph_limits(limits, values).unwrap();
    assert_eq!((grown.max_values, grown.max_objects), (400_000, 100_000));
    let grown = next_graph_limits(grown, values).unwrap();
    assert_eq!(grown.max_values, 1_000_000);
    assert_eq!(next_graph_limits(grown, values), None);
    let objects = BudgetFailure { values: false, objects: true };
    assert_eq!(next_graph_limits(limits, objects).unwrap().max_objects, 400_000);
    assert_eq!(next_graph_limits(limits, BudgetFailure { values: false, objects: false }), None);
}
