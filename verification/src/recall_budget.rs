//! Bounded budgets for recall work at each effort level.
use vstd::prelude::*;
use crate::error::Error;

verus! {

/// How much work a recall request may spend.
#[derive(Debug, Clone, Copy, PartialEq, Eq, Structural)]
pub enum RecallEffort {
    Light,
    Normal,
    Deep,
    Maximum,
}

/// Caps on candidates, association states and association edges of one recall.
#[derive(Debug, Clone, Copy, PartialEq, Eq, Structural)]
pub struct RecallBudget {
    pub max_candidates: usize,
    pub max_association_states: usize,
    pub max_association_edges: usize,
}

/// The product limits every budget must respect.
pub open spec fn within_product_limits(budget: RecallBudget) -> bool {
    &&& 0 < budget.max_candidates <= 400
    &&& 0 < budget.max_association_states <= 5000
    &&& 0 < budget.max_association_edges <= 40000
}

/// The built-in budget of each effort level.
pub open spec fn spec_for_effort(effort: RecallEffort) -> RecallBudget {
    match effort {
        RecallEffort::Light => RecallBudget {
            max_candidates: 24,
            max_association_states: 64,
            max_association_edges: 256,
        },
        RecallEffort::Normal => RecallBudget {
            max_candidates: 64,
            max_association_states: 256,
            max_association_edges: 1500,
        },
        RecallEffort::Deep => RecallBudget {
            max_candidates: 160,
            max_association_states: 1200,
            max_association_edges: 8000,
        },
        RecallEffort::Maximum => RecallBudget {
            max_candidates: 400,
            max_association_states: 5000,
            max_association_edges: 40000,
        },
    }
}

/// Order of recall efforts: `Light` < `Normal` < `Deep` < `Maximum`.
pub open spec fn recall_effort_rank(effort: RecallEffort) -> int {
    match effort {
        RecallEffort::Light => 0,
        RecallEffort::Normal => 1,
        RecallEffort::Deep => 2,
        RecallEffort::Maximum => 3,
    }
}

impl RecallBudget {
    /// Accepts the budget exactly when it respects the product limits.
    pub fn validate(&self) -> (result: Result<(), Error>)
        ensures
            within_product_limits(*self) <==> result is Ok,
            !within_product_limits(*self) ==> (result matches Err(Error::Invalid(_))),
    {
        if self.max_candidates == 0 || self.max_candidates > 400 || self.max_association_states
            == 0 || self.max_association_states > 5000 || self.max_association_edges == 0
            || self.max_association_edges > 40000 {
            return Err(Error::Invalid("recall budgets exceed bounded product limits".to_owned()));
        }
        Ok(())
    }

    /// The built-in budget for `effort`.
    pub fn for_effort(effort: RecallEffort) -> (budget: RecallBudget)
        ensures
            budget == spec_for_effort(effort),
            effort == RecallEffort::Light ==> budget.max_candidates == 24 && budget.max_association_states
                == 64 && budget.max_association_edges == 256,
            effort == RecallEffort::Normal ==> budget.max_candidates == 64 && budget.max_association_states
                == 256 && budget.max_association_edges == 1500,
            effort == RecallEffort::Deep ==> budget.max_candidates == 160 && budget.max_association_states
                == 1200 && budget.max_association_edges == 8000,
            effort == RecallEffort::Maximum ==> budget.max_candidates == 400
                && budget.max_association_states == 5000 && budget.max_association_edges == 40000,
    {
        let (max_candidates, max_association_states, max_association_edges) = match effort {
            RecallEffort::Light => (24, 64, 256),
            RecallEffort::Normal => (64, 256, 1500),
            RecallEffort::Deep => (160, 1200, 8000),
            RecallEffort::Maximum => (400, 5000, 40000),
        };
        RecallBudget { max_candidates, max_association_states, max_association_edges }
    }
}

/// Every built-in budget passes validation, and more effort never buys a smaller budget.
pub proof fn built_in_budgets_are_valid_and_monotone(low: RecallEffort, high: RecallEffort)
    requires
        recall_effort_rank(low) <= recall_effort_rank(high),
    ensures
        within_product_limits(spec_for_effort(low)),
        spec_for_effort(low).max_candidates <= spec_for_effort(high).max_candidates,
        spec_for_effort(low).max_association_states <= spec_for_effort(
            high,
        ).max_association_states,
        spec_for_effort(low).max_association_edges <= spec_for_effort(high).max_association_edges,
{
}

/// Strictly more effort buys a strictly larger budget in every dimension.
pub proof fn more_effort_buys_strictly_more(low: RecallEffort, high: RecallEffort)
    requires
        recall_effort_rank(low) < recall_effort_rank(high),
    ensures
        spec_for_effort(low).max_candidates < spec_for_effort(high).max_candidates,
        spec_for_effort(low).max_association_states < spec_for_effort(high).max_association_states,
        spec_for_effort(low).max_association_edges < spec_for_effort(high).max_association_edges,
{
}

} // verus!
