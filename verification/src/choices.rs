//! The enumerated configuration fields and their exact wire tokens.
//!
//! The casing of each token set differs on purpose (upper case, title case
//! with spaces, lower case): the persisted document is consumed by an
//! existing external model and the tokens must match it byte for byte.

use vstd::prelude::*;

verus! {

/// Deployment environment the run is prepared for.
#[derive(Clone, Copy, Debug, PartialEq, Eq, Structural)]
pub enum Environment {
    Production,
    Development,
    Testing,
}

/// Named bundle of modelling assumptions for the downstream model.
#[derive(Clone, Copy, Debug, PartialEq, Eq, Structural)]
pub enum AssumptionProfile {
    BaseCase,
    Scenario1,
    Scenario2,
    Scenario3,
}

/// Solver used by the downstream model.
#[derive(Clone, Copy, Debug, PartialEq, Eq, Structural)]
pub enum Optimizer {
    Highs,
    Cbc,
    Gurobi,
}

/// Whether forward-start swaps take part in the run.
#[derive(Clone, Copy, Debug, PartialEq, Eq, Structural)]
pub enum IncludedOrExcluded {
    Included,
    Excluded,
}

/// Wire token of an [`Environment`] value.
pub open spec fn env_token(e: Environment) -> Seq<char> {
    match e {
        Environment::Production => "PRODUCTION"@,
        Environment::Development => "DEVELOPMENT"@,
        Environment::Testing => "TESTING"@,
    }
}

/// Wire token of an [`AssumptionProfile`] value.
pub open spec fn profile_token(p: AssumptionProfile) -> Seq<char> {
    match p {
        AssumptionProfile::BaseCase => "BASE CASE"@,
        AssumptionProfile::Scenario1 => "SCENARIO 1"@,
        AssumptionProfile::Scenario2 => "SCENARIO 2"@,
        AssumptionProfile::Scenario3 => "SCENARIO 3"@,
    }
}

/// Wire token of an [`Optimizer`] value.
pub open spec fn optimizer_token(o: Optimizer) -> Seq<char> {
    match o {
        Optimizer::Highs => "highs"@,
        Optimizer::Cbc => "cbc"@,
        Optimizer::Gurobi => "gurobi"@,
    }
}

/// Wire token of an [`IncludedOrExcluded`] value.
pub open spec fn swap_token(s: IncludedOrExcluded) -> Seq<char> {
    match s {
        IncludedOrExcluded::Included => "included"@,
        IncludedOrExcluded::Excluded => "excluded"@,
    }
}

impl Environment {
    /// The token this value takes in the persisted document.
    pub fn wire_token(&self) -> (r: &'static str)
        ensures
            r@ == env_token(*self),
    {
        match self {
            Environment::Production => "PRODUCTION",
            Environment::Development => "DEVELOPMENT",
            Environment::Testing => "TESTING",
        }
    }

    /// Human-readable name, as a form layer would show it.
    pub fn label(&self) -> (r: &'static str)
        ensures
            self is Production ==> r@ == "Production"@,
            self is Development ==> r@ == "Development"@,
            self is Testing ==> r@ == "Testing"@,
    {
        match self {
            Environment::Production => "Production",
            Environment::Development => "Development",
            Environment::Testing => "Testing",
        }
    }
}

impl AssumptionProfile {
    /// The token this value takes in the persisted document.
    pub fn wire_token(&self) -> (r: &'static str)
        ensures
            r@ == profile_token(*self),
    {
        match self {
            AssumptionProfile::BaseCase => "BASE CASE",
            AssumptionProfile::Scenario1 => "SCENARIO 1",
            AssumptionProfile::Scenario2 => "SCENARIO 2",
            AssumptionProfile::Scenario3 => "SCENARIO 3",
        }
    }

    /// Human-readable name, as a form layer would show it.
    pub fn label(&self) -> (r: &'static str)
        ensures
            self is BaseCase ==> r@ == "Base Case"@,
            self is Scenario1 ==> r@ == "Scenario 1"@,
            self is Scenario2 ==> r@ == "Scenario 2"@,
            self is Scenario3 ==> r@ == "Scenario 3"@,
    {
        match self {
            AssumptionProfile::BaseCase => "Base Case",
            AssumptionProfile::Scenario1 => "Scenario 1",
            AssumptionProfile::Scenario2 => "Scenario 2",
            AssumptionProfile::Scenario3 => "Scenario 3",
        }
    }
}

impl Optimizer {
    /// The token this value takes in the persisted document.
    pub fn wire_token(&self) -> (r: &'static str)
        ensures
            r@ == optimizer_token(*self),
    {
        match self {
            Optimizer::Highs => "highs",
            Optimizer::Cbc => "cbc",
            Optimizer::Gurobi => "gurobi",
        }
    }

    /// Human-readable name, as a form layer would show it.
    pub fn label(&self) -> (r: &'static str)
        ensures
            self is Highs ==> r@ == "Highs"@,
            self is Cbc ==> r@ == "Cbc"@,
            self is Gurobi ==> r@ == "Gurobi"@,
    {
        match self {
            Optimizer::Highs => "Highs",
            Optimizer::Cbc => "Cbc",
            Optimizer::Gurobi => "Gurobi",
        }
    }
}

impl IncludedOrExcluded {
    /// The token this value takes in the persisted document.
    pub fn wire_token(&self) -> (r: &'static str)
        ensures
            r@ == swap_token(*self),
    {
        match self {
            IncludedOrExcluded::Included => "included",
            IncludedOrExcluded::Excluded => "excluded",
        }
    }

    /// Human-readable name, as a form layer would show it.
    pub fn to_user_friendly_label(&self) -> (r: &'static str)
        ensures
            self is Included ==> r@ == "Included"@,
            self is Excluded ==> r@ == "Excluded"@,
    {
        match self {
            IncludedOrExcluded::Included => "Included",
            IncludedOrExcluded::Excluded => "Excluded",
        }
    }
}

} // verus!
