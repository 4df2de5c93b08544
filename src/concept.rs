//! Fluent construction of concept variables with an identity (`is`)
//! constraint, composing through results so that the first failure wins.
use vstd::prelude::*;

use vstd::std_specs::convert::IntoSpec;

use crate::variable::Variable;

verus! {

/// The constraint that a concept is the same as the one bound to `variable`.
#[derive(Debug, Clone, PartialEq, Eq)]
pub struct IsConstraint {
    pub variable: Variable,
}

impl From<Variable> for IsConstraint {
    fn from(variable: Variable) -> (r: IsConstraint) {
        IsConstraint { variable }
    }
}

impl vstd::std_specs::convert::FromSpecImpl<Variable> for IsConstraint {
    open spec fn obeys_from_spec() -> bool {
        true
    }

    open spec fn from_spec(variable: Variable) -> IsConstraint {
        IsConstraint { variable }
    }
}

/// A concept variable that carries no constraint yet.
#[derive(Debug, Clone, PartialEq, Eq)]
pub struct UnboundConceptVariable {
    pub reference: Variable,
}

/// A concept variable with its identity constraint, if any.
#[derive(Debug, Clone, PartialEq, Eq)]
pub struct ConceptVariable {
    pub reference: Variable,
    pub is_constraint: Option<IsConstraint>,
}

/// A failure of an earlier construction step.
#[derive(Debug, Clone, PartialEq, Eq)]
pub struct ErrorMessage {
    pub code: u64,
    pub message: String,
}

/// A variable that can take an identity constraint.
pub trait ConceptConstrainable {
    /// The variable that results from adding `is`.
    spec fn constrained_by(&self, is: IsConstraint) -> ConceptVariable;

    fn constrain_is(self, is: IsConstraint) -> (r: ConceptVariable)
        ensures
            r == self.constrained_by(is),
    ;
}

impl ConceptConstrainable for UnboundConceptVariable {
    open spec fn constrained_by(&self, is: IsConstraint) -> ConceptVariable {
        ConceptVariable { reference: self.reference, is_constraint: Some(is) }
    }

    fn constrain_is(self, is: IsConstraint) -> (r: ConceptVariable) {
        ConceptVariable { reference: self.reference, is_constraint: Some(is) }
    }
}

impl ConceptConstrainable for ConceptVariable {
    open spec fn constrained_by(&self, is: IsConstraint) -> ConceptVariable {
        ConceptVariable { is_constraint: Some(is), ..*self }
    }

    fn constrain_is(self, is: IsConstraint) -> (r: ConceptVariable) {
        ConceptVariable { reference: self.reference, is_constraint: Some(is) }
    }
}

/// The fluent `is` step of a builder chain.
pub trait ConceptVariableBuilder: Sized {
    /// The failure of an earlier step that this step carries, if any.
    spec fn prior_failure(&self) -> Option<ErrorMessage>;

    /// The variable that adding `is` gives when no earlier step failed.
    spec fn built_with(&self, is: IsConstraint) -> ConceptVariable;

    /// Adds the constraint that `is` converts to. After a failed step the
    /// failure comes back unchanged and `is` is not converted.
    fn is<C: Into<IsConstraint>>(self, is: C) -> (r: Result<ConceptVariable, ErrorMessage>)
        ensures
            self.prior_failure() is Some ==> r == Err::<ConceptVariable, ErrorMessage>(
                self.prior_failure()->Some_0,
            ),
            self.prior_failure() is None ==> exists|c: IsConstraint|
                r == Ok::<ConceptVariable, ErrorMessage>(#[trigger] self.built_with(c)),
            self.prior_failure() is None && C::obeys_into_spec() ==> r == Ok::<
                ConceptVariable,
                ErrorMessage,
            >(self.built_with(is.into_spec())),
    ;
}

impl<U: ConceptConstrainable> ConceptVariableBuilder for U {
    open spec fn prior_failure(&self) -> Option<ErrorMessage> {
        None
    }

    open spec fn built_with(&self, is: IsConstraint) -> ConceptVariable {
        self.constrained_by(is)
    }

    fn is<C: Into<IsConstraint>>(self, is: C) -> (r: Result<ConceptVariable, ErrorMessage>) {
        let ghost me = self;
        let c = is.into();
        let r = Ok(self.constrain_is(c));
        assert(r == Ok::<ConceptVariable, ErrorMessage>(me.built_with(c)));
        r
    }
}

/// A chain whose earlier step failed keeps that failure, unchanged; the
/// constraint is added only after a success.
impl<U: ConceptVariableBuilder> ConceptVariableBuilder for Result<U, ErrorMessage> {
    open spec fn prior_failure(&self) -> Option<ErrorMessage> {
        match self {
            Ok(u) => u.prior_failure(),
            Err(e) => Some(*e),
        }
    }

    open spec fn built_with(&self, is: IsConstraint) -> ConceptVariable {
        match self {
            Ok(u) => u.built_with(is),
            Err(e) => arbitrary(),
        }
    }

    fn is<C: Into<IsConstraint>>(self, is: C) -> (r: Result<ConceptVariable, ErrorMessage>) {
        let ghost me = self;
        match self {
            Ok(u) => {
                let r = u.is(is);
                proof {
                    if u.prior_failure() is None {
                        let c = choose|c: IsConstraint|
                            r == Ok::<ConceptVariable, ErrorMessage>(#[trigger] u.built_with(c));
                        assert(me.built_with(c) == u.built_with(c));
                    }
                }
                r
            },
            Err(e) => Err(e),
        }
    }
}

/// A failed step of a builder chain carries exactly its own failure, so the
/// next `is` returns that failure unchanged, whatever constraint it is given.
pub proof fn lemma_failure_short_circuits<U: ConceptVariableBuilder>(
    prior: Result<U, ErrorMessage>,
)
    requires
        prior is Err,
    ensures
        prior.prior_failure() == Some(prior->Err_0),
{
}

} // verus!
