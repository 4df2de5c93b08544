use typeql::concept::{
    ConceptVariable, ConceptVariableBuilder, ErrorMessage, IsConstraint, UnboundConceptVariable,
};
use typeql::variable::Variable;
use std::cell::Cell;

struct CountingSource<'a> {
    conversions: &'a Cell<u32>,
    name: &'static str,
}

impl<'a> From<CountingSource<'a>> for IsConstraint {
    fn from(source: CountingSource<'a>) -> IsConstraint {
        source.conversions.set(source.conversions.get() + 1);
        IsConstraint { variable: Variable::new(None, String::from(source.name)) }
    }
}

fn var(name: &str) -> Variable {
    Variable::new(None, String::from(name))
}

#[test]
fn unbound_variable_takes_constraint() {
    let v = UnboundConceptVariable { reference: var("x") };
    let r = v.is(IsConstraint { variable: var("y") });
    assert_eq!(
        r,
        Ok(ConceptVariable { reference: var("x"), is_constraint: Some(IsConstraint { variable: var("y") }) })
    );
}

#[test]
fn chained_constraints_apply_in_turn() {
    let v = UnboundConceptVariable { reference: var("x") };
    let r = v.is(IsConstraint { variable: var("y") }).is(IsConstraint { variable: var("z") });
    assert_eq!(
        r,
        Ok(ConceptVariable { reference: var("x"), is_constraint: Some(IsConstraint { variable: var("z") }) })
    );
}

#[test]
fn failure_short_circuits_chain() {
    let failure = ErrorMessage { code: 7, message: String::from("bad first step") };
    let prior: Result<UnboundConceptVariable, ErrorMessage> = Err(failure.clone());
    let r = prior.is(IsConstraint { variable: var("y") }).is(IsConstraint { variable: var("z") });
    assert_eq!(r, Err(failure));
}

fn build(prior: Result<UnboundConceptVariable, ErrorMessage>) -> Result<ConceptVariable, ErrorMessage> {
    prior.is(IsConstraint { variable: var("a") })?.is(IsConstraint { variable: var("b") })
}

#[test]
fn failure_before_question_mark_chain() {
    let failure = ErrorMessage { code: 1, message: String::from("first") };
    assert_eq!(build(Err(failure.clone())), Err(failure));
    assert_eq!(
        build(Ok(UnboundConceptVariable { reference: var("v") })),
        Ok(ConceptVariable { reference: var("v"), is_constraint: Some(IsConstraint { variable: var("b") }) })
    );
}

#[test]
fn failed_step_never_converts_later_constraints() {
    let conversions = Cell::new(0);
    let failure = ErrorMessage { code: 3, message: String::from("first constraint failed") };
    let prior: Result<UnboundConceptVariable, ErrorMessage> = Err(failure.clone());
    let r = prior
        .is(CountingSource { conversions: &conversions, name: "c1" })
        .is(CountingSource { conversions: &conversions, name: "c2" });
    assert_eq!(r, Err(failure));
    assert_eq!(conversions.get(), 0);
}

#[test]
fn successful_steps_convert_each_constraint_once() {
    let conversions = Cell::new(0);
    let v = UnboundConceptVariable { reference: var("x") };
    let r = v
        .is(CountingSource { conversions: &conversions, name: "c1" })
        .is(CountingSource { conversions: &conversions, name: "c2" });
    assert_eq!(conversions.get(), 2);
    assert_eq!(
        r,
        Ok(ConceptVariable { reference: var("x"), is_constraint: Some(IsConstraint { variable: var("c2") }) })
    );
}

#[test]
fn variable_converts_to_is_constraint() {
    let v = UnboundConceptVariable { reference: var("x") };
    assert_eq!(
        v.is(var("y")),
        Ok(ConceptVariable { reference: var("x"), is_constraint: Some(IsConstraint { variable: var("y") }) })
    );
}
