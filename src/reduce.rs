//! The reduce stage of a query pipeline: aggregate assignments, optionally
//! grouped by variables, and its canonical text in two surface forms.
use vstd::prelude::*;

use crate::common::Span;
use crate::pretty::{indent, indent_text, joined, write_joined, Pretty};
use crate::token::{clause_keyword, operator_keyword, Clause, ReduceOperator};
use crate::variable::Variable;

verus! {

/// An aggregation stage: assignments in output-column order, and the
/// grouping variables in key order.
#[derive(Debug, Clone, PartialEq, Eq)]
pub struct Reduce {
    pub reductions: Vec<ReduceAssign>,
    pub within_group: Option<Vec<Variable>>,
}

/// The text of a reduce stage. `inline` wraps the grouping variables in
/// parentheses; the other form lists them bare.
pub open spec fn reduce_text(r: Reduce, inline: bool) -> Seq<char> {
    clause_keyword(Clause::Reduce) + " "@ + joined(r.reductions@) + match r.within_group {
        Some(group) => if inline {
            " "@ + clause_keyword(Clause::Within) + " ("@ + joined(group@) + ")"@
        } else {
            " "@ + clause_keyword(Clause::Within) + " "@ + joined(group@)
        },
        None => Seq::empty(),
    } + ";"@
}

impl Reduce {
    pub fn new(reductions: Vec<ReduceAssign>, within_group: Option<Vec<Variable>>) -> (r: Self)
        ensures
            r.reductions == reductions,
            r.within_group == within_group,
    {
        Reduce { reductions, within_group }
    }

    /// The inline text of the stage.
    pub fn to_text(&self) -> (r: String)
        ensures
            r@ == self.text(),
    {
        let mut out = String::new();
        self.fmt(&mut out);
        assert(out@ =~= self.text());
        out
    }
}

impl Pretty for Reduce {
    open spec fn text(&self) -> Seq<char> {
        reduce_text(*self, true)
    }

    open spec fn pretty_text(&self, indent_level: nat) -> Seq<char> {
        indent_text(indent_level) + reduce_text(*self, false)
    }

    fn fmt(&self, out: &mut String) {
        let ghost start = out@;
        out.append(Clause::Reduce.as_str());
        out.append(" ");
        write_joined(&self.reductions, out);
        if let Some(group) = &self.within_group {
            out.append(" ");
            out.append(Clause::Within.as_str());
            out.append(" (");
            write_joined(group, out);
            out.append(")");
        }
        out.append(";");
        assert(out@ =~= start + self.text());
    }

    fn fmt_pretty(&self, indent_level: usize, out: &mut String) {
        let ghost start = out@;
        indent(indent_level, out);
        out.append(Clause::Reduce.as_str());
        out.append(" ");
        write_joined(&self.reductions, out);
        if let Some(group) = &self.within_group {
            out.append(" ");
            out.append(Clause::Within.as_str());
            out.append(" ");
            write_joined(group, out);
        }
        out.append(";");
        assert(out@ =~= start + self.pretty_text(indent_level as nat));
    }
}

/// Printing is a function of the stage alone: equal stages give the same
/// text in both surface forms, at every indentation level.
pub proof fn lemma_print_deterministic(a: Reduce, b: Reduce, indent_level: nat)
    requires
        a == b,
    ensures
        a.text() == b.text(),
        a.pretty_text(indent_level) == b.pretty_text(indent_level),
{
}

/// One output column of a reduce stage: `target = value`.
#[derive(Debug, Clone, PartialEq, Eq)]
pub struct ReduceAssign {
    pub assign_to: Variable,
    pub reduce_value: ReduceValue,
}

impl Pretty for ReduceAssign {
    open spec fn text(&self) -> Seq<char> {
        self.assign_to.text() + " = "@ + self.reduce_value.text()
    }

    open spec fn pretty_text(&self, indent_level: nat) -> Seq<char> {
        indent_text(indent_level) + self.text()
    }

    fn fmt(&self, out: &mut String) {
        let ghost start = out@;
        self.assign_to.fmt(out);
        out.append(" = ");
        self.reduce_value.fmt(out);
        assert(out@ =~= start + self.text());
    }

    fn fmt_pretty(&self, indent_level: usize, out: &mut String) {
        let ghost start = out@;
        indent(indent_level, out);
        self.fmt(out);
        assert(out@ =~= start + self.pretty_text(indent_level as nat));
    }
}

/// What a higher layer asks of a reduction: an existence check, the first
/// answer, or a list of aggregate values.
#[derive(Debug, Clone, PartialEq, Eq)]
pub enum Reduction {
    Check(Check),
    First(First),
    Value(Vec<ReduceValue>),
}

impl Pretty for Reduction {
    open spec fn text(&self) -> Seq<char> {
        match self {
            Reduction::Check(inner) => inner.text(),
            Reduction::First(inner) => inner.text(),
            Reduction::Value(inner) => joined(inner@),
        }
    }

    open spec fn pretty_text(&self, indent_level: nat) -> Seq<char> {
        self.text()
    }

    fn fmt(&self, out: &mut String) {
        match self {
            Reduction::Check(inner) => inner.fmt(out),
            Reduction::First(inner) => inner.fmt(out),
            Reduction::Value(inner) => write_joined(inner, out),
        }
    }

    fn fmt_pretty(&self, indent_level: usize, out: &mut String) {
        self.fmt(out);
    }
}

/// Checks that at least one answer exists: `check;`.
#[derive(Debug, Clone, PartialEq, Eq)]
pub struct Check {
    pub span: Option<Span>,
}

impl Check {
    pub fn new(span: Option<Span>) -> (r: Self)
        ensures
            r.span == span,
    {
        Check { span }
    }
}

impl Pretty for Check {
    open spec fn text(&self) -> Seq<char> {
        operator_keyword(ReduceOperator::Check) + ";"@
    }

    open spec fn pretty_text(&self, indent_level: nat) -> Seq<char> {
        self.text()
    }

    fn fmt(&self, out: &mut String) {
        out.append(ReduceOperator::Check.as_str());
        out.append(";");
        assert(out@ =~= old(out)@ + self.text());
    }

    fn fmt_pretty(&self, indent_level: usize, out: &mut String) {
        self.fmt(out);
    }
}

/// Takes the first answer, projected on the variables: `first($a, $b);`.
#[derive(Debug, Clone, PartialEq, Eq)]
pub struct First {
    pub span: Option<Span>,
    pub variables: Vec<Variable>,
}

impl First {
    pub fn new(span: Option<Span>, variables: Vec<Variable>) -> (r: Self)
        ensures
            r.span == span,
            r.variables == variables,
    {
        First { span, variables }
    }
}

impl Pretty for First {
    open spec fn text(&self) -> Seq<char> {
        operator_keyword(ReduceOperator::First) + "("@ + joined(self.variables@) + ");"@
    }

    open spec fn pretty_text(&self, indent_level: nat) -> Seq<char> {
        self.text()
    }

    fn fmt(&self, out: &mut String) {
        let ghost start = out@;
        out.append(ReduceOperator::First.as_str());
        out.append("(");
        write_joined(&self.variables, out);
        out.append(");");
        assert(out@ =~= start + self.text());
    }

    fn fmt_pretty(&self, indent_level: usize, out: &mut String) {
        self.fmt(out);
    }
}

/// One aggregate: a count, or a statistic of one variable.
#[derive(Debug, Clone, PartialEq, Eq)]
pub enum ReduceValue {
    Count(Count),
    Stat(Stat),
}

impl Pretty for ReduceValue {
    open spec fn text(&self) -> Seq<char> {
        match self {
            ReduceValue::Count(inner) => inner.text(),
            ReduceValue::Stat(inner) => inner.text(),
        }
    }

    open spec fn pretty_text(&self, indent_level: nat) -> Seq<char> {
        match self {
            ReduceValue::Count(inner) => inner.pretty_text(indent_level),
            ReduceValue::Stat(inner) => inner.pretty_text(indent_level),
        }
    }

    fn fmt(&self, out: &mut String) {
        match self {
            ReduceValue::Count(inner) => inner.fmt(out),
            ReduceValue::Stat(inner) => inner.fmt(out),
        }
    }

    fn fmt_pretty(&self, indent_level: usize, out: &mut String) {
        match self {
            ReduceValue::Count(inner) => inner.fmt_pretty(indent_level, out),
            ReduceValue::Stat(inner) => inner.fmt_pretty(indent_level, out),
        }
    }
}

/// Counts answers, or the values of one variable: `count` or `count($x)`.
#[derive(Debug, Clone, PartialEq, Eq)]
pub struct Count {
    pub span: Option<Span>,
    pub variable: Option<Variable>,
}

impl Count {
    pub fn new(span: Option<Span>, variable: Option<Variable>) -> (r: Self)
        ensures
            r.span == span,
            r.variable == variable,
    {
        Count { span, variable }
    }
}

impl Pretty for Count {
    open spec fn text(&self) -> Seq<char> {
        operator_keyword(ReduceOperator::Count) + match self.variable {
            Some(v) => "("@ + v.text() + ")"@,
            None => Seq::empty(),
        }
    }

    open spec fn pretty_text(&self, indent_level: nat) -> Seq<char> {
        self.text()
    }

    fn fmt(&self, out: &mut String) {
        let ghost start = out@;
        out.append(ReduceOperator::Count.as_str());
        if let Some(variable) = &self.variable {
            out.append("(");
            variable.fmt(out);
            out.append(")");
        }
        assert(out@ =~= start + self.text());
    }

    fn fmt_pretty(&self, indent_level: usize, out: &mut String) {
        self.fmt(out);
    }
}

/// A statistic of one variable: `sum($x)`.
#[derive(Debug, Clone, PartialEq, Eq)]
pub struct Stat {
    pub span: Option<Span>,
    pub reduce_operator: ReduceOperator,
    pub variable: Variable,
}

impl Stat {
    pub fn new(span: Option<Span>, aggregate: ReduceOperator, variable: Variable) -> (r: Self)
        ensures
            r.span == span,
            r.reduce_operator == aggregate,
            r.variable == variable,
    {
        Stat { span, reduce_operator: aggregate, variable }
    }
}

impl Pretty for Stat {
    open spec fn text(&self) -> Seq<char> {
        operator_keyword(self.reduce_operator) + "("@ + self.variable.text() + ")"@
    }

    open spec fn pretty_text(&self, indent_level: nat) -> Seq<char> {
        self.text()
    }

    fn fmt(&self, out: &mut String) {
        let ghost start = out@;
        out.append(self.reduce_operator.as_str());
        out.append("(");
        self.variable.fmt(out);
        out.append(")");
        assert(out@ =~= start + self.text());
    }

    fn fmt_pretty(&self, indent_level: usize, out: &mut String) {
        self.fmt(out);
    }
}

} // verus!
