//! Keyword spellings of the language that the printer emits.
use vstd::prelude::*;

verus! {

/// Keywords that open or extend a pipeline clause.
#[derive(Debug, Clone, Copy, PartialEq, Eq, Structural)]
pub enum Clause {
    Reduce,
    Within,
}

pub open spec fn clause_keyword(c: Clause) -> Seq<char> {
    match c {
        Clause::Reduce => "reduce"@,
        Clause::Within => "within"@,
    }
}

impl Clause {
    pub fn as_str(&self) -> (r: &'static str)
        ensures
            r@ == clause_keyword(*self),
    {
        match self {
            Clause::Reduce => "reduce",
            Clause::Within => "within",
        }
    }
}

/// Operators of a reduction: existence checks, first-match selection,
/// counting and the statistics.
#[derive(Debug, Clone, Copy, PartialEq, Eq, Structural)]
pub enum ReduceOperator {
    Check,
    First,
    Count,
    Max,
    Mean,
    Median,
    Min,
    Std,
    Sum,
    List,
}

pub open spec fn operator_keyword(o: ReduceOperator) -> Seq<char> {
    match o {
        ReduceOperator::Check => "check"@,
        ReduceOperator::First => "first"@,
        ReduceOperator::Count => "count"@,
        ReduceOperator::Max => "max"@,
        ReduceOperator::Mean => "mean"@,
        ReduceOperator::Median => "median"@,
        ReduceOperator::Min => "min"@,
        ReduceOperator::Std => "std"@,
        ReduceOperator::Sum => "sum"@,
        ReduceOperator::List => "list"@,
    }
}

impl ReduceOperator {
    pub fn as_str(&self) -> (r: &'static str)
        ensures
            r@ == operator_keyword(*self),
    {
        match self {
            ReduceOperator::Check => "check",
            ReduceOperator::First => "first",
            ReduceOperator::Count => "count",
            ReduceOperator::Max => "max",
            ReduceOperator::Mean => "mean",
            ReduceOperator::Median => "median",
            ReduceOperator::Min => "min",
            ReduceOperator::Std => "std",
            ReduceOperator::Sum => "sum",
            ReduceOperator::List => "list",
        }
    }
}

} // verus!
