use typeql::common::Span;
use typeql::pretty::Pretty;
use typeql::reduce::{Check, Count, First, Reduce, ReduceAssign, ReduceValue, Reduction, Stat};
use typeql::token::ReduceOperator;
use typeql::variable::Variable;

fn var(name: &str) -> Variable {
    Variable::new(None, String::from(name))
}

fn sample() -> Reduce {
    Reduce::new(
        vec![
            ReduceAssign { assign_to: var("a"), reduce_value: ReduceValue::Count(Count::new(None, None)) },
            ReduceAssign {
                assign_to: var("b"),
                reduce_value: ReduceValue::Stat(Stat::new(None, ReduceOperator::Sum, var("x"))),
            },
        ],
        Some(vec![var("g1"), var("g2")]),
    )
}

fn pretty(node: &impl Pretty, level: usize) -> String {
    let mut out = String::new();
    node.fmt_pretty(level, &mut out);
    out
}

fn inline(node: &impl Pretty) -> String {
    let mut out = String::new();
    node.fmt(&mut out);
    out
}

#[test]
fn inline_form_keeps_order() {
    assert_eq!(sample().to_text(), "reduce $a = count, $b = sum($x) within ($g1, $g2);");
}

#[test]
fn compact_form_keeps_order() {
    assert_eq!(pretty(&sample(), 0), "reduce $a = count, $b = sum($x) within $g1, $g2;");
}

#[test]
fn compact_form_is_indented() {
    let r = Reduce::new(
        vec![ReduceAssign { assign_to: var("n"), reduce_value: ReduceValue::Count(Count::new(None, Some(var("p")))) }],
        None,
    );
    assert_eq!(pretty(&r, 2), "        reduce $n = count($p);");
}

#[test]
fn printing_twice_is_identical() {
    let r = sample();
    assert_eq!(r.to_text(), r.to_text());
    assert_eq!(pretty(&r, 1), pretty(&r, 1));
}

#[test]
fn stage_without_group() {
    let r = Reduce::new(
        vec![ReduceAssign {
            assign_to: var("m"),
            reduce_value: ReduceValue::Stat(Stat::new(None, ReduceOperator::Median, var("age"))),
        }],
        None,
    );
    assert_eq!(r.to_text(), "reduce $m = median($age);");
    assert_eq!(inline(&r), r.to_text());
}

#[test]
fn empty_group_list() {
    let r = Reduce::new(
        vec![ReduceAssign { assign_to: var("c"), reduce_value: ReduceValue::Count(Count::new(None, None)) }],
        Some(vec![]),
    );
    assert_eq!(r.to_text(), "reduce $c = count within ();");
    assert_eq!(pretty(&r, 0), "reduce $c = count within ;");
}

#[test]
fn assign_prints_with_indent() {
    let a = ReduceAssign { assign_to: var("s"), reduce_value: ReduceValue::Stat(Stat::new(None, ReduceOperator::Max, var("v"))) };
    assert_eq!(inline(&a), "$s = max($v)");
    assert_eq!(pretty(&a, 1), "    $s = max($v)");
}

#[test]
fn check_prints() {
    assert_eq!(inline(&Check::new(None)), "check;");
    assert_eq!(inline(&Reduction::Check(Check::new(None))), "check;");
}

#[test]
fn first_prints_variables() {
    let f = First::new(None, vec![var("x"), var("y")]);
    assert_eq!(inline(&f), "first($x, $y);");
    assert_eq!(pretty(&Reduction::First(f), 3), "first($x, $y);");
}

#[test]
fn value_reduction_is_comma_joined() {
    let r = Reduction::Value(vec![
        ReduceValue::Count(Count::new(None, Some(var("x")))),
        ReduceValue::Stat(Stat::new(None, ReduceOperator::Mean, var("y"))),
        ReduceValue::Stat(Stat::new(None, ReduceOperator::Std, var("z"))),
    ]);
    assert_eq!(inline(&r), "count($x), mean($y), std($z)");
}

#[test]
fn leaves_ignore_indentation() {
    let c = ReduceValue::Count(Count::new(None, None));
    assert_eq!(pretty(&c, 4), "count");
    assert_eq!(pretty(&var("q"), 2), "$q");
}

#[test]
fn spans_do_not_reach_the_text() {
    let span = Some(Span { begin_offset: 0, end_offset: 5 });
    let with_spans = Reduce::new(
        vec![ReduceAssign {
            assign_to: Variable::new(span, String::from("a")),
            reduce_value: ReduceValue::Count(Count::new(span, None)),
        }],
        Some(vec![Variable::new(span, String::from("g"))]),
    );
    let without = Reduce::new(
        vec![ReduceAssign { assign_to: var("a"), reduce_value: ReduceValue::Count(Count::new(None, None)) }],
        Some(vec![var("g")]),
    );
    assert_eq!(with_spans.to_text(), without.to_text());
    assert_eq!(pretty(&with_spans, 1), pretty(&without, 1));
}

#[test]
fn different_stages_print_differently() {
    let swapped = Reduce::new(sample().reductions, Some(vec![var("g2"), var("g1")]));
    assert_ne!(swapped.to_text(), sample().to_text());
    assert_ne!(pretty(&swapped, 0), pretty(&sample(), 0));
    let ungrouped = Reduce::new(sample().reductions, None);
    assert_ne!(ungrouped.to_text(), sample().to_text());
    let counted = Reduce::new(
        vec![ReduceAssign { assign_to: var("b"), reduce_value: ReduceValue::Count(Count::new(None, Some(var("x")))) }],
        None,
    );
    let summed = Reduce::new(
        vec![ReduceAssign {
            assign_to: var("b"),
            reduce_value: ReduceValue::Stat(Stat::new(None, ReduceOperator::Sum, var("x"))),
        }],
        None,
    );
    assert_ne!(counted.to_text(), summed.to_text());
}
