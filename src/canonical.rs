//! The printed text of a reduce stage determines the stage: reading the
//! text back can only give the stage that was printed, spans aside.
use vstd::prelude::*;

use crate::pretty::{indent_text, joined, Pretty};
use crate::reduce::{reduce_text, Reduce, ReduceAssign, ReduceValue};
use crate::token::{clause_keyword, operator_keyword, Clause, ReduceOperator};
use crate::variable::Variable;

verus! {

/// Two sequences that are equal, each split into a part free of `stop`
/// characters and a remainder that is empty or starts with one, split at
/// the same place.
proof fn lemma_split_front(
    a1: Seq<char>,
    x1: Seq<char>,
    a2: Seq<char>,
    x2: Seq<char>,
    stop: spec_fn(char) -> bool,
)
    requires
        a1 + x1 == a2 + x2,
        forall|i: int| 0 <= i < a1.len() ==> !stop(#[trigger] a1[i]),
        forall|i: int| 0 <= i < a2.len() ==> !stop(#[trigger] a2[i]),
        x1.len() > 0 ==> stop(x1[0]),
        x2.len() > 0 ==> stop(x2[0]),
    ensures
        a1 == a2,
        x1 == x2,
{
    let s = a1 + x1;
    if a1.len() < a2.len() {
        assert(s[a1.len() as int] == a2[a1.len() as int]);
    } else if a2.len() < a1.len() {
        assert(s[a2.len() as int] == a1[a2.len() as int]);
    }
    assert(a1 =~= s.subrange(0, a1.len() as int));
    assert(a2 =~= s.subrange(0, a2.len() as int));
    assert(x1 =~= s.subrange(a1.len() as int, s.len() as int));
    assert(x2 =~= s.subrange(a2.len() as int, s.len() as int));
}

/// The mirror image: the remainders are free of `stop` characters and the
/// first parts are empty or end with one.
proof fn lemma_split_back(
    a1: Seq<char>,
    x1: Seq<char>,
    a2: Seq<char>,
    x2: Seq<char>,
    stop: spec_fn(char) -> bool,
)
    requires
        a1 + x1 == a2 + x2,
        forall|i: int| 0 <= i < x1.len() ==> !stop(#[trigger] x1[i]),
        forall|i: int| 0 <= i < x2.len() ==> !stop(#[trigger] x2[i]),
        a1.len() > 0 ==> stop(a1.last()),
        a2.len() > 0 ==> stop(a2.last()),
    ensures
        a1 == a2,
        x1 == x2,
{
    let s = a1 + x1;
    assert(s.len() == a1.len() + x1.len());
    assert(s.len() == a2.len() + x2.len());
    if a1.len() < a2.len() {
        let k: int = a2.len() - 1;
        assert(s[k] == (a2 + x2)[k]);
        assert(s[k] == x1[k - a1.len()]);
    } else if a2.len() < a1.len() {
        let k: int = a1.len() - 1;
        assert(s[k] == (a2 + x2)[k]);
        assert((a2 + x2)[k] == x2[k - a2.len()]);
    }
    assert(a1 =~= s.subrange(0, a1.len() as int));
    assert(a2 =~= s.subrange(0, a2.len() as int));
    assert(x1 =~= s.subrange(a1.len() as int, s.len() as int));
    assert(x2 =~= s.subrange(a2.len() as int, s.len() as int));
}

/// A character that a variable name may hold.
pub open spec fn is_name_char(c: char) -> bool {
    ('a' <= c && c <= 'z') || ('A' <= c && c <= 'Z') || ('0' <= c && c <= '9') || c == '_'
        || c == '-'
}

/// A variable name as the lexer produces it: not empty, of name characters.
pub open spec fn is_name(s: Seq<char>) -> bool {
    s.len() > 0 && forall|i: int| 0 <= i < s.len() ==> is_name_char(#[trigger] s[i])
}

/// Lower-case letters only.
pub open spec fn is_word(s: Seq<char>) -> bool {
    forall|i: int| 0 <= i < s.len() ==> 'a' <= #[trigger] s[i] && s[i] <= 'z'
}

/// The length and the first two letters of an operator's keyword, which
/// tell the operators apart.
spec fn keyword_signature(o: ReduceOperator) -> (nat, char, char) {
    match o {
        ReduceOperator::Check => (5, 'c', 'h'),
        ReduceOperator::First => (5, 'f', 'i'),
        ReduceOperator::Count => (5, 'c', 'o'),
        ReduceOperator::Max => (3, 'm', 'a'),
        ReduceOperator::Mean => (4, 'm', 'e'),
        ReduceOperator::Median => (6, 'm', 'e'),
        ReduceOperator::Min => (3, 'm', 'i'),
        ReduceOperator::Std => (3, 's', 't'),
        ReduceOperator::Sum => (3, 's', 'u'),
        ReduceOperator::List => (4, 'l', 'i'),
    }
}

proof fn lemma_keyword(o: ReduceOperator)
    ensures
        is_word(operator_keyword(o)),
        operator_keyword(o).len() >= 3,
        operator_keyword(o).len() == keyword_signature(o).0,
        operator_keyword(o)[0] == keyword_signature(o).1,
        operator_keyword(o)[1] == keyword_signature(o).2,
{
    let k = operator_keyword(o);
    match o {
        ReduceOperator::Check => {
            reveal_strlit("check");
            assert(k =~= seq!['c', 'h', 'e', 'c', 'k']);
        },
        ReduceOperator::First => {
            reveal_strlit("first");
            assert(k =~= seq!['f', 'i', 'r', 's', 't']);
        },
        ReduceOperator::Count => {
            reveal_strlit("count");
            assert(k =~= seq!['c', 'o', 'u', 'n', 't']);
        },
        ReduceOperator::Max => {
            reveal_strlit("max");
            assert(k =~= seq!['m', 'a', 'x']);
        },
        ReduceOperator::Mean => {
            reveal_strlit("mean");
            assert(k =~= seq!['m', 'e', 'a', 'n']);
        },
        ReduceOperator::Median => {
            reveal_strlit("median");
            assert(k =~= seq!['m', 'e', 'd', 'i', 'a', 'n']);
        },
        ReduceOperator::Min => {
            reveal_strlit("min");
            assert(k =~= seq!['m', 'i', 'n']);
        },
        ReduceOperator::Std => {
            reveal_strlit("std");
            assert(k =~= seq!['s', 't', 'd']);
        },
        ReduceOperator::Sum => {
            reveal_strlit("sum");
            assert(k =~= seq!['s', 'u', 'm']);
        },
        ReduceOperator::List => {
            reveal_strlit("list");
            assert(k =~= seq!['l', 'i', 's', 't']);
        },
    }
}

proof fn lemma_keyword_injective(o1: ReduceOperator, o2: ReduceOperator)
    requires
        operator_keyword(o1) == operator_keyword(o2),
    ensures
        o1 == o2,
{
    lemma_keyword(o1);
    lemma_keyword(o2);
}

/// No character of `s` is `c`.
pub open spec fn free_of(s: Seq<char>, c: char) -> bool {
    forall|i: int| 0 <= i < s.len() ==> #[trigger] s[i] != c
}

proof fn lemma_free_concat(a: Seq<char>, b: Seq<char>, c: char)
    requires
        free_of(a, c),
        free_of(b, c),
    ensures
        free_of(a + b, c),
{
    assert forall|i: int| 0 <= i < (a + b).len() implies #[trigger] (a + b)[i] != c by {
        if i >= a.len() {
            assert((a + b)[i] == b[i - a.len()]);
        }
    }
}

proof fn lemma_strip(p: Seq<char>, x: Seq<char>, y: Seq<char>, q: Seq<char>)
    requires
        p + x + q == p + y + q,
    ensures
        x == y,
{
    let s = p + x + q;
    assert(s.len() == p.len() + x.len() + q.len());
    assert(s.len() == p.len() + y.len() + q.len());
    assert(x =~= s.subrange(p.len() as int, (p.len() + x.len()) as int));
    assert(y =~= (p + y + q).subrange(p.len() as int, (p.len() + y.len()) as int));
}

/// The two variables have the same name.
pub open spec fn same_variable(a: Variable, b: Variable) -> bool {
    a.name@ == b.name@
}

/// A count of at most one well-named variable, or a statistic of a
/// well-named variable.
pub open spec fn value_wf(v: ReduceValue) -> bool {
    match v {
        ReduceValue::Count(c) => match c.variable {
            Some(x) => is_name(x.name@),
            None => true,
        },
        ReduceValue::Stat(s) => {
            &&& !(s.reduce_operator is Check || s.reduce_operator is First
                || s.reduce_operator is Count)
            &&& is_name(s.variable.name@)
        },
    }
}

/// The two aggregates are the same, spans aside.
pub open spec fn same_value(a: ReduceValue, b: ReduceValue) -> bool {
    match (a, b) {
        (ReduceValue::Count(x), ReduceValue::Count(y)) => match (x.variable, y.variable) {
            (None, None) => true,
            (Some(p), Some(q)) => same_variable(p, q),
            _ => false,
        },
        (ReduceValue::Stat(x), ReduceValue::Stat(y)) => {
            x.reduce_operator == y.reduce_operator && same_variable(x.variable, y.variable)
        },
        _ => false,
    }
}

spec fn value_operator(v: ReduceValue) -> ReduceOperator {
    match v {
        ReduceValue::Count(_) => ReduceOperator::Count,
        ReduceValue::Stat(s) => s.reduce_operator,
    }
}

spec fn value_tail(v: ReduceValue) -> Seq<char> {
    match v {
        ReduceValue::Count(c) => match c.variable {
            Some(x) => "("@ + x.text() + ")"@,
            None => Seq::empty(),
        },
        ReduceValue::Stat(s) => "("@ + s.variable.text() + ")"@,
    }
}

proof fn lemma_variable_text(v: Variable)
    requires
        is_name(v.name@),
    ensures
        v.text().len() > 0,
        v.text()[0] == '$',
        free_of(v.text(), ' '),
        free_of(v.text(), ','),
        free_of(v.text(), '('),
{
    reveal_strlit("$");
    assert(v.text()[0] == '$');
    assert forall|i: int| 0 <= i < v.text().len() implies #[trigger] v.text()[i] != ' '
        && v.text()[i] != ',' && v.text()[i] != '(' by {
        if i > 0 {
            assert(v.text()[i] == v.name@[i - 1]);
        }
    }
}

proof fn lemma_variable_unique(a: Variable, b: Variable)
    requires
        a.text() == b.text(),
    ensures
        same_variable(a, b),
{
    lemma_strip("$"@, a.name@, b.name@, Seq::empty());
    assert("$"@ + a.name@ + Seq::<char>::empty() =~= a.text());
    assert("$"@ + b.name@ + Seq::<char>::empty() =~= b.text());
}

proof fn lemma_value_text(v: ReduceValue)
    requires
        value_wf(v),
    ensures
        v.text() == operator_keyword(value_operator(v)) + value_tail(v),
        value_tail(v).len() > 0 ==> value_tail(v)[0] == '(',
        free_of(v.text(), ' '),
        free_of(v.text(), ','),
        v.text().len() > 0,
        v.text()[0] != 'w',
{
    reveal_strlit("(");
    reveal_strlit(")");
    let k = operator_keyword(value_operator(v));
    let t = value_tail(v);
    lemma_keyword(value_operator(v));
    match v {
        ReduceValue::Count(c) => {
            if let Some(x) = c.variable {
                lemma_variable_text(x);
                lemma_free_concat("("@, x.text(), ' ');
                lemma_free_concat("("@ + x.text(), ")"@, ' ');
                lemma_free_concat("("@, x.text(), ',');
                lemma_free_concat("("@ + x.text(), ")"@, ',');
            }
        },
        ReduceValue::Stat(s) => {
            lemma_variable_text(s.variable);
            lemma_free_concat("("@, s.variable.text(), ' ');
            lemma_free_concat("("@ + s.variable.text(), ")"@, ' ');
            lemma_free_concat("("@, s.variable.text(), ',');
            lemma_free_concat("("@ + s.variable.text(), ")"@, ',');
            assert(v.text() =~= k + t);
        },
    }
    assert(v.text() =~= k + t);
    lemma_free_concat(k, t, ' ');
    lemma_free_concat(k, t, ',');
    assert(v.text()[0] == k[0]);
}

proof fn lemma_value_unique(a: ReduceValue, b: ReduceValue)
    requires
        value_wf(a),
        value_wf(b),
        a.text() == b.text(),
    ensures
        same_value(a, b),
{
    reveal_strlit("(");
    reveal_strlit(")");
    lemma_value_text(a);
    lemma_value_text(b);
    let ka = operator_keyword(value_operator(a));
    let kb = operator_keyword(value_operator(b));
    lemma_keyword(value_operator(a));
    lemma_keyword(value_operator(b));
    let stop = |c: char| c == '(';
    lemma_split_front(ka, value_tail(a), kb, value_tail(b), stop);
    lemma_keyword_injective(value_operator(a), value_operator(b));
    match (a, b) {
        (ReduceValue::Count(x), ReduceValue::Count(y)) => {
            if let (Some(p), Some(q)) = (x.variable, y.variable) {
                lemma_strip("("@, p.text(), q.text(), ")"@);
                lemma_variable_unique(p, q);
            }
        },
        (ReduceValue::Stat(x), ReduceValue::Stat(y)) => {
            lemma_strip("("@, x.variable.text(), y.variable.text(), ")"@);
            lemma_variable_unique(x.variable, y.variable);
        },
        _ => {},
    }
}

/// Every space of `s` is followed, inside `s`, by a character other than
/// `w`: no `within` keyword can start in `s`.
pub open spec fn no_within_start(s: Seq<char>) -> bool {
    forall|i: int| 0 <= i < s.len() && #[trigger] s[i] == ' ' ==> i + 1 < s.len() && s[i + 1] != 'w'
}

proof fn lemma_no_within_start_concat(a: Seq<char>, b: Seq<char>)
    requires
        no_within_start(a),
        no_within_start(b),
    ensures
        no_within_start(a + b),
{
    let s = a + b;
    assert forall|i: int| 0 <= i < s.len() && #[trigger] s[i] == ' ' implies i + 1 < s.len() && s[i
        + 1] != 'w' by {
        if i < a.len() {
            assert(s[i] == a[i]);
            assert(s[i + 1] == a[i + 1]);
        } else {
            assert(s[i] == b[i - a.len()]);
            assert(s[i + 1] == b[i + 1 - a.len()]);
        }
    }
}

/// A well-named target and a well-formed aggregate.
pub open spec fn assign_wf(a: ReduceAssign) -> bool {
    is_name(a.assign_to.name@) && value_wf(a.reduce_value)
}

/// The two assignments are the same, spans aside.
pub open spec fn same_assign(a: ReduceAssign, b: ReduceAssign) -> bool {
    same_variable(a.assign_to, b.assign_to) && same_value(a.reduce_value, b.reduce_value)
}

proof fn lemma_assign_text(a: ReduceAssign)
    requires
        assign_wf(a),
    ensures
        a.text().len() > 0,
        a.text()[0] == '$',
        free_of(a.text(), ','),
        no_within_start(a.text()),
{
    reveal_strlit(" = ");
    let n = a.assign_to.text();
    let v = a.reduce_value.text();
    lemma_variable_text(a.assign_to);
    lemma_value_text(a.reduce_value);
    let t = a.text();
    assert(t =~= n + seq![' ', '=', ' '] + v);
    assert(t[0] == n[0]);
    assert forall|i: int| 0 <= i < t.len() implies #[trigger] t[i] != ',' by {
        if i < n.len() {
            assert(t[i] == n[i]);
        } else if i >= n.len() + 3 {
            assert(t[i] == v[i - n.len() - 3]);
        }
    }
    assert forall|i: int| 0 <= i < t.len() && #[trigger] t[i] == ' ' implies i + 1 < t.len() && t[i
        + 1] != 'w' by {
        if i < n.len() {
            assert(t[i] == n[i]);
        } else if i >= n.len() + 3 {
            assert(t[i] == v[i - n.len() - 3]);
        } else if i == n.len() + 2 {
            assert(t[i + 1] == v[0]);
        }
    }
}

proof fn lemma_assign_unique(a: ReduceAssign, b: ReduceAssign)
    requires
        assign_wf(a),
        assign_wf(b),
        a.text() == b.text(),
    ensures
        same_assign(a, b),
{
    reveal_strlit(" = ");
    lemma_variable_text(a.assign_to);
    lemma_variable_text(b.assign_to);
    let xa = " = "@ + a.reduce_value.text();
    let xb = " = "@ + b.reduce_value.text();
    assert(a.text() =~= a.assign_to.text() + xa);
    assert(b.text() =~= b.assign_to.text() + xb);
    let stop = |c: char| c == ' ';
    lemma_split_front(a.assign_to.text(), xa, b.assign_to.text(), xb, stop);
    lemma_variable_unique(a.assign_to, b.assign_to);
    lemma_strip(" = "@, a.reduce_value.text(), b.reduce_value.text(), Seq::empty());
    assert(xa + Seq::<char>::empty() =~= xa);
    assert(xb + Seq::<char>::empty() =~= xb);
    lemma_value_unique(a.reduce_value, b.reduce_value);
}

/// Each item prints to a non-empty text with no comma in it.
pub open spec fn items_separable<T: Pretty>(xs: Seq<T>) -> bool {
    forall|i: int| 0 <= i < xs.len() ==> #[trigger] xs[i].text().len() > 0 && free_of(
        xs[i].text(),
        ',',
    )
}

proof fn lemma_joined_shape<T: Pretty>(xs: Seq<T>)
    requires
        xs.len() >= 2,
    ensures
        joined(xs) == (joined(xs.drop_last()) + seq![',']) + (seq![' '] + xs.last().text()),
{
    reveal_strlit(", ");
    assert(joined(xs) =~= (joined(xs.drop_last()) + seq![',']) + (seq![' '] + xs.last().text()));
}

proof fn lemma_joined_unique<T: Pretty>(xs: Seq<T>, ys: Seq<T>)
    requires
        items_separable(xs),
        items_separable(ys),
        joined(xs) == joined(ys),
    ensures
        xs.len() == ys.len(),
        forall|i: int| 0 <= i < xs.len() ==> #[trigger] xs[i].text() == ys[i].text(),
    decreases xs.len(),
{
    if xs.len() >= 2 && ys.len() >= 2 {
        let xi = xs.drop_last();
        let yi = ys.drop_last();
        lemma_joined_shape(xs);
        lemma_joined_shape(ys);
        let stop = |c: char| c == ',';
        let ax = joined(xi) + seq![','];
        let ay = joined(yi) + seq![','];
        let tx = seq![' '] + xs.last().text();
        let ty = seq![' '] + ys.last().text();
        assert(xs[xs.len() - 1] == xs.last());
        assert(ys[ys.len() - 1] == ys.last());
        assert forall|i: int| 0 <= i < tx.len() implies !stop(#[trigger] tx[i]) by {
            if i > 0 {
                assert(tx[i] == xs.last().text()[i - 1]);
            }
        }
        assert forall|i: int| 0 <= i < ty.len() implies !stop(#[trigger] ty[i]) by {
            if i > 0 {
                assert(ty[i] == ys.last().text()[i - 1]);
            }
        }
        lemma_split_back(ax, tx, ay, ty, stop);
        lemma_strip(Seq::empty(), joined(xi), joined(yi), seq![',']);
        assert(Seq::<char>::empty() + joined(xi) + seq![','] =~= ax);
        assert(Seq::<char>::empty() + joined(yi) + seq![','] =~= ay);
        lemma_strip(seq![' '], xs.last().text(), ys.last().text(), Seq::empty());
        assert(tx + Seq::<char>::empty() =~= tx);
        assert(ty + Seq::<char>::empty() =~= ty);
        assert(items_separable(xi)) by {
            assert forall|i: int| 0 <= i < xi.len() implies #[trigger] xi[i].text().len() > 0
                && free_of(xi[i].text(), ',') by {
                assert(xi[i] == xs[i]);
            }
        }
        assert(items_separable(yi)) by {
            assert forall|i: int| 0 <= i < yi.len() implies #[trigger] yi[i].text().len() > 0
                && free_of(yi[i].text(), ',') by {
                assert(yi[i] == ys[i]);
            }
        }
        lemma_joined_unique(xi, yi);
        assert forall|i: int| 0 <= i < xs.len() implies #[trigger] xs[i].text() == ys[i].text() by {
            if i < xs.len() - 1 {
                assert(xi[i] == xs[i]);
                assert(yi[i] == ys[i]);
            }
        }
    } else if xs.len() >= 2 || ys.len() >= 2 {
        if xs.len() < 2 {
            lemma_joined_one_comma(xs, ys);
        } else {
            lemma_joined_one_comma(ys, xs);
        }
    } else if xs.len() != ys.len() {
        if xs.len() == 1 {
            assert(xs[0].text().len() > 0);
        } else {
            assert(ys[0].text().len() > 0);
        }
    }
}

/// A list of one or no item prints without a comma; a longer one with one.
proof fn lemma_joined_one_comma<T: Pretty>(xs: Seq<T>, ys: Seq<T>)
    requires
        items_separable(xs),
        items_separable(ys),
        xs.len() < 2,
        ys.len() >= 2,
    ensures
        joined(xs) != joined(ys),
{
    lemma_joined_shape(ys);
    let k = joined(ys.drop_last()).len() as int;
    assert(joined(ys)[k] == ',');
    if xs.len() == 1 {
        assert(xs[0].text()[k] != ',' || k >= xs[0].text().len());
    }
}

proof fn lemma_assigns_no_within_start(xs: Seq<ReduceAssign>)
    requires
        forall|i: int| 0 <= i < xs.len() ==> assign_wf(#[trigger] xs[i]),
    ensures
        no_within_start(joined(xs)),
        items_separable(xs),
    decreases xs.len(),
{
    assert forall|i: int| 0 <= i < xs.len() implies #[trigger] xs[i].text().len() > 0 && free_of(
        xs[i].text(),
        ',',
    ) by {
        lemma_assign_text(xs[i]);
    }
    if xs.len() == 1 {
        lemma_assign_text(xs[0]);
    } else if xs.len() >= 2 {
        let xi = xs.drop_last();
        assert forall|i: int| 0 <= i < xi.len() implies assign_wf(#[trigger] xi[i]) by {
            assert(xi[i] == xs[i]);
        }
        lemma_assigns_no_within_start(xi);
        let last = xs.last();
        assert(assign_wf(xs[xs.len() - 1]));
        lemma_assign_text(last);
        lemma_joined_shape(xs);
        let sep = seq![','] + (seq![' '] + last.text());
        assert(no_within_start(sep)) by {
            assert forall|i: int| 0 <= i < sep.len() && #[trigger] sep[i] == ' ' implies i + 1
                < sep.len() && sep[i + 1] != 'w' by {
                if i >= 2 {
                    assert(sep[i] == last.text()[i - 2]);
                    assert(sep[i + 1] == last.text()[i - 1]);
                } else {
                    assert(sep[2] == last.text()[0]);
                }
            }
        }
        lemma_no_within_start_concat(joined(xi), sep);
        assert(joined(xs) =~= joined(xi) + sep);
    }
}

proof fn lemma_split_within(j1: Seq<char>, w1: Seq<char>, j2: Seq<char>, w2: Seq<char>)
    requires
        j1 + w1 == j2 + w2,
        no_within_start(j1),
        no_within_start(j2),
        w1.len() > 0 ==> w1.len() >= 2 && w1[0] == ' ' && w1[1] == 'w',
        w2.len() > 0 ==> w2.len() >= 2 && w2[0] == ' ' && w2[1] == 'w',
    ensures
        j1 == j2,
        w1 == w2,
{
    let s = j1 + w1;
    assert(s.len() == j1.len() + w1.len());
    assert(s.len() == j2.len() + w2.len());
    if j1.len() < j2.len() {
        let k = j1.len() as int;
        assert(s[k] == j2[k]);
        assert(s[k] == w1[0]);
        assert(s[k + 1] == w1[1]);
        assert(s[k + 1] == j2[k + 1]);
    } else if j2.len() < j1.len() {
        let k = j2.len() as int;
        assert(s[k] == j1[k]);
        assert((j2 + w2)[k] == w2[0]);
        assert((j2 + w2)[k + 1] == w2[1]);
        assert(s[k + 1] == j1[k + 1]);
    }
    assert(j1 =~= s.subrange(0, j1.len() as int));
    assert(j2 =~= s.subrange(0, j2.len() as int));
    assert(w1 =~= s.subrange(j1.len() as int, s.len() as int));
    assert(w2 =~= s.subrange(j2.len() as int, s.len() as int));
}

/// Well-formed assignments, and well-named grouping variables.
pub open spec fn stage_wf(r: Reduce) -> bool {
    &&& forall|i: int| 0 <= i < r.reductions@.len() ==> assign_wf(#[trigger] r.reductions@[i])
    &&& match r.within_group {
        Some(g) => forall|i: int| 0 <= i < g@.len() ==> is_name(#[trigger] g@[i].name@),
        None => true,
    }
}

/// The two stages are the same, spans aside: the same assignments in the
/// same order, and the same grouping variables in the same order.
pub open spec fn same_stage(a: Reduce, b: Reduce) -> bool {
    &&& a.reductions@.len() == b.reductions@.len()
    &&& forall|i: int|
        0 <= i < a.reductions@.len() ==> same_assign(
            #[trigger] a.reductions@[i],
            b.reductions@[i],
        )
    &&& match (a.within_group, b.within_group) {
        (None, None) => true,
        (Some(g), Some(h)) => {
            &&& g@.len() == h@.len()
            &&& forall|i: int| 0 <= i < g@.len() ==> same_variable(#[trigger] g@[i], h@[i])
        },
        _ => false,
    }
}

spec fn within_part(r: Reduce, inline: bool) -> Seq<char> {
    match r.within_group {
        Some(group) => if inline {
            " "@ + clause_keyword(Clause::Within) + " ("@ + joined(group@) + ")"@
        } else {
            " "@ + clause_keyword(Clause::Within) + " "@ + joined(group@)
        },
        None => Seq::empty(),
    }
}

proof fn lemma_group_unique(g: Seq<Variable>, h: Seq<Variable>)
    requires
        forall|i: int| 0 <= i < g.len() ==> is_name(#[trigger] g[i].name@),
        forall|i: int| 0 <= i < h.len() ==> is_name(#[trigger] h[i].name@),
        joined(g) == joined(h),
    ensures
        g.len() == h.len(),
        forall|i: int| 0 <= i < g.len() ==> same_variable(#[trigger] g[i], h[i]),
{
    assert forall|i: int| 0 <= i < g.len() implies #[trigger] g[i].text().len() > 0 && free_of(
        g[i].text(),
        ',',
    ) by {
        lemma_variable_text(g[i]);
    }
    assert forall|i: int| 0 <= i < h.len() implies #[trigger] h[i].text().len() > 0 && free_of(
        h[i].text(),
        ',',
    ) by {
        lemma_variable_text(h[i]);
    }
    lemma_joined_unique(g, h);
    assert forall|i: int| 0 <= i < g.len() implies same_variable(#[trigger] g[i], h[i]) by {
        lemma_variable_unique(g[i], h[i]);
    }
}

proof fn lemma_reduce_text_unique(a: Reduce, b: Reduce, inline: bool)
    requires
        stage_wf(a),
        stage_wf(b),
        reduce_text(a, inline) == reduce_text(b, inline),
    ensures
        same_stage(a, b),
{
    reveal_strlit(" ");
    reveal_strlit("within");
    let p = clause_keyword(Clause::Reduce) + " "@;
    let ja = joined(a.reductions@);
    let jb = joined(b.reductions@);
    let wa = within_part(a, inline);
    let wb = within_part(b, inline);
    assert(reduce_text(a, inline) =~= p + (ja + wa) + ";"@);
    assert(reduce_text(b, inline) =~= p + (jb + wb) + ";"@);
    lemma_strip(p, ja + wa, jb + wb, ";"@);
    lemma_assigns_no_within_start(a.reductions@);
    lemma_assigns_no_within_start(b.reductions@);
    if wa.len() > 0 {
        assert(wa[0] == ' ' && wa[1] == 'w');
    }
    if wb.len() > 0 {
        assert(wb[0] == ' ' && wb[1] == 'w');
    }
    lemma_split_within(ja, wa, jb, wb);
    lemma_joined_unique(a.reductions@, b.reductions@);
    assert forall|i: int| 0 <= i < a.reductions@.len() implies same_assign(
        #[trigger] a.reductions@[i],
        b.reductions@[i],
    ) by {
        lemma_assign_unique(a.reductions@[i], b.reductions@[i]);
    }
    if let (Some(g), Some(h)) = (a.within_group, b.within_group) {
        let k = " "@ + clause_keyword(Clause::Within);
        if inline {
            lemma_strip(k + " ("@, joined(g@), joined(h@), ")"@);
        } else {
            lemma_strip(k + " "@, joined(g@), joined(h@), Seq::empty());
            assert(k + " "@ + joined(g@) + Seq::<char>::empty() =~= wa);
            assert(k + " "@ + joined(h@) + Seq::<char>::empty() =~= wb);
        }
        lemma_group_unique(g@, h@);
    }
}

/// Reading a printed stage back gives the stage that was printed: two
/// well-formed stages with the same inline text, or the same compact text
/// at one indentation level, have the same assignments in the same order
/// and the same grouping variables in the same order. Spans, which the text
/// does not hold, are the only thing that may differ.
pub proof fn lemma_text_determines_stage(a: Reduce, b: Reduce, indent_level: nat)
    requires
        stage_wf(a),
        stage_wf(b),
    ensures
        a.text() == b.text() ==> same_stage(a, b),
        a.pretty_text(indent_level) == b.pretty_text(indent_level) ==> same_stage(a, b),
{
    if a.text() == b.text() {
        lemma_reduce_text_unique(a, b, true);
    }
    if a.pretty_text(indent_level) == b.pretty_text(indent_level) {
        let ind = indent_text(indent_level);
        lemma_strip(ind, reduce_text(a, false), reduce_text(b, false), Seq::empty());
        assert(ind + reduce_text(a, false) + Seq::<char>::empty() =~= a.pretty_text(indent_level));
        assert(ind + reduce_text(b, false) + Seq::<char>::empty() =~= b.pretty_text(indent_level));
        lemma_reduce_text_unique(a, b, false);
    }
}

} // verus!
