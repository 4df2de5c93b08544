//! The printing capability shared by syntax nodes: a context-free text form
//! and a form at a given indentation level.
use vstd::prelude::*;

verus! {

/// A syntax node that renders itself as source text.
pub trait Pretty {
    /// The node's text.
    spec fn text(&self) -> Seq<char>;

    /// The node's text at the given indentation level.
    spec fn pretty_text(&self, indent_level: nat) -> Seq<char>;

    /// Appends the node's text to `out`.
    fn fmt(&self, out: &mut String)
        ensures
            final(out)@ == old(out)@ + self.text(),
    ;

    /// Appends the node's text at the given indentation level to `out`.
    fn fmt_pretty(&self, indent_level: usize, out: &mut String)
        ensures
            final(out)@ == old(out)@ + self.pretty_text(indent_level as nat),
    ;
}

/// The texts of `items`, separated by a comma and a space.
pub open spec fn joined<T: Pretty>(items: Seq<T>) -> Seq<char>
    decreases items.len(),
{
    if items.len() == 0 {
        Seq::empty()
    } else if items.len() == 1 {
        items[0].text()
    } else {
        joined(items.drop_last()) + ", "@ + items.last().text()
    }
}

/// Four spaces for each level.
pub open spec fn indent_text(level: nat) -> Seq<char>
    decreases level,
{
    if level == 0 {
        Seq::empty()
    } else {
        indent_text((level - 1) as nat) + "    "@
    }
}

/// Appends the indentation of the given level to `out`.
pub fn indent(indent_level: usize, out: &mut String)
    ensures
        final(out)@ == old(out)@ + indent_text(indent_level as nat),
{
    let ghost start = out@;
    let mut i: usize = 0;
    assert(start + indent_text(0) =~= start);
    while i < indent_level
        invariant
            i <= indent_level,
            out@ == start + indent_text(i as nat),
        decreases indent_level - i,
    {
        out.append("    ");
        i = i + 1;
        assert(out@ =~= start + indent_text(i as nat));
    }
}

/// Appends the texts of `items` to `out`, separated by a comma and a space.
pub fn write_joined<T: Pretty>(items: &Vec<T>, out: &mut String)
    ensures
        final(out)@ == old(out)@ + joined(items@),
{
    let ghost start = out@;
    let mut i: usize = 0;
    assert(start + joined(items@.subrange(0, 0)) =~= start);
    while i < items.len()
        invariant
            i <= items@.len(),
            out@ == start + joined(items@.subrange(0, i as int)),
        decreases items@.len() - i,
    {
        if i > 0 {
            out.append(", ");
        }
        items[i].fmt(out);
        proof {
            let s = items@.subrange(0, i + 1);
            assert(s.drop_last() =~= items@.subrange(0, i as int));
            assert(s.last() == items@[i as int]);
        }
        i = i + 1;
        assert(out@ =~= start + joined(items@.subrange(0, i as int)));
    }
    assert(items@.subrange(0, items@.len() as int) =~= items@);
}

} // verus!
