//! Named query variables.
use vstd::prelude::*;

use crate::common::Span;
use crate::pretty::Pretty;

verus! {

/// A named variable, written `$name`.
#[derive(Debug, Clone, PartialEq, Eq)]
pub struct Variable {
    pub span: Option<Span>,
    pub name: String,
}

impl Variable {
    pub fn new(span: Option<Span>, name: String) -> (r: Self)
        ensures
            r.span == span,
            r.name == name,
    {
        Variable { span, name }
    }
}

impl Pretty for Variable {
    open spec fn text(&self) -> Seq<char> {
        "$"@ + self.name@
    }

    open spec fn pretty_text(&self, indent_level: nat) -> Seq<char> {
        self.text()
    }

    fn fmt(&self, out: &mut String) {
        out.append("$");
        out.append(self.name.as_str());
        assert(out@ =~= old(out)@ + self.text());
    }

    fn fmt_pretty(&self, indent_level: usize, out: &mut String) {
        self.fmt(out);
    }
}

} // verus!
