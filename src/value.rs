//! Typed literal values, their ambiguity tags, and the decoding of quoted
//! string literals.
use vstd::prelude::*;

use crate::common::Span;
use crate::text::push_char;

verus! {

/// The concrete type of a literal, or a grouping of types when the
/// lexical form alone cannot tell them apart.
#[derive(Debug, Clone, Copy, PartialEq, Eq, Structural)]
pub enum Tag {
    Boolean,
    Long,
    Double,
    Decimal,
    Date,
    DateTime,
    DateTimeTZ,
    Duration,
    String,
    /// `Long` or `Fractional`.
    Integral,
    /// `Double` or `Decimal`.
    Fractional,
}

pub open spec fn tag_name(t: Tag) -> Seq<char> {
    match t {
        Tag::Boolean => "Boolean"@,
        Tag::Long => "Long"@,
        Tag::Double => "Double"@,
        Tag::Decimal => "Decimal"@,
        Tag::Date => "Date"@,
        Tag::DateTime => "DateTime"@,
        Tag::DateTimeTZ => "DateTimeTZ"@,
        Tag::Duration => "Duration"@,
        Tag::String => "String"@,
        Tag::Integral => "Integral"@,
        Tag::Fractional => "Fractional"@,
    }
}

impl Tag {
    /// The tag's name as written in source text.
    pub fn name(&self) -> (r: &'static str)
        ensures
            r@ == tag_name(*self),
    {
        match self {
            Tag::Boolean => "Boolean",
            Tag::Long => "Long",
            Tag::Double => "Double",
            Tag::Decimal => "Decimal",
            Tag::Date => "Date",
            Tag::DateTime => "DateTime",
            Tag::DateTimeTZ => "DateTimeTZ",
            Tag::Duration => "Duration",
            Tag::String => "String",
            Tag::Integral => "Integral",
            Tag::Fractional => "Fractional",
        }
    }
}

#[derive(Debug, Clone, PartialEq, Eq)]
pub struct BooleanLiteral {
    pub value: String,
}

#[derive(Debug, Clone, PartialEq, Eq)]
pub struct StringLiteral {
    pub value: String,
}

#[derive(Debug, Clone, PartialEq, Eq)]
pub struct IntegerLiteral {
    pub value: String,
}

#[derive(Debug, Clone, Copy, PartialEq, Eq, Structural)]
pub enum Sign {
    Plus,
    Minus,
}

#[derive(Debug, Clone, PartialEq, Eq)]
pub struct SignedIntegerLiteral {
    pub sign: Sign,
    pub integral: String,
}

#[derive(Debug, Clone, PartialEq, Eq)]
pub struct SignedDecimalLiteral {
    pub sign: Sign,
    pub integral: String,
    pub fractional: Option<String>,
    pub exponent: Option<(Sign, String)>,
}

#[derive(Debug, Clone, PartialEq, Eq)]
pub struct DateFragment {
    pub year: String,
    pub month: String,
    pub day: String,
}

#[derive(Debug, Clone, PartialEq, Eq)]
pub struct TimeFragment {
    pub hour: String,
    pub minute: String,
    pub second: Option<String>,
    pub second_fraction: Option<String>,
}

#[derive(Debug, Clone, PartialEq, Eq)]
pub struct DateTimeTZLiteral {
    pub date: DateFragment,
    pub time: TimeFragment,
    pub timezone: TimeZone,
}

#[derive(Debug, Clone, PartialEq, Eq)]
pub struct DateTimeLiteral {
    pub date: DateFragment,
    pub time: TimeFragment,
}

#[derive(Debug, Clone, PartialEq, Eq)]
pub struct DateLiteral {
    pub date: DateFragment,
}

#[derive(Debug, Clone, PartialEq, Eq)]
pub enum TimeZone {
    /// A region and a name of the IANA time zone database.
    IANA(String, String),
    /// A fixed offset in ISO form.
    ISO(String),
}

#[derive(Debug, Clone, PartialEq, Eq)]
pub struct DurationLiteral {
    pub date: Option<DurationDate>,
    pub time: Option<DurationTime>,
}

#[derive(Debug, Clone, PartialEq, Eq)]
pub enum DurationDate {
    Years(String),
    Months(String),
    Weeks(String),
}

#[derive(Debug, Clone, PartialEq, Eq)]
pub enum DurationTime {
    Days(String),
    Hours(String),
    Minutes(String),
    Seconds(String),
}

/// A fully typed literal payload; numeric and temporal parts are kept as
/// the digit strings of the source.
#[derive(Debug, Clone, PartialEq, Eq)]
pub enum ValueLiteral {
    Boolean(BooleanLiteral),
    Integer(SignedIntegerLiteral),
    Decimal(SignedDecimalLiteral),
    Date(DateFragment),
    DateTime(DateFragment, TimeFragment),
    DateTimeTz(DateFragment, TimeFragment, TimeZone),
    Duration(DurationLiteral),
    String(StringLiteral),
}

/// The source form of one character inside a double-quoted literal.
pub open spec fn escape_char_text(c: char) -> Seq<char> {
    if c == '\x08' {
        seq!['\\', 'b']
    } else if c == '\t' {
        seq!['\\', 't']
    } else if c == '\n' {
        seq!['\\', 'n']
    } else if c == '\x0c' {
        seq!['\\', 'f']
    } else if c == '\r' {
        seq!['\\', 'r']
    } else if c == '"' || c == '\\' {
        seq!['\\', c]
    } else {
        seq![c]
    }
}

/// The source form of a string's content inside double quotes.
pub open spec fn escape_text(s: Seq<char>) -> Seq<char>
    decreases s.len(),
{
    if s.len() == 0 {
        Seq::empty()
    } else {
        escape_text(s.drop_last()) + escape_char_text(s.last())
    }
}

/// A string's content, escaped and delimited by double quotes.
pub open spec fn quote(s: Seq<char>) -> Seq<char> {
    seq!['"'] + escape_text(s) + seq!['"']
}

proof fn lemma_escape_front(c: char, t: Seq<char>)
    ensures
        escape_text(seq![c] + t) == escape_char_text(c) + escape_text(t),
    decreases t.len(),
{
    let u = seq![c] + t;
    if t.len() == 0 {
        assert(u.drop_last() =~= Seq::<char>::empty());
        assert(u.last() == c);
        assert(escape_text(u) == escape_text(u.drop_last()) + escape_char_text(c));
        assert(escape_text(u) =~= escape_char_text(c));
        assert(escape_char_text(c) + escape_text(t) =~= escape_char_text(c));
    } else {
        lemma_escape_front(c, t.drop_last());
        assert(u.drop_last() =~= seq![c] + t.drop_last());
        assert(u.last() == t.last());
        assert(escape_text(u) == escape_text(u.drop_last()) + escape_char_text(u.last()));
        assert(escape_text(t) == escape_text(t.drop_last()) + escape_char_text(t.last()));
        assert(escape_text(u) =~= escape_char_text(c) + escape_text(t));
    }
}

/// Decoding the escaped form of a string gives the string back.
pub proof fn lemma_escape_decodes(s: Seq<char>)
    ensures
        decode_body(escape_text(s)) == Ok::<Seq<char>, Seq<char>>(s),
    decreases s.len(),
{
    if s.len() == 0 {
        assert(escape_text(s) == Seq::<char>::empty());
        assert(s =~= Seq::<char>::empty());
    } else {
        let c = s[0];
        let t = s.subrange(1, s.len() as int);
        assert(s =~= seq![c] + t);
        lemma_escape_front(c, t);
        lemma_escape_decodes(t);
        let e = escape_char_text(c);
        let all = e + escape_text(t);
        assert(escape_text(s) == all);
        assert(all.subrange(e.len() as int, all.len() as int) =~= escape_text(t));
        if e.len() == 1 {
            assert(all[0] == c && c != '\\');
        } else {
            assert(all[0] == '\\' && all[1] == e[1]);
            assert(escaped_char(e[1]) == Some(c));
        }
        assert(decode_body(all) == prepend(seq![c], decode_body(escape_text(t))));
        assert(seq![c] + t =~= s);
    }
}

/// A string literal, printed with its escapes and re-decoded, is the same
/// string: the quoted text meets `parse_string`'s requirement and decodes
/// without error to the content it started from.
pub proof fn lemma_string_literal_round_trip(s: Seq<char>)
    ensures
        is_quoted(quote(s)),
        decode_body(quoted_body(quote(s))) == Ok::<Seq<char>, Seq<char>>(s),
{
    let q = quote(s);
    assert(quoted_body(q) =~= escape_text(s));
    lemma_escape_decodes(s);
}

impl StringLiteral {
    /// The literal as source text: double quotes around the content, with
    /// quotes, backslashes and control characters escaped.
    pub fn to_text(&self) -> (r: String)
        ensures
            r@ == quote(self.value@),
    {
        let v = self.value.as_str();
        let n = v.unicode_len();
        let mut out = String::new();
        push_char(&mut out, '"');
        let mut i: usize = 0;
        while i < n
            invariant
                n == v@.len(),
                v@ == self.value@,
                i <= n,
                out@ == seq!['"'] + escape_text(v@.subrange(0, i as int)),
            decreases n - i,
        {
            let c = v.get_char(i);
            let ghost before = out@;
            if c == '\x08' {
                push_char(&mut out, '\\');
                push_char(&mut out, 'b');
            } else if c == '\t' {
                push_char(&mut out, '\\');
                push_char(&mut out, 't');
            } else if c == '\n' {
                push_char(&mut out, '\\');
                push_char(&mut out, 'n');
            } else if c == '\x0c' {
                push_char(&mut out, '\\');
                push_char(&mut out, 'f');
            } else if c == '\r' {
                push_char(&mut out, '\\');
                push_char(&mut out, 'r');
            } else if c == '"' || c == '\\' {
                push_char(&mut out, '\\');
                push_char(&mut out, c);
            } else {
                push_char(&mut out, c);
            }
            assert(out@ =~= before + escape_char_text(c));
            assert(v@.subrange(0, i + 1).drop_last() =~= v@.subrange(0, i as int));
            i = i + 1;
            assert(out@ =~= seq!['"'] + escape_text(v@.subrange(0, i as int)));
        }
        push_char(&mut out, '"');
        assert(v@.subrange(0, n as int) =~= v@);
        assert(out@ =~= quote(self.value@));
        out
    }
}

/// A literal value with an optional type tag and source span.
#[derive(Debug, Clone, PartialEq, Eq)]
pub struct Literal {
    pub span: Option<Span>,
    pub tag: Option<Tag>,
    pub inner: ValueLiteral,
}

impl Literal {
    pub fn new(span: Option<Span>, category: Option<Tag>, inner: ValueLiteral) -> (r: Self)
        ensures
            r.span == span,
            r.tag == category,
            r.inner == inner,
    {
        Literal { span, tag: category, inner }
    }

    /// Builds the literal for a bare numeral of the given parts. Its
    /// concrete type is left open: one with neither a fractional part nor
    /// an exponent is an integer tagged `Integral`, any other a decimal
    /// tagged `Fractional`.
    pub fn numeral(
        span: Option<Span>,
        sign: Sign,
        integral: String,
        fractional: Option<String>,
        exponent: Option<(Sign, String)>,
    ) -> (r: Self)
        ensures
            r.span == span,
            (fractional.is_none() && exponent.is_none()) ==> {
                &&& r.tag == Some(Tag::Integral)
                &&& r.inner == ValueLiteral::Integer(SignedIntegerLiteral { sign, integral })
            },
            !(fractional.is_none() && exponent.is_none()) ==> {
                &&& r.tag == Some(Tag::Fractional)
                &&& r.inner == ValueLiteral::Decimal(
                    SignedDecimalLiteral { sign, integral, fractional, exponent },
                )
            },
    {
        if fractional.is_none() && exponent.is_none() {
            Literal::new(
                span,
                Some(Tag::Integral),
                ValueLiteral::Integer(SignedIntegerLiteral { sign, integral }),
            )
        } else {
            Literal::new(
                span,
                Some(Tag::Fractional),
                ValueLiteral::Decimal(SignedDecimalLiteral { sign, integral, fractional, exponent }),
            )
        }
    }

    /// The source span, if any.
    pub fn span(&self) -> (r: Option<Span>)
        ensures
            r == self.span,
    {
        self.span
    }
}

/// Failure to decode a quoted string literal.
#[derive(Debug, Clone, PartialEq, Eq)]
pub enum DecodeError {
    /// An escape sequence that the language does not define, or a lone
    /// backslash at the end of the string.
    InvalidStringEscape { full_string: String, escape: String },
    /// A `\u` escape: accepted by the grammar, not decoded here.
    UnsupportedStringEscape { full_string: String, escape: String },
}

/// The character that the escape `\c` stands for, if `c` names one.
pub open spec fn escaped_char(c: char) -> Option<char> {
    if c == 'b' {
        Some('\x08')
    } else if c == 't' {
        Some('\t')
    } else if c == 'n' {
        Some('\n')
    } else if c == 'f' {
        Some('\x0c')
    } else if c == 'r' {
        Some('\r')
    } else if c == '"' || c == '\'' || c == '\\' {
        Some(c)
    } else {
        None
    }
}

/// The escape sequence that introduces a unicode code point.
pub open spec fn unicode_escape() -> Seq<char> {
    seq!['\\', 'u']
}

/// The unescaped content of a string body, or the first offending escape
/// sequence.
pub open spec fn decode_body(s: Seq<char>) -> Result<Seq<char>, Seq<char>>
    decreases s.len(),
{
    if s.len() == 0 {
        Ok(Seq::empty())
    } else if s[0] != '\\' {
        prepend(seq![s[0]], decode_body(s.subrange(1, s.len() as int)))
    } else if s.len() < 2 {
        Err(seq!['\\'])
    } else if s[1] == 'u' {
        Err(unicode_escape())
    } else {
        match escaped_char(s[1]) {
            Some(c) => prepend(seq![c], decode_body(s.subrange(2, s.len() as int))),
            None => Err(seq!['\\', s[1]]),
        }
    }
}

/// Puts `p` in front of a successful decoding; keeps an error as it is.
pub open spec fn prepend(p: Seq<char>, r: Result<Seq<char>, Seq<char>>) -> Result<
    Seq<char>,
    Seq<char>,
> {
    match r {
        Ok(t) => Ok(p + t),
        Err(e) => Err(e),
    }
}

proof fn lemma_prepend_prepend(p: Seq<char>, q: Seq<char>, r: Result<Seq<char>, Seq<char>>)
    ensures
        prepend(p, prepend(q, r)) == prepend(p + q, r),
{
    if let Ok(t) = r {
        assert(p + (q + t) =~= (p + q) + t);
    }
}

proof fn lemma_prepend_empty(r: Result<Seq<char>, Seq<char>>)
    ensures
        prepend(Seq::empty(), r) == r,
{
    if let Ok(t) = r {
        assert(Seq::<char>::empty() + t =~= t);
    }
}

/// A quoted literal: delimited by the same quote character, single or
/// double, on both ends.
pub open spec fn is_quoted(s: Seq<char>) -> bool {
    &&& s.len() >= 2
    &&& s[0] == s[s.len() - 1]
    &&& (s[0] == '"' || s[0] == '\'')
}

/// The text between the delimiting quotes.
pub open spec fn quoted_body(s: Seq<char>) -> Seq<char> {
    s.subrange(1, s.len() - 1)
}

/// Decodes a quoted string literal into its unescaped content.
pub fn parse_string(escaped_string: &str) -> (r: Result<String, DecodeError>)
    requires
        is_quoted(escaped_string@),
    ensures
        ({
            let body = quoted_body(escaped_string@);
            match r {
                Ok(out) => decode_body(body) == Ok::<Seq<char>, Seq<char>>(out@),
                Err(DecodeError::InvalidStringEscape { full_string, escape }) => {
                    &&& decode_body(body) == Err::<Seq<char>, Seq<char>>(escape@)
                    &&& escape@ != unicode_escape()
                    &&& full_string@ == body
                },
                Err(DecodeError::UnsupportedStringEscape { full_string, escape }) => {
                    &&& decode_body(body) == Err::<Seq<char>, Seq<char>>(escape@)
                    &&& escape@ == unicode_escape()
                    &&& full_string@ == body
                },
            }
        }),
{
    let n = escaped_string.unicode_len();
    let body = escaped_string.substring_char(1, n - 1);
    let m = n - 2;
    let ghost b = body@;
    let mut buf = String::new();
    let mut i: usize = 0;
    proof {
        assert(b.subrange(0, m as int) =~= b);
        lemma_prepend_empty(decode_body(b));
    }
    while i < m
        invariant
            b == body@,
            b == quoted_body(escaped_string@),
            b.len() == m,
            i <= m,
            decode_body(b) == prepend(buf@, decode_body(b.subrange(i as int, m as int))),
        decreases m - i,
    {
        let ghost rest = b.subrange(i as int, m as int);
        let c = body.get_char(i);
        if c != '\\' {
            assert(rest.subrange(1, rest.len() as int) =~= b.subrange(i + 1, m as int));
            proof {
                assert(decode_body(rest) == prepend(seq![c], decode_body(b.subrange(i + 1, m as int))));
                lemma_prepend_prepend(buf@, seq![c], decode_body(b.subrange(i + 1, m as int)));
            }
            let ghost before = buf@;
            push_char(&mut buf, c);
            assert(buf@ =~= before + seq![c]);
            i = i + 1;
        } else if i + 1 >= m {
            proof {
                reveal_strlit("\\");
                assert("\\"@ =~= seq!['\\']);
                assert(decode_body(rest) == Err::<Seq<char>, Seq<char>>(seq!['\\']));
            }
            return Err(
                DecodeError::InvalidStringEscape {
                    full_string: body.to_owned(),
                    escape: String::from_str("\\"),
                },
            );
        } else {
            let d = body.get_char(i + 1);
            assert(rest.subrange(2, rest.len() as int) =~= b.subrange(i + 2, m as int));
            let out = if d == 'b' {
                '\x08'
            } else if d == 't' {
                '\t'
            } else if d == 'n' {
                '\n'
            } else if d == 'f' {
                '\x0c'
            } else if d == 'r' {
                '\r'
            } else if d == '"' || d == '\'' || d == '\\' {
                d
            } else if d == 'u' {
                proof {
                    reveal_strlit("\\");
                }
                let mut escape = String::from_str("\\");
                push_char(&mut escape, 'u');
                assert(escape@ =~= unicode_escape());
                return Err(
                    DecodeError::UnsupportedStringEscape { full_string: body.to_owned(), escape },
                );
            } else {
                proof {
                    reveal_strlit("\\");
                }
                let mut escape = String::from_str("\\");
                push_char(&mut escape, d);
                assert(escape@ =~= seq!['\\', d]);
                assert(escape@[1] != unicode_escape()[1]);
                return Err(
                    DecodeError::InvalidStringEscape { full_string: body.to_owned(), escape },
                );
            };
            proof {
                assert(escaped_char(d) == Some(out));
                assert(decode_body(rest) == prepend(seq![out], decode_body(b.subrange(i + 2, m as int))));
                lemma_prepend_prepend(buf@, seq![out], decode_body(b.subrange(i + 2, m as int)));
            }
            let ghost before = buf@;
            push_char(&mut buf, out);
            assert(buf@ =~= before + seq![out]);
            i = i + 2;
        }
    }
    Ok(buf)
}

} // verus!
