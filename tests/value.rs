use typeql::common::Span;
use typeql::value::{
    parse_string, DecodeError, Literal, Sign, SignedDecimalLiteral, SignedIntegerLiteral,
    StringLiteral, Tag, ValueLiteral,
};

#[test]
fn decodes_tab_escape() {
    assert_eq!(parse_string("\"a\\tb\""), Ok(String::from("a\tb")));
}

#[test]
fn decodes_escaped_backslash_in_single_quotes() {
    assert_eq!(parse_string("'\\\\'"), Ok(String::from("\\")));
}

#[test]
fn rejects_unknown_escape() {
    assert_eq!(
        parse_string("\"\\q\""),
        Err(DecodeError::InvalidStringEscape {
            full_string: String::from("\\q"),
            escape: String::from("\\q"),
        })
    );
}

#[test]
fn rejects_trailing_backslash() {
    assert_eq!(
        parse_string("'ab\\'"),
        Err(DecodeError::InvalidStringEscape {
            full_string: String::from("ab\\"),
            escape: String::from("\\"),
        })
    );
}

#[test]
fn rejects_unicode_escape_as_unsupported() {
    assert_eq!(
        parse_string("\"x\\u0041\""),
        Err(DecodeError::UnsupportedStringEscape {
            full_string: String::from("x\\u0041"),
            escape: String::from("\\u"),
        })
    );
}

#[test]
fn decodes_every_simple_escape() {
    assert_eq!(
        parse_string("\"\\b\\t\\n\\f\\r\\\"\\'\\\\\""),
        Ok(String::from("\u{8}\t\n\u{c}\r\"'\\"))
    );
}

#[test]
fn keeps_plain_and_non_ascii_characters() {
    assert_eq!(parse_string("'héllo wörld'"), Ok(String::from("héllo wörld")));
}

#[test]
fn decodes_empty_string() {
    assert_eq!(parse_string("\"\""), Ok(String::new()));
}

#[test]
fn first_bad_escape_wins() {
    assert_eq!(
        parse_string("\"\\n\\x\\y\""),
        Err(DecodeError::InvalidStringEscape {
            full_string: String::from("\\n\\x\\y"),
            escape: String::from("\\x"),
        })
    );
}

#[test]
fn tag_names() {
    assert_eq!(Tag::Boolean.name(), "Boolean");
    assert_eq!(Tag::DateTimeTZ.name(), "DateTimeTZ");
    assert_eq!(Tag::Integral.name(), "Integral");
    assert_eq!(Tag::Fractional.name(), "Fractional");
}

#[test]
fn bare_integer_numeral_is_tagged_integral() {
    let lit = Literal::numeral(None, Sign::Minus, String::from("42"), None, None);
    assert_eq!(lit.tag, Some(Tag::Integral));
    assert_eq!(
        lit.inner,
        ValueLiteral::Integer(SignedIntegerLiteral { sign: Sign::Minus, integral: String::from("42") })
    );
}

#[test]
fn fractional_numeral_is_tagged_fractional() {
    let lit = Literal::numeral(None, Sign::Plus, String::from("3"), Some(String::from("14")), None);
    assert_eq!(lit.tag, Some(Tag::Fractional));
    assert_eq!(
        lit.inner,
        ValueLiteral::Decimal(SignedDecimalLiteral {
            sign: Sign::Plus,
            integral: String::from("3"),
            fractional: Some(String::from("14")),
            exponent: None,
        })
    );
}

#[test]
fn numeral_with_exponent_is_tagged_fractional() {
    let lit = Literal::numeral(
        None,
        Sign::Plus,
        String::from("1"),
        None,
        Some((Sign::Minus, String::from("5"))),
    );
    assert_eq!(lit.tag, Some(Tag::Fractional));
    assert!(matches!(lit.inner, ValueLiteral::Decimal(_)));
}

#[test]
fn literal_keeps_its_parts() {
    let span = Span { begin_offset: 3, end_offset: 9 };
    let inner = ValueLiteral::String(StringLiteral { value: String::from("abc") });
    let lit = Literal::new(Some(span), None, inner.clone());
    assert_eq!(lit.span(), Some(span));
    assert_eq!(lit.tag, None);
    assert_eq!(lit.inner, inner);
}

#[test]
fn string_literal_prints_escaped_and_decodes_back() {
    let lit = StringLiteral { value: String::from("a\"b\\c\n'\t") };
    assert_eq!(lit.to_text(), "\"a\\\"b\\\\c\\n'\\t\"");
    assert_eq!(parse_string(&lit.to_text()), Ok(lit.value.clone()));
}

#[test]
fn plain_string_literal_prints_quoted() {
    let lit = StringLiteral { value: String::from("plain") };
    assert_eq!(lit.to_text(), "\"plain\"");
}
