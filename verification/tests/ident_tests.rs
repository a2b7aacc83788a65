use ident_parse::classify::{ident, parse_into};
use ident_parse::cursor::CharCursor;
use ident_parse::ident::{accessor_fn, field, malformed, var, variant, Ident};
use ident_parse::state::{Attempting, Fail, FailReason, State};

fn test_parse(input: &str) -> Result<Ident, Fail> {
    let state = State::new();
    let chars: Vec<char> = input.chars().collect();
    ident(chars, state).map(|(answer, _)| answer).map_err(|(err, _)| err)
}

/// Runs the full classifier, returning the value, the lookahead character
/// and the advanced position.
fn test_parse_into(input: &str) -> Result<(Ident, Option<char>, State), Fail> {
    let state = State::new();
    let chars: Vec<char> = input.chars().collect();
    let mut cursor = CharCursor::new(chars);
    parse_into(&mut cursor, state)
        .map(|((id, next), st)| (id, next, st))
        .map_err(|(err, _)| err)
}

fn s(x: &str) -> String {
    x.to_string()
}

fn parts(xs: &[&str]) -> Vec<String> {
    xs.iter().map(|x| x.to_string()).collect()
}

#[test]
fn parse_var() {
    assert_eq!(test_parse("foo"), Ok(var(parts(&[]), s("foo"))))
}

#[test]
fn plain_var_with_digits() {
    assert_eq!(test_parse("blah2"), Ok(var(parts(&[]), s("blah2"))));
}

#[test]
fn plain_variant() {
    assert_eq!(test_parse("Foo"), Ok(variant(parts(&[]), s("Foo"))));
}

#[test]
fn qualified_variant() {
    assert_eq!(test_parse("Bar.Baz.Foo"), Ok(variant(parts(&["Bar", "Baz"]), s("Foo"))));
}

#[test]
fn accessor_function() {
    assert_eq!(test_parse(".foo"), Ok(accessor_fn(s("foo"))));
}

#[test]
fn accessor_capitalized_is_malformed() {
    assert_eq!(test_parse(".Foo"), Ok(malformed(s(".Foo"))));
}

#[test]
fn accessor_chain_is_malformed() {
    assert_eq!(test_parse(".foo.bar"), Ok(malformed(s(".foo.bar"))));
}

#[test]
fn double_leading_dot_is_malformed() {
    assert_eq!(test_parse("..foo"), Ok(malformed(s("..foo"))));
}

#[test]
fn leading_digit_is_hard_failure() {
    assert_eq!(
        test_parse("1abc"),
        Err(Fail {
            reason: FailReason::UnexpectedChar('1', 0),
            attempting: Attempting::Identifier,
        })
    );
}

#[test]
fn empty_input_is_hard_failure() {
    assert_eq!(
        test_parse(""),
        Err(Fail { reason: FailReason::UnexpectedEof(0), attempting: Attempting::Identifier })
    );
}

#[test]
fn lone_dot_is_hard_failure() {
    assert_eq!(
        test_parse("."),
        Err(Fail {
            reason: FailReason::UnexpectedChar('.', 1),
            attempting: Attempting::Identifier,
        })
    );
}

#[test]
fn trailing_dot_is_malformed() {
    assert_eq!(test_parse("foo."), Ok(malformed(s("foo."))));
}

#[test]
fn capitalized_after_lowercase_is_malformed() {
    assert_eq!(test_parse("foo.Bar"), Ok(malformed(s("foo.Bar"))));
}

#[test]
fn double_dot_inside_is_malformed() {
    assert_eq!(test_parse("foo..bar"), Ok(malformed(s("foo..bar"))));
}

#[test]
fn digit_starting_part_is_malformed() {
    assert_eq!(test_parse("foo.1bar"), Ok(malformed(s("foo.1bar"))));
}

#[test]
fn plain_var_no_lookahead() {
    let (id, next, st) = test_parse_into("foo").unwrap();
    assert_eq!(id, var(parts(&[]), s("foo")));
    assert_eq!(next, None);
    assert_eq!(st.offset, 3);
}

#[test]
fn qualified_var_stops_at_space() {
    let (id, next, st) = test_parse_into("Bar.Baz.foo bar").unwrap();
    assert_eq!(id, var(parts(&["Bar", "Baz"]), s("foo")));
    assert_eq!(next, Some(' '));
    assert_eq!(st.offset, 11);
}

#[test]
fn qualified_field_stops_at_paren() {
    let (id, next, st) = test_parse_into("Foo.Bar.baz.qux)").unwrap();
    assert_eq!(id, field(parts(&["Foo", "Bar"]), parts(&["baz", "qux"])));
    assert_eq!(next, Some(')'));
    assert_eq!(st.offset, 15);
}

#[test]
fn unqualified_field() {
    assert_eq!(test_parse("foo.bar"), Ok(field(parts(&[]), parts(&["foo", "bar"]))));
}

#[test]
fn malformed_absorbs_rest_of_run() {
    // The space ended the token right after a dot, so it joins the
    // malformed text and the rest of the identifier-like run is absorbed;
    // the bang ends the absorption and becomes the lookahead.
    let (id, next, st) = test_parse_into("foo. bar!").unwrap();
    assert_eq!(id, malformed(s("foo. bar")));
    assert_eq!(next, Some('!'));
    assert_eq!(st.offset, 8);
}

#[test]
fn malformed_accessor_arity_keeps_lookahead() {
    // The token was already delimited when the accessor arity rule failed:
    // nothing past the delimiter is absorbed.
    let (id, next, st) = test_parse_into(".foo.bar|x").unwrap();
    assert_eq!(id, malformed(s(".foo.bar")));
    assert_eq!(next, Some('|'));
    assert_eq!(st.offset, 8);
}

#[test]
fn malformed_classification_is_idempotent() {
    let first = test_parse("foo.Bar.baz").unwrap();
    match first {
        Ident::Malformed(text) => {
            let again = test_parse(&text).unwrap();
            assert_eq!(again, malformed(text));
        },
        other => panic!("expected a malformed token, got {:?}", other),
    }
}

#[test]
fn round_trip_of_field() {
    let first = test_parse("Foo.Bar.baz.qux").unwrap();
    assert_eq!(first, field(parts(&["Foo", "Bar"]), parts(&["baz", "qux"])));
    match &first {
        Ident::Field(mq) => {
            let mut rendered: Vec<String> = mq.module_parts.clone();
            rendered.extend(mq.value.iter().cloned());
            let text = rendered.join(".");
            assert_eq!(test_parse(&text).unwrap(), first);
        },
        other => panic!("expected a field, got {:?}", other),
    }
}

#[test]
fn unicode_alphabetic_var() {
    let (id, next, st) = test_parse_into("鹏x!").unwrap();
    assert_eq!(id, var(parts(&[]), s("鹏x")));
    assert_eq!(next, Some('!'));
    assert_eq!(st.offset, 2);
}

#[test]
fn accessor_dot_before_delimiter_is_malformed() {
    let (id, next, st) = test_parse_into(".|").unwrap();
    assert_eq!(id, malformed(s(".|")));
    assert_eq!(next, None);
    assert_eq!(st.offset, 2);
}
