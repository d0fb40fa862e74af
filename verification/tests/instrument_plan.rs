use telemetry_safe::instrument::{
    parse_field_args, parse_instrument_args, plan_safe_instrument, AttrArg, FieldEntry,
    InstrumentArg, InstrumentError, TokenRange,
};
use telemetry_safe::tokens::{Delimiter, TokenKind, TokenTree};
use telemetry_safe::tracing_support::SpanField;

fn ident(name: &str) -> TokenTree {
    TokenTree { kind: TokenKind::Ident, text: name.to_string() }
}

fn punct(c: char) -> TokenTree {
    TokenTree { kind: TokenKind::Punct(c, false), text: c.to_string() }
}

fn lit(source: &str) -> TokenTree {
    TokenTree { kind: TokenKind::Literal, text: source.to_string() }
}

fn text_of(tokens: &[TokenTree]) -> String {
    tokens.iter().map(|t| t.text.clone()).collect::<Vec<_>>().join(" ")
}

fn group(inner: Vec<TokenTree>) -> TokenTree {
    let text = format!("({})", text_of(&inner));
    TokenTree { kind: TokenKind::Group(Delimiter::Parenthesis, inner), text }
}

fn range(start: usize, end: usize) -> TokenRange {
    TokenRange { start, end }
}

// `level = "info", fields(user.id = %user_id, account.id = %account_id)`
fn record_login_args() -> Vec<TokenTree> {
    vec![
        ident("level"),
        punct('='),
        lit("\"info\""),
        punct(','),
        ident("fields"),
        group(vec![
            ident("user"),
            punct('.'),
            ident("id"),
            punct('='),
            punct('%'),
            ident("user_id"),
            punct(','),
            ident("account"),
            punct('.'),
            ident("id"),
            punct('='),
            punct('%'),
            ident("account_id"),
        ]),
    ]
}

#[test]
fn fields_are_declared_through_telemetry_only() {
    let plan = plan_safe_instrument(&record_login_args(), true, false).ok().unwrap();
    assert!(!plan.record_ret && !plan.record_err && !plan.is_async);
    assert_eq!(plan.attr_args.len(), 3);
    assert!(matches!(plan.attr_args[0], AttrArg::SkipAll));
    assert!(matches!(plan.attr_args[1], AttrArg::Setting { name: 0, value } if value == range(2, 3)));
    match &plan.attr_args[2] {
        AttrArg::Fields(fields) => {
            assert_eq!(fields.len(), 2);
            assert!(fields[0] == FieldEntry::Telemetry { list: 5, name: range(0, 3), value: range(5, 6) });
            assert!(fields[1] == FieldEntry::Telemetry { list: 5, name: range(7, 10), value: range(12, 13) });
        }
        _ => panic!("expected fields"),
    }
}

#[test]
fn ret_and_err_add_empty_fields_after_the_declared_ones() {
    // `ret, err, fields(flow.id = %ResponseId(7))` on an async fn returning a Result.
    let args = vec![
        ident("ret"),
        punct(','),
        ident("err"),
        punct(','),
        ident("fields"),
        group(vec![
            ident("flow"),
            punct('.'),
            ident("id"),
            punct('='),
            punct('%'),
            ident("ResponseId"),
            group(vec![lit("7")]),
        ]),
    ];
    let plan = plan_safe_instrument(&args, true, true).ok().unwrap();
    assert!(plan.record_ret && plan.record_err && plan.is_async);
    match &plan.attr_args[1] {
        AttrArg::Fields(fields) => {
            assert_eq!(fields.len(), 3);
            assert!(fields[0] == FieldEntry::Telemetry { list: 5, name: range(0, 3), value: range(5, 7) });
            assert!(fields[1] == FieldEntry::Empty(SpanField::Ret));
            assert!(fields[2] == FieldEntry::Empty(SpanField::Error));
        }
        _ => panic!("expected fields"),
    }
}

#[test]
fn no_arguments_still_skip_all() {
    let plan = plan_safe_instrument(&vec![], false, false).ok().unwrap();
    assert_eq!(plan.attr_args.len(), 1);
    assert!(matches!(plan.attr_args[0], AttrArg::SkipAll));
    let skips = vec![ident("skip_all"), punct(','), ident("skip"), group(vec![ident("password")])];
    let plan = plan_safe_instrument(&skips, false, false).ok().unwrap();
    assert_eq!(plan.attr_args.len(), 1);
}

#[test]
fn debug_fields_are_refused() {
    let args = vec![ident("fields"), group(vec![ident("user"), punct('='), punct('?'), ident("user_id")])];
    assert_eq!(plan_safe_instrument(&args, false, false).err(), Some(InstrumentError::DebugFieldUnsupported));
}

#[test]
fn fields_must_use_percent_and_a_name() {
    let plain = vec![ident("fields"), group(vec![ident("user"), punct('='), ident("user_id")])];
    assert_eq!(plan_safe_instrument(&plain, false, false).err(), Some(InstrumentError::FieldNeedsPercent));
    let no_eq = vec![ident("fields"), group(vec![punct('%'), ident("user_id")])];
    assert_eq!(plan_safe_instrument(&no_eq, false, false).err(), Some(InstrumentError::FieldNeedsEquals));
    let no_name = vec![ident("fields"), group(vec![punct('='), punct('%'), ident("user_id")])];
    assert_eq!(plan_safe_instrument(&no_name, false, false).err(), Some(InstrumentError::EmptyFieldName));
    let no_expr = vec![ident("fields"), group(vec![ident("a"), punct('='), punct('%')])];
    assert_eq!(plan_safe_instrument(&no_expr, false, false).err(), Some(InstrumentError::ExpectedExpression));
}

#[test]
fn err_needs_a_returned_value() {
    let args = vec![ident("err")];
    assert_eq!(plan_safe_instrument(&args, false, false).err(), Some(InstrumentError::ErrWithoutResult));
    assert!(plan_safe_instrument(&args, true, false).is_ok());
}

#[test]
fn unsupported_arguments_are_refused() {
    assert_eq!(
        plan_safe_instrument(&vec![ident("follows_from")], true, false).err(),
        Some(InstrumentError::UnsupportedFlag)
    );
    let option = vec![ident("parent"), punct('='), ident("span")];
    assert_eq!(plan_safe_instrument(&option, true, false).err(), Some(InstrumentError::UnsupportedOption));
    let list = vec![ident("instrument"), group(vec![])];
    assert_eq!(plan_safe_instrument(&list, true, false).err(), Some(InstrumentError::UnsupportedList));
    assert_eq!(plan_safe_instrument(&vec![ident("fn")], true, false).err(), Some(InstrumentError::ExpectedIdent));
    assert_eq!(
        plan_safe_instrument(&vec![ident("ret"), ident("err")], true, false).err(),
        Some(InstrumentError::ExpectedComma)
    );
}

#[test]
fn arguments_parse_in_order() {
    let args = record_login_args();
    let parsed = parse_instrument_args(&args).ok().unwrap();
    assert!(parsed == vec![
        InstrumentArg::NameValue { name: 0, value: range(2, 3) },
        InstrumentArg::List { name: 4 },
    ]);
    let inner = vec![ident("a"), punct('='), punct('%'), ident("f"), group(vec![ident("x"), punct(','), ident("y")])];
    let fields = parse_field_args(&inner).ok().unwrap();
    assert_eq!(fields.len(), 1);
    assert!(fields[0].name == range(0, 1) && fields[0].value == range(3, 5));
}

#[test]
fn ret_and_err_are_recorded_exactly_when_flagged() {
    let none = plan_safe_instrument(&vec![ident("level"), punct('='), lit("\"info\"")], true, false)
        .ok()
        .unwrap();
    assert!(!none.record_ret && !none.record_err);
    let ret_only = plan_safe_instrument(&vec![ident("ret")], true, false).ok().unwrap();
    assert!(ret_only.record_ret && !ret_only.record_err);
    let err_only = plan_safe_instrument(&vec![ident("skip_all"), punct(','), ident("err")], true, false)
        .ok()
        .unwrap();
    assert!(!err_only.record_ret && err_only.record_err);
    let both = plan_safe_instrument(&vec![ident("err"), punct(','), ident("ret")], true, false).ok().unwrap();
    assert!(both.record_ret && both.record_err);
}

#[test]
fn a_refused_argument_refuses_the_whole_attribute() {
    let args = vec![ident("ret"), punct(','), ident("fields"), group(vec![ident("a"), punct('='), ident("b")])];
    assert_eq!(plan_safe_instrument(&args, true, false).err(), Some(InstrumentError::FieldNeedsPercent));
}

#[test]
fn a_value_followed_by_more_tokens_needs_a_comma() {
    let percent = vec![ident("fields"), group(vec![ident("user"), punct('='), punct('%'), ident("a"), ident("b")])];
    assert_eq!(plan_safe_instrument(&percent, false, false).err(), Some(InstrumentError::ExpectedComma));
    let debug = vec![ident("fields"), group(vec![ident("user"), punct('='), punct('?'), ident("a"), ident("b")])];
    assert_eq!(plan_safe_instrument(&debug, false, false).err(), Some(InstrumentError::DebugFieldUnsupported));
    let level = vec![ident("level"), punct('='), ident("a"), ident("b")];
    assert_eq!(parse_instrument_args(&level).err(), Some(InstrumentError::ExpectedComma));
    let nothing = vec![ident("fields"), group(vec![ident("user"), punct('='), punct('%')])];
    assert_eq!(plan_safe_instrument(&nothing, false, false).err(), Some(InstrumentError::ExpectedExpression));
}
