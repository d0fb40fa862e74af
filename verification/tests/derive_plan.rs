use telemetry_safe::derive::{
    expand_derive, field_render, parse_attr_args, parse_field_attr, AttrDef, AttrMeta, DataDef,
    DeriveError, DerivePlan, FieldAttr, FieldDef, FieldRender, VariantDef,
};
use telemetry_safe::tokens::{Delimiter, TokenKind, TokenTree};

fn ident(name: &str) -> TokenTree {
    TokenTree { kind: TokenKind::Ident, text: name.to_string() }
}

fn punct(c: char) -> TokenTree {
    TokenTree { kind: TokenKind::Punct(c, false), text: c.to_string() }
}

fn lit(source: &str) -> TokenTree {
    TokenTree { kind: TokenKind::Literal, text: source.to_string() }
}

fn telemetry_attr(args: Vec<TokenTree>) -> AttrDef {
    AttrDef { ident: Some("telemetry".to_string()), meta: AttrMeta::List(args) }
}

fn field(attrs: Vec<AttrDef>) -> FieldDef {
    FieldDef { attrs }
}

fn render_of(args: Vec<TokenTree>) -> Result<Option<FieldRender>, DeriveError> {
    match parse_attr_args(&args) {
        Ok(a) => field_render(Some(a)),
        Err(e) => Err(e),
    }
}

#[test]
fn skip_leaves_a_field_out() {
    assert!(matches!(parse_attr_args(&vec![ident("skip")]), Ok(FieldAttr::Skip)));
    assert!(matches!(render_of(vec![ident("skip")]), Ok(None)));
    assert_eq!(
        parse_attr_args(&vec![ident("skip"), punct(',')]).err(),
        Some(DeriveError::UnexpectedAfterSkip)
    );
}

#[test]
fn display_flag_uses_the_plain_placeholder() {
    match parse_attr_args(&vec![ident("display")]) {
        Ok(FieldAttr::Display(f)) => assert_eq!(f, "{}"),
        _ => panic!("expected display"),
    }
    match render_of(vec![ident("display")]) {
        Ok(Some(FieldRender::Display { before, after })) => {
            assert_eq!(before, "");
            assert_eq!(after, "");
        }
        _ => panic!("expected a display rendering"),
    }
}

#[test]
fn display_format_is_split_around_its_placeholder() {
    let args = vec![ident("display"), punct('='), lit("\"user-{}\"")];
    match render_of(args) {
        Ok(Some(FieldRender::Display { before, after })) => {
            assert_eq!(before, "user-");
            assert_eq!(after, "");
        }
        _ => panic!("expected a display rendering"),
    }
    let two = vec![ident("display"), punct('='), lit("\"{}-{}\"")];
    assert_eq!(render_of(two).err(), Some(DeriveError::DisplayNeedsOnePlaceholder));
    let none = vec![ident("display"), punct('='), lit("\"id\"")];
    assert_eq!(render_of(none).err(), Some(DeriveError::DisplayNeedsOnePlaceholder));
    let stray = vec![ident("display"), punct(':')];
    assert_eq!(render_of(stray).err(), Some(DeriveError::UnexpectedAfterDisplay));
}

#[test]
fn string_literal_is_a_label_or_a_display_format() {
    match render_of(vec![lit("\"[redacted]\"")]) {
        Ok(Some(FieldRender::Label(t))) => assert_eq!(t, "[redacted]"),
        _ => panic!("expected a label"),
    }
    match render_of(vec![lit("\"line\\nbreak\""), punct(',')]) {
        Ok(Some(FieldRender::Label(t))) => assert_eq!(t, "line\nbreak"),
        _ => panic!("expected a label"),
    }
    match render_of(vec![lit("\"{}\"")]) {
        Ok(Some(FieldRender::Display { before, after })) => {
            assert_eq!(before, "");
            assert_eq!(after, "");
        }
        _ => panic!("expected a display rendering"),
    }
    assert_eq!(render_of(vec![lit("\"{}-{}\"")]).err(), Some(DeriveError::UnsupportedLiteral));
    assert_eq!(render_of(vec![lit("\"{oops\"")]).err(), Some(DeriveError::UnsupportedLiteral));
    assert_eq!(render_of(vec![lit("\"id={}\"")]).err(), Some(DeriveError::UnsupportedLiteral));
    assert_eq!(render_of(vec![lit("\"{{x}}\"")]).err(), Some(DeriveError::UnsupportedLiteral));
}

#[test]
fn malformed_attribute_arguments_are_refused() {
    assert_eq!(
        parse_attr_args(&vec![ident("display_as")]).err(),
        Some(DeriveError::UnsupportedAttribute)
    );
    assert_eq!(parse_attr_args(&vec![lit("7")]).err(), Some(DeriveError::ExpectedStringLiteral));
    assert_eq!(parse_attr_args(&vec![ident("true")]).err(), Some(DeriveError::ExpectedStringLiteral));
    assert_eq!(
        parse_attr_args(&vec![lit("\"a\""), punct(','), lit("\"b\"")]).err(),
        Some(DeriveError::ExpectedSingleFormat)
    );
    assert_eq!(parse_attr_args(&vec![]).err(), Some(DeriveError::ExpectedExpression));
    assert_eq!(parse_attr_args(&vec![punct('+')]).err(), Some(DeriveError::ExpectedExpression));
}

#[test]
fn only_the_first_telemetry_attribute_counts() {
    let other = AttrDef { ident: Some("serde".to_string()), meta: AttrMeta::Path };
    let f = field(vec![other, telemetry_attr(vec![ident("skip")]), telemetry_attr(vec![])]);
    assert!(matches!(parse_field_attr(&f), Ok(Some(FieldAttr::Skip))));
    assert!(matches!(parse_field_attr(&field(vec![])), Ok(None)));
    let bare = AttrDef { ident: Some("telemetry".to_string()), meta: AttrMeta::Path };
    assert_eq!(parse_field_attr(&field(vec![bare])).err(), Some(DeriveError::MissingArguments));
    let assigned = AttrDef { ident: Some("telemetry".to_string()), meta: AttrMeta::NameValue };
    assert_eq!(
        parse_field_attr(&field(vec![assigned])).err(),
        Some(DeriveError::ExpectedParentheses)
    );
}

#[test]
fn derive_plans_the_fields_that_are_not_skipped() {
    let data = DataDef::Struct(vec![
        field(vec![]),
        field(vec![telemetry_attr(vec![ident("skip")])]),
        field(vec![telemetry_attr(vec![lit("\"[redacted]\"")])]),
    ]);
    match expand_derive(&data) {
        Ok(DerivePlan::Struct(plan)) => {
            assert_eq!(plan.len(), 2);
            assert_eq!(plan[0].index, 0);
            assert!(matches!(plan[0].render, FieldRender::Telemetry));
            assert_eq!(plan[1].index, 2);
            assert!(matches!(&plan[1].render, FieldRender::Label(t) if t == "[redacted]"));
        }
        _ => panic!("expected a struct plan"),
    }
}

#[test]
fn derive_plans_each_variant() {
    let data = DataDef::Enum(vec![
        VariantDef { fields: vec![field(vec![])] },
        VariantDef { fields: vec![] },
        VariantDef { fields: vec![field(vec![telemetry_attr(vec![ident("skip")])]), field(vec![])] },
    ]);
    match expand_derive(&data) {
        Ok(DerivePlan::Enum(plans)) => {
            assert_eq!(plans.len(), 3);
            assert_eq!(plans[0].len(), 1);
            assert_eq!(plans[1].len(), 0);
            assert_eq!(plans[2].len(), 1);
            assert_eq!(plans[2][0].index, 1);
        }
        _ => panic!("expected an enum plan"),
    }
}

#[test]
fn derive_refuses_unions_and_bad_fields() {
    assert_eq!(expand_derive(&DataDef::Union).err(), Some(DeriveError::Union));
    let data = DataDef::Enum(vec![
        VariantDef { fields: vec![field(vec![telemetry_attr(vec![ident("nope")])])] },
        VariantDef { fields: vec![field(vec![telemetry_attr(vec![lit("1")])])] },
    ]);
    assert_eq!(expand_derive(&data).err(), Some(DeriveError::UnsupportedAttribute));
    let group = TokenTree {
        kind: TokenKind::Group(Delimiter::Parenthesis, vec![]),
        text: "()".to_string(),
    };
    let data = DataDef::Struct(vec![field(vec![telemetry_attr(vec![group])])]);
    assert_eq!(expand_derive(&data).err(), Some(DeriveError::ExpectedStringLiteral));
}
