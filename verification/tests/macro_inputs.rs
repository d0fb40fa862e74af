// The inputs of the original UI tests, lexed from source text, through the
// library's decisions. Cases that the original rejects only by type checking
// (a return or error type without `ToTelemetry`) are accepted here: what the
// library plans then requires `ToTelemetry` of that type.

use std::str::FromStr;

use proc_macro2::{Delimiter as PmDelimiter, Spacing, TokenStream, TokenTree as PmTree};
use telemetry_safe::derive::{
    expand_derive, AttrDef, AttrMeta, DataDef, DeriveError, DerivePlan, FieldDef, FieldRender,
    VariantDef,
};
use telemetry_safe::instrument::{plan_safe_instrument, AttrArg, InstrumentError, InstrumentPlan};
use telemetry_safe::tokens::{Delimiter, TokenKind, TokenTree};

fn convert(stream: TokenStream) -> Vec<TokenTree> {
    stream
        .into_iter()
        .map(|tt| {
            let kind = match &tt {
                PmTree::Group(g) => {
                    let d = match g.delimiter() {
                        PmDelimiter::Parenthesis => Delimiter::Parenthesis,
                        PmDelimiter::Brace => Delimiter::Brace,
                        PmDelimiter::Bracket => Delimiter::Bracket,
                        PmDelimiter::None => Delimiter::Invisible,
                    };
                    TokenKind::Group(d, convert(g.stream()))
                }
                PmTree::Ident(_) => TokenKind::Ident,
                PmTree::Punct(p) => TokenKind::Punct(p.as_char(), p.spacing() == Spacing::Joint),
                PmTree::Literal(_) => TokenKind::Literal,
            };
            TokenTree { kind, text: tt.to_string() }
        })
        .collect()
}

fn lex(source: &str) -> Vec<TokenTree> {
    convert(TokenStream::from_str(source).unwrap())
}

fn plan(attr: &str, has_return: bool, is_async: bool) -> Result<InstrumentPlan, InstrumentError> {
    plan_safe_instrument(&lex(attr), has_return, is_async)
}

fn telemetry_attr(args: &str) -> AttrDef {
    AttrDef { ident: Some("telemetry".to_string()), meta: AttrMeta::List(lex(args)) }
}

fn plain() -> FieldDef {
    FieldDef { attrs: vec![] }
}

fn with(args: &str) -> FieldDef {
    FieldDef { attrs: vec![telemetry_attr(args)] }
}

#[test]
fn ui_ui() {
    // safe_instrument_pass.rs
    let p = plan("level = \"info\", fields(user.id = %user_id, account.id = %account_id)", true, false).ok().unwrap();
    assert!(matches!(p.attr_args[0], AttrArg::SkipAll));
    assert!(matches!(&p.attr_args[2], AttrArg::Fields(fs) if fs.len() == 2));
    // safe_instrument_ret_pass.rs
    assert!(plan("ret", true, false).ok().unwrap().record_ret);
    // safe_instrument_err_pass.rs
    assert!(plan("err", true, false).ok().unwrap().record_err);
    // safe_instrument_async_ret_err_pass.rs
    let p = plan("ret, err, fields(flow.id = %ResponseId(7))", true, true).ok().unwrap();
    assert!(p.record_ret && p.record_err && p.is_async);
    // safe_instrument_trusted_literal_pass.rs
    assert!(plan("fields(message_type = %trusted_literal(message_type))", false, false).is_ok());
    // safe_instrument_fail_debug.rs
    assert_eq!(plan("fields(user.id = ?user_id)", false, false).err(), Some(InstrumentError::DebugFieldUnsupported));
    // safe_instrument_fail_err.rs
    assert_eq!(plan("err", false, false).err(), Some(InstrumentError::ErrWithoutResult));
    // safe_instrument_fail_ret_type.rs, safe_instrument_fail_err_type.rs and
    // safe_instrument_fail_err_non_result.rs fail on the `ToTelemetry` bound of
    // `record_ret` / `record_err`, which the plan puts on the function.
    assert!(plan("ret", true, false).ok().unwrap().record_ret);
    assert!(plan("err", true, false).ok().unwrap().record_err);
}

#[test]
fn derive_ui() {
    // derive_pass.rs: LoginAttempt and InternalEvent::Audit.
    let login = DataDef::Struct(vec![
        plain(),
        plain(),
        with("display = \"user-{}\""),
        with("\"[redacted]\""),
        with("skip"),
    ]);
    match expand_derive(&login) {
        Ok(DerivePlan::Struct(fields)) => {
            assert_eq!(fields.iter().map(|f| f.index).collect::<Vec<_>>(), vec![0, 1, 2, 3]);
            assert!(matches!(&fields[2].render, FieldRender::Display { before, after } if before == "user-" && after.is_empty()));
            assert!(matches!(&fields[3].render, FieldRender::Label(t) if t == "[redacted]"));
        }
        _ => panic!("expected a struct plan"),
    }
    let audit = DataDef::Enum(vec![VariantDef {
        fields: vec![with("display"), with("\"[redacted]\""), with("skip")],
    }]);
    match expand_derive(&audit) {
        Ok(DerivePlan::Enum(variants)) => assert_eq!(variants[0].len(), 2),
        _ => panic!("expected an enum plan"),
    }
    // derive_fail_raw_string.rs fails on the `ToTelemetry` bound that the
    // planned rendering puts on the `String` field.
    match expand_derive(&DataDef::Struct(vec![plain()])) {
        Ok(DerivePlan::Struct(fields)) => assert!(matches!(fields[0].render, FieldRender::Telemetry)),
        _ => panic!("expected a struct plan"),
    }
    // derive_fail_multiple_placeholders.rs
    assert_eq!(
        expand_derive(&DataDef::Struct(vec![with("display = \"{}-{}\"")])).err(),
        Some(DeriveError::DisplayNeedsOnePlaceholder)
    );
}
