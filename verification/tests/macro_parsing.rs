use telemetry_safe::derive::{plan_derive_input, DeriveError, DerivePlan, FieldRender};
use telemetry_safe::instrument::{plan_instrument_item, InstrumentError};
use telemetry_safe::tokens::{Delimiter, TokenKind, TokenTree};

fn ident(name: &str) -> TokenTree {
    TokenTree { kind: TokenKind::Ident, text: name.to_string() }
}

fn punct(c: char, joint: bool) -> TokenTree {
    TokenTree { kind: TokenKind::Punct(c, joint), text: c.to_string() }
}

fn lit(source: &str) -> TokenTree {
    TokenTree { kind: TokenKind::Literal, text: source.to_string() }
}

fn text_of(tokens: &[TokenTree]) -> String {
    let mut out = String::new();
    for (i, t) in tokens.iter().enumerate() {
        if i > 0 && !matches!(tokens[i - 1].kind, TokenKind::Punct(_, true)) {
            out.push(' ');
        }
        out.push_str(&t.text);
    }
    out
}

fn group(delimiter: Delimiter, inner: Vec<TokenTree>) -> TokenTree {
    let (open, close) = match delimiter {
        Delimiter::Parenthesis => ("(", ")"),
        Delimiter::Brace => ("{ ", " }"),
        Delimiter::Bracket => ("[", "]"),
        Delimiter::Invisible => ("", ""),
    };
    let text = format!("{}{}{}", open, text_of(&inner), close);
    TokenTree { kind: TokenKind::Group(delimiter, inner), text }
}

fn skip_attr() -> Vec<TokenTree> {
    vec![
        punct('#', false),
        group(Delimiter::Bracket, vec![ident("telemetry"), group(Delimiter::Parenthesis, vec![ident("skip")])]),
    ]
}

#[test]
fn derive_input_is_read_by_syn_and_planned() {
    // struct Pair(u64, #[telemetry(skip)] String, u64);
    let mut inner = vec![ident("u64"), punct(',', false)];
    inner.extend(skip_attr());
    inner.extend(vec![ident("String"), punct(',', false), ident("u64")]);
    let tokens = vec![ident("struct"), ident("Pair"), group(Delimiter::Parenthesis, inner), punct(';', false)];
    match plan_derive_input(&tokens) {
        Ok(DerivePlan::Struct(fields)) => {
            assert_eq!(fields.iter().map(|f| f.index).collect::<Vec<_>>(), vec![0, 2]);
            assert!(fields.iter().all(|f| matches!(f.render, FieldRender::Telemetry)));
        }
        _ => panic!("expected a struct plan"),
    }
}

#[test]
fn derive_input_refusals() {
    // union U { a: u8 }
    let union_item = vec![
        ident("union"),
        ident("U"),
        group(Delimiter::Brace, vec![ident("a"), punct(':', false), ident("u8")]),
    ];
    assert_eq!(plan_derive_input(&union_item).err(), Some(DeriveError::Union));
    let not_an_item = vec![lit("1"), punct('+', false), lit("2")];
    assert_eq!(plan_derive_input(&not_an_item).err(), Some(DeriveError::Syntax));
}

// fn f() -> u8 { 1 }
fn returning_fn() -> Vec<TokenTree> {
    vec![
        ident("fn"),
        ident("f"),
        group(Delimiter::Parenthesis, vec![]),
        punct('-', true),
        punct('>', false),
        ident("u8"),
        group(Delimiter::Brace, vec![lit("1")]),
    ]
}

#[test]
fn instrumented_item_is_read_by_syn() {
    let plan = plan_instrument_item(&vec![ident("ret")], &returning_fn()).ok().unwrap();
    assert!(plan.record_ret && !plan.is_async);
    // async fn g() {}
    let async_fn = vec![ident("async"), ident("fn"), ident("g"), group(Delimiter::Parenthesis, vec![]), group(Delimiter::Brace, vec![])];
    let plan = plan_instrument_item(&vec![], &async_fn).ok().unwrap();
    assert!(plan.is_async);
    assert_eq!(plan_instrument_item(&vec![ident("err")], &async_fn).err(), Some(InstrumentError::ErrWithoutResult));
    let not_a_fn = vec![ident("struct"), ident("S"), punct(';', false)];
    assert_eq!(plan_instrument_item(&vec![], &not_a_fn).err(), Some(InstrumentError::ExpectedFunction));
    // The arguments are parsed first; the item is read before they are applied.
    assert_eq!(plan_instrument_item(&vec![lit("1")], &not_a_fn).err(), Some(InstrumentError::ExpectedIdent));
    assert_eq!(plan_instrument_item(&vec![ident("verbose")], &not_a_fn).err(), Some(InstrumentError::ExpectedFunction));
    assert_eq!(
        plan_instrument_item(&vec![ident("verbose")], &returning_fn()).err(),
        Some(InstrumentError::UnsupportedFlag)
    );
}
