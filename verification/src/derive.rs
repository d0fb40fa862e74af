use vstd::prelude::*;

use crate::builders::{DebugStruct, DebugTuple};
use crate::format_string::{
    law_plain_format_reads_as_written, as_text, classify_format, fill_placeholder, fmt_pieces, hole_count, str_chars, FormatClass,
};
use crate::formatter::{entry_repr, law_composite_shapes, struct_repr, tuple_repr, TelemetryFormatter};

use core::fmt::Error as FmtError;
use crate::tokens::{
    expr_end_from, syn_parses_expr, run_text, run_to_string, trees_of,
    find_expr_end, is_punct, is_word, lit_str_value, names_ident, parses_as_ident, expr_end,
    syn_lit_str_value, TokenKind, TokenTree,
};

verus! {

/// Why `#[derive(ToTelemetry)]` refuses a type.
#[derive(Clone, Copy, PartialEq, Eq, Structural, Debug)]
pub enum DeriveError {
    /// The type is a union.
    Union,
    /// `#[telemetry]` without arguments in parentheses.
    MissingArguments,
    /// `#[telemetry = ...]` instead of `#[telemetry(...)]`.
    ExpectedParentheses,
    /// Tokens after `skip`.
    UnexpectedAfterSkip,
    /// Tokens after `display` other than `= "format"`.
    UnexpectedAfterDisplay,
    /// An identifier other than `skip` or `display`.
    UnsupportedAttribute,
    /// No expression where a format string belongs.
    ExpectedExpression,
    /// More than one argument.
    ExpectedSingleFormat,
    /// An expression other than a string literal where a format string belongs.
    ExpectedStringLiteral,
    /// A `{` or `}` that is neither `{{`, `}}` nor part of `{}`.
    InvalidFormat,
    /// A `display` format without exactly one `{}`.
    DisplayNeedsOnePlaceholder,
    /// A string literal other than `"{}"` that holds a brace.
    UnsupportedLiteral,
    /// The input is not a struct, enum or union that `syn` parses.
    Syntax,
}

/// The form of an attribute's arguments.
pub enum AttrMeta {
    /// `#[name]`
    Path,
    /// `#[name = value]`
    NameValue,
    /// `#[name(...)]` (or with brackets or braces), with the tokens inside.
    List(Vec<TokenTree>),
}

/// One attribute on a field.
pub struct AttrDef {
    /// The attribute's name, when its path is a single plain identifier.
    pub ident: Option<String>,
    /// Its arguments.
    pub meta: AttrMeta,
}

/// A field of the type that `#[derive(ToTelemetry)]` is applied to.
pub struct FieldDef {
    /// The field's attributes, in order.
    pub attrs: Vec<AttrDef>,
}

/// A variant of an enum, with its fields in order.
pub struct VariantDef {
    /// The variant's fields (named or unnamed), in order.
    pub fields: Vec<FieldDef>,
}

/// The type that `#[derive(ToTelemetry)]` is applied to.
pub enum DataDef {
    /// A struct with its fields in order (none for a unit struct).
    Struct(Vec<FieldDef>),
    /// An enum with its variants in order.
    Enum(Vec<VariantDef>),
    /// A union.
    Union,
}

/// What a `#[telemetry(...)]` attribute asks for, as parsed.
pub enum FieldAttr {
    /// `skip`
    Skip,
    /// `display`, or `display = "format"`: the format string (`{}` for the bare flag).
    Display(String),
    /// `"text"`: a string literal.
    Text(String),
}

/// `FieldAttr` as mathematical values.
pub enum SpecFieldAttr {
    /// `skip`
    Skip,
    /// A `display` format string.
    Display(Seq<char>),
    /// A string literal's value.
    Text(Seq<char>),
}

impl View for FieldAttr {
    type V = SpecFieldAttr;

    open spec fn view(&self) -> SpecFieldAttr {
        match self {
            FieldAttr::Skip => SpecFieldAttr::Skip,
            FieldAttr::Display(s) => SpecFieldAttr::Display(s@),
            FieldAttr::Text(s) => SpecFieldAttr::Text(s@),
        }
    }
}

/// The word `skip`.
pub open spec fn word_skip() -> Seq<char> {
    seq!['s', 'k', 'i', 'p']
}

/// The word `display`.
pub open spec fn word_display() -> Seq<char> {
    seq!['d', 'i', 's', 'p', 'l', 'a', 'y']
}

/// The word `telemetry`.
pub open spec fn word_telemetry() -> Seq<char> {
    seq!['t', 'e', 'l', 'e', 'm', 'e', 't', 'r', 'y']
}

/// The format string of the bare `display` flag.
pub open spec fn placeholder_format() -> Seq<char> {
    seq!['{', '}']
}

/// The string literal that makes up the rest of the arguments from `start`:
/// one expression, optionally followed by a comma, that is a string literal.
pub open spec fn spec_literal_arg(t: Seq<TokenTree>, start: int) -> Result<Seq<char>, DeriveError> {
    match expr_end(t, start) {
        None => Err(DeriveError::ExpectedExpression),
        Some(e) => if e + 1 < t.len() {
            Err(DeriveError::ExpectedSingleFormat)
        } else if e == start + 1 && t[start].kind is Literal && syn_lit_str_value(
            t[start].text@,
        ) is Some {
            Ok(syn_lit_str_value(t[start].text@)->0)
        } else {
            Err(DeriveError::ExpectedStringLiteral)
        },
    }
}

/// How the tokens inside `#[telemetry(...)]` parse: `skip`, `display`,
/// `display = "format"`, or a string literal; each optionally with nothing after it
/// but one trailing comma (for the literal forms).
pub open spec fn spec_parse_attr_args(t: Seq<TokenTree>) -> Result<SpecFieldAttr, DeriveError> {
    if t.len() > 0 && names_ident(t[0]) {
        if is_word(t[0], word_skip()) {
            if t.len() == 1 {
                Ok(SpecFieldAttr::Skip)
            } else {
                Err(DeriveError::UnexpectedAfterSkip)
            }
        } else if is_word(t[0], word_display()) {
            if t.len() == 1 {
                Ok(SpecFieldAttr::Display(placeholder_format()))
            } else if is_punct(t[1], '=') {
                match spec_literal_arg(t, 2) {
                    Ok(s) => Ok(SpecFieldAttr::Display(s)),
                    Err(e) => Err(e),
                }
            } else {
                Err(DeriveError::UnexpectedAfterDisplay)
            }
        } else {
            Err(DeriveError::UnsupportedAttribute)
        }
    } else {
        match spec_literal_arg(t, 0) {
            Ok(s) => Ok(SpecFieldAttr::Text(s)),
            Err(e) => Err(e),
        }
    }
}

proof fn lemma_reveal_words()
    ensures
        "skip"@ == word_skip(),
        "display"@ == word_display(),
        "telemetry"@ == word_telemetry(),
        "{}"@ == placeholder_format(),
{
    reveal_strlit("skip");
    reveal_strlit("display");
    reveal_strlit("telemetry");
    reveal_strlit("{}");
}

/// Whether the identifier token `t` is `word`.
fn token_is_word(t: &TokenTree, word: &str) -> (b: bool)
    ensures
        b == is_word(*t, word@),
{
    match t.kind {
        TokenKind::Ident => t.text == word.to_owned(),
        _ => false,
    }
}

/// The string literal that makes up the rest of the arguments from `start`.
fn literal_arg(t: &Vec<TokenTree>, start: usize) -> (r: Result<String, DeriveError>)
    requires
        start <= t@.len(),
    ensures
        match (r, spec_literal_arg(t@, start as int)) {
            (Ok(s), Ok(v)) => s@ == v,
            (Err(e), Err(f)) => e == f,
            _ => false,
        },
{
    match find_expr_end(t, start) {
        None => Err(DeriveError::ExpectedExpression),
        Some(e) => {
            if e < t.len() && t.len() - e > 1 {
                Err(DeriveError::ExpectedSingleFormat)
            } else if e > start && e - start == 1 && matches!(t[start].kind, TokenKind::Literal) {
                match lit_str_value(t[start].text.as_str()) {
                    Some(v) => Ok(v),
                    None => Err(DeriveError::ExpectedStringLiteral),
                }
            } else {
                Err(DeriveError::ExpectedStringLiteral)
            }
        },
    }
}

/// Parses the tokens inside `#[telemetry(...)]`.
pub fn parse_attr_args(t: &Vec<TokenTree>) -> (r: Result<FieldAttr, DeriveError>)
    ensures
        match (r, spec_parse_attr_args(t@)) {
            (Ok(a), Ok(b)) => a@ == b,
            (Err(e), Err(f)) => e == f,
            _ => false,
        },
{
    proof {
        lemma_reveal_words();
    }
    let leading_ident = t.len() > 0 && match t[0].kind {
        TokenKind::Ident => parses_as_ident(t[0].text.as_str()),
        _ => false,
    };
    if leading_ident {
        if token_is_word(&t[0], "skip") {
            if t.len() == 1 {
                Ok(FieldAttr::Skip)
            } else {
                Err(DeriveError::UnexpectedAfterSkip)
            }
        } else if token_is_word(&t[0], "display") {
            if t.len() == 1 {
                Ok(FieldAttr::Display("{}".to_owned()))
            } else if matches!(t[1].kind, TokenKind::Punct('=', _)) {
                match literal_arg(t, 2) {
                    Ok(s) => Ok(FieldAttr::Display(s)),
                    Err(e) => Err(e),
                }
            } else {
                Err(DeriveError::UnexpectedAfterDisplay)
            }
        } else {
            Err(DeriveError::UnsupportedAttribute)
        }
    } else {
        match literal_arg(t, 0) {
            Ok(s) => Ok(FieldAttr::Text(s)),
            Err(e) => Err(e),
        }
    }
}

/// How a field that is not skipped is rendered.
pub enum FieldRender {
    /// Through its own telemetry representation.
    Telemetry,
    /// Through its `Display` output, between fixed texts.
    Display { before: String, after: String },
    /// As a fixed text, whatever the field holds.
    Label(String),
}

/// The outcome for one field, as mathematical values.
pub enum RenderSpec {
    /// Left out of the output.
    Skip,
    /// Rendered through its own telemetry representation.
    Telemetry,
    /// Rendered by format pieces with exactly one placeholder, filled with its `Display` output.
    Display(Seq<Option<char>>),
    /// Rendered as this fixed text.
    Label(Seq<char>),
    /// Refused.
    Refused(DeriveError),
}

/// Whether `r` is how `s` renders a field.
pub open spec fn render_matches(r: FieldRender, s: RenderSpec) -> bool {
    match (r, s) {
        (FieldRender::Telemetry, RenderSpec::Telemetry) => true,
        (FieldRender::Display { before, after }, RenderSpec::Display(ps)) => ps == as_text(before@)
            + seq![None] + as_text(after@),
        (FieldRender::Label(t), RenderSpec::Label(u)) => t@ == u,
        _ => false,
    }
}

/// Whether `text` holds no brace.
pub open spec fn brace_free(text: Seq<char>) -> bool {
    forall|i: int| 0 <= i < text.len() ==> text[i] != '{' && text[i] != '}'
}

/// What a field with attribute `attr` (or none) amounts to: a `display` format
/// needs exactly one placeholder; the string literal `"{}"` adopts the field's
/// `Display` output, and any other literal is a fixed label, which may hold no
/// brace.
pub open spec fn spec_render(attr: Option<SpecFieldAttr>) -> RenderSpec {
    match attr {
        None => RenderSpec::Telemetry,
        Some(SpecFieldAttr::Skip) => RenderSpec::Skip,
        Some(SpecFieldAttr::Display(fmt)) => match fmt_pieces(fmt) {
            None => RenderSpec::Refused(DeriveError::InvalidFormat),
            Some(ps) => if hole_count(ps) == 1 {
                RenderSpec::Display(ps)
            } else {
                RenderSpec::Refused(DeriveError::DisplayNeedsOnePlaceholder)
            },
        },
        Some(SpecFieldAttr::Text(lit)) => if lit == placeholder_format() {
            RenderSpec::Display(seq![None])
        } else if brace_free(lit) {
            RenderSpec::Label(lit)
        } else {
            RenderSpec::Refused(DeriveError::UnsupportedLiteral)
        },
    }
}

/// The index of the first attribute at or after `i` whose path is the identifier `telemetry`.
pub open spec fn first_telemetry_attr(attrs: Seq<AttrDef>, i: int) -> Option<int>
    decreases attrs.len() - i,
{
    if i < 0 || i >= attrs.len() {
        None
    } else if attrs[i].ident matches Some(name) && name@ == word_telemetry() {
        Some(i)
    } else {
        first_telemetry_attr(attrs, i + 1)
    }
}

/// How the field's first `telemetry` attribute parses (`None` when it has none).
pub open spec fn spec_field_attr(field: FieldDef) -> Result<Option<SpecFieldAttr>, DeriveError> {
    match first_telemetry_attr(field.attrs@, 0) {
        None => Ok(None),
        Some(i) => match field.attrs@[i].meta {
            AttrMeta::Path => Err(DeriveError::MissingArguments),
            AttrMeta::NameValue => Err(DeriveError::ExpectedParentheses),
            AttrMeta::List(tokens) => match spec_parse_attr_args(tokens@) {
                Ok(a) => Ok(Some(a)),
                Err(e) => Err(e),
            },
        },
    }
}

/// What the derive does with a field.
pub open spec fn spec_field_outcome(field: FieldDef) -> RenderSpec {
    match spec_field_attr(field) {
        Err(e) => RenderSpec::Refused(e),
        Ok(a) => spec_render(a),
    }
}

/// The fields that the derive renders, each with its position among all fields
/// and how it renders, in order; or the first field's refusal.
pub open spec fn spec_fields_plan(fields: Seq<FieldDef>) -> Result<Seq<(int, RenderSpec)>, DeriveError>
    decreases fields.len(),
{
    if fields.len() == 0 {
        Ok(Seq::empty())
    } else {
        match spec_fields_plan(fields.drop_last()) {
            Err(e) => Err(e),
            Ok(done) => match spec_field_outcome(fields.last()) {
                RenderSpec::Refused(e) => Err(e),
                RenderSpec::Skip => Ok(done),
                r => Ok(done.push((fields.len() - 1, r))),
            },
        }
    }
}

/// One rendered field: its position among all fields, and how it renders.
pub struct FieldPlan {
    /// The field's position among all the fields of its struct or variant.
    pub index: usize,
    /// How it renders.
    pub render: FieldRender,
}

/// Whether `plan` is the list of rendered fields `spec`.
pub open spec fn plan_matches(plan: Seq<FieldPlan>, spec: Seq<(int, RenderSpec)>) -> bool {
    &&& plan.len() == spec.len()
    &&& forall|j: int|
        0 <= j < plan.len() ==> #[trigger] plan[j].index == spec[j].0 && render_matches(
            plan[j].render,
            spec[j].1,
        )
}

/// The rendering that a (well-formed) field attribute asks for; `None` for `skip`.
pub fn field_render(attr: Option<FieldAttr>) -> (r: Result<Option<FieldRender>, DeriveError>)
    ensures
        match (r, spec_render(
            match attr {
                Some(a) => Some(a@),
                None => None,
            },
        )) {
            (Ok(None), RenderSpec::Skip) => true,
            (Ok(Some(x)), s) => render_matches(x, s),
            (Err(e), RenderSpec::Refused(f)) => e == f,
            _ => false,
        },
{
    match attr {
        None => Ok(Some(FieldRender::Telemetry)),
        Some(FieldAttr::Skip) => Ok(None),
        Some(FieldAttr::Display(fmt)) => match classify_format(fmt.as_str()) {
            FormatClass::Invalid => Err(DeriveError::InvalidFormat),
            FormatClass::OneHole(before, after) => Ok(Some(FieldRender::Display { before, after })),
            _ => Err(DeriveError::DisplayNeedsOnePlaceholder),
        },
        Some(FieldAttr::Text(lit)) => {
            let placeholder = "{}".to_owned();
            proof {
                lemma_reveal_words();
            }
            if lit == placeholder {
                proof {
                    reveal_strlit("");
                    assert(as_text(""@) + seq![None] + as_text(""@) =~= seq![None]);
                }
                Ok(Some(FieldRender::Display { before: String::new(), after: String::new() }))
            } else if has_no_brace(lit.as_str()) {
                Ok(Some(FieldRender::Label(lit)))
            } else {
                Err(DeriveError::UnsupportedLiteral)
            }
        },
    }
}

/// Whether `text` holds no brace.
fn has_no_brace(text: &str) -> (b: bool)
    ensures
        b == brace_free(text@),
{
    let chars = str_chars(text);
    let mut i: usize = 0;
    while i < chars.len()
        invariant
            i <= chars@.len(),
            chars@ == text@,
            brace_free(text@.take(i as int)),
        decreases chars@.len() - i,
    {
        let c = chars[i];
        if c == '{' || c == '}' {
            assert(text@[i as int] == c);
            return false;
        }
        proof {
            assert forall|k: int| 0 <= k < i + 1 implies #[trigger] text@.take(i + 1)[k] != '{'
                && text@.take(i + 1)[k] != '}' by {
                if k < i {
                    assert(text@.take(i + 1)[k] == text@.take(i as int)[k]);
                }
            }
        }
        i = i + 1;
    }
    proof {
        assert(text@.take(i as int) =~= text@);
    }
    true
}

/// Whether `ident` is the identifier `word`.
fn ident_is(ident: &Option<String>, word: &str) -> (b: bool)
    ensures
        b == (ident matches Some(name) && name@ == word@),
{
    match ident {
        Some(name) => {
            let w = word.to_owned();
            *name == w
        },
        None => false,
    }
}

/// Parses the field's first `telemetry` attribute, if it has one.
pub fn parse_field_attr(field: &FieldDef) -> (r: Result<Option<FieldAttr>, DeriveError>)
    ensures
        match (r, spec_field_attr(*field)) {
            (Ok(None), Ok(None)) => true,
            (Ok(Some(a)), Ok(Some(b))) => a@ == b,
            (Err(e), Err(f)) => e == f,
            _ => false,
        },
{
    proof {
        lemma_reveal_words();
    }
    let attrs = &field.attrs;
    let n = attrs.len();
    let mut i: usize = 0;
    while i < n
        invariant
            n == attrs@.len(),
            i <= n,
            first_telemetry_attr(attrs@, 0) == first_telemetry_attr(attrs@, i as int),
            "telemetry"@ == word_telemetry(),
            attrs@ == field.attrs@,
        decreases n - i,
    {
        let is_telemetry = ident_is(&attrs[i].ident, "telemetry");
        proof {
            assert(first_telemetry_attr(attrs@, i as int) == if is_telemetry {
                Some(i as int)
            } else {
                first_telemetry_attr(attrs@, i + 1)
            });
        }
        if is_telemetry {
            return match &attrs[i].meta {
                AttrMeta::Path => Err(DeriveError::MissingArguments),
                AttrMeta::NameValue => Err(DeriveError::ExpectedParentheses),
                AttrMeta::List(tokens) => match parse_attr_args(tokens) {
                    Ok(a) => Ok(Some(a)),
                    Err(e) => Err(e),
                },
            };
        }
        i = i + 1;
    }
    Ok(None)
}

/// The rendered fields of a struct or variant, in order, or the first refusal.
pub fn plan_fields(fields: &Vec<FieldDef>) -> (r: Result<Vec<FieldPlan>, DeriveError>)
    ensures
        match (r, spec_fields_plan(fields@)) {
            (Ok(p), Ok(s)) => plan_matches(p@, s),
            (Err(e), Err(f)) => e == f,
            _ => false,
        },
{
    let n = fields.len();
    let mut plan: Vec<FieldPlan> = Vec::new();
    for i in 0..n
        invariant
            n == fields@.len(),
            spec_fields_plan(fields@.take(i as int)) matches Ok(s) && plan_matches(plan@, s),
    {
        proof {
            assert(fields@.take(i + 1).drop_last() =~= fields@.take(i as int));
            assert(fields@.take(i + 1).last() == fields@[i as int]);
        }
        let attr = parse_field_attr(&fields[i]);
        let ghost done = spec_fields_plan(fields@.take(i as int))->Ok_0;
        proof {
            assert(plan_matches(plan@, done));
        }
        match attr {
            Err(e) => {
                proof {
                    lemma_plan_refusal_persists(fields@, i as int + 1);
                }
                return Err(e);
            },
            Ok(a) => {
                let ghost spec_a = match &a {
                    Some(x) => Some(x@),
                    None => None,
                };
                match field_render(a) {
                    Err(e) => {
                        proof {
                            lemma_plan_refusal_persists(fields@, i as int + 1);
                        }
                        return Err(e);
                    },
                    Ok(None) => {
                        proof {
                            assert(spec_field_attr(fields@[i as int]) == Ok::<Option<SpecFieldAttr>, DeriveError>(spec_a));
                            assert(spec_fields_plan(fields@.take(i + 1)) == Ok::<Seq<(int, RenderSpec)>, DeriveError>(done));
                        }
                    },
                    Ok(Some(render)) => {
                        let ghost before = plan@;
                        plan.push(FieldPlan { index: i, render });
                        proof {
                            assert(spec_field_attr(fields@[i as int]) == Ok::<Option<SpecFieldAttr>, DeriveError>(spec_a));
                            assert(spec_fields_plan(fields@.take(i + 1)) == Ok::<Seq<(int, RenderSpec)>, DeriveError>(
                                done.push((i as int, spec_render(spec_a))),
                            ));
                            lemma_plan_push(before, done, plan@.last(), (i as int, spec_render(spec_a)));
                            assert(plan@ == before.push(plan@.last()));
                        }
                    },
                }
            },
        }
    }
    proof {
        assert(fields@.take(n as int) =~= fields@);
    }
    Ok(plan)
}

/// Extending a plan and its description by matching entries keeps them matching.
proof fn lemma_plan_push(
    plan: Seq<FieldPlan>,
    spec: Seq<(int, RenderSpec)>,
    x: FieldPlan,
    y: (int, RenderSpec),
)
    requires
        plan_matches(plan, spec),
        x.index == y.0,
        render_matches(x.render, y.1),
    ensures
        plan_matches(plan.push(x), spec.push(y)),
{
    assert forall|j: int| 0 <= j < plan.push(x).len() implies #[trigger] plan.push(x)[j].index
        == spec.push(y)[j].0 && render_matches(plan.push(x)[j].render, spec.push(y)[j].1) by {
        if j < plan.len() {
            assert(plan.push(x)[j] == plan[j]);
            assert(spec.push(y)[j] == spec[j]);
            assert(plan[j].index == spec[j].0);
        }
    }
}

/// Once a prefix of the fields is refused, every longer prefix is refused the same way.
proof fn lemma_plan_refusal_persists(fields: Seq<FieldDef>, k: int)
    requires
        0 <= k <= fields.len(),
        spec_fields_plan(fields.take(k)) is Err,
    ensures
        spec_fields_plan(fields) == spec_fields_plan(fields.take(k)),
    decreases fields.len() - k,
{
    if k < fields.len() {
        assert(fields.take(k + 1).drop_last() =~= fields.take(k));
        lemma_plan_refusal_persists(fields, k + 1);
    } else {
        assert(fields.take(k) =~= fields);
    }
}

/// The rendered fields of each variant, in order; or the first refusal.
pub open spec fn spec_variants_plan(variants: Seq<VariantDef>) -> Result<Seq<Seq<(int, RenderSpec)>>, DeriveError>
    decreases variants.len(),
{
    if variants.len() == 0 {
        Ok(Seq::empty())
    } else {
        match spec_variants_plan(variants.drop_last()) {
            Err(e) => Err(e),
            Ok(done) => match spec_fields_plan(variants.last().fields@) {
                Err(e) => Err(e),
                Ok(p) => Ok(done.push(p)),
            },
        }
    }
}

/// What `#[derive(ToTelemetry)]` renders for a type.
pub enum DerivePlan {
    /// A struct's rendered fields.
    Struct(Vec<FieldPlan>),
    /// Each variant's rendered fields.
    Enum(Vec<Vec<FieldPlan>>),
}

/// `DerivePlan` as mathematical values.
pub enum SpecDerivePlan {
    /// A struct's rendered fields: position and rendering.
    Struct(Seq<(int, RenderSpec)>),
    /// Each variant's rendered fields.
    Enum(Seq<Seq<(int, RenderSpec)>>),
}

/// The derive's outcome for a type: its plan, or the first refusal.
pub open spec fn spec_derive(data: DataDef) -> Result<SpecDerivePlan, DeriveError> {
    match data {
        DataDef::Union => Err(DeriveError::Union),
        DataDef::Struct(fields) => match spec_fields_plan(fields@) {
            Ok(p) => Ok(SpecDerivePlan::Struct(p)),
            Err(e) => Err(e),
        },
        DataDef::Enum(variants) => match spec_variants_plan(variants@) {
            Ok(p) => Ok(SpecDerivePlan::Enum(p)),
            Err(e) => Err(e),
        },
    }
}

/// Whether `p` is the plan `s`.
pub open spec fn derive_matches(p: DerivePlan, s: SpecDerivePlan) -> bool {
    match (p, s) {
        (DerivePlan::Struct(fs), SpecDerivePlan::Struct(gs)) => plan_matches(fs@, gs),
        (DerivePlan::Enum(vs), SpecDerivePlan::Enum(ws)) => vs@.len() == ws.len() && forall|k: int|
            0 <= k < vs@.len() ==> plan_matches(#[trigger] vs@[k]@, ws[k]),
        _ => false,
    }
}

/// Once a prefix of the variants is refused, every longer prefix is refused the same way.
proof fn lemma_variants_refusal_persists(variants: Seq<VariantDef>, k: int)
    requires
        0 <= k <= variants.len(),
        spec_variants_plan(variants.take(k)) is Err,
    ensures
        spec_variants_plan(variants) == spec_variants_plan(variants.take(k)),
    decreases variants.len() - k,
{
    if k < variants.len() {
        assert(variants.take(k + 1).drop_last() =~= variants.take(k));
        lemma_variants_refusal_persists(variants, k + 1);
    } else {
        assert(variants.take(k) =~= variants);
    }
}

/// Plans `#[derive(ToTelemetry)]` for a type: which fields of each struct or
/// variant it renders and how, or why it refuses the type.
pub fn expand_derive(data: &DataDef) -> (r: Result<DerivePlan, DeriveError>)
    ensures
        match (r, spec_derive(*data)) {
            (Ok(p), Ok(s)) => derive_matches(p, s),
            (Err(e), Err(f)) => e == f,
            _ => false,
        },
{
    match data {
        DataDef::Union => Err(DeriveError::Union),
        DataDef::Struct(fields) => match plan_fields(fields) {
            Ok(p) => Ok(DerivePlan::Struct(p)),
            Err(e) => Err(e),
        },
        DataDef::Enum(variants) => {
            let n = variants.len();
            let mut plans: Vec<Vec<FieldPlan>> = Vec::new();
            for i in 0..n
                invariant
                    n == variants@.len(),
                    *data matches DataDef::Enum(vs) && vs@ == variants@,
                    spec_variants_plan(variants@.take(i as int)) matches Ok(s) && plans@.len()
                        == s.len() && forall|k: int|
                        0 <= k < plans@.len() ==> plan_matches(#[trigger] plans@[k]@, s[k]),
            {
                proof {
                    assert(variants@.take(i + 1).drop_last() =~= variants@.take(i as int));
                    assert(variants@.take(i + 1).last() == variants@[i as int]);
                }
                let ghost done = spec_variants_plan(variants@.take(i as int))->Ok_0;
                match plan_fields(&variants[i].fields) {
                    Err(e) => {
                        proof {
                            assert(spec_fields_plan(variants@[i as int].fields@) is Err);
                            assert(spec_variants_plan(variants@.take(i + 1)) == Err::<
                                Seq<Seq<(int, RenderSpec)>>,
                                DeriveError,
                            >(e));
                            lemma_variants_refusal_persists(variants@, i + 1);
                        }
                        return Err(e);
                    },
                    Ok(p) => {
                        let ghost before = plans@;
                        let ghost sp = spec_fields_plan(variants@[i as int].fields@)->Ok_0;
                        plans.push(p);
                        proof {
                            assert forall|k: int| 0 <= k < plans@.len() implies plan_matches(
                                #[trigger] plans@[k]@,
                                done.push(sp)[k],
                            ) by {
                                if k < before.len() {
                                    assert(plans@[k] == before[k]);
                                    assert(plan_matches(before[k]@, done[k]));
                                }
                            }
                        }
                    },
                }
            }
            proof {
                assert(variants@.take(n as int) =~= variants@);
            }
            Ok(DerivePlan::Enum(plans))
        },
    }
}

/// Law: `#[derive(ToTelemetry)]` renders exactly the fields that are not skipped,
/// each once, in their order, each as its attribute asks; and it refuses the
/// fields exactly when one of them is refused.
pub proof fn law_derive_renders_unskipped_fields(fields: Seq<FieldDef>)
    ensures
        spec_fields_plan(fields) is Err <==> exists|i: int|
            0 <= i < fields.len() && #[trigger] spec_field_outcome(fields[i]) is Refused,
        spec_fields_plan(fields) matches Ok(p) ==> {
            &&& forall|j: int|
                0 <= j < p.len() ==> 0 <= (#[trigger] p[j]).0 < fields.len() && spec_field_outcome(
                    fields[p[j].0],
                ) == p[j].1 && !(p[j].1 is Skip)
            &&& forall|j: int, k: int| 0 <= j < k < p.len() ==> (#[trigger] p[j]).0 < (#[trigger] p[k]).0
            &&& forall|i: int|
                0 <= i < fields.len() ==> (#[trigger] spec_field_outcome(fields[i]) is Skip <==> !exists|
                    j: int,
                | 0 <= j < p.len() && (#[trigger] p[j]).0 == i)
        },
    decreases fields.len(),
{
    if fields.len() > 0 {
        let init = fields.drop_last();
        law_derive_renders_unskipped_fields(init);
        let n = fields.len() - 1;
        assert forall|i: int| 0 <= i < init.len() implies spec_field_outcome(init[i])
            == spec_field_outcome(fields[i]) by {}
        if spec_fields_plan(init) is Err {
            let i = choose|i: int| 0 <= i < init.len() && #[trigger] spec_field_outcome(init[i]) is Refused;
            assert(spec_field_outcome(fields[i]) is Refused);
        } else {
            let q = spec_fields_plan(init)->Ok_0;
            if spec_fields_plan(fields) is Err {
                assert(spec_field_outcome(fields[n]) is Refused);
            } else {
                let p = spec_fields_plan(fields)->Ok_0;
                assert forall|i: int| 0 <= i < fields.len() implies !(#[trigger] spec_field_outcome(
                    fields[i],
                ) is Refused) by {
                    if i < n {
                        assert(spec_field_outcome(init[i]) == spec_field_outcome(fields[i]));
                    }
                }
                assert forall|j: int| 0 <= j < q.len() implies (#[trigger] p[j]) == q[j] by {}
                assert forall|i: int|
                    0 <= i < fields.len() implies (#[trigger] spec_field_outcome(fields[i]) is Skip <==> !exists|
                    j: int,
                | 0 <= j < p.len() && (#[trigger] p[j]).0 == i) by {
                    if i < n {
                        assert(spec_field_outcome(init[i]) == spec_field_outcome(fields[i]));
                        if exists|j: int| 0 <= j < p.len() && (#[trigger] p[j]).0 == i {
                            let j = choose|j: int| 0 <= j < p.len() && (#[trigger] p[j]).0 == i;
                            if j == q.len() {
                                assert(p[j].0 == n);
                            } else {
                                assert(p[j] == q[j]);
                            }
                        }
                        if exists|j: int| 0 <= j < q.len() && (#[trigger] q[j]).0 == i {
                            let j = choose|j: int| 0 <= j < q.len() && (#[trigger] q[j]).0 == i;
                            assert(p[j] == q[j]);
                        }
                    } else {
                        if !(spec_field_outcome(fields[n]) is Skip) {
                            assert(p[q.len() as int].0 == n);
                        } else {
                            assert(p == q);
                        }
                    }
                }
            }
        }
    }
}

/// A field of a derived value, as its impl hands it to `write_derived`: its
/// name (empty for a positional field), how the plan renders it, and the text
/// it is rendered from: for `Telemetry` the field's telemetry text (or the error
/// of its failed rendering), for `Display` its `Display` output; a `Label`
/// ignores it.
pub struct DerivedField {
    /// The field's name.
    pub key: String,
    /// How the plan renders the field.
    pub render: FieldRender,
    /// The text the field is rendered from.
    pub value: Result<String, FmtError>,
}

/// Whether the field's rendering failed.
pub open spec fn derived_fails(d: DerivedField) -> bool {
    !(d.render is Label) && d.value is Err
}

/// The text a field renders as: its telemetry text, its `Display` output
/// between the format's fixed texts, or the label.
pub open spec fn derived_text(d: DerivedField) -> Seq<char> {
    match d.render {
        FieldRender::Telemetry => d.value->Ok_0@,
        FieldRender::Display { before, after } => before@ + d.value->Ok_0@ + after@,
        FieldRender::Label(t) => t@,
    }
}

/// The text of a derived value named `name` whose rendered fields are `fields`,
/// in order: `Name { key: text, ... }` for named fields, `Name(text, ...)` for
/// positional ones, `Name` alone when none is rendered.
pub open spec fn derived_repr(name: Seq<char>, named: bool, fields: Seq<DerivedField>) -> Seq<char> {
    if named {
        struct_repr(name, fields.map_values(|d: DerivedField| entry_repr(d.key@, derived_text(d))))
    } else {
        tuple_repr(name, fields.map_values(|d: DerivedField| derived_text(d)))
    }
}

/// The text a field renders as, as a string (for a field that does not fail).
fn derived_field_text(d: &DerivedField) -> (s: String)
    requires
        !derived_fails(*d),
    ensures
        s@ == derived_text(*d),
{
    match &d.render {
        FieldRender::Telemetry => match &d.value {
            Ok(v) => v.clone(),
            Err(_) => String::new(),
        },
        FieldRender::Display { before, after } => match &d.value {
            Ok(v) => fill_placeholder(before.as_str(), v.as_str(), after.as_str()),
            Err(_) => String::new(),
        },
        FieldRender::Label(t) => t.clone(),
    }
}

/// Writes a derived value named `name` whose rendered fields are `fields`, in
/// the plan's order: what every impl that `#[derive(ToTelemetry)]` generates
/// calls. A field whose rendering failed makes it write nothing and report the
/// first such failure.
pub fn write_derived(f: &mut TelemetryFormatter, name: &str, named: bool, fields: &Vec<DerivedField>) -> (r: Result<(), FmtError>)
    ensures
        r is Err <==> exists|i: int| 0 <= i < fields@.len() && derived_fails(#[trigger] fields@[i]),
        r is Err ==> final(f)@ == old(f)@,
        r is Ok ==> final(f)@ == old(f)@ + derived_repr(name@, named, fields@),
{
    let n = fields.len();
    for i in 0..n
        invariant
            n == fields@.len(),
            forall|k: int| 0 <= k < i ==> !derived_fails(#[trigger] fields@[k]),
    {
        let failed = match &fields[i].render {
            FieldRender::Label(_) => false,
            _ => fields[i].value.is_err(),
        };
        if failed {
            match &fields[i].value {
                Ok(_) => {},
                Err(e) => {
                    return Err(*e);
                },
            }
        }
    }
    let ghost texts = fields@.map_values(|d: DerivedField| derived_text(d));
    if named {
        let mut ds = DebugStruct::new(f, name);
        for i in 0..n
            invariant
                n == fields@.len(),
                forall|k: int| 0 <= k < n ==> !derived_fails(#[trigger] fields@[k]),
                ds.inv(f@),
                !ds.failed(),
                ds.start() == old(f)@,
                ds.name() == name@,
                ds.fields() == fields@.take(i as int).map_values(
                    |d: DerivedField| entry_repr(d.key@, derived_text(d)),
                ),
        {
            let text = derived_field_text(&fields[i]);
            ds.field_text(f, fields[i].key.as_str(), text.as_str());
            proof {
                assert(fields@.take(i + 1).map_values(
                    |d: DerivedField| entry_repr(d.key@, derived_text(d)),
                ) =~= fields@.take(i as int).map_values(
                    |d: DerivedField| entry_repr(d.key@, derived_text(d)),
                ).push(entry_repr(fields@[i as int].key@, derived_text(fields@[i as int]))));
            }
        }
        proof {
            assert(fields@.take(n as int) =~= fields@);
        }
        ds.finish(f)
    } else {
        let mut dt = DebugTuple::new(f, name);
        for i in 0..n
            invariant
                n == fields@.len(),
                forall|k: int| 0 <= k < n ==> !derived_fails(#[trigger] fields@[k]),
                dt.inv(f@),
                !dt.failed(),
                dt.start() == old(f)@,
                dt.name() == name@,
                dt.fields() == fields@.take(i as int).map_values(|d: DerivedField| derived_text(d)),
        {
            let text = derived_field_text(&fields[i]);
            dt.field_text(f, text.as_str());
            proof {
                assert(fields@.take(i + 1).map_values(|d: DerivedField| derived_text(d))
                    =~= fields@.take(i as int).map_values(|d: DerivedField| derived_text(d)).push(
                    derived_text(fields@[i as int]),
                ));
            }
        }
        proof {
            assert(fields@.take(n as int) =~= fields@);
        }
        dt.finish(f)
    }
}

/// `syn::Attribute`, which `attr_def` converts.
#[verifier::external_type_specification]
#[verifier::external_body]
pub struct ExAttribute(syn::Attribute);

/// `syn::Fields`, which `fields_def` converts.
#[verifier::external_type_specification]
#[verifier::external_body]
pub struct ExFields(syn::Fields);

/// Converts one attribute: the identifier its path is (if it is one), and its
/// arguments' form, with the token trees of a list. Part of the conversion of
/// what `syn` parses; nothing is stated of it.
#[verifier::external_body]
fn attr_def(attr: &syn::Attribute) -> AttrDef {
    let meta = match &attr.meta {
        syn::Meta::Path(_) => AttrMeta::Path,
        syn::Meta::NameValue(_) => AttrMeta::NameValue,
        syn::Meta::List(list) => AttrMeta::List(trees_of(list.tokens.clone())),
    };
    let ident = match attr.path().get_ident() {
        Some(i) => Some(i.to_string()),
        None => None,
    };
    AttrDef { ident, meta }
}

/// Converts fields, each to its attributes in order. Part of the conversion of
/// what `syn` parses; nothing is stated of it.
#[verifier::external_body]
fn fields_def(fields: &syn::Fields) -> Vec<FieldDef> {
    let mut out = Vec::new();
    for field in fields.iter() {
        let mut attrs = Vec::new();
        for attr in &field.attrs {
            attrs.push(attr_def(attr));
        }
        out.push(FieldDef { attrs });
    }
    out
}

/// What `syn`, lexing `text` with `proc-macro2`'s own lexer, parses it as when
/// it reads it as the input of a derive (`syn::DeriveInput`): the struct's
/// fields, the enum's variants or a union, each field with its attributes; or
/// `None` when it does not parse.
pub uninterp spec fn syn_derive_data(text: Seq<char>) -> Option<DataDef>;

/// Calls `syn::parse_str::<syn::DeriveInput>` with `proc-macro2`'s own lexer
/// forced (as `tokens::parses_as_expr` does) and converts its data: the result
/// is named `syn_derive_data`.
#[verifier::external_body]
fn derive_data(text: &str) -> (d: Option<DataDef>)
    ensures
        d == syn_derive_data(text@),
{
    proc_macro2::fallback::force();
    let parsed = syn::parse_str::<syn::DeriveInput>(text);
    proc_macro2::fallback::unforce();
    let data = match parsed {
        Ok(input) => input.data,
        Err(_) => return None,
    };
    Some(match data {
        syn::Data::Struct(s) => DataDef::Struct(fields_def(&s.fields)),
        syn::Data::Enum(e) => DataDef::Enum(
            e.variants.iter().map(|v| VariantDef { fields: fields_def(&v.fields) }).collect(),
        ),
        syn::Data::Union(_) => DataDef::Union,
    })
}

/// Plans `#[derive(ToTelemetry)]` for the item `tokens`, as the token trees the
/// derive is handed: `syn` reads the item, then `expand_derive` plans it.
pub fn plan_derive_input(tokens: &Vec<TokenTree>) -> (r: Result<DerivePlan, DeriveError>)
    ensures
        match syn_derive_data(run_text(tokens@)) {
            None => r == Err::<DerivePlan, DeriveError>(DeriveError::Syntax),
            Some(data) => match (r, spec_derive(data)) {
                (Ok(p), Ok(s)) => derive_matches(p, s),
                (Err(e), Err(f)) => e == f,
                _ => false,
            },
        },
{
    let text = run_to_string(tokens, 0, tokens.len());
    proof {
        assert(tokens@.subrange(0, tokens@.len() as int) =~= tokens@);
    }
    match derive_data(text.as_str()) {
        None => Err(DeriveError::Syntax),
        Some(data) => expand_derive(&data),
    }
}

/// Law: what a field's attribute asks for. No attribute renders the field
/// through its telemetry representation, `skip` leaves it out; the literal
/// `"{}"` adopts its `Display` output, a brace-free literal is a fixed label,
/// and any other literal is refused; a `display` format `before{}after` with
/// brace-free fixed texts shows the `Display` output between them, and a
/// brace-free `display` format without a placeholder is refused.
pub proof fn law_field_attributes_render_as_asked(t: Seq<char>, before: Seq<char>, after: Seq<char>)
    ensures
        spec_render(None) == RenderSpec::Telemetry,
        spec_render(Some(SpecFieldAttr::Skip)) == RenderSpec::Skip,
        spec_render(Some(SpecFieldAttr::Text(seq!['{', '}']))) == RenderSpec::Display(seq![None]),
        (forall|i: int| 0 <= i < t.len() ==> t[i] != '{' && t[i] != '}') ==> spec_render(
            Some(SpecFieldAttr::Text(t)),
        ) == RenderSpec::Label(t),
        t != seq!['{', '}'] && (exists|i: int| 0 <= i < t.len() && (t[i] == '{' || t[i] == '}'))
            ==> spec_render(Some(SpecFieldAttr::Text(t))) == RenderSpec::Refused(
            DeriveError::UnsupportedLiteral,
        ),
        (forall|i: int| 0 <= i < before.len() ==> before[i] != '{' && before[i] != '}') && (forall|
            i: int,
        | 0 <= i < after.len() ==> after[i] != '{' && after[i] != '}') ==> spec_render(
            Some(SpecFieldAttr::Display(before + seq!['{', '}'] + after)),
        ) == RenderSpec::Display(as_text(before) + seq![None] + as_text(after)),
        (forall|i: int| 0 <= i < t.len() ==> t[i] != '{' && t[i] != '}') ==> spec_render(
            Some(SpecFieldAttr::Display(t)),
        ) == RenderSpec::Refused(DeriveError::DisplayNeedsOnePlaceholder),
{
    if (forall|i: int| 0 <= i < before.len() ==> before[i] != '{' && before[i] != '}') && (forall|
        i: int,
    | 0 <= i < after.len() ==> after[i] != '{' && after[i] != '}') {
        law_plain_format_reads_as_written(before, after);
    }
    if forall|i: int| 0 <= i < t.len() ==> t[i] != '{' && t[i] != '}' {
        law_plain_format_reads_as_written(t, Seq::empty());
    }
    if t != seq!['{', '}'] && (exists|i: int| 0 <= i < t.len() && (t[i] == '{' || t[i] == '}')) {
        let i = choose|i: int| 0 <= i < t.len() && (t[i] == '{' || t[i] == '}');
        assert(!brace_free(t));
    }
}

/// Law: a derived value renders its name alone when no field is rendered; a
/// named field as `Name { key: text }`, where the text is the field's telemetry
/// text, its `Display` output between the format's fixed texts, or the label
/// (whatever the field holds); positional fields as `Name(a, b)`.
pub proof fn law_derived_values_render_their_fields(
    name: Seq<char>,
    named: bool,
    d: DerivedField,
    d1: DerivedField,
    d2: DerivedField,
)
    ensures
        derived_repr(name, named, Seq::empty()) == name,
        d.render is Telemetry ==> (d.value is Ok ==> derived_repr(name, true, seq![d]) == name + seq![
            ' ',
            '{',
            ' ',
        ] + d.key@ + seq![':', ' '] + d.value->Ok_0@ + seq![' ', '}']),
        d.render matches FieldRender::Display { before, after } ==> (d.value is Ok ==> derived_repr(
            name,
            true,
            seq![d],
        ) == name + seq![' ', '{', ' '] + d.key@ + seq![':', ' '] + before@ + d.value->Ok_0@ + after@
            + seq![' ', '}']),
        d.render matches FieldRender::Label(l) ==> derived_repr(name, true, seq![d]) == name + seq![
            ' ',
            '{',
            ' ',
        ] + d.key@ + seq![':', ' '] + l@ + seq![' ', '}'],
        d1.render is Telemetry && d2.render is Telemetry && d1.value is Ok && d2.value is Ok
            && name.len() > 0 ==> derived_repr(name, false, seq![d1, d2]) == name + seq!['(']
            + d1.value->Ok_0@ + seq![',', ' '] + d2.value->Ok_0@ + seq![')'],
{
    let one = seq![d];
    let two = seq![d1, d2];
    assert(one.map_values(|x: DerivedField| entry_repr(x.key@, derived_text(x))) =~= seq![
        entry_repr(d.key@, derived_text(d)),
    ]);
    assert(two.map_values(|x: DerivedField| derived_text(x)) =~= seq![
        derived_text(d1),
        derived_text(d2),
    ]);
    law_composite_shapes(name, entry_repr(d.key@, derived_text(d)), derived_text(d), Seq::empty(), Seq::empty());
    law_composite_shapes(name, derived_text(d1), derived_text(d2), Seq::empty(), Seq::empty());
    assert(Seq::<DerivedField>::empty().map_values(|x: DerivedField| derived_text(x)) =~= Seq::<
        Seq<char>,
    >::empty());
    assert(Seq::<DerivedField>::empty().map_values(
        |x: DerivedField| entry_repr(x.key@, derived_text(x)),
    ) =~= Seq::<Seq<char>>::empty());
    assert(name + seq![' ', '{', ' '] + entry_repr(d.key@, derived_text(d)) + seq![' ', '}'] =~= name
        + seq![' ', '{', ' '] + d.key@ + seq![':', ' '] + derived_text(d) + seq![' ', '}']);
    match d.render {
        FieldRender::Display { before, after } => {
            assert(name + seq![' ', '{', ' '] + d.key@ + seq![':', ' '] + (before@ + d.value->Ok_0@
                + after@) + seq![' ', '}'] =~= name + seq![' ', '{', ' '] + d.key@ + seq![':', ' ']
                + before@ + d.value->Ok_0@ + after@ + seq![' ', '}']);
        },
        _ => {},
    }
}

/// Law: the forms that `#[telemetry(...)]` takes. `skip` alone is `Skip`;
/// `display` alone adopts `Display` (`"{}"`); `display = "fmt"` takes the
/// literal's value as its format; a string literal alone, or followed by one
/// comma, is that literal's value. (`k` is the keyword token, `eq` the `=`,
/// `lit` a string literal that `syn` reads as one expression.)
pub proof fn law_attribute_forms(k: TokenTree, eq: TokenTree, lit: TokenTree, comma: TokenTree)
    requires
        is_punct(eq, '='),
        is_punct(comma, ','),
        lit.kind is Literal,
        syn_lit_str_value(lit.text@) is Some,
        syn_parses_expr(lit.text@),
    ensures
        names_ident(k) && is_word(k, seq!['s', 'k', 'i', 'p']) ==> spec_parse_attr_args(seq![k])
            == Ok::<SpecFieldAttr, DeriveError>(SpecFieldAttr::Skip),
        names_ident(k) && is_word(k, seq!['d', 'i', 's', 'p', 'l', 'a', 'y']) ==> spec_parse_attr_args(
            seq![k],
        ) == Ok::<SpecFieldAttr, DeriveError>(SpecFieldAttr::Display(seq!['{', '}'])),
        names_ident(k) && is_word(k, seq!['d', 'i', 's', 'p', 'l', 'a', 'y']) ==> spec_parse_attr_args(
            seq![k, eq, lit],
        ) == Ok::<SpecFieldAttr, DeriveError>(
            SpecFieldAttr::Display(syn_lit_str_value(lit.text@)->0),
        ),
        spec_parse_attr_args(seq![lit]) == Ok::<SpecFieldAttr, DeriveError>(
            SpecFieldAttr::Text(syn_lit_str_value(lit.text@)->0),
        ),
        spec_parse_attr_args(seq![lit, comma]) == Ok::<SpecFieldAttr, DeriveError>(
            SpecFieldAttr::Text(syn_lit_str_value(lit.text@)->0),
        ),
{
    let a = seq![k, eq, lit];
    assert(a.subrange(2, 3) =~= seq![lit]);
    assert(expr_end_from(a, 2, 2) == expr_end_from(a, 2, 3));
    let b = seq![lit];
    assert(b.subrange(0, 1) =~= seq![lit]);
    assert(expr_end_from(b, 0, 0) == expr_end_from(b, 0, 1));
    let c = seq![lit, comma];
    assert(c.subrange(0, 1) =~= seq![lit]);
    assert(expr_end_from(c, 0, 0) == expr_end_from(c, 0, 1));
    assert(!(lit.kind is Ident));
}

} // verus!
