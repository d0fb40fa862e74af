use vstd::prelude::*;

use crate::tokens::{
    expr_prefix_parses, has_expr_prefix,
    expr_end, find_expr_end, is_comma, is_paren_group, is_punct, names_ident, parses_as_ident,
    lemma_expr_end_range, run_text, run_to_string, Delimiter, TokenKind, TokenTree,
};
use crate::tracing_support::SpanField;

verus! {

/// Why `#[safe_instrument(...)]` refuses its arguments or the function it is applied to.
#[derive(Clone, Copy, PartialEq, Eq, Structural, Debug)]
pub enum InstrumentError {
    /// An argument that does not start with an identifier.
    ExpectedIdent,
    /// No expression where one belongs.
    ExpectedExpression,
    /// Arguments (or fields) not separated by commas.
    ExpectedComma,
    /// A field entry without `=`.
    FieldNeedsEquals,
    /// A field recorded as `?expr`, through `Debug`.
    DebugFieldUnsupported,
    /// A field whose value is not written `%expr`.
    FieldNeedsPercent,
    /// A field entry with nothing before `=`.
    EmptyFieldName,
    /// A flag other than `skip_all`, `ret` or `err`.
    UnsupportedFlag,
    /// A `name = value` option other than `name`, `level` or `target`.
    UnsupportedOption,
    /// A list other than `skip(...)` or `fields(...)`.
    UnsupportedList,
    /// `err` on a function that returns nothing.
    ErrWithoutResult,
    /// The item is not a function that `syn` parses.
    ExpectedFunction,
}

/// The positions `start..end` of a run of token trees.
#[derive(Clone, Copy, PartialEq, Eq, Structural)]
pub struct TokenRange {
    /// First position.
    pub start: usize,
    /// One past the last position.
    pub end: usize,
}

/// One argument of `#[safe_instrument(...)]`, by the positions of its tokens.
#[derive(Clone, Copy, PartialEq, Eq, Structural)]
pub enum InstrumentArg {
    /// `name`: an identifier alone.
    Flag { name: usize },
    /// `name = value`.
    NameValue { name: usize, value: TokenRange },
    /// `name(...)`: the group follows the name.
    List { name: usize },
}

/// One entry `name = %value` of `fields(...)`, by positions inside the group.
#[derive(Clone, Copy, PartialEq, Eq, Structural)]
pub struct FieldArg {
    /// The tokens before `=`.
    pub name: TokenRange,
    /// The expression after `%`.
    pub value: TokenRange,
}

/// One field that the generated `tracing::instrument` attribute declares.
#[derive(Clone, Copy, PartialEq, Eq, Structural)]
pub enum FieldEntry {
    /// `name = %telemetry(&(value))`, from the `fields(...)` group at position
    /// `list` of the arguments; `name` and `value` are positions inside that group.
    Telemetry { list: usize, name: TokenRange, value: TokenRange },
    /// `ret = Empty` or `err = Empty`, filled after the call.
    Empty(SpanField),
}

/// One argument of the generated `tracing::instrument` attribute.
pub enum AttrArg {
    /// `skip_all`
    SkipAll,
    /// `name = value`, `level = value` or `target = value`, by the positions of
    /// the name and of the value among the arguments.
    Setting { name: usize, value: TokenRange },
    /// `fields(...)`
    Fields(Vec<FieldEntry>),
}

/// `AttrArg` as mathematical values.
pub enum SpecAttrArg {
    SkipAll,
    Setting { name: usize, value: TokenRange },
    Fields(Seq<FieldEntry>),
}

impl View for AttrArg {
    type V = SpecAttrArg;

    open spec fn view(&self) -> SpecAttrArg {
        match self {
            AttrArg::SkipAll => SpecAttrArg::SkipAll,
            AttrArg::Setting { name, value } => SpecAttrArg::Setting { name: *name, value: *value },
            AttrArg::Fields(v) => SpecAttrArg::Fields(v@),
        }
    }
}

/// The views of a list of attribute arguments.
pub open spec fn attr_views(v: Seq<AttrArg>) -> Seq<SpecAttrArg> {
    v.map_values(|a: AttrArg| a@)
}

/// The tokens inside a group (none for another token).
pub open spec fn group_tokens(t: TokenTree) -> Seq<TokenTree> {
    match t.kind {
        TokenKind::Group(_, inner) => inner@,
        _ => Seq::empty(),
    }
}

/// How one argument starting at `i` parses, and where the next one would start.
pub open spec fn spec_arg_at(t: Seq<TokenTree>, i: int) -> Result<(InstrumentArg, int), InstrumentError> {
    if !names_ident(t[i]) {
        Err(InstrumentError::ExpectedIdent)
    } else if i + 1 < t.len() && is_paren_group(t[i + 1]) {
        Ok((InstrumentArg::List { name: i as usize }, i + 2))
    } else if i + 1 < t.len() && is_punct(t[i + 1], '=') {
        match expr_end(t, i + 2) {
            None => if expr_prefix_parses(t, i + 2) {
                Err(InstrumentError::ExpectedComma)
            } else {
                Err(InstrumentError::ExpectedExpression)
            },
            Some(e) => Ok(
                (
                    InstrumentArg::NameValue {
                        name: i as usize,
                        value: TokenRange { start: (i + 2) as usize, end: e as usize },
                    },
                    e,
                ),
            ),
        }
    } else {
        Ok((InstrumentArg::Flag { name: i as usize }, i + 1))
    }
}

/// How the arguments from `i` on parse: each one followed by a comma or by the end.
pub open spec fn spec_args_from(t: Seq<TokenTree>, i: int) -> Result<Seq<InstrumentArg>, InstrumentError>
    decreases t.len() - i,
{
    if i < 0 || i >= t.len() {
        Ok(Seq::empty())
    } else {
        match spec_arg_at(t, i) {
            Err(e) => Err(e),
            Ok((a, j)) => {
                proof {
                    lemma_arg_at_advances(t, i);
                }
                if j >= t.len() {
                    Ok(seq![a])
                } else if is_comma(t[j]) {
                    match spec_args_from(t, j + 1) {
                        Ok(rest) => Ok(seq![a] + rest),
                        Err(e) => Err(e),
                    }
                } else {
                    Err(InstrumentError::ExpectedComma)
                }
            },
        }
    }
}

/// An argument that parses ends after its start and no later than the tokens,
/// and (for tokens that a `Vec` can hold) lies inside them.
pub proof fn lemma_arg_at_advances(t: Seq<TokenTree>, i: int)
    requires
        0 <= i < t.len(),
    ensures
        spec_arg_at(t, i) matches Ok((a, j)) ==> i < j <= t.len() && (t.len() <= usize::MAX
            ==> arg_well_placed(t, a)),
{
    lemma_expr_end_range(t, i + 2, i + 2);
}

/// A field entry that parses ends after its start and no later than the tokens.
pub proof fn lemma_field_at_advances(g: Seq<TokenTree>, i: int)
    requires
        0 <= i < g.len(),
    ensures
        spec_field_at(g, i) matches Ok((f, j)) ==> i < j <= g.len(),
{
    lemma_first_eq_is_eq(g, i);
    if let Some(k) = first_eq_from(g, i) {
        lemma_expr_end_range(g, k + 2, k + 2);
    }
}

/// How the arguments of `#[safe_instrument(...)]` parse.
pub open spec fn spec_parse_args(t: Seq<TokenTree>) -> Result<Seq<InstrumentArg>, InstrumentError> {
    spec_args_from(t, 0)
}

/// The position of the first `=` at or after `k`.
pub open spec fn first_eq_from(g: Seq<TokenTree>, k: int) -> Option<int>
    decreases g.len() - k,
{
    if k < 0 || k >= g.len() {
        None
    } else if is_punct(g[k], '=') {
        Some(k)
    } else {
        first_eq_from(g, k + 1)
    }
}

/// How one field entry starting at `i` parses, and where the next one would start:
/// the tokens up to the first `=` name it; `%` and an expression must follow.
pub open spec fn spec_field_at(g: Seq<TokenTree>, i: int) -> Result<(FieldArg, int), InstrumentError> {
    match first_eq_from(g, i) {
        None => Err(InstrumentError::FieldNeedsEquals),
        Some(k) => {
            let m = k + 1;
            if m < g.len() && is_punct(g[m], '%') {
                match expr_end(g, m + 1) {
                    None => if expr_prefix_parses(g, m + 1) {
                        Err(InstrumentError::ExpectedComma)
                    } else {
                        Err(InstrumentError::ExpectedExpression)
                    },
                    Some(e) => Ok(
                        (
                            FieldArg {
                                name: TokenRange { start: i as usize, end: k as usize },
                                value: TokenRange { start: (m + 1) as usize, end: e as usize },
                            },
                            e,
                        ),
                    ),
                }
            } else if m < g.len() && is_punct(g[m], '?') {
                if expr_prefix_parses(g, m + 1) {
                    Err(InstrumentError::DebugFieldUnsupported)
                } else {
                    Err(InstrumentError::ExpectedExpression)
                }
            } else {
                if expr_prefix_parses(g, m) {
                    Err(InstrumentError::FieldNeedsPercent)
                } else {
                    Err(InstrumentError::ExpectedExpression)
                }
            }
        },
    }
}

/// How the field entries from `i` on parse: each one followed by a comma or by the end.
pub open spec fn spec_fields_from(g: Seq<TokenTree>, i: int) -> Result<Seq<FieldArg>, InstrumentError>
    decreases g.len() - i,
{
    if i < 0 || i >= g.len() {
        Ok(Seq::empty())
    } else {
        match spec_field_at(g, i) {
            Err(e) => Err(e),
            Ok((f, j)) => {
                proof {
                    lemma_field_at_advances(g, i);
                }
                if j >= g.len() {
                    Ok(seq![f])
                } else if is_comma(g[j]) {
                    match spec_fields_from(g, j + 1) {
                        Ok(rest) => Ok(seq![f] + rest),
                        Err(e) => Err(e),
                    }
                } else {
                    Err(InstrumentError::ExpectedComma)
                }
            },
        }
    }
}

/// The entries that the fields of the group at `list` become; a field with
/// an empty name refuses them all.
pub open spec fn spec_field_entries(fields: Seq<FieldArg>, list: int) -> Result<Seq<FieldEntry>, InstrumentError> {
    if exists|j: int| 0 <= j < fields.len() && (#[trigger] fields[j]).name.start == fields[j].name.end {
        Err(InstrumentError::EmptyFieldName)
    } else {
        Ok(
            fields.map_values(
                |f: FieldArg| FieldEntry::Telemetry { list: list as usize, name: f.name, value: f.value },
            ),
        )
    }
}

/// The configuration that the arguments build up.
pub struct InstrumentConfig {
    /// Arguments of the generated attribute, other than its fields.
    pub attr_args: Vec<AttrArg>,
    /// Fields declared through `fields(...)`.
    pub field_args: Vec<FieldEntry>,
    /// Whether `ret` was given.
    pub record_ret: bool,
    /// Whether `err` was given.
    pub record_err: bool,
}

/// `InstrumentConfig` as mathematical values.
pub struct SpecConfig {
    pub attr_args: Seq<SpecAttrArg>,
    pub field_args: Seq<FieldEntry>,
    pub record_ret: bool,
    pub record_err: bool,
}

impl View for InstrumentConfig {
    type V = SpecConfig;

    open spec fn view(&self) -> SpecConfig {
        SpecConfig {
            attr_args: attr_views(self.attr_args@),
            field_args: self.field_args@,
            record_ret: self.record_ret,
            record_err: self.record_err,
        }
    }
}

/// Before any argument: `skip_all`, so no argument is ever recorded implicitly.
pub open spec fn initial_config() -> SpecConfig {
    SpecConfig {
        attr_args: seq![SpecAttrArg::SkipAll],
        field_args: Seq::empty(),
        record_ret: false,
        record_err: false,
    }
}

/// What one argument does to the configuration.
pub open spec fn spec_apply(c: SpecConfig, t: Seq<TokenTree>, a: InstrumentArg) -> Result<SpecConfig, InstrumentError> {
    match a {
        InstrumentArg::Flag { name } => {
            let w = t[name as int].text@;
            if w == "skip_all"@ {
                Ok(c)
            } else if w == "ret"@ {
                Ok(SpecConfig { record_ret: true, ..c })
            } else if w == "err"@ {
                Ok(SpecConfig { record_err: true, ..c })
            } else {
                Err(InstrumentError::UnsupportedFlag)
            }
        },
        InstrumentArg::NameValue { name, value } => {
            let w = t[name as int].text@;
            if w == "name"@ || w == "level"@ || w == "target"@ {
                Ok(
                    SpecConfig {
                        attr_args: c.attr_args.push(SpecAttrArg::Setting { name, value }),
                        ..c
                    },
                )
            } else {
                Err(InstrumentError::UnsupportedOption)
            }
        },
        InstrumentArg::List { name } => {
            let w = t[name as int].text@;
            if w == "skip"@ {
                Ok(c)
            } else if w == "fields"@ {
                match spec_fields_from(group_tokens(t[name + 1]), 0) {
                    Err(e) => Err(e),
                    Ok(fs) => match spec_field_entries(fs, name + 1) {
                        Err(e) => Err(e),
                        Ok(es) => Ok(SpecConfig { field_args: c.field_args + es, ..c }),
                    },
                }
            } else {
                Err(InstrumentError::UnsupportedList)
            }
        },
    }
}

/// The configuration that the parsed arguments build, in order; or the first refusal.
pub open spec fn spec_configure(t: Seq<TokenTree>, args: Seq<InstrumentArg>) -> Result<SpecConfig, InstrumentError>
    decreases args.len(),
{
    if args.len() == 0 {
        Ok(initial_config())
    } else {
        match spec_configure(t, args.drop_last()) {
            Err(e) => Err(e),
            Ok(c) => spec_apply(c, t, args.last()),
        }
    }
}

/// The fields of the generated attribute: the declared ones, then `ret` and `err`
/// when they are recorded.
pub open spec fn spec_all_fields(c: SpecConfig) -> Seq<FieldEntry> {
    c.field_args + (if c.record_ret {
        seq![FieldEntry::Empty(SpanField::Ret)]
    } else {
        Seq::empty()
    }) + (if c.record_err {
        seq![FieldEntry::Empty(SpanField::Error)]
    } else {
        Seq::empty()
    })
}

/// The arguments of the generated `tracing::instrument` attribute.
pub open spec fn spec_instrument_attr(c: SpecConfig) -> Seq<SpecAttrArg> {
    if spec_all_fields(c).len() > 0 {
        c.attr_args.push(SpecAttrArg::Fields(spec_all_fields(c)))
    } else {
        c.attr_args
    }
}

/// How `#[safe_instrument]` rewrites a function.
pub struct InstrumentPlan {
    /// The arguments of the `tracing::instrument` attribute put on the function.
    pub attr_args: Vec<AttrArg>,
    /// Whether the return value is recorded in `ret` after the call.
    pub record_ret: bool,
    /// Whether an `Err` is recorded in `err` after the call.
    pub record_err: bool,
    /// Whether the body is awaited (an `async fn`) rather than called.
    pub is_async: bool,
}

/// `InstrumentPlan` as mathematical values.
pub struct SpecPlan {
    pub attr_args: Seq<SpecAttrArg>,
    pub record_ret: bool,
    pub record_err: bool,
    pub is_async: bool,
}

impl View for InstrumentPlan {
    type V = SpecPlan;

    open spec fn view(&self) -> SpecPlan {
        SpecPlan {
            attr_args: attr_views(self.attr_args@),
            record_ret: self.record_ret,
            record_err: self.record_err,
            is_async: self.is_async,
        }
    }
}

/// The rewrite for a configuration and a function that returns a value
/// (`has_return`) and is `async` or not.
pub open spec fn spec_plan(c: SpecConfig, has_return: bool, is_async: bool) -> Result<SpecPlan, InstrumentError> {
    if c.record_err && !has_return {
        Err(InstrumentError::ErrWithoutResult)
    } else {
        Ok(
            SpecPlan {
                attr_args: spec_instrument_attr(c),
                record_ret: c.record_ret,
                record_err: c.record_err,
                is_async,
            },
        )
    }
}

/// `done` followed by what `rest` parsed, if it parsed.
pub open spec fn then_prepend<A>(done: Seq<A>, rest: Result<Seq<A>, InstrumentError>) -> Result<Seq<A>, InstrumentError> {
    match rest {
        Ok(r) => Ok(done + r),
        Err(e) => Err(e),
    }
}

/// Whether the identifier token `t` is `word`.
fn text_is(t: &TokenTree, word: &str) -> (b: bool)
    ensures
        b == (t.text@ == word@),
{
    let w = word.to_owned();
    t.text == w
}

/// Whether `t` is the punctuation character `c`.
fn punct_is(t: &TokenTree, c: char) -> (b: bool)
    ensures
        b == is_punct(*t, c),
{
    match t.kind {
        TokenKind::Punct(ch, _) => ch == c,
        _ => false,
    }
}

/// Parses the argument that starts at `i`.
fn arg_at(t: &Vec<TokenTree>, i: usize) -> (r: Result<(InstrumentArg, usize), InstrumentError>)
    requires
        i < t@.len(),
    ensures
        match (r, spec_arg_at(t@, i as int)) {
            (Ok((a, j)), Ok((b, k))) => a == b && j == k,
            (Err(e), Err(f)) => e == f,
            _ => false,
        },
        r matches Ok((a, j)) ==> i < j <= t@.len() && arg_well_placed(t@, a),
{
    proof {
        lemma_arg_at_advances(t@, i as int);
    }
    let is_ident = match t[i].kind {
        TokenKind::Ident => parses_as_ident(t[i].text.as_str()),
        _ => false,
    };
    if !is_ident {
        return Err(InstrumentError::ExpectedIdent);
    }
    if t.len() - i > 1 {
        let paren = match t[i + 1].kind {
            TokenKind::Group(d, _) => d == Delimiter::Parenthesis,
            _ => false,
        };
        if paren {
            return Ok((InstrumentArg::List { name: i }, i + 2));
        }
        if punct_is(&t[i + 1], '=') {
            return match find_expr_end(t, i + 2) {
                None => if has_expr_prefix(t, i + 2) {
                    Err(InstrumentError::ExpectedComma)
                } else {
                    Err(InstrumentError::ExpectedExpression)
                },
                Some(e) => Ok(
                    (InstrumentArg::NameValue { name: i, value: TokenRange { start: i + 2, end: e } }, e),
                ),
            };
        }
    }
    Ok((InstrumentArg::Flag { name: i }, i + 1))
}

/// Parses the arguments of `#[safe_instrument(...)]`.
pub fn parse_instrument_args(t: &Vec<TokenTree>) -> (r: Result<Vec<InstrumentArg>, InstrumentError>)
    ensures
        match (r, spec_parse_args(t@)) {
            (Ok(v), Ok(s)) => v@ == s,
            (Err(e), Err(f)) => e == f,
            _ => false,
        },
        r matches Ok(v) ==> args_well_placed(t@, v@),
{
    let n = t.len();
    let mut done: Vec<InstrumentArg> = Vec::new();
    let mut i: usize = 0;
    proof {
        assert(done@ + Seq::<InstrumentArg>::empty() =~= done@);
        assert(then_prepend(done@, spec_args_from(t@, 0)) =~~= spec_args_from(t@, 0)) by {
            match spec_args_from(t@, 0) {
                Ok(r) => assert(done@ + r =~= r),
                Err(_) => {},
            }
        }
    }
    while i < n
        invariant
            n == t@.len(),
            spec_parse_args(t@) == then_prepend(done@, spec_args_from(t@, i as int)),
            args_well_placed(t@, done@),
        decreases n - i,
    {
        match arg_at(t, i) {
            Err(e) => {
                return Err(e);
            },
            Ok((a, j)) => {
                proof {
                    assert(args_well_placed(t@, done@.push(a))) by {
                        assert forall|k: int| 0 <= k < done@.len() + 1 implies arg_well_placed(
                            t@,
                            #[trigger] done@.push(a)[k],
                        ) by {
                            if k < done@.len() {
                                assert(done@.push(a)[k] == done@[k]);
                            }
                        }
                    }
                }
                if j >= n {
                    let ghost before = done@;
                    done.push(a);
                    proof {
                        assert(before + seq![a] =~= done@);
                        assert(spec_args_from(t@, n as int) == Ok::<Seq<InstrumentArg>, InstrumentError>(Seq::empty()));
                        assert(done@ + Seq::<InstrumentArg>::empty() =~= done@);
                    }
                    i = n;
                } else if punct_is(&t[j], ',') {
                    let ghost before = done@;
                    done.push(a);
                    proof {
                        match spec_args_from(t@, j + 1) {
                            Ok(r) => {
                                assert(before + (seq![a] + r) =~= done@ + r);
                            },
                            Err(_) => {},
                        }
                    }
                    i = j + 1;
                } else {
                    return Err(InstrumentError::ExpectedComma);
                }
            },
        }
    }
    proof {
        assert(spec_args_from(t@, i as int) == Ok::<Seq<InstrumentArg>, InstrumentError>(Seq::empty()));
        assert(done@ + Seq::<InstrumentArg>::empty() =~= done@);
    }
    Ok(done)
}

/// The position of the first `=` at or after `k`.
fn find_eq(g: &Vec<TokenTree>, k: usize) -> (r: Option<usize>)
    requires
        k <= g@.len(),
    ensures
        r is Some <==> first_eq_from(g@, k as int) is Some,
        r matches Some(p) ==> first_eq_from(g@, k as int) == Some(p as int) && k <= p < g@.len(),
{
    let n = g.len();
    let mut p = k;
    while p < n
        invariant
            n == g@.len(),
            k <= p <= n,
            first_eq_from(g@, k as int) == first_eq_from(g@, p as int),
        decreases n - p,
    {
        if punct_is(&g[p], '=') {
            return Some(p);
        }
        p = p + 1;
    }
    None
}

/// Parses the field entry that starts at `i`.
fn field_at(g: &Vec<TokenTree>, i: usize) -> (r: Result<(FieldArg, usize), InstrumentError>)
    requires
        i < g@.len(),
    ensures
        match (r, spec_field_at(g@, i as int)) {
            (Ok((a, j)), Ok((b, k))) => a == b && j == k,
            (Err(e), Err(f)) => e == f,
            _ => false,
        },
        r matches Ok((_, j)) ==> i < j <= g@.len(),
{
    proof {
        lemma_field_at_advances(g@, i as int);
    }
    let n = g.len();
    match find_eq(g, i) {
        None => Err(InstrumentError::FieldNeedsEquals),
        Some(k) => {
            assert(k < n);
            let m = k + 1;
            if m < g.len() && punct_is(&g[m], '%') {
                match find_expr_end(g, m + 1) {
                    None => if has_expr_prefix(g, m + 1) {
                        Err(InstrumentError::ExpectedComma)
                    } else {
                        Err(InstrumentError::ExpectedExpression)
                    },
                    Some(e) => Ok(
                        (
                            FieldArg {
                                name: TokenRange { start: i, end: k },
                                value: TokenRange { start: m + 1, end: e },
                            },
                            e,
                        ),
                    ),
                }
            } else if m < g.len() && punct_is(&g[m], '?') {
                if has_expr_prefix(g, m + 1) {
                    Err(InstrumentError::DebugFieldUnsupported)
                } else {
                    Err(InstrumentError::ExpectedExpression)
                }
            } else {
                if has_expr_prefix(g, m) {
                    Err(InstrumentError::FieldNeedsPercent)
                } else {
                    Err(InstrumentError::ExpectedExpression)
                }
            }
        },
    }
}

/// Parses the field entries inside `fields(...)`.
pub fn parse_field_args(g: &Vec<TokenTree>) -> (r: Result<Vec<FieldArg>, InstrumentError>)
    ensures
        match (r, spec_fields_from(g@, 0)) {
            (Ok(v), Ok(s)) => v@ == s,
            (Err(e), Err(f)) => e == f,
            _ => false,
        },
{
    let n = g.len();
    let mut done: Vec<FieldArg> = Vec::new();
    let mut i: usize = 0;
    proof {
        assert(then_prepend(done@, spec_fields_from(g@, 0)) =~~= spec_fields_from(g@, 0)) by {
            match spec_fields_from(g@, 0) {
                Ok(r) => assert(done@ + r =~= r),
                Err(_) => {},
            }
        }
    }
    while i < n
        invariant
            n == g@.len(),
            spec_fields_from(g@, 0) == then_prepend(done@, spec_fields_from(g@, i as int)),
        decreases n - i,
    {
        match field_at(g, i) {
            Err(e) => {
                return Err(e);
            },
            Ok((f, j)) => {
                if j >= n {
                    let ghost before = done@;
                    done.push(f);
                    proof {
                        assert(before + seq![f] =~= done@);
                        assert(spec_fields_from(g@, n as int) == Ok::<Seq<FieldArg>, InstrumentError>(Seq::empty()));
                        assert(done@ + Seq::<FieldArg>::empty() =~= done@);
                    }
                    i = n;
                } else if punct_is(&g[j], ',') {
                    let ghost before = done@;
                    done.push(f);
                    proof {
                        match spec_fields_from(g@, j + 1) {
                            Ok(r) => {
                                assert(before + (seq![f] + r) =~= done@ + r);
                            },
                            Err(_) => {},
                        }
                    }
                    i = j + 1;
                } else {
                    return Err(InstrumentError::ExpectedComma);
                }
            },
        }
    }
    proof {
        assert(spec_fields_from(g@, i as int) == Ok::<Seq<FieldArg>, InstrumentError>(Seq::empty()));
        assert(done@ + Seq::<FieldArg>::empty() =~= done@);
    }
    Ok(done)
}

/// The entries that the fields of the group at `list` become.
fn field_entries(fields: &Vec<FieldArg>, list: usize) -> (r: Result<Vec<FieldEntry>, InstrumentError>)
    ensures
        match (r, spec_field_entries(fields@, list as int)) {
            (Ok(v), Ok(s)) => v@ == s,
            (Err(e), Err(f)) => e == f,
            _ => false,
        },
{
    let n = fields.len();
    let mut out: Vec<FieldEntry> = Vec::new();
    for j in 0..n
        invariant
            n == fields@.len(),
            forall|k: int| 0 <= k < j ==> (#[trigger] fields@[k]).name.start != fields@[k].name.end,
            out@ == fields@.take(j as int).map_values(
                |f: FieldArg| FieldEntry::Telemetry { list: list, name: f.name, value: f.value },
            ),
    {
        let f = fields[j];
        if f.name.start == f.name.end {
            return Err(InstrumentError::EmptyFieldName);
        }
        out.push(FieldEntry::Telemetry { list, name: f.name, value: f.value });
        proof {
            assert(fields@.take(j + 1).map_values(
                |f: FieldArg| FieldEntry::Telemetry { list: list, name: f.name, value: f.value },
            ) =~= fields@.take(j as int).map_values(
                |f: FieldArg| FieldEntry::Telemetry { list: list, name: f.name, value: f.value },
            ).push(FieldEntry::Telemetry { list, name: f.name, value: f.value }));
        }
    }
    proof {
        assert(fields@.take(n as int) =~= fields@);
    }
    Ok(out)
}

/// Whether the argument's positions lie inside `t`, with a group after a list's name.
pub open spec fn arg_well_placed(t: Seq<TokenTree>, a: InstrumentArg) -> bool {
    match a {
        InstrumentArg::Flag { name } => name < t.len(),
        InstrumentArg::NameValue { name, value } => name < t.len() && value.start <= value.end
            <= t.len(),
        InstrumentArg::List { name } => name + 1 < t.len(),
    }
}

/// Whether each argument's positions lie inside `t`.
pub open spec fn args_well_placed(t: Seq<TokenTree>, args: Seq<InstrumentArg>) -> bool {
    forall|k: int| 0 <= k < args.len() ==> arg_well_placed(t, #[trigger] args[k])
}

/// Applies one argument to the configuration.
fn apply_arg(config: &mut InstrumentConfig, t: &Vec<TokenTree>, a: InstrumentArg) -> (r: Result<(), InstrumentError>)
    requires
        arg_well_placed(t@, a),
    ensures
        match (r, spec_apply(old(config)@, t@, a)) {
            (Ok(()), Ok(c)) => final(config)@ == c,
            (Err(e), Err(f)) => e == f,
            _ => false,
        },
        r is Err ==> final(config)@ == old(config)@,
{
    match a {
        InstrumentArg::Flag { name } => {
            if text_is(&t[name], "skip_all") {
                Ok(())
            } else if text_is(&t[name], "ret") {
                config.record_ret = true;
                Ok(())
            } else if text_is(&t[name], "err") {
                config.record_err = true;
                Ok(())
            } else {
                Err(InstrumentError::UnsupportedFlag)
            }
        },
        InstrumentArg::NameValue { name, value } => {
            if text_is(&t[name], "name") || text_is(&t[name], "level") || text_is(&t[name], "target") {
                let ghost before = config.attr_args@;
                config.attr_args.push(AttrArg::Setting { name, value });
                proof {
                    assert(attr_views(config.attr_args@) =~= attr_views(before).push(
                        SpecAttrArg::Setting { name, value },
                    ));
                }
                Ok(())
            } else {
                Err(InstrumentError::UnsupportedOption)
            }
        },
        InstrumentArg::List { name } => {
            if text_is(&t[name], "skip") {
                Ok(())
            } else if text_is(&t[name], "fields") {
                let n = t.len();
                assert(name + 1 < n);
                let empty: Vec<TokenTree> = Vec::new();
                let group = match &t[name + 1].kind {
                    TokenKind::Group(_, inner) => inner,
                    _ => &empty,
                };
                proof {
                    assert(group@ == group_tokens(t@[name + 1]));
                }
                match parse_field_args(group) {
                    Err(e) => Err(e),
                    Ok(fs) => match field_entries(&fs, name + 1) {
                        Err(e) => Err(e),
                        Ok(mut es) => {
                            let ghost before = config.field_args@;
                            let ghost added = es@;
                            config.field_args.append(&mut es);
                            proof {
                                assert(config.field_args@ == before + added);
                            }
                            Ok(())
                        },
                    },
                }
            } else {
                Err(InstrumentError::UnsupportedList)
            }
        },
    }
}

/// Builds the configuration from the parsed arguments, in order.
pub fn configure_instrument(t: &Vec<TokenTree>, args: &Vec<InstrumentArg>) -> (r: Result<InstrumentConfig, InstrumentError>)
    requires
        args_well_placed(t@, args@),
    ensures
        match (r, spec_configure(t@, args@)) {
            (Ok(c), Ok(s)) => c@ == s,
            (Err(e), Err(f)) => e == f,
            _ => false,
        },
{
    let mut config = InstrumentConfig {
        attr_args: vec![AttrArg::SkipAll],
        field_args: Vec::new(),
        record_ret: false,
        record_err: false,
    };
    proof {
        assert(attr_views(config.attr_args@) =~= seq![SpecAttrArg::SkipAll]);
        assert(config@ == initial_config());
    }
    let n = args.len();
    for k in 0..n
        invariant
            n == args@.len(),
            args_well_placed(t@, args@),
            spec_configure(t@, args@.take(k as int)) == Ok::<SpecConfig, InstrumentError>(config@),
    {
        let a = args[k];
        proof {
            assert(args@.take(k + 1).drop_last() =~= args@.take(k as int));
            assert(args@.take(k + 1).last() == a);
            assert(arg_well_placed(t@, args@[k as int]));
        }
        match apply_arg(&mut config, t, a) {
            Err(e) => {
                proof {
                    lemma_configure_refusal_persists(t@, args@, k + 1);
                }
                return Err(e);
            },
            Ok(()) => {},
        }
    }
    proof {
        assert(args@.take(n as int) =~= args@);
    }
    Ok(config)
}

/// Once a prefix of the arguments is refused, every longer prefix is refused the same way.
proof fn lemma_configure_refusal_persists(t: Seq<TokenTree>, args: Seq<InstrumentArg>, k: int)
    requires
        0 <= k <= args.len(),
        spec_configure(t, args.take(k)) is Err,
    ensures
        spec_configure(t, args) == spec_configure(t, args.take(k)),
    decreases args.len() - k,
{
    if k < args.len() {
        assert(args.take(k + 1).drop_last() =~= args.take(k));
        lemma_configure_refusal_persists(t, args, k + 1);
    } else {
        assert(args.take(k) =~= args);
    }
}

/// The arguments of the generated `tracing::instrument` attribute.
pub fn instrument_attr(config: InstrumentConfig) -> (r: Vec<AttrArg>)
    ensures
        attr_views(r@) == spec_instrument_attr(config@),
{
    let ghost c = config@;
    let mut attr_args = config.attr_args;
    let mut fields = config.field_args;
    if config.record_ret {
        fields.push(FieldEntry::Empty(SpanField::Ret));
    }
    if config.record_err {
        fields.push(FieldEntry::Empty(SpanField::Error));
    }
    proof {
        assert(fields@ =~= spec_all_fields(c));
    }
    if fields.len() > 0 {
        let ghost before = attr_args@;
        attr_args.push(AttrArg::Fields(fields));
        proof {
            assert(attr_views(attr_args@) =~= attr_views(before).push(SpecAttrArg::Fields(spec_all_fields(c))));
        }
    }
    attr_args
}

/// Plans the rewrite of a function: refuses `err` on a function that returns
/// nothing, and otherwise puts `tracing::instrument` with `instrument_attr`
/// on it and records `ret`/`err` after its body ran.
pub fn expand_safe_instrument(config: InstrumentConfig, has_return: bool, is_async: bool) -> (r: Result<InstrumentPlan, InstrumentError>)
    ensures
        match (r, spec_plan(config@, has_return, is_async)) {
            (Ok(p), Ok(s)) => p@ == s,
            (Err(e), Err(f)) => e == f,
            _ => false,
        },
{
    if config.record_err && !has_return {
        return Err(InstrumentError::ErrWithoutResult);
    }
    let record_ret = config.record_ret;
    let record_err = config.record_err;
    let attr_args = instrument_attr(config);
    Ok(InstrumentPlan { attr_args, record_ret, record_err, is_async })
}

/// What planning `#[safe_instrument(...)]` with arguments `t` gives on a
/// function that returns a value (`has_return`) and is `async` or not: the
/// first refusal of the arguments, of the configuration or of the function,
/// or the plan.
pub open spec fn plan_outcome(
    t: Seq<TokenTree>,
    has_return: bool,
    is_async: bool,
    r: Result<InstrumentPlan, InstrumentError>,
) -> bool {
    match spec_parse_args(t) {
        Err(e) => r == Err::<InstrumentPlan, InstrumentError>(e),
        Ok(args) => match spec_configure(t, args) {
            Err(e) => r == Err::<InstrumentPlan, InstrumentError>(e),
            Ok(c) => match (r, spec_plan(c, has_return, is_async)) {
                (Ok(p), Ok(s)) => p@ == s,
                (Err(e), Err(f)) => e == f,
                _ => false,
            },
        },
    }
}

/// Whether `syn`, lexing `text` with `proc-macro2`'s own lexer, parses it as a
/// function (`syn::ItemFn`), and if so whether it declares a return type and
/// whether it is `async`.
pub uninterp spec fn syn_item_fn_shape(text: Seq<char>) -> Option<(bool, bool)>;

/// Calls `syn::parse_str::<syn::ItemFn>` with `proc-macro2`'s own lexer forced
/// (as `tokens::parses_as_expr` does) and, when it succeeds, reads whether the
/// signature has a return type and an `async`; the result is named
/// `syn_item_fn_shape`.
#[verifier::external_body]
fn item_fn_shape(text: &str) -> (r: Option<(bool, bool)>)
    ensures
        r == syn_item_fn_shape(text@),
{
    proc_macro2::fallback::force();
    let parsed = syn::parse_str::<syn::ItemFn>(text);
    proc_macro2::fallback::unforce();
    match parsed {
        Ok(item) => Some((
            match item.sig.output {
                syn::ReturnType::Default => false,
                syn::ReturnType::Type(..) => true,
            },
            item.sig.asyncness.is_some(),
        )),
        Err(_) => None,
    }
}

/// Plans `#[safe_instrument(attr)]` on the item `item`, both as the token trees
/// the macro is handed: the arguments are parsed first, then `syn` reads the
/// function, then the configuration is built and checked against it.
pub fn plan_instrument_item(attr: &Vec<TokenTree>, item: &Vec<TokenTree>) -> (r: Result<InstrumentPlan, InstrumentError>)
    ensures
        spec_parse_args(attr@) matches Err(e) ==> r == Err::<InstrumentPlan, InstrumentError>(e),
        spec_parse_args(attr@) is Ok ==> match syn_item_fn_shape(run_text(item@)) {
            None => r == Err::<InstrumentPlan, InstrumentError>(InstrumentError::ExpectedFunction),
            Some((has_return, is_async)) => plan_outcome(attr@, has_return, is_async, r),
        },
{
    match parse_instrument_args(attr) {
        Err(e) => {
            return Err(e);
        },
        Ok(_) => {},
    }
    let text = run_to_string(item, 0, item.len());
    proof {
        assert(item@.subrange(0, item@.len() as int) =~= item@);
    }
    match item_fn_shape(text.as_str()) {
        None => Err(InstrumentError::ExpectedFunction),
        Some((has_return, is_async)) => plan_safe_instrument(attr, has_return, is_async),
    }
}

/// Plans `#[safe_instrument(...)]` with arguments `t` on a function that returns
/// a value (`has_return`) and is `async` or not: parses the arguments, builds the
/// configuration, and checks it against the function.
pub fn plan_safe_instrument(t: &Vec<TokenTree>, has_return: bool, is_async: bool) -> (r: Result<InstrumentPlan, InstrumentError>)
    ensures
        plan_outcome(t@, has_return, is_async, r),
{
    let args = match parse_instrument_args(t) {
        Err(e) => {
            return Err(e);
        },
        Ok(args) => args,
    };
    let config = match configure_instrument(t, &args) {
        Err(e) => {
            return Err(e);
        },
        Ok(c) => c,
    };
    expand_safe_instrument(config, has_return, is_async)
}

/// Law (the configuration's invariant): every configuration that arguments
/// build keeps `skip_all` first, holds only settings (`name`, `level`,
/// `target`) after it, and holds only `%`-fields among its fields.
pub proof fn law_configuration_keeps_its_shape(t: Seq<TokenTree>, args: Seq<InstrumentArg>)
    ensures
        spec_configure(t, args) matches Ok(c) ==> {
            &&& c.attr_args.len() >= 1
            &&& c.attr_args[0] is SkipAll
            &&& forall|k: int| 1 <= k < c.attr_args.len() ==> (#[trigger] c.attr_args[k]) is Setting
            &&& forall|k: int| 0 <= k < c.field_args.len() ==> (#[trigger] c.field_args[k]) is Telemetry
        },
    decreases args.len(),
{
    if args.len() > 0 {
        law_configuration_keeps_its_shape(t, args.drop_last());
        match spec_configure(t, args.drop_last()) {
            Ok(c) => {
                match spec_apply(c, t, args.last()) {
                    Ok(d) => {
                        match args.last() {
                            InstrumentArg::List { name } => {
                                if t[name as int].text@ == "fields"@ {
                                    match spec_fields_from(group_tokens(t[name + 1]), 0) {
                                        Ok(fs) => {
                                            match spec_field_entries(fs, name + 1) {
                                                Ok(es) => {
                                                    assert forall|k: int| 0 <= k < d.field_args.len() implies (
                                                    #[trigger] d.field_args[k]) is Telemetry by {
                                                        if k >= c.field_args.len() {
                                                            assert(d.field_args[k] == es[k - c.field_args.len()]);
                                                        }
                                                    }
                                                },
                                                Err(_) => {},
                                            }
                                        },
                                        Err(_) => {},
                                    }
                                }
                            },
                            InstrumentArg::NameValue { name, value } => {
                                assert forall|k: int| 1 <= k < d.attr_args.len() implies (
                                #[trigger] d.attr_args[k]) is Setting by {
                                    if k < c.attr_args.len() {
                                        assert(d.attr_args[k] == c.attr_args[k]);
                                    }
                                }
                            },
                            _ => {},
                        }
                    },
                    Err(_) => {},
                }
            },
            Err(_) => {},
        }
    }
}

/// The fields that an attribute argument declares (none for other arguments).
pub open spec fn fields_of(a: SpecAttrArg) -> Seq<FieldEntry> {
    match a {
        SpecAttrArg::Fields(fs) => fs,
        _ => Seq::empty(),
    }
}

/// Whether the generated attribute arguments declare the field `f`.
pub open spec fn declares_field(attrs: Seq<SpecAttrArg>, f: FieldEntry) -> bool {
    exists|k: int, j: int|
        0 <= k < attrs.len() && 0 <= j < fields_of(attrs[k]).len() && #[trigger] fields_of(attrs[k])[j]
            == f
}

/// Law: whatever the arguments, a function that `safe_instrument` accepts gets
/// `skip_all` as the first argument of `tracing::instrument` (no function argument
/// is ever recorded implicitly), and no other `skip_all`; its fields are only
/// `name = %telemetry(&(expr))` entries and the `ret`/`err` fields, each of those
/// declared exactly when it is recorded; and `err` is recorded only for a function
/// that returns a value.
pub proof fn law_safe_instrument_records_only_explicit_fields(
    t: Seq<TokenTree>,
    args: Seq<InstrumentArg>,
    has_return: bool,
    is_async: bool,
)
    ensures
        spec_configure(t, args) matches Ok(c) ==> (spec_plan(c, has_return, is_async) matches Ok(p)
            ==> {
            &&& p.attr_args.len() >= 1
            &&& p.attr_args[0] is SkipAll
            &&& forall|k: int| 1 <= k < p.attr_args.len() ==> !(#[trigger] p.attr_args[k] is SkipAll)
            &&& forall|k: int, j: int|
                0 <= k < p.attr_args.len() && 0 <= j < fields_of(p.attr_args[k]).len() ==> (
                #[trigger] fields_of(p.attr_args[k])[j]) is Telemetry || fields_of(p.attr_args[k])[j]
                    == FieldEntry::Empty(SpanField::Ret) || fields_of(p.attr_args[k])[j]
                    == FieldEntry::Empty(SpanField::Error)
            &&& p.record_ret <==> declares_field(p.attr_args, FieldEntry::Empty(SpanField::Ret))
            &&& p.record_err <==> declares_field(p.attr_args, FieldEntry::Empty(SpanField::Error))
            &&& p.record_err ==> has_return
        }),
{
    law_configuration_keeps_its_shape(t, args);
    match spec_configure(t, args) {
        Ok(c) => {
            match spec_plan(c, has_return, is_async) {
                Ok(p) => {
                    let all = spec_all_fields(c);
                    let n = c.field_args.len() as int;
                    let last = p.attr_args.len() - 1;
                    assert forall|k: int| 0 <= k < c.attr_args.len() implies fields_of(
                        #[trigger] c.attr_args[k],
                    ) =~= Seq::<FieldEntry>::empty() by {
                        if k > 0 {
                            assert(c.attr_args[k] is Setting);
                        }
                    }
                    assert forall|j: int| 0 <= j < all.len() implies (#[trigger] all[j]) is Telemetry
                        || all[j] == FieldEntry::Empty(SpanField::Ret) || all[j] == FieldEntry::Empty(
                        SpanField::Error,
                    ) by {
                        if j < n {
                            assert(all[j] == c.field_args[j]);
                        }
                    }
                    assert forall|k: int, j: int|
                        0 <= k < p.attr_args.len() && 0 <= j < fields_of(p.attr_args[k]).len() implies (
                        #[trigger] fields_of(p.attr_args[k])[j]) is Telemetry || fields_of(p.attr_args[k])[j]
                        == FieldEntry::Empty(SpanField::Ret) || fields_of(p.attr_args[k])[j]
                        == FieldEntry::Empty(SpanField::Error) by {
                        if k < c.attr_args.len() {
                            assert(p.attr_args[k] == c.attr_args[k]);
                        } else {
                            assert(fields_of(p.attr_args[k]) == all);
                        }
                    }
                    if c.record_ret {
                        assert(all[n] == FieldEntry::Empty(SpanField::Ret));
                        assert(fields_of(p.attr_args[last]) == all);
                        assert(fields_of(p.attr_args[last])[n] == FieldEntry::Empty(SpanField::Ret));
                    }
                    if c.record_err {
                        let j = all.len() - 1;
                        assert(all[j] == FieldEntry::Empty(SpanField::Error));
                        assert(fields_of(p.attr_args[last]) == all);
                        assert(fields_of(p.attr_args[last])[j] == FieldEntry::Empty(SpanField::Error));
                    }
                    if declares_field(p.attr_args, FieldEntry::Empty(SpanField::Ret)) {
                        let (k, j) = choose|k: int, j: int|
                            0 <= k < p.attr_args.len() && 0 <= j < fields_of(p.attr_args[k]).len()
                                && #[trigger] fields_of(p.attr_args[k])[j] == FieldEntry::Empty(SpanField::Ret);
                        if k < c.attr_args.len() {
                            assert(p.attr_args[k] == c.attr_args[k]);
                        } else {
                            assert(fields_of(p.attr_args[k]) == all);
                            if j < n {
                                assert(all[j] == c.field_args[j]);
                            }
                        }
                    }
                    if declares_field(p.attr_args, FieldEntry::Empty(SpanField::Error)) {
                        let (k, j) = choose|k: int, j: int|
                            0 <= k < p.attr_args.len() && 0 <= j < fields_of(p.attr_args[k]).len()
                                && #[trigger] fields_of(p.attr_args[k])[j] == FieldEntry::Empty(SpanField::Error);
                        if k < c.attr_args.len() {
                            assert(p.attr_args[k] == c.attr_args[k]);
                        } else {
                            assert(fields_of(p.attr_args[k]) == all);
                            if j < n {
                                assert(all[j] == c.field_args[j]);
                            }
                        }
                    }
                },
                Err(_) => {},
            }
        },
        Err(_) => {},
    }
}

/// The first `=` at or after `k` is an `=` at or after `k`.
pub proof fn lemma_first_eq_is_eq(g: Seq<TokenTree>, k: int)
    requires
        0 <= k,
    ensures
        first_eq_from(g, k) matches Some(p) ==> k <= p < g.len() && is_punct(g[p], '='),
    decreases g.len() - k,
{
    if k < g.len() && !is_punct(g[k], '=') {
        lemma_first_eq_is_eq(g, k + 1);
    }
}

/// Law: every field that `fields(...)` accepts was written `name = %expr`: its
/// name is followed by `=`, and its value is preceded by `%` (so `?expr` and
/// bare `expr` values are never accepted).
pub proof fn law_fields_take_only_percent_values(g: Seq<TokenTree>, i: int)
    requires
        0 <= i,
        g.len() <= usize::MAX,
    ensures
        spec_fields_from(g, i) matches Ok(fs) ==> forall|j: int|
            0 <= j < fs.len() ==> {
                &&& (#[trigger] fs[j]).name.end < g.len()
                &&& is_punct(g[fs[j].name.end as int], '=')
                &&& fs[j].value.start >= 1
                &&& is_punct(g[fs[j].value.start - 1], '%')
                &&& fs[j].name.end + 2 == fs[j].value.start
            },
    decreases g.len() - i,
{
    if i < g.len() {
        lemma_first_eq_is_eq(g, i);
        lemma_field_at_advances(g, i);
        match spec_field_at(g, i) {
            Ok((f, j)) => {
                if j < g.len() && is_comma(g[j]) {
                    law_fields_take_only_percent_values(g, j + 1);
                    match spec_fields_from(g, j + 1) {
                        Ok(rest) => {
                            let all = seq![f] + rest;
                            assert forall|k: int| 0 <= k < all.len() implies {
                                &&& (#[trigger] all[k]).name.end < g.len()
                                &&& is_punct(g[all[k].name.end as int], '=')
                                &&& all[k].value.start >= 1
                                &&& is_punct(g[all[k].value.start - 1], '%')
                                &&& all[k].name.end + 2 == all[k].value.start
                            } by {
                                if k > 0 {
                                    assert(all[k] == rest[k - 1]);
                                } else {
                                    assert(all[k] == f);
                                }
                            }
                        },
                        Err(_) => {},
                    }
                } else if j >= g.len() {
                    assert(seq![f][0] == f);
                }
            },
            Err(_) => {},
        }
    }
}

/// Whether `a` is the flag `word` (a bare identifier argument).
pub open spec fn is_flag(t: Seq<TokenTree>, a: InstrumentArg, word: Seq<char>) -> bool {
    a matches InstrumentArg::Flag { name } && t[name as int].text@ == word
}

/// Whether some argument of `args` is the flag `word`.
pub open spec fn has_flag(t: Seq<TokenTree>, args: Seq<InstrumentArg>, word: Seq<char>) -> bool {
    exists|k: int| 0 <= k < args.len() && is_flag(t, #[trigger] args[k], word)
}

/// Law: a configuration that the arguments build records the return value
/// exactly when a `ret` flag is among them, and the error exactly when an `err`
/// flag is; with no arguments at all it is `skip_all` alone, recording nothing.
pub proof fn law_ret_and_err_follow_their_flags(t: Seq<TokenTree>, args: Seq<InstrumentArg>)
    ensures
        spec_configure(t, args) matches Ok(c) ==> {
            &&& c.record_ret <==> has_flag(t, args, "ret"@)
            &&& c.record_err <==> has_flag(t, args, "err"@)
        },
        args.len() == 0 ==> spec_configure(t, args) == Ok::<SpecConfig, InstrumentError>(
            initial_config(),
        ),
    decreases args.len(),
{
    if args.len() > 0 {
        let prev = args.drop_last();
        let a = args.last();
        law_ret_and_err_follow_their_flags(t, prev);
        assert forall|w: Seq<char>| has_flag(t, args, w) <==> (has_flag(t, prev, w) || is_flag(
            t,
            a,
            w,
        )) by {
            if has_flag(t, args, w) {
                let k = choose|k: int| 0 <= k < args.len() && is_flag(t, #[trigger] args[k], w);
                if k < prev.len() {
                    assert(prev[k] == args[k]);
                }
            }
            if has_flag(t, prev, w) {
                let k = choose|k: int| 0 <= k < prev.len() && is_flag(t, #[trigger] prev[k], w);
                assert(args[k] == prev[k]);
            }
            if is_flag(t, a, w) {
                assert(args[args.len() - 1] == a);
            }
        }
        assert(has_flag(t, args, "ret"@) <==> (has_flag(t, prev, "ret"@) || is_flag(t, a, "ret"@)));
        assert(has_flag(t, args, "err"@) <==> (has_flag(t, prev, "err"@) || is_flag(t, a, "err"@)));
        reveal_strlit("ret");
        reveal_strlit("err");
        reveal_strlit("skip_all");
        assert("ret"@[0] == 'r' && "err"@[0] == 'e' && "ret"@.len() == 3 && "err"@.len() == 3);
        assert("skip_all"@.len() == 8);
        match spec_configure(t, prev) {
            Ok(c) => {
                match a {
                    InstrumentArg::Flag { name } => {
                        let w = t[name as int].text@;
                        if w == "ret"@ {
                            assert(is_flag(t, a, "ret"@));
                        } else if w == "err"@ {
                            assert(is_flag(t, a, "err"@));
                        }
                    },
                    _ => {},
                }
            },
            Err(_) => {},
        }
    }
}

/// Whether the configuration `c` carries what the argument `a` asks for: an
/// option `name = value` (one of `name`, `level`, `target`) as a setting with
/// that name and value, and each entry of a `fields(...)` list as a field.
pub open spec fn carries(t: Seq<TokenTree>, c: SpecConfig, a: InstrumentArg) -> bool {
    match a {
        InstrumentArg::NameValue { name, value } => {
            &&& (t[name as int].text@ == "name"@ || t[name as int].text@ == "level"@
                || t[name as int].text@ == "target"@)
            &&& c.attr_args.contains(SpecAttrArg::Setting { name, value })
        },
        InstrumentArg::List { name } => t[name as int].text@ == "fields"@ ==> (spec_fields_from(
            group_tokens(t[name + 1]),
            0,
        ) matches Ok(fs) && forall|j: int|
            0 <= j < fs.len() ==> c.field_args.contains(
                FieldEntry::Telemetry { list: (name + 1) as usize, name: fs[j].name, value: fs[j].value },
            )),
        InstrumentArg::Flag { .. } => true,
    }
}

/// Whether `d` holds every setting and every field that `c` holds.
pub open spec fn keeps(c: SpecConfig, d: SpecConfig) -> bool {
    &&& forall|x: SpecAttrArg| c.attr_args.contains(x) ==> d.attr_args.contains(x)
    &&& forall|e: FieldEntry| c.field_args.contains(e) ==> d.field_args.contains(e)
}

/// Applying an argument keeps what the configuration held and adds what the argument asks for.
proof fn lemma_apply_keeps_and_carries(c: SpecConfig, t: Seq<TokenTree>, a: InstrumentArg)
    ensures
        spec_apply(c, t, a) matches Ok(d) ==> keeps(c, d) && carries(t, d, a),
{
    match spec_apply(c, t, a) {
        Ok(d) => {
            assert forall|x: SpecAttrArg| c.attr_args.contains(x) implies d.attr_args.contains(x) by {
                let i = choose|i: int| 0 <= i < c.attr_args.len() && c.attr_args[i] == x;
                if d.attr_args != c.attr_args {
                    assert(d.attr_args[i] == c.attr_args[i]);
                }
            }
            assert forall|e: FieldEntry| c.field_args.contains(e) implies d.field_args.contains(e) by {
                let i = choose|i: int| 0 <= i < c.field_args.len() && c.field_args[i] == e;
                assert(d.field_args[i] == c.field_args[i]);
            }
            match a {
                InstrumentArg::NameValue { name, value } => {
                    assert(d.attr_args[d.attr_args.len() - 1] == SpecAttrArg::Setting { name, value });
                },
                InstrumentArg::List { name } => {
                    if t[name as int].text@ == "fields"@ {
                        reveal_strlit("fields");
                        reveal_strlit("skip");
                        assert("fields"@[0] == 'f' && "skip"@[0] == 's');
                        match spec_fields_from(group_tokens(t[name + 1]), 0) {
                            Ok(fs) => {
                                match spec_field_entries(fs, name + 1) {
                                    Ok(es) => {
                                        assert forall|j: int| 0 <= j < fs.len() implies d.field_args.contains(
                                            FieldEntry::Telemetry {
                                                list: (name + 1) as usize,
                                                name: fs[j].name,
                                                value: fs[j].value,
                                            },
                                        ) by {
                                            assert(d.field_args[c.field_args.len() + j] == es[j]);
                                        }
                                    },
                                    Err(_) => {},
                                }
                            },
                            Err(_) => {},
                        }
                    }
                },
                _ => {},
            }
        },
        Err(_) => {},
    }
}

/// What a configuration carries, a configuration that keeps it carries too.
proof fn lemma_kept_stays_carried(t: Seq<TokenTree>, c: SpecConfig, d: SpecConfig, a: InstrumentArg)
    requires
        keeps(c, d),
        carries(t, c, a),
    ensures
        carries(t, d, a),
{
}

/// Law: an option that `safe_instrument` accepts is never dropped. Every
/// `name = value` argument of a configuration that builds is one of `name`,
/// `level` or `target`, and is among its settings with that name and value
/// range; every entry of a `fields(...)` list is among its fields.
pub proof fn law_accepted_options_are_carried(t: Seq<TokenTree>, args: Seq<InstrumentArg>)
    ensures
        spec_configure(t, args) matches Ok(c) ==> forall|k: int|
            0 <= k < args.len() ==> carries(t, c, #[trigger] args[k]),
    decreases args.len(),
{
    if args.len() > 0 {
        let prev = args.drop_last();
        law_accepted_options_are_carried(t, prev);
        match spec_configure(t, prev) {
            Ok(c) => {
                lemma_apply_keeps_and_carries(c, t, args.last());
                match spec_apply(c, t, args.last()) {
                    Ok(d) => {
                        assert forall|k: int| 0 <= k < args.len() implies carries(t, d, #[trigger] args[k]) by {
                            if k < prev.len() {
                                assert(args[k] == prev[k]);
                                lemma_kept_stays_carried(t, c, d, args[k]);
                            }
                        }
                    },
                    Err(_) => {},
                }
            },
            Err(_) => {},
        }
    }
}

/// Law: the generated attribute holds every setting of the configuration, and
/// declares every one of its fields.
pub proof fn law_plan_carries_the_configuration(c: SpecConfig, has_return: bool, is_async: bool)
    ensures
        spec_plan(c, has_return, is_async) matches Ok(p) ==> {
            &&& forall|x: SpecAttrArg| c.attr_args.contains(x) ==> p.attr_args.contains(x)
            &&& forall|e: FieldEntry| c.field_args.contains(e) ==> declares_field(p.attr_args, e)
        },
{
    match spec_plan(c, has_return, is_async) {
        Ok(p) => {
            let all = spec_all_fields(c);
            assert forall|x: SpecAttrArg| c.attr_args.contains(x) implies p.attr_args.contains(x) by {
                let i = choose|i: int| 0 <= i < c.attr_args.len() && c.attr_args[i] == x;
                assert(p.attr_args[i] == x);
            }
            assert forall|e: FieldEntry| c.field_args.contains(e) implies declares_field(p.attr_args, e) by {
                let j = choose|j: int| 0 <= j < c.field_args.len() && c.field_args[j] == e;
                assert(all[j] == e);
                let k = c.attr_args.len() as int;
                assert(p.attr_args[k] == SpecAttrArg::Fields(all));
                assert(fields_of(p.attr_args[k])[j] == e);
            }
        },
        Err(_) => {},
    }
}

} // verus!
