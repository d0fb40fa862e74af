use vstd::prelude::*;

use tracing::Span;

use crate::formatter::TelemetryFormatter;
use crate::to_telemetry::{render_text, ToTelemetry};

use core::fmt::Error as FmtError;

verus! {

/// `tracing::Span`, which the library only carries to `span_record_display`.
#[verifier::external_type_specification]
#[verifier::external_body]
pub struct ExSpan(Span);

/// A `tracing::Span` together with the log of the records handed to it, in order.
pub struct RecordingSpan {
    span: Span,
    log: Ghost<Seq<(SpanField, Seq<char>)>>,
}

impl RecordingSpan {
    /// The records handed to the span so far, as field and text, in order.
    pub closed spec fn records(&self) -> Seq<(SpanField, Seq<char>)> {
        self.log@
    }

    /// Starts recording into `span`; nothing has been handed to it yet.
    pub fn new(span: Span) -> (s: RecordingSpan)
        ensures
            s.records() == Seq::<(SpanField, Seq<char>)>::empty(),
    {
        RecordingSpan { span, log: Ghost(Seq::empty()) }
    }
}

/// Calls `tracing::Span::record` on the span of `span` with
/// `name = display(text)`, `name` being the field's name. The contract appends the record to the
/// span's log of what it was handed; what the subscriber then does with it
/// (recording it where the span was created with that field) is not stated.
#[verifier::external_body]
fn span_record_display(span: &mut RecordingSpan, field: SpanField, name: &str, text: &str)
    requires
        name@ == field.spec_name(),
    ensures
        final(span).records() == old(span).records().push((field, text@)),
{
    span.span.record(name, tracing::field::display(text));
}

/// The two span fields that `safe_instrument` fills after the function returns.
#[derive(Clone, Copy, PartialEq, Eq, Structural)]
pub enum SpanField {
    /// `ret`: the return value.
    Ret,
    /// `err`: the error of a returned `Err`.
    Error,
}

impl SpanField {
    /// The field's name in the span.
    pub open spec fn spec_name(self) -> Seq<char> {
        match self {
            SpanField::Ret => seq!['r', 'e', 't'],
            SpanField::Error => seq!['e', 'r', 'r'],
        }
    }

    /// The field's name in the span.
    pub fn name(&self) -> (s: &'static str)
        ensures
            s@ == self.spec_name(),
    {
        proof {
            reveal_strlit("ret");
            reveal_strlit("err");
        }
        match self {
            SpanField::Ret => "ret",
            SpanField::Error => "err",
        }
    }
}

/// A value to record in a span: which field, and the text it shows.
pub struct FieldRecord {
    /// The span field.
    pub field: SpanField,
    /// The text recorded, always a telemetry representation.
    pub text: String,
}

/// What `safe_instrument(ret)` records: the return value's telemetry
/// representation, as `ret`; nothing where its rendering fails.
pub fn ret_record<T: ToTelemetry + ?Sized>(value: &T) -> (r: Option<FieldRecord>)
    ensures
        r is Some <==> !value.telemetry_fails(),
        r matches Some(rec) ==> rec.field == SpanField::Ret && rec.text@ == value.telemetry_repr(),
{
    match render_text(value) {
        Ok(text) => Some(FieldRecord { field: SpanField::Ret, text }),
        Err(_) => None,
    }
}

/// What `safe_instrument(err)` records: for an `Err`, the error's telemetry
/// representation, as `err`; for an `Ok`, or an error whose rendering fails, nothing.
pub fn err_record<T, E: ToTelemetry>(result: &Result<T, E>) -> (r: Option<FieldRecord>)
    ensures
        r is Some <==> (result matches Err(e) && !e.telemetry_fails()),
        r matches Some(rec) ==> rec.field == SpanField::Error && rec.text@ == result->Err_0.telemetry_repr(),
{
    match result {
        Ok(_) => None,
        Err(e) => match render_text(e) {
            Ok(text) => Some(FieldRecord { field: SpanField::Error, text }),
            Err(_) => None,
        },
    }
}

/// A record as field and text.
pub open spec fn record_view(r: FieldRecord) -> (SpanField, Seq<char>) {
    (r.field, r.text@)
}

/// The records that `record` amounts to: one, or none.
pub open spec fn records_of(record: Option<FieldRecord>) -> Seq<(SpanField, Seq<char>)> {
    match record {
        Some(r) => seq![record_view(r)],
        None => Seq::empty(),
    }
}

/// What `safe_instrument(ret)` hands the span for `value`: its telemetry
/// representation as `ret`, or nothing where its rendering fails.
pub open spec fn ret_records<T: ToTelemetry + ?Sized>(value: &T) -> Seq<(SpanField, Seq<char>)> {
    if value.telemetry_fails() {
        Seq::empty()
    } else {
        seq![(SpanField::Ret, value.telemetry_repr())]
    }
}

/// What `safe_instrument(err)` hands the span for `result`: the error's
/// telemetry representation as `err` for an `Err`, or nothing for an `Ok` or an
/// error whose rendering fails.
pub open spec fn err_records<T, E: ToTelemetry>(result: &Result<T, E>) -> Seq<(SpanField, Seq<char>)> {
    match result {
        Err(e) => if e.telemetry_fails() {
            Seq::empty()
        } else {
            seq![(SpanField::Error, e.telemetry_repr())]
        },
        Ok(_) => Seq::empty(),
    }
}

/// Hands `record`, if any, to the span.
fn record_in_span(span: &mut RecordingSpan, record: Option<FieldRecord>)
    ensures
        final(span).records() == old(span).records() + records_of(record),
{
    match record {
        Some(r) => {
            span_record_display(span, r.field, r.field.name(), r.text.as_str());
            proof {
                assert(old(span).records().push(record_view(r)) =~= old(span).records()
                    + records_of(Some(r)));
            }
        },
        None => {
            proof {
                assert(old(span).records() + records_of(record) =~= old(span).records());
            }
        },
    }
}

/// Records return values through `ToTelemetry` so `safe_instrument(ret)`
/// never falls back to ambient `Debug` or `Display`: the span is handed
/// `ret_record(value)`, when it is `Some`.
pub fn record_ret<T: ToTelemetry + ?Sized>(span: &mut RecordingSpan, value: &T)
    ensures
        final(span).records() == old(span).records() + ret_records(value),
        !value.telemetry_fails() ==> final(span).records() == old(span).records().push(
            (SpanField::Ret, value.telemetry_repr()),
        ),
        value.telemetry_fails() ==> final(span).records() == old(span).records(),
{
    proof {
        law_ret_is_recorded_once(value);
        assert(old(span).records() + seq![(SpanField::Ret, value.telemetry_repr())] =~= old(
            span,
        ).records().push((SpanField::Ret, value.telemetry_repr())));
        assert(old(span).records() + Seq::<(SpanField, Seq<char>)>::empty() =~= old(span).records());
    }
    let record = ret_record(value);
    record_in_span(span, record);
}

/// Records only the error side of a `Result`, keeping `err` tied to the
/// explicit telemetry boundary instead of `tracing`'s default formatting.
pub fn record_err<R: SafeInstrumentResult>(span: &mut RecordingSpan, result: &R)
    ensures
        final(span).records() == old(span).records() + result.err_records(),
{
    result.record_err(span);
}

/// Results whose error side `safe_instrument(err)` may record.
pub trait SafeInstrumentResult {
    /// What recording the error hands the span.
    spec fn err_records(&self) -> Seq<(SpanField, Seq<char>)>;

    /// Records the error, if there is one, in the span's `err` field.
    fn record_err(&self, span: &mut RecordingSpan)
        ensures
            final(span).records() == old(span).records() + self.err_records(),
    ;
}

impl<T, E: ToTelemetry> SafeInstrumentResult for Result<T, E> {
    open spec fn err_records(&self) -> Seq<(SpanField, Seq<char>)> {
        err_records(self)
    }

    /// Hands `err_record(self)` to the span when it is `Some`, and nothing otherwise.
    fn record_err(&self, span: &mut RecordingSpan)
        ensures
            final(span).records() == match self {
                Err(e) => if e.telemetry_fails() {
                    old(span).records()
                } else {
                    old(span).records().push((SpanField::Error, e.telemetry_repr()))
                },
                Ok(_) => old(span).records(),
            },
    {
        let record = err_record(self);
        record_in_span(span, record);
        proof {
            law_err_is_recorded_once(self);
            assert(old(span).records() + Seq::<(SpanField, Seq<char>)>::empty() =~= old(span).records());
            match self {
                Err(e) => {
                    assert(old(span).records() + seq![(SpanField::Error, e.telemetry_repr())] =~= old(
                        span,
                    ).records().push((SpanField::Error, e.telemetry_repr())));
                },
                Ok(_) => {},
            }
        }
    }
}

/// Law: recording a return value hands the span exactly one record, `ret` with
/// the value's telemetry text, when its rendering does not fail, and nothing
/// when it does.
pub proof fn law_ret_is_recorded_once<T: ToTelemetry + ?Sized>(value: &T)
    ensures
        !value.telemetry_fails() ==> ret_records(value) == seq![(SpanField::Ret, value.telemetry_repr())],
        value.telemetry_fails() ==> ret_records(value).len() == 0,
{
}

/// Law: recording the error side of a result hands the span exactly one
/// record, `err` with the error's telemetry text, for an `Err` whose rendering
/// does not fail; nothing for an `Ok` (whose value is never rendered) or an
/// error whose rendering fails.
pub proof fn law_err_is_recorded_once<T, E: ToTelemetry>(result: &Result<T, E>)
    ensures
        result.err_records() == match result {
            Err(e) => if e.telemetry_fails() {
                Seq::empty()
            } else {
                seq![(SpanField::Error, e.telemetry_repr())]
            },
            Ok(_) => Seq::empty(),
        },
{
}

/// A marker wrapper for compile-time string literals that a product has opted
/// into treating as telemetry-safe.
#[derive(Clone, Copy)]
pub struct TrustedLiteral(&'static str);

impl TrustedLiteral {
    /// The literal's text.
    pub closed spec fn text(&self) -> Seq<char> {
        self.0@
    }
}

/// Marks a string literal as intentionally safe to emit from `safe_instrument`.
///
/// Requiring an explicit wrapper keeps the choice to allow literals visible in call sites.
pub fn trusted_literal(value: &'static str) -> (t: TrustedLiteral)
    ensures
        t.text() == value@,
{
    TrustedLiteral(value)
}

impl ToTelemetry for TrustedLiteral {
    open spec fn telemetry_repr(&self) -> Seq<char> {
        self.text()
    }

    open spec fn telemetry_fails(&self) -> bool {
        false
    }

    fn fmt_telemetry(&self, f: &mut TelemetryFormatter) -> Result<(), FmtError> {
        f.write_str(self.0);
        Ok(())
    }
}

/// Law: the span fields are named `ret` and `err`, and a trusted literal
/// renders as exactly the text it was made from, and never fails.
pub proof fn law_field_names_and_trusted_literals(value: &'static str)
    ensures
        SpanField::Ret.spec_name() == seq!['r', 'e', 't'],
        SpanField::Error.spec_name() == seq!['e', 'r', 'r'],
        forall|t: TrustedLiteral| t.text() == value@ ==> t.telemetry_repr() == value@ && !t.telemetry_fails(),
{
}

} // verus!
