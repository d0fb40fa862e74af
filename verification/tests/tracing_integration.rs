use telemetry_safe::to_telemetry::telemetry;
use telemetry_safe::tracing_support::{record_ret, trusted_literal, RecordingSpan};

fn record_event(message_type: &'static str) -> String {
    let literal = trusted_literal(message_type);
    record_ret(&mut RecordingSpan::new(tracing::Span::none()), &literal);
    telemetry(&literal).to_string()
}

#[test]
fn trusted_literal_marks_static_strings_explicitly() {
    assert_eq!(record_event("signup"), "signup");
}

use telemetry_safe::tracing_support::{err_record, record_err, ret_record, SpanField};

#[test]
fn ret_is_recorded_through_the_telemetry_representation() {
    let record = ret_record(&Some(7_u8)).unwrap();
    assert!(record.field == SpanField::Ret);
    assert_eq!(record.field.name(), "ret");
    assert_eq!(record.text, "Some(7)");
}

#[test]
fn err_is_recorded_only_for_errors() {
    let ok: Result<u8, i32> = Ok(1);
    assert!(err_record(&ok).is_none());
    let err: Result<u8, i32> = Err(-3);
    let record = err_record(&err).unwrap();
    assert!(record.field == SpanField::Error);
    assert_eq!(record.field.name(), "err");
    assert_eq!(record.text, "-3");
    record_err(&mut RecordingSpan::new(tracing::Span::none()), &err);
    record_err(&mut RecordingSpan::new(tracing::Span::none()), &ok);
}
