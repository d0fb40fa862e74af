use std::collections::{BTreeMap, BTreeSet};

use telemetry_safe::builders::DebugStruct;
use telemetry_safe::derive::{write_derived, DerivedField, FieldRender};
use telemetry_safe::render_text;

// The field values that the impls generated by `#[derive(ToTelemetry)]` hand to
// `write_derived`; the impls below marked "derived" are written as it writes them.
fn telemetry_field<T: ToTelemetry + ?Sized>(key: &str, value: &T) -> DerivedField {
    DerivedField { key: key.to_string(), render: FieldRender::Telemetry, value: render_text::<T>(value) }
}

fn display_field<T: std::fmt::Display>(key: &str, before: &str, value: &T, after: &str) -> DerivedField {
    DerivedField {
        key: key.to_string(),
        render: FieldRender::Display { before: before.to_string(), after: after.to_string() },
        value: Ok(value.to_string()),
    }
}

fn label_field(key: &str, text: &str) -> DerivedField {
    DerivedField { key: key.to_string(), render: FieldRender::Label(text.to_string()), value: Ok(String::new()) }
}
use telemetry_safe::formatter::TelemetryFormatter;
use telemetry_safe::to_telemetry::{telemetry, ToTelemetry};

#[allow(dead_code)]
struct AccountSnapshot {
    id: u64,
    state: &'static str,
    secret_note: &'static str,
}

// Written by hand in the shape of a derived struct with `secret_note` skipped. The derive
// itself refuses `&'static str` fields (`str` has no `ToTelemetry`), so the text field is
// written through `field_text`, which the derive never emits.
impl ToTelemetry for AccountSnapshot {
    fn fmt_telemetry(&self, f: &mut TelemetryFormatter) -> std::fmt::Result {
        let mut ds = DebugStruct::new(f, "AccountSnapshot");
        ds.field(f, "id", &self.id);
        ds.field_text(f, "state", self.state);
        ds.finish(f)
    }
}

#[allow(dead_code)]
enum Outcome {
    Accepted { account: AccountSnapshot },
    Rejected(RejectReason),
}

// Derived.
impl ToTelemetry for Outcome {
    fn fmt_telemetry(&self, f: &mut TelemetryFormatter) -> std::fmt::Result {
        match self {
            Outcome::Accepted { account } => {
                write_derived(f, "Accepted", true, &vec![telemetry_field("account", account)])
            }
            Outcome::Rejected(field_0) => write_derived(f, "Rejected", false, &vec![telemetry_field("", field_0)]),
        }
    }
}

struct RejectReason {
    code: &'static str,
}

// Written by hand: `code` is a `&'static str`, which the derive refuses.
impl ToTelemetry for RejectReason {
    fn fmt_telemetry(&self, f: &mut TelemetryFormatter) -> std::fmt::Result {
        let mut ds = DebugStruct::new(f, "RejectReason");
        ds.field_text(f, "code", self.code);
        ds.finish(f)
    }
}

#[test]
fn derived_struct_skips_sensitive_fields() {
    let snapshot = AccountSnapshot {
        id: 42,
        state: "active",
        secret_note: "pii",
    };

    assert_eq!(
        telemetry(&snapshot).to_string(),
        r#"AccountSnapshot { id: 42, state: active }"#
    );
}

#[test]
fn derived_enum_formats_variants() {
    let outcome = Outcome::Rejected(RejectReason { code: "policy" });

    assert_eq!(
        telemetry(&outcome).to_string(),
        r#"Rejected(RejectReason { code: policy })"#
    );
}

#[test]
fn collections_require_safe_elements() {
    let mut map = BTreeMap::new();
    map.insert(
        1_u64,
        AccountSnapshot {
            id: 7,
            state: "pending",
            secret_note: "hidden",
        },
    );

    let mut set = BTreeSet::new();
    set.insert(1_u64);

    assert_eq!(
        telemetry(&map).to_string(),
        r#"{1: AccountSnapshot { id: 7, state: pending }}"#
    );
    assert_eq!(telemetry(&set).to_string(), "{1}");
}

#[test]
fn display_wrapper_can_be_used_in_format_args() {
    let snapshot = AccountSnapshot {
        id: 1,
        state: "active",
        secret_note: "hidden",
    };

    let rendered = format!("account={}", telemetry(&snapshot).to_string());

    assert_eq!(rendered, "account=AccountSnapshot { id: 1, state: active }");
}

struct UserId(u64);

impl std::fmt::Display for UserId {
    fn fmt(&self, f: &mut std::fmt::Formatter<'_>) -> std::fmt::Result {
        f.write_str(&self.0.to_string())
    }
}

// Derived: `struct UserId(u64);`.
impl ToTelemetry for UserId {
    fn fmt_telemetry(&self, f: &mut TelemetryFormatter) -> std::fmt::Result {
        write_derived(f, "UserId", false, &vec![telemetry_field("", &self.0)])
    }
}

struct OutcomeLabel(&'static str);

impl ToTelemetry for OutcomeLabel {
    fn fmt_telemetry(&self, f: &mut TelemetryFormatter) -> std::fmt::Result {
        f.write_str(self.0);
        Ok(())
    }
}

#[allow(dead_code)]
struct LoginAttempt {
    user_id: UserId,
    outcome: OutcomeLabel,
    email: String,
}

// Derived, with `email` marked `#[telemetry(skip)]`.
impl ToTelemetry for LoginAttempt {
    fn fmt_telemetry(&self, f: &mut TelemetryFormatter) -> std::fmt::Result {
        write_derived(
            f,
            "LoginAttempt",
            true,
            &vec![telemetry_field("user_id", &self.user_id), telemetry_field("outcome", &self.outcome)],
        )
    }
}

#[test]
fn readme_login_attempt_hides_the_email() {
    let attempt = LoginAttempt {
        user_id: UserId(42),
        outcome: OutcomeLabel("accepted"),
        email: "user@example.com".to_owned(),
    };

    assert_eq!(
        telemetry(&attempt).to_string(),
        "LoginAttempt { user_id: UserId(42), outcome: accepted }",
    );
}

#[allow(dead_code)]
struct LabelledAttempt {
    id: UserId,
    outcome: OutcomeLabel,
    id_label: UserId,
    note: String,
    email: String,
}

// Derived (as `LoginAttempt`) with `#[telemetry(display = "user-{}")] id_label`,
// `#[telemetry("[redacted]")] note` and `#[telemetry(skip)] email`.
impl ToTelemetry for LabelledAttempt {
    fn fmt_telemetry(&self, f: &mut TelemetryFormatter) -> std::fmt::Result {
        write_derived(
            f,
            "LoginAttempt",
            true,
            &vec![
                telemetry_field("id", &self.id),
                telemetry_field("outcome", &self.outcome),
                display_field("id_label", "user-", &self.id_label, ""),
                label_field("note", "[redacted]"),
            ],
        )
    }
}

#[allow(dead_code)]
enum InternalEvent {
    Audit { code: UserId, reason: String, message: String },
}

// Derived, with `#[telemetry(display)] code`, `#[telemetry("[redacted]")] reason`
// and `#[telemetry(skip)] message`.
impl ToTelemetry for InternalEvent {
    fn fmt_telemetry(&self, f: &mut TelemetryFormatter) -> std::fmt::Result {
        match self {
            InternalEvent::Audit { code, .. } => write_derived(
                f,
                "Audit",
                true,
                &vec![display_field("code", "", code, ""), label_field("reason", "[redacted]")],
            ),
        }
    }
}

#[test]
fn display_formats_and_labels_replace_field_values() {
    let attempt = LabelledAttempt {
        id: UserId(10),
        outcome: OutcomeLabel("accepted"),
        id_label: UserId(10),
        note: "internal".to_owned(),
        email: "user@example.com".to_owned(),
    };
    assert_eq!(
        telemetry(&attempt).to_string(),
        "LoginAttempt { id: UserId(10), outcome: accepted, id_label: user-10, note: [redacted] }"
    );

    let event = InternalEvent::Audit {
        code: UserId(20),
        reason: "restricted".to_owned(),
        message: "sensitive".to_owned(),
    };
    assert_eq!(telemetry(&event).to_string(), "Audit { code: 20, reason: [redacted] }");
}

#[allow(dead_code)]
enum Event {
    Login(u64, u64),
}

// Derived: `enum Event { Login(#[telemetry(skip)] u64, u64) }`.
impl ToTelemetry for Event {
    fn fmt_telemetry(&self, f: &mut TelemetryFormatter) -> std::fmt::Result {
        match self {
            Event::Login(_, field_1) => write_derived(f, "Login", false, &vec![telemetry_field("", field_1)]),
        }
    }
}

#[allow(dead_code)]
enum State {
    Idle,
    Busy { job: u64, owner: String },
}

// Derived: `enum State { Idle, Busy { job: u64, #[telemetry(skip)] owner: String } }`.
impl ToTelemetry for State {
    fn fmt_telemetry(&self, f: &mut TelemetryFormatter) -> std::fmt::Result {
        match self {
            State::Idle => write_derived(f, "Idle", false, &vec![]),
            State::Busy { job, .. } => write_derived(f, "Busy", true, &vec![telemetry_field("job", job)]),
        }
    }
}

#[allow(dead_code)]
struct Pair(u64, String, u64);

// Derived: `struct Pair(u64, #[telemetry(skip)] String, u64);`.
impl ToTelemetry for Pair {
    fn fmt_telemetry(&self, f: &mut TelemetryFormatter) -> std::fmt::Result {
        write_derived(f, "Pair", false, &vec![telemetry_field("", &self.0), telemetry_field("", &self.2)])
    }
}

struct Marker;

// Derived: `struct Marker;`.
impl ToTelemetry for Marker {
    fn fmt_telemetry(&self, f: &mut TelemetryFormatter) -> std::fmt::Result {
        write_derived(f, "Marker", false, &vec![])
    }
}

struct Wrapper<T>(T);

// Derived: `struct Wrapper<T: ToTelemetry>(T);`.
impl<T: ToTelemetry> ToTelemetry for Wrapper<T> {
    fn fmt_telemetry(&self, f: &mut TelemetryFormatter) -> std::fmt::Result {
        write_derived(f, "Wrapper", false, &vec![telemetry_field("", &self.0)])
    }
}

struct Code(u32);

impl std::fmt::Display for Code {
    fn fmt(&self, f: &mut std::fmt::Formatter<'_>) -> std::fmt::Result {
        f.write_str(&format!("C-{}", self.0))
    }
}

struct Ev {
    code: Code,
}

// Derived: `struct Ev { #[telemetry("{}")] code: Code }`.
impl ToTelemetry for Ev {
    fn fmt_telemetry(&self, f: &mut TelemetryFormatter) -> std::fmt::Result {
        write_derived(f, "Ev", true, &vec![display_field("code", "", &self.code, "")])
    }
}

struct Broken;

impl ToTelemetry for Broken {
    fn fmt_telemetry(&self, _f: &mut TelemetryFormatter) -> std::fmt::Result {
        Err(std::fmt::Error)
    }
}

#[test]
fn derived_variants_and_structs_render_their_planned_fields() {
    assert_eq!(telemetry(&Event::Login(111, 222)).to_string(), "Login(222)");
    assert_eq!(telemetry(&State::Idle).to_string(), "Idle");
    assert_eq!(telemetry(&State::Busy { job: 3, owner: "bob".to_owned() }).to_string(), "Busy { job: 3 }");
    assert_eq!(telemetry(&UserId(42)).to_string(), "UserId(42)");
    assert_eq!(telemetry(&Pair(1, "x".to_owned(), 3)).to_string(), "Pair(1, 3)");
    assert_eq!(telemetry(&Marker).to_string(), "Marker");
    assert_eq!(telemetry(&Wrapper(5_u64)).to_string(), "Wrapper(5)");
    assert_eq!(telemetry(&Ev { code: Code(5) }).to_string(), "Ev { code: C-5 }");
}

#[test]
fn skipped_fields_do_not_affect_the_text() {
    let a = Pair(1, "first".to_owned(), 3);
    let b = Pair(1, "second".to_owned(), 3);
    assert_eq!(telemetry(&a).to_string(), telemetry(&b).to_string());
}

#[test]
fn a_failing_field_makes_the_derived_value_write_nothing() {
    let mut f = TelemetryFormatter::new();
    f.write_str("x=");
    let fields = vec![telemetry_field("a", &1_u8), telemetry_field("b", &Broken)];
    assert_eq!(write_derived(&mut f, "S", true, &fields), Err(std::fmt::Error));
    assert_eq!(f.as_str(), "x=");
    // A label ignores its value.
    let labelled = vec![DerivedField {
        key: "a".to_string(),
        render: FieldRender::Label("[redacted]".to_string()),
        value: Err(std::fmt::Error),
    }];
    assert_eq!(write_derived(&mut f, "S", true, &labelled), Ok(()));
    assert_eq!(f.as_str(), "x=S { a: [redacted] }");
}
