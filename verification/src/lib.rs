//! Compile-time safe telemetry formatting: only values with an explicitly
//! approved representation (`ToTelemetry`) can be rendered for telemetry.
//!
//! The library also holds the decisions of the `ToTelemetry` derive and of the
//! `safe_instrument` attribute, as functions from the tokens they are given to
//! the plan of the code they generate.

pub mod builders;
pub mod collections;
pub mod decimal;
pub mod derive;
pub mod format_string;
pub mod formatter;
pub mod instrument;
pub mod net;
pub mod prelude;
pub mod to_telemetry;
pub mod tokens;
pub mod tracing_support;

pub use tracing;

pub use builders::{DebugCollection, DebugStruct, DebugTuple};
pub use format_string::fill_placeholder;
pub use formatter::TelemetryFormatter;
pub use to_telemetry::{
    render_text, telemetry, telemetry_debug, TelemetryDebug, TelemetryDisplay, ToTelemetry,
};
pub use tracing_support::{
    record_err, record_ret, trusted_literal, RecordingSpan, SafeInstrumentResult, TrustedLiteral,
};
