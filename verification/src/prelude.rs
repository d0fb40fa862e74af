//! The small surface most applications need at call sites.

pub use crate::formatter::TelemetryFormatter;
pub use crate::to_telemetry::{telemetry, telemetry_debug, ToTelemetry};
