# telemetry_safe

Only values that implement `ToTelemetry` can be rendered for telemetry, so a
raw `String`, `&str` or an ambient `Debug`/`Display` impl never reaches a
tracing, logging or metrics backend by accident.

The library is written in Verus. Each rendering is stated as a sequence of
characters (`ToTelemetry::telemetry_repr`) and every `fmt_telemetry` in the
crate is proved to write exactly that, or to report the failure of a part
(`fmt::Error`, passed back unchanged, as the standard builders do).

## Layout

- `src/formatter.rs`: the output buffer and the shapes of composite renderings
  (`Name(a, b)`, `Name { k: v }`, `[a, b]`, `{a, b}`, `{k: v}`).
- `src/builders.rs`: tuple, struct and collection builders, proved against those shapes.
- `src/to_telemetry.rs`, `src/collections.rs`, `src/decimal.rs`: the trait, the
  `Display`/`Debug` adapters and the impls for primitives, options, results,
  references, boxes, slices, vectors, arrays, `BTreeMap` and `BTreeSet`.
- `src/net.rs`: IP and socket addresses by their octets, segments and ports.
- `src/tokens.rs`: macro input as plain token trees, and the questions asked of
  `syn` (is this an expression, an identifier, a string literal), always lexed
  by `proc-macro2`'s own lexer.
- `src/format_string.rs`, `src/derive.rs`: `syn`'s reading of a derive's input
  (`plan_derive_input`), what `#[derive(ToTelemetry)]` renders for each field
  (`skip`, `display`, `display = "fmt"`, `"{}"`, a brace-free `"label"`) or why
  it refuses, and `write_derived`, which every generated impl calls to write
  the planned fields.
- `src/instrument.rs`: what `#[safe_instrument(...)]` puts on a function
  (`plan_instrument_item`): always `skip_all`, only `name = %expr` fields
  rendered through `ToTelemetry`, and `ret`/`err` recorded through `ToTelemetry`.
- `src/tracing_support.rs`: recording `ret`/`err` in a `tracing` span, with the
  log of what the span was handed, and `trusted_literal`.
- `app/`: the token plumbing of both macros (`syn`/`quote`), the
  `Display`/`Debug` adapters for `tracing`, and conversions from `std::net`'s
  addresses.
