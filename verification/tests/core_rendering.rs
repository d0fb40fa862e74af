use telemetry_safe::formatter::TelemetryFormatter;
use telemetry_safe::to_telemetry::{telemetry, ToTelemetry};

struct Token(u64);

impl ToTelemetry for Token {
    fn fmt_telemetry(&self, f: &mut TelemetryFormatter) -> std::fmt::Result {
        f.write_str("token-");
        self.0.fmt_telemetry(f)
    }
}

struct Unrenderable;

impl ToTelemetry for Unrenderable {
    fn fmt_telemetry(&self, _f: &mut TelemetryFormatter) -> std::fmt::Result {
        Err(std::fmt::Error)
    }
}

#[test]
fn primitives_and_manual_types_are_displayable() {
    assert_eq!(telemetry(&123_u64).to_string(), "123");
    assert_eq!(telemetry(&Token(7)).to_string(), "token-7");
    assert_eq!(telemetry(&Some(Token(2))).to_string(), "Some(token-2)");
}

#[test]
fn collections_use_safe_rendering_recursively() {
    let values = vec![Token(1), Token(2)];
    assert_eq!(telemetry(&values).to_string(), "[token-1, token-2]");
}

#[test]
fn integers_render_in_decimal() {
    assert_eq!(telemetry(&0_u8).to_string(), "0");
    assert_eq!(telemetry(&-42_i32).to_string(), "-42");
    assert_eq!(telemetry(&i128::MIN).to_string(), i128::MIN.to_string());
    assert_eq!(telemetry(&u128::MAX).to_string(), u128::MAX.to_string());
    assert_eq!(telemetry(&i64::MIN).to_string(), "-9223372036854775808");
    assert_eq!(telemetry(&1000_usize).to_string(), "1000");
    assert_eq!(telemetry(&-1_isize).to_string(), "-1");
}

#[test]
fn booleans_and_chars_render_as_display_does() {
    assert_eq!(telemetry(&false).to_string(), "false");
    assert_eq!(telemetry(&'x').to_string(), "x");
}

#[test]
fn options_and_results_wrap_their_value() {
    let none: Option<u8> = None;
    assert_eq!(telemetry(&none).to_string(), "None");
    let ok: Result<u8, Token> = Ok(3);
    assert_eq!(telemetry(&ok).to_string(), "Ok(3)");
    let err: Result<u8, Token> = Err(Token(9));
    assert_eq!(telemetry(&err).to_string(), "Err(token-9)");
}

#[test]
fn indirection_is_transparent() {
    let boxed = Box::new(Token(5));
    assert_eq!(telemetry(&boxed).to_string(), "token-5");
    let reference = &Token(6);
    assert_eq!(telemetry(&reference).to_string(), "token-6");
}

#[test]
fn sequences_render_alike() {
    let array = [1_u8, 2, 3];
    let vector = vec![1_u8, 2, 3];
    assert_eq!(telemetry(&array).to_string(), "[1, 2, 3]");
    assert_eq!(telemetry(&vector).to_string(), "[1, 2, 3]");
    assert_eq!(telemetry(&vector[..]).to_string(), "[1, 2, 3]");
    let empty: Vec<u8> = Vec::new();
    assert_eq!(telemetry(&empty).to_string(), "[]");
    let nested = vec![vec![Some(1_u8)], vec![]];
    assert_eq!(telemetry(&nested).to_string(), "[[Some(1)], []]");
}

#[test]
fn debug_adapter_writes_the_same_text() {
    let mut f = TelemetryFormatter::new();
    telemetry_safe::telemetry_debug(&Token(4)).fmt(&mut f).unwrap();
    f.write_char(' ');
    telemetry(&Token(4)).fmt(&mut f).unwrap();
    assert_eq!(f.as_str(), "token-4 token-4");
    assert_eq!(f.into_string(), "token-4 token-4");
}

#[test]
fn a_failed_rendering_is_passed_back_unchanged() {
    let mut f = TelemetryFormatter::new();
    assert_eq!(telemetry(&Unrenderable).fmt(&mut f), Err(std::fmt::Error));
    assert_eq!(telemetry_safe::telemetry_debug(&Unrenderable).fmt(&mut f), Err(std::fmt::Error));
    let mut g = TelemetryFormatter::new();
    assert_eq!(Some(Unrenderable).fmt_telemetry(&mut g), Err(std::fmt::Error));
    let mut h = TelemetryFormatter::new();
    assert_eq!(vec![Some(Token(1)), None].fmt_telemetry(&mut h), Ok(()));
    assert_eq!(h.as_str(), "[Some(token-1), None]");
    let mut k = TelemetryFormatter::new();
    let mixed: Vec<Result<u8, Unrenderable>> = vec![Ok(1), Err(Unrenderable), Ok(2)];
    assert_eq!(mixed.fmt_telemetry(&mut k), Err(std::fmt::Error));
}
