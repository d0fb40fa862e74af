use telemetry_safe::fill_placeholder;
use telemetry_safe::format_string::{classify_format, str_chars, FormatClass};

#[test]
fn format_without_placeholder_is_text() {
    match classify_format("[redacted]") {
        FormatClass::Text(t) => assert_eq!(t, "[redacted]"),
        _ => panic!("expected text"),
    }
    match classify_format("{{literal}}") {
        FormatClass::Text(t) => assert_eq!(t, "{literal}"),
        _ => panic!("expected text"),
    }
}

#[test]
fn format_with_one_placeholder_splits_around_it() {
    match classify_format("user-{}") {
        FormatClass::OneHole(before, after) => {
            assert_eq!(before, "user-");
            assert_eq!(after, "");
        }
        _ => panic!("expected one placeholder"),
    }
    match classify_format("<{}>") {
        FormatClass::OneHole(before, after) => {
            assert_eq!(before, "<");
            assert_eq!(after, ">");
        }
        _ => panic!("expected one placeholder"),
    }
}

#[test]
fn format_with_more_placeholders_or_stray_braces() {
    assert!(matches!(classify_format("{}-{}"), FormatClass::ManyHoles));
    assert!(matches!(classify_format("{x}"), FormatClass::Invalid));
    assert!(matches!(classify_format("a}"), FormatClass::Invalid));
    assert!(matches!(classify_format("{"), FormatClass::Invalid));
}

#[test]
fn placeholder_is_filled_between_fixed_texts() {
    assert_eq!(fill_placeholder("user-", "10", ""), "user-10");
    assert_eq!(fill_placeholder("<", "", ">"), "<>");
}

#[test]
fn characters_of_a_string_are_listed_in_order() {
    assert_eq!(str_chars("añb"), vec!['a', 'ñ', 'b']);
}
