//! Tests for the function registry: name validation, trimming, default
//! names, and the flattened form.

use ayudame_wrapper::AppState;
use ayudame_wrapper::Function;
use ayudame_wrapper::text::make_default_name;
use ayudame_wrapper::text::trim_str;
use ayudame_wrapper::text::u64_to_decimal;

#[test]
fn function_new_is_ok() {
    let f = Function::new(0, String::from("function"));
    assert!(f.is_ok());
}

#[test]
fn function_new_is_err() {
    let f = Function::new(0, String::from("功能"));
    assert!(f.is_err());
}

#[test]
fn function_prepare_for_sending() {
    let f = Function::new(0, String::from("function0")).unwrap();
    let (_, name) = f.into_raw_parts();
    let bytes = name.as_bytes();

    assert_eq!(bytes[0], 102); // f
    assert_eq!(bytes[1], 117); // u
    assert_eq!(bytes[2], 110); // n
    assert_eq!(bytes[3], 99); // c
    assert_eq!(bytes[4], 116); // t
    assert_eq!(bytes[5], 105); // i
    assert_eq!(bytes[6], 111); // o
    assert_eq!(bytes[7], 110); // n
    assert_eq!(bytes[8], 48); // 0
    assert_eq!(bytes[9], 0); // \0
}

#[test]
fn app_state_create_function() {
    let mut state = AppState::new();
    assert_eq!(state.functions.len(), 0);

    state.create_function("functino".to_string());
    assert_eq!(state.functions.len(), 1);

    let result = state.functions.get(0);
    assert!(result.is_some());

    let f = result.unwrap();
    assert_eq!(f.name, "functino\0".to_string());

    state.create_function("funco".to_string());
    assert_eq!(state.functions.len(), 2);

    let result = state.functions.get(1);
    assert!(result.is_some());

    let f = result.unwrap();
    assert_eq!(f.name, "funco\0".to_string());
}

#[test]
fn create_function_stores_trimmed_name_with_one_null() {
    let mut state = AppState::new();
    let f = state.create_function("  spaced name \t\n".to_string()).unwrap();
    assert_eq!(f.name, "spaced name\0");
    assert_eq!(f.id, 0);
    assert_eq!(state.functions[0].name, "spaced name\0");
}

#[test]
fn create_function_rejects_non_ascii_and_consumes_no_id() {
    let mut state = AppState::new();
    state.create_function("first".to_string()).unwrap();
    assert!(state.create_function("funkción".to_string()).is_none());
    assert_eq!(state.functions.len(), 1);
    let f = state.create_function("second".to_string()).unwrap();
    assert_eq!(f.id, 1);
}

#[test]
fn create_function_blank_name_gets_default() {
    let mut state = AppState::new();
    let f = state.create_function(String::new()).unwrap();
    assert_eq!(f.name, "default_function_0\0");
    assert_eq!(f.id, 0);
    let g = state.create_function("   \t ".to_string()).unwrap();
    assert_eq!(g.name, "default_function_1\0");
    assert_eq!(g.id, 1);
}

#[test]
fn create_function_unicode_whitespace_only_is_blank() {
    let mut state = AppState::new();
    // only Unicode white space: trimmed away entirely, so the default
    // name is used instead of an ASCII-validation failure
    let f = state.create_function("\u{2000}\u{3000}\u{a0}".to_string()).unwrap();
    assert_eq!(f.name, "default_function_0\0");
}

#[test]
fn create_function_sequence_alpha_then_blank() {
    let mut state = AppState::new();
    let a = state.create_function("alpha".to_string()).unwrap();
    let b = state.create_function("".to_string()).unwrap();
    assert_eq!(a.id, 0);
    assert_eq!(b.id, 1);
    assert_eq!(a.name, "alpha\0");
    assert_eq!(b.name, "default_function_1\0");
}

#[test]
fn with_default_name_renders_decimal_id() {
    let f = Function::with_default_name(57);
    assert_eq!(f.id, 57);
    assert_eq!(f.name, "default_function_57\0");
}

#[test]
fn trim_str_removes_surrounding_whitespace() {
    assert_eq!(trim_str("  hi there \r\n"), "hi there");
    assert_eq!(trim_str("exact"), "exact");
    assert_eq!(trim_str("   "), "");
    assert_eq!(trim_str(""), "");
    assert_eq!(trim_str("\u{2028}x\u{205f}"), "x");
}

#[test]
fn u64_to_decimal_renders_digits() {
    assert_eq!(u64_to_decimal(0), "0");
    assert_eq!(u64_to_decimal(9), "9");
    assert_eq!(u64_to_decimal(10), "10");
    assert_eq!(u64_to_decimal(1234567890), "1234567890");
    assert_eq!(u64_to_decimal(u64::MAX), "18446744073709551615");
}

#[test]
fn make_default_name_matches_format() {
    assert_eq!(make_default_name(0), "default_function_0\0");
    assert_eq!(make_default_name(18446744073709551615), "default_function_18446744073709551615\0");
}
