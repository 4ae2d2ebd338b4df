use midgard_vault::coerce::{coerce_i32, coerce_i64, end_marker, CoerceError, RawValue};
use midgard_vault::settings::{Settings, SettingsError};

#[test]
fn blank_strings_coerce_to_zero() {
    assert_eq!(coerce_i64(&RawValue::Text(String::new())), Ok(0));
    assert_eq!(coerce_i64(&RawValue::Text("null".to_string())), Ok(0));
    assert_eq!(coerce_i64(&RawValue::Missing), Ok(0));
}

#[test]
fn numeric_strings_and_numbers_coerce() {
    assert_eq!(coerce_i64(&RawValue::Text("1739512851".to_string())), Ok(1_739_512_851));
    assert_eq!(coerce_i64(&RawValue::Text("-42".to_string())), Ok(-42));
    assert_eq!(coerce_i64(&RawValue::Text("+7".to_string())), Ok(7));
    assert_eq!(
        coerce_i64(&RawValue::Text("-9223372036854775808".to_string())),
        Ok(i64::MIN)
    );
    assert_eq!(coerce_i64(&RawValue::Integer(17)), Ok(17));
}

#[test]
fn bad_values_do_not_coerce() {
    assert_eq!(coerce_i64(&RawValue::Text("12a".to_string())), Err(CoerceError::InvalidText));
    assert_eq!(coerce_i64(&RawValue::Text("1.5".to_string())), Err(CoerceError::InvalidText));
    assert_eq!(
        coerce_i64(&RawValue::Text("9223372036854775808".to_string())),
        Err(CoerceError::InvalidText)
    );
    assert_eq!(coerce_i64(&RawValue::OtherNumber), Err(CoerceError::NotAnInteger));
}

#[test]
fn i32_coercion_checks_range() {
    assert_eq!(coerce_i32(&RawValue::Text("2147483647".to_string())), Ok(i32::MAX));
    assert_eq!(coerce_i32(&RawValue::Text("2147483648".to_string())), Err(CoerceError::InvalidText));
    assert_eq!(coerce_i32(&RawValue::Integer(-5)), Ok(-5));
    assert_eq!(coerce_i32(&RawValue::Integer(1 << 40)), Err(CoerceError::NotAnInteger));
}

#[test]
fn end_marker_accepts_strings_and_numbers() {
    assert_eq!(end_marker(&RawValue::Text("3600".to_string())), Some(3600));
    assert_eq!(end_marker(&RawValue::Integer(7200)), Some(7200));
    assert_eq!(end_marker(&RawValue::Text("soon".to_string())), None);
    assert_eq!(end_marker(&RawValue::Missing), None);
    assert_eq!(end_marker(&RawValue::Text(String::new())), Some(0));
}

#[test]
fn settings_port_parsing() {
    let s = Settings::from_values("mongodb://x".to_string(), None).unwrap();
    assert_eq!(s.port, 8080);
    assert_eq!(s.mongo_uri, "mongodb://x");
    let s = Settings::from_values("m".to_string(), Some("3000".to_string())).unwrap();
    assert_eq!(s.port, 3000);
    let s = Settings::from_values("m".to_string(), Some("+8081".to_string())).unwrap();
    assert_eq!(s.port, 8081);
    assert!(Settings::from_values("m".to_string(), Some("++1".to_string())).is_err());
    assert!(Settings::from_values("m".to_string(), Some("+".to_string())).is_err());
    assert!(Settings::from_values("m".to_string(), Some("-1".to_string())).is_err());
    assert!(matches!(
        Settings::from_values("m".to_string(), Some("70000".to_string())),
        Err(SettingsError::InvalidPort)
    ));
    assert!(matches!(
        Settings::from_values("m".to_string(), Some("eighty".to_string())),
        Err(SettingsError::InvalidPort)
    ));
}
