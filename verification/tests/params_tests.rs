use undine::{ParamErrorKind, Params, ParamsLoadError, TomlValue};

const SAMPLE: &str = r#"
    [params]
    workers = 4
    duration_ms = 60000
    read_ratio = 80
    ratio = 0.75
    enable_monitor = true
    injection_mode = "none"
"#;

#[test]
fn loads_flat_params() {
    let p = Params::from_toml_str(SAMPLE).unwrap();
    assert!(p.contains("workers"));
    assert!(p.contains("injection_mode"));
    assert!(!p.contains("missing"));
}

#[test]
fn missing_params_table_errors() {
    let err = Params::from_toml_str("[other]\nx = 1\n").unwrap_err();
    assert!(err.message().contains("[params]"));
}

#[test]
fn non_table_params_errors() {
    let err = Params::from_toml_str("params = 42\n").unwrap_err();
    assert!(err.message().contains("table"));
}

#[test]
fn get_u64_succeeds() {
    let p = Params::from_toml_str(SAMPLE).unwrap();
    assert_eq!(p.get_u64("duration_ms").unwrap(), 60_000);
}

#[test]
fn get_usize_on_positive_integer() {
    let p = Params::from_toml_str(SAMPLE).unwrap();
    assert_eq!(p.get_usize("workers").unwrap(), 4);
}

#[test]
fn get_usize_on_negative_integer_errors() {
    let p = Params::from_toml_str("[params]\nx = -1\n").unwrap();
    let err = p.get_usize("x").unwrap_err();
    assert!(err.message().contains("cannot be converted to usize"));
}

#[test]
fn get_bool_succeeds() {
    let p = Params::from_toml_str(SAMPLE).unwrap();
    assert!(p.get_bool("enable_monitor").unwrap());
}

#[test]
fn get_str_succeeds() {
    let p = Params::from_toml_str(SAMPLE).unwrap();
    assert_eq!(p.get_str("injection_mode").unwrap(), "none");
}

#[test]
fn get_f64_succeeds() {
    let p = Params::from_toml_str(SAMPLE).unwrap();
    let ratio = f64::from_bits(p.get_f64_bits("ratio").unwrap());
    assert!((ratio - 0.75).abs() < 1e-9);
}

#[test]
fn wrong_type_errors() {
    let p = Params::from_toml_str(SAMPLE).unwrap();
    assert!(p.get_str("workers").is_err());
    assert!(p.get_bool("workers").is_err());
    assert!(p.get_u64("injection_mode").is_err());
}

#[test]
fn missing_key_errors() {
    let p = Params::from_toml_str(SAMPLE).unwrap();
    let err = p.get_u64("nope").unwrap_err();
    assert!(err.message().contains("missing param"));
    assert!(err.message().contains("nope"));
}

#[test]
fn nested_table_value_fails_scalar_getter() {
    let src = r#"
        [params.nested]
        x = 1
    "#;
    let p = Params::from_toml_str(src).unwrap();
    assert!(p.contains("nested"));
    assert!(p.get_u64("nested").is_err());
}

#[test]
fn empty_params_has_no_keys() {
    let p = Params::empty();
    assert!(!p.contains("anything"));
    assert!(p.get_u64("x").is_err());
}

#[test]
fn error_kinds_and_texts() {
    let p = Params::from_toml_str(SAMPLE).unwrap();
    let e = p.get_i64("ratio").unwrap_err();
    assert_eq!(e.kind, ParamErrorKind::NotInteger);
    assert_eq!(e.message(), "param 'ratio' is not an integer");
    let e = p.get_f64_bits("workers").unwrap_err();
    assert_eq!(e.kind, ParamErrorKind::NotFloat);
    assert_eq!(e.message(), "param 'workers' is not a float");
    let e = p.get_bool("ratio").unwrap_err();
    assert_eq!(e.message(), "param 'ratio' is not a bool");
    let e = p.get_str("ratio").unwrap_err();
    assert_eq!(e.message(), "param 'ratio' is not a string");
    let e = p.get_i64("absent").unwrap_err();
    assert_eq!(e.kind, ParamErrorKind::Missing);
    assert_eq!(e.key, "absent");
    assert_eq!(e.message(), "missing param: absent");
}

#[test]
fn u64_rejects_negative_and_i64_keeps_it() {
    let p = Params::from_toml_str("[params]\nx = -5\n").unwrap();
    assert_eq!(p.get_i64("x").unwrap(), -5);
    let e = p.get_u64("x").unwrap_err();
    assert_eq!(e.kind, ParamErrorKind::NotU64);
    assert_eq!(e.message(), "param 'x' cannot be converted to u64");
}

#[test]
fn invalid_toml_is_a_parse_error() {
    let err = Params::from_toml_str("[params\nx = ").unwrap_err();
    assert!(matches!(err, ParamsLoadError::Parse { .. }));
    assert_eq!(err.message(), "failed to parse TOML");
}

#[test]
fn load_error_texts() {
    assert_eq!(ParamsLoadError::MissingTable.message(), "TOML is missing a [params] table");
    assert_eq!(ParamsLoadError::NotTable.message(), "[params] must be a TOML table");
}

#[test]
fn from_document_keeps_last_duplicate() {
    let doc = TomlValue::Table(vec![(
        "params".to_string(),
        TomlValue::Table(vec![
            ("a".to_string(), TomlValue::Integer(1)),
            ("a".to_string(), TomlValue::Integer(2)),
            ("b".to_string(), TomlValue::Boolean(false)),
        ]),
    )]);
    let p = Params::from_document(doc).unwrap();
    assert_eq!(p.get_i64("a").unwrap(), 2);
    assert!(!p.get_bool("b").unwrap());
}

#[test]
fn from_document_rejects_non_table_root() {
    let err = Params::from_document(TomlValue::Integer(3)).unwrap_err();
    assert!(matches!(err, ParamsLoadError::MissingTable));
}

#[test]
fn default_params_are_empty() {
    let p = Params::default();
    assert!(!p.contains("workers"));
}
