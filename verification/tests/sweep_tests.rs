use undine::{RunSuite, SuiteError, TomlValue};

const SAMPLE: &str = r#"
    [[runs]]
    name = "baseline"
    workers = 4
    mode = "none"

    [[runs]]
    name = "high-concurrency"
    workers = 16
    mode = "none"

    [[runs]]
    workers = 2
    mode = "burst"
"#;

#[test]
fn loads_multiple_runs_in_order() {
    let suite = RunSuite::from_toml_str(SAMPLE).unwrap();
    assert_eq!(suite.runs.len(), 3);
    assert_eq!(suite.runs[0].name.as_deref(), Some("baseline"));
    assert_eq!(suite.runs[1].name.as_deref(), Some("high-concurrency"));
    assert!(suite.runs[2].name.is_none());
}

#[test]
fn run_params_are_parsed_per_entry() {
    let suite = RunSuite::from_toml_str(SAMPLE).unwrap();
    assert_eq!(suite.runs[0].params.get_usize("workers").unwrap(), 4);
    assert_eq!(suite.runs[1].params.get_usize("workers").unwrap(), 16);
    assert_eq!(suite.runs[2].params.get_usize("workers").unwrap(), 2);
    assert_eq!(suite.runs[2].params.get_str("mode").unwrap(), "burst");
}

#[test]
fn missing_runs_errors() {
    let err = RunSuite::from_toml_str("[other]\nx = 1\n").unwrap_err();
    assert!(err.message().contains("'runs'"));
}

#[test]
fn non_array_runs_errors() {
    let err = RunSuite::from_toml_str("runs = 42\n").unwrap_err();
    assert!(err.message().contains("array"));
}

#[test]
fn empty_runs_errors() {
    let err = RunSuite::from_toml_str("runs = []\n").unwrap_err();
    assert!(err.message().contains("empty"));
}

#[test]
fn nested_table_inside_a_run_errors() {
    let src = r#"
        [[runs]]
        name = "x"
        [runs.config]
        workers = 1
    "#;
    let err = RunSuite::from_toml_str(src).unwrap_err();
    assert!(err.message().contains("nested table"));
}

#[test]
fn non_string_name_errors() {
    let src = r#"
        [[runs]]
        name = 42
        workers = 1
    "#;
    let err = RunSuite::from_toml_str(src).unwrap_err();
    assert!(err.message().contains("name"));
}

#[test]
fn run_without_name_still_parses() {
    let src = r#"
        [[runs]]
        workers = 1
    "#;
    let suite = RunSuite::from_toml_str(src).unwrap();
    assert_eq!(suite.runs.len(), 1);
    assert!(suite.runs[0].name.is_none());
    assert_eq!(suite.runs[0].params.get_usize("workers").unwrap(), 1);
}

#[test]
fn suite_error_texts_name_the_entry() {
    let src = "[[runs]]\nworkers = 1\n[[runs]]\nname = 42\n";
    let err = RunSuite::from_toml_str(src).unwrap_err();
    assert!(matches!(err, SuiteError::NameNotString { index: 1 }));
    assert_eq!(err.message(), "runs[1].name must be a string");

    let src = "[[runs]]\nworkers = 1\n[runs.config]\nx = 1\n";
    let err = RunSuite::from_toml_str(src).unwrap_err();
    assert_eq!(
        err.message(),
        "runs[0].config is a nested table; only flat keys are supported"
    );

    let err = RunSuite::from_toml_str("runs = [1]\n").unwrap_err();
    assert!(matches!(err, SuiteError::EntryNotTable { index: 0 }));
    assert_eq!(err.message(), "runs[0] must be a table");

    assert_eq!(
        RunSuite::from_toml_str("runs = []\n").unwrap_err().message(),
        "'runs' is empty \u{2014} at least one [[runs]] entry is required"
    );
    assert_eq!(
        RunSuite::from_toml_str("x = 1\n").unwrap_err().message(),
        "TOML is missing a 'runs' array"
    );
    assert_eq!(
        RunSuite::from_toml_str("runs = 1\n").unwrap_err().message(),
        "'runs' must be an array of tables"
    );
    assert!(matches!(
        RunSuite::from_toml_str("runs = [").unwrap_err(),
        SuiteError::Parse { .. }
    ));
}

#[test]
fn name_is_not_a_parameter() {
    let suite = RunSuite::from_toml_str("[[runs]]\nname = \"a\"\nx = 1\n").unwrap();
    assert!(!suite.runs[0].params.contains("name"));
    assert!(suite.runs[0].params.contains("x"));
}

#[test]
fn first_failing_entry_decides() {
    let doc = TomlValue::Table(vec![(
        "runs".to_string(),
        TomlValue::Array(vec![
            TomlValue::Table(vec![("w".to_string(), TomlValue::Integer(1))]),
            TomlValue::Boolean(true),
            TomlValue::Table(vec![("name".to_string(), TomlValue::Integer(1))]),
        ]),
    )]);
    let err = RunSuite::from_document(doc).unwrap_err();
    assert!(matches!(err, SuiteError::EntryNotTable { index: 1 }));
}

#[test]
fn entry_index_written_in_decimal() {
    let e = SuiteError::EntryNotTable { index: 0 };
    assert_eq!(e.message(), "runs[0] must be a table");
    let e = SuiteError::NameNotString { index: 10 };
    assert_eq!(e.message(), "runs[10].name must be a string");
    let e = SuiteError::EntryNotTable { index: 1203 };
    assert_eq!(e.message(), "runs[1203] must be a table");
    let e = SuiteError::EntryNotTable { index: usize::MAX };
    assert_eq!(e.message(), format!("runs[{}] must be a table", usize::MAX));
}
