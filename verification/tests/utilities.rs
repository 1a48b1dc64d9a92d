//! Shared errors and process configuration.

use snail::utilities::config::Config;
use snail::utilities::error::UtilError;

#[test]
fn default_has_sensible_values() {
    let c = Config::default();
    assert_eq!(c.data_dir, "/var/lib/snail");
    assert_eq!(c.log_level, "info");
}

#[test]
fn from_source_overrides_set_vars() {
    let c = Config::from_source(|k| match k {
        "SNAIL_DATA_DIR" => Some("/data/snail".to_string()),
        "SNAIL_LOG" => Some("snail=debug".to_string()),
        _ => None,
    })
    .unwrap();
    assert_eq!(c.data_dir, "/data/snail");
    assert_eq!(c.log_level, "snail=debug");
}

#[test]
fn from_source_rejects_empty_var() {
    let err = Config::from_source(|k| match k {
        "SNAIL_DATA_DIR" => Some("   ".to_string()),
        _ => None,
    })
    .unwrap_err();
    assert!(matches!(err, UtilError::Env { .. }));
}

#[test]
fn each_blank_variable_is_named() {
    let err = Config::from_values(Some("\t\u{3000}".to_string()), None).unwrap_err();
    assert_eq!(
        err.to_string(),
        "environment variable `SNAIL_DATA_DIR` is invalid: must not be empty"
    );
    let err = Config::from_values(None, Some("".to_string())).unwrap_err();
    assert_eq!(
        err.to_string(),
        "environment variable `SNAIL_LOG` is invalid: must not be empty"
    );
}

#[test]
fn unset_variables_leave_the_defaults() {
    assert_eq!(Config::from_source(|_| None).unwrap(), Config::default());
    let c = Config::from_values(None, Some(" warn ".to_string())).unwrap();
    assert_eq!(c.log_level, " warn ");
    assert_eq!(c.data_dir, "/var/lib/snail");
}

#[test]
fn config_error_displays_message() {
    let e = UtilError::Config("missing data_dir".into());
    assert_eq!(e.to_string(), "invalid configuration: missing data_dir");
}

#[test]
fn io_error_converts_via_from() {
    let io = std::io::Error::new(std::io::ErrorKind::NotFound, "nope");
    let e: UtilError = io.into();
    assert!(matches!(e, UtilError::Io(_)));
    assert!(e.to_string().starts_with("i/o error:"));
}

#[test]
fn env_error_formats_named_fields() {
    let e = UtilError::Env {
        name: "SNAIL_LOG".into(),
        reason: "not a level".into(),
    };
    assert_eq!(
        e.to_string(),
        "environment variable `SNAIL_LOG` is invalid: not a level"
    );
}
