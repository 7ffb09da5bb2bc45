use provide::options::{options_from_matches, ArgValues};
use provide::types::{ProcessParametersOptions, RunConfig};
use provide::Error;

fn trailing_cmd(values: Option<Vec<String>>) -> ArgValues {
    ArgValues {
        get: false,
        set: false,
        application: None,
        target: None,
        includes: None,
        merges: None,
        format: None,
        raw: false,
        env_vars: None,
        env_vars_base64: None,
        cmd: values,
    }
}

#[test]
fn test_include_only_accepts_one_value() {
    let m = ArgValues {
        includes: Some(vec!["include_file_1".to_owned()]),
        ..trailing_cmd(Some(vec!["cmd".to_owned()]))
    };
    let options = options_from_matches(m);
    assert_eq!(
        options.unwrap(),
        ProcessParametersOptions {
            includes: Some(vec!["include_file_1".to_owned()]),
            run_config: Some(RunConfig {
                cmd: "cmd".to_owned(),
                ..RunConfig::default()
            }),
            ..ProcessParametersOptions::default()
        }
    );
}

#[test]
fn test_merge_only_accepts_one_value() {
    let m = ArgValues {
        merges: Some(vec!["merge_file_1".to_owned()]),
        ..trailing_cmd(Some(vec!["cmd".to_owned()]))
    };
    let options = options_from_matches(m);
    assert_eq!(
        options.unwrap(),
        ProcessParametersOptions {
            merges: Some(vec!["merge_file_1".to_owned()]),
            run_config: Some(RunConfig {
                cmd: "cmd".to_owned(),
                ..RunConfig::default()
            }),
            ..ProcessParametersOptions::default()
        }
    );
}

#[test]
fn test_env_vars_only_accepts_one_value() {
    let m = ArgValues {
        env_vars: Some(vec!["FOO=bar".to_owned()]),
        ..trailing_cmd(Some(vec!["cmd".to_owned()]))
    };
    let options = options_from_matches(m);
    assert_eq!(
        options.unwrap(),
        ProcessParametersOptions {
            env_vars: Some(vec!["FOO=bar".to_owned()]),
            run_config: Some(RunConfig {
                cmd: "cmd".to_owned(),
                ..RunConfig::default()
            }),
            ..ProcessParametersOptions::default()
        }
    );
}

#[test]
fn test_env_vars_base64_only_accepts_one_value() {
    let m = ArgValues {
        env_vars_base64: Some(vec!["ABCDEF".to_owned()]),
        ..trailing_cmd(Some(vec!["cmd".to_owned()]))
    };
    let options = options_from_matches(m);
    assert_eq!(
        options.unwrap(),
        ProcessParametersOptions {
            env_vars_base64: Some(vec!["ABCDEF".to_owned()]),
            run_config: Some(RunConfig {
                cmd: "cmd".to_owned(),
                ..RunConfig::default()
            }),
            ..ProcessParametersOptions::default()
        }
    );
}

#[test]
fn test_error_display() {
    assert_eq!("BadFormat: reasons", Error::BadFormat("reasons".into()).to_string())
}
