use provide::api::{
    as_export_format, map_from_parameters, merge_with_command, merge_with_commands,
    merge_with_env, merge_with_given, parse_line, process_parameters, read_pairs_from_files,
    render, resolve_sources, run_status,
};
use provide::codec::{decode_text, encode_text};
use provide::error::Error;
use provide::options::{options_from_matches, ArgValues};
use provide::types::{
    CommandOutput, Format, FormatConfig, Mode, Pair, ProcessParametersOptions, RemoteEntry,
    RunConfig, Sources, VariableMap,
};
use std::collections::HashMap;

fn vars(pairs: &[(&str, &str)]) -> VariableMap {
    let mut map = VariableMap::new();
    for (k, v) in pairs {
        map.insert(k.to_string(), v.to_string());
    }
    map
}

fn as_hash_map(map: &VariableMap) -> HashMap<String, String> {
    map.to_pairs().into_iter().collect()
}

fn expected(pairs: &[(&str, &str)]) -> HashMap<String, String> {
    pairs.iter().map(|(k, v)| (k.to_string(), v.to_string())).collect()
}

fn no_sources() -> Sources {
    Sources {
        environment: VariableMap::new(),
        parameters: vec![],
        includes: vec![],
        merges: vec![],
    }
}

fn no_args() -> ArgValues {
    ArgValues {
        get: false,
        set: false,
        application: None,
        target: None,
        includes: None,
        merges: None,
        format: None,
        raw: false,
        env_vars: None,
        env_vars_base64: None,
        cmd: None,
    }
}

#[test]
fn empty_line_gives_no_pair() {
    assert_eq!(parse_line("", false, &VariableMap::new()), Ok(None));
    assert_eq!(parse_line("", true, &VariableMap::new()), Ok(None));
}

#[test]
fn line_starting_with_equals_is_bad_format() {
    let env = VariableMap::new();
    assert_eq!(
        parse_line("=value", false, &env),
        Err(Error::BadFormat("Invalid key has no length".to_string()))
    );
    assert_eq!(
        parse_line("=", true, &env),
        Err(Error::BadFormat("Invalid key has no length".to_string()))
    );
}

#[test]
fn plain_line_round_trips_through_env_format() {
    let env = VariableMap::new();
    let pair = parse_line("db_url=postgres://x?a=b", false, &env).unwrap().unwrap();
    assert_eq!(pair, Pair("db_url".to_string(), "postgres://x?a=b".to_string()));
    let mut map = VariableMap::new();
    map.insert(pair.0, pair.1);
    assert_eq!(
        provide::api::as_env_format(map, true),
        "DB_URL=postgres://x?a=b\n"
    );
}

#[test]
fn base64_round_trip() {
    for v in ["", "bar", "héllo wörld", "line\nbreak", "a=b=c"] {
        let encoded = encode_text(v);
        assert_eq!(decode_text(&encoded), Ok(v.to_string()));
    }
    assert_eq!(encode_text("foo"), "Zm9v");
    assert_eq!(decode_text("YmFy"), Ok("bar".to_string()));
}

#[test]
fn base64_line_is_decoded() {
    let env = VariableMap::new();
    assert_eq!(
        parse_line("KEY=aMOpbGxv", true, &env),
        Ok(Some(Pair("KEY".to_string(), "héllo".to_string())))
    );
}

#[test]
fn invalid_base64_is_an_error() {
    let env = VariableMap::new();
    assert!(matches!(parse_line("KEY=not base64!", true, &env), Err(Error::Base64Error(_))));
}

#[test]
fn decoded_bytes_must_be_utf8() {
    let env = VariableMap::new();
    assert!(matches!(parse_line("KEY=/w==", true, &env), Err(Error::StringUtf8Error(_))));
}

#[test]
fn bare_key_reads_environment() {
    let env = vars(&[("HOME", "/root"), ("SECRET", "c2VjcmV0")]);
    assert_eq!(
        parse_line("HOME", false, &env),
        Ok(Some(Pair("HOME".to_string(), "/root".to_string())))
    );
    assert_eq!(
        merge_with_env("SECRET", true, &env),
        Ok(("SECRET".to_string(), "secret".to_string()))
    );
    assert!(matches!(merge_with_env("MISSING", false, &env), Err(Error::EnvError(_))));
}

#[test]
fn stream_with_blank_and_carriage_return_lines() {
    let source = b"foo=YmFy\n\r\n\nbaz=cXV4\n\n";
    let result = provide::api::read_from_reader(source, true, &VariableMap::new()).unwrap();
    assert_eq!(as_hash_map(&result), expected(&[("foo", "bar"), ("baz", "qux")]));
}

#[test]
fn stream_strips_crlf_and_keeps_last_line() {
    let source = b"a=1\r\nb=2";
    let result = provide::api::read_from_reader(source, false, &VariableMap::new()).unwrap();
    assert_eq!(as_hash_map(&result), expected(&[("a", "1"), ("b", "2")]));
}

#[test]
fn later_lines_overwrite_earlier_ones() {
    let source = b"a=1\na=2\n";
    let result = provide::api::read_from_reader(source, false, &VariableMap::new()).unwrap();
    assert_eq!(result.to_pairs(), vec![("a".to_string(), "2".to_string())]);
}

#[test]
fn stream_line_that_is_not_utf8_is_a_read_error() {
    let source = b"a=\xff\n";
    let result = provide::api::read_from_reader(source, false, &VariableMap::new());
    assert!(matches!(result, Err(Error::IOError(_))));
}

#[test]
fn given_lines_fail_fast() {
    let env = VariableMap::new();
    let ok = merge_with_given(&vec!["A=1".to_string(), "".to_string(), "A=3".to_string()], false, &env)
        .unwrap();
    assert_eq!(as_hash_map(&ok), expected(&[("A", "3")]));
    let bad = merge_with_given(
        &vec!["A=1".to_string(), "=x".to_string(), "B=2".to_string()],
        false,
        &env,
    );
    assert_eq!(bad.unwrap_err(), Error::BadFormat("Invalid key has no length".to_string()));
}

#[test]
fn files_are_read_in_order_and_fail_fast() {
    let env = VariableMap::new();
    let maps = read_pairs_from_files(&vec![b"A=MQ==\n".to_vec(), b"B=Mg==\n".to_vec()], true, &env)
        .unwrap();
    assert_eq!(maps.len(), 2);
    assert_eq!(as_hash_map(&maps[0]), expected(&[("A", "1")]));
    assert_eq!(as_hash_map(&maps[1]), expected(&[("B", "2")]));
    let bad = read_pairs_from_files(&vec![b"A=MQ==\n".to_vec(), b"=\n".to_vec()], true, &env);
    assert!(matches!(bad, Err(Error::BadFormat(_))));
}

#[test]
fn remote_entries_are_keyed_by_last_segment() {
    let entries = vec![
        RemoteEntry { name: Some("/app/env/A".to_string()), value: Some("1".to_string()) },
        RemoteEntry { name: Some("/app/env/B".to_string()), value: None },
    ];
    let map = map_from_parameters(&entries).unwrap();
    assert_eq!(as_hash_map(&map), expected(&[("A", "1")]));
    let bad = vec![RemoteEntry { name: Some("/app/A".to_string()), value: Some("1".to_string()) }];
    assert_eq!(
        map_from_parameters(&bad).unwrap_err(),
        Error::InvalidPathError("Invalid path /app/A".to_string())
    );
}

#[test]
fn merge_precedence() {
    let options = ProcessParametersOptions {
        mode: Some(Mode::GET),
        path: Some("/app/env".to_string()),
        includes: Some(vec!["include_file".to_string()]),
        env_vars: Some(vec!["B=override".to_string()]),
        ..ProcessParametersOptions::default()
    };
    let sources = Sources {
        parameters: vec![RemoteEntry {
            name: Some("/app/env/A".to_string()),
            value: Some("1".to_string()),
        }],
        includes: vec![b"A=Mg==\nB=Mw==\n".to_vec()],
        ..no_sources()
    };
    let result = process_parameters(&options, &sources).unwrap();
    assert_eq!(as_hash_map(&result), expected(&[("A", "2"), ("B", "override")]));
}

#[test]
fn remote_is_skipped_without_get_mode() {
    let options = ProcessParametersOptions {
        path: Some("/app/env".to_string()),
        ..ProcessParametersOptions::default()
    };
    let sources = Sources {
        parameters: vec![RemoteEntry {
            name: Some("/app/env/A".to_string()),
            value: Some("1".to_string()),
        }],
        ..no_sources()
    };
    let result = process_parameters(&options, &sources).unwrap();
    assert_eq!(result.len(), 0);
}

#[test]
fn labels_do_not_overwrite() {
    let options = ProcessParametersOptions {
        app: Some("svc".to_string()),
        target: Some("prod".to_string()),
        includes: Some(vec!["include_file".to_string()]),
        ..ProcessParametersOptions::default()
    };
    let sources = Sources {
        includes: vec![b"PROVIDE_APPLICATION=Y3VzdG9t\n".to_vec()],
        ..no_sources()
    };
    let result = process_parameters(&options, &sources).unwrap();
    assert_eq!(
        as_hash_map(&result),
        expected(&[("PROVIDE_APPLICATION", "custom"), ("PROVIDE_TARGET", "prod")])
    );
}

#[test]
fn merge_outputs_come_after_literal_lines() {
    let options = ProcessParametersOptions {
        env_vars: Some(vec!["A=literal".to_string(), "C=kept".to_string()]),
        env_vars_base64: Some(vec!["B=YjY0".to_string()]),
        merges: Some(vec!["helper".to_string()]),
        ..ProcessParametersOptions::default()
    };
    let sources = Sources {
        merges: vec![CommandOutput { code: Some(0), stdout: b"A=bWVyZ2Vk\n".to_vec(), stderr: vec![] }],
        ..no_sources()
    };
    let before = resolve_sources(&options, &sources).unwrap();
    assert_eq!(as_hash_map(&before), expected(&[("A", "literal"), ("B", "b64"), ("C", "kept")]));
    let result = process_parameters(&options, &sources).unwrap();
    assert_eq!(
        as_hash_map(&result),
        expected(&[("A", "merged"), ("B", "b64"), ("C", "kept")])
    );
}

#[test]
fn no_options_give_an_empty_map() {
    let result = process_parameters(&ProcessParametersOptions::default(), &no_sources()).unwrap();
    assert_eq!(result.len(), 0);
}

#[test]
fn failing_merge_program_reports_stderr() {
    let env = VariableMap::new();
    let failed = CommandOutput { code: Some(2), stdout: vec![], stderr: b"boom".to_vec() };
    match merge_with_command(&failed, &env) {
        Err(Error::Error(m)) => assert!(m.contains("boom")),
        other => panic!("unexpected {:?}", other),
    }
    let killed = CommandOutput { code: None, stdout: vec![], stderr: vec![] };
    assert_eq!(
        merge_with_command(&killed, &env).unwrap_err(),
        Error::Error("Terminated by signal".to_string())
    );
}

#[test]
fn merge_programs_fail_fast() {
    let env = VariableMap::new();
    let good = CommandOutput { code: Some(0), stdout: b"A=MQ==\n".to_vec(), stderr: vec![] };
    let bad = CommandOutput { code: Some(1), stdout: vec![], stderr: b"nope".to_vec() };
    let maps = merge_with_commands(&vec![good.clone(), good.clone()], &env).unwrap();
    assert_eq!(maps.len(), 2);
    let err = merge_with_commands(&vec![good, bad], &env).unwrap_err();
    assert_eq!(err, Error::Error("nope".to_string()));
}

#[test]
fn export_format_encodes_values() {
    assert_eq!(as_export_format(vars(&[("foo", "bar")]), true), "export FOO=YmFy\n");
    assert_eq!(
        as_export_format(vars(&[("foo", "bar")]), false),
        "export FOO=$(base64 --decode <<< \"YmFy\")\n"
    );
    assert_eq!(provide::api::as_env_format(vars(&[("foo", "bar")]), false), "FOO=YmFy\n");
}

#[test]
fn json_format_fails() {
    let config = FormatConfig { format: Format::JSON, raw: false };
    assert!(matches!(render(config, vars(&[("a", "b")])), Err(Error::Error(_))));
    let config = FormatConfig { format: Format::ENV, raw: true };
    assert_eq!(render(config, vars(&[("a", "b")])), Ok("A=b\n".to_string()));
}

#[test]
fn command_exit_status() {
    assert_eq!(run_status(Some(0)), Ok(()));
    assert_eq!(run_status(Some(3)), Err(Error::Error("Exit code 3".to_string())));
    assert_eq!(run_status(Some(-12)), Err(Error::Error("Exit code -12".to_string())));
    assert_eq!(run_status(None), Err(Error::Error("Terminated by signal".to_string())));
    assert_eq!(
        run_status(Some(i32::MIN)),
        Err(Error::Error("Exit code -2147483648".to_string()))
    );
    assert_eq!(run_status(Some(120)), Err(Error::Error("Exit code 120".to_string())));
}

#[test]
fn error_descriptions() {
    assert_eq!(Error::IOError("gone".to_string()).to_string(), "IOError: gone");
    assert_eq!(Error::StrUtf8Error("x".to_string()).to_string(), "Utf8Error: x");
}

#[test]
fn map_insert_if_absent_keeps_value() {
    let mut map = vars(&[("A", "1")]);
    map.insert_if_absent("A".to_string(), "2".to_string());
    map.insert_if_absent("B".to_string(), "3".to_string());
    map.insert("A".to_string(), "4".to_string());
    assert_eq!(map.get(&"A".to_string()), Some("4".to_string()));
    assert_eq!(map.get(&"B".to_string()), Some("3".to_string()));
    assert_eq!(map.get(&"C".to_string()), None);
}

#[test]
fn unknown_format_name_is_refused() {
    let args = ArgValues { format: Some("yaml".to_string()), ..no_args() };
    assert_eq!(
        options_from_matches(args),
        Err(Error::BadFormat("Unknown format yaml".to_string()))
    );
}

#[test]
fn options_build_path_and_command() {
    let args = ArgValues {
        get: true,
        application: Some("svc".to_string()),
        target: Some("prod".to_string()),
        format: Some("export".to_string()),
        raw: true,
        cmd: Some(vec!["env".to_string(), "-0".to_string()]),
        ..no_args()
    };
    let options = options_from_matches(args).unwrap();
    assert_eq!(options.mode, Some(Mode::GET));
    assert_eq!(options.path, Some("/svc/prod".to_string()));
    assert_eq!(options.format_config, FormatConfig { format: Format::EXPORT, raw: true });
    assert_eq!(
        options.run_config,
        Some(RunConfig { cmd: "env".to_string(), args: vec!["-0".to_string()] })
    );
}

#[test]
fn pairs_fold_with_last_writer_winning() {
    let map = VariableMap::from_pairs(vec![
        Pair::from(("a".to_string(), "1".to_string())),
        Pair("b".to_string(), "2".to_string()),
        Pair("a".to_string(), "3".to_string()),
    ]);
    assert_eq!(
        map.to_pairs(),
        vec![("a".to_string(), "3".to_string()), ("b".to_string(), "2".to_string())]
    );
}

#[test]
fn only_one_leading_separator_is_stripped() {
    assert_eq!(provide::api::extract_key_from_path("//a/b"), Ok("b".to_string()));
    assert_eq!(
        provide::api::extract_key_from_path("//app/env/key"),
        Err(Error::InvalidPathError("Invalid path //app/env/key".to_string()))
    );
    assert_eq!(provide::api::extract_key_from_path("app/env/key"), Ok("key".to_string()));
}

#[test]
fn escape_leaves_other_characters() {
    assert_eq!(provide::api::escape_for_bash("plain & 'quoted'"), "plain & 'quoted'");
    assert_eq!(provide::api::escape_for_bash("$HOME"), "\\$HOME");
}
