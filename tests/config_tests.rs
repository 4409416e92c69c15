use dav_gateway::config::{
    backend_config_from_vars, build_operator_from_env, collect_options, option_key,
    scheme_supported, scheme_value, ConfigError,
};

fn vars(pairs: &[(&str, &str)]) -> Vec<(String, String)> {
    pairs.iter().map(|(k, v)| (k.to_string(), v.to_string())).collect()
}

fn registered() -> Vec<String> {
    vec!["fs".to_string(), "memory".to_string()]
}

#[test]
fn missing_scheme_is_reported() {
    let env = vars(&[("HOME", "/root"), ("OPENDAL_ROOT", "/tmp/data")]);
    assert_eq!(
        backend_config_from_vars(&env, &registered()).unwrap_err(),
        ConfigError::MissingScheme
    );
    assert_eq!(build_operator_from_env(&env).unwrap_err(), ConfigError::MissingScheme);
}

#[test]
fn empty_environment_lacks_scheme() {
    assert_eq!(build_operator_from_env(&Vec::new()).unwrap_err(), ConfigError::MissingScheme);
}

#[test]
fn unknown_scheme_is_reported() {
    let env = vars(&[("OPENDAL_TYPE", "nosuchstore")]);
    assert_eq!(
        backend_config_from_vars(&env, &registered()).unwrap_err(),
        ConfigError::UnknownScheme("nosuchstore".to_string())
    );
    assert_eq!(
        build_operator_from_env(&env).unwrap_err(),
        ConfigError::UnknownScheme("nosuchstore".to_string())
    );
}

#[test]
fn scheme_match_ignores_ascii_case() {
    assert!(scheme_supported("Memory", &registered()));
    assert!(scheme_supported("FS", &registered()));
    assert!(!scheme_supported("mem", &registered()));
    assert!(!scheme_supported("memoryx", &registered()));
    assert!(!scheme_supported("", &registered()));
    assert!(!scheme_supported("fs", &Vec::new()));
}

#[test]
fn option_key_strips_prefix_and_lowers_case() {
    assert_eq!(option_key("OPENDAL_ROOT"), Some("root".to_string()));
    assert_eq!(option_key("OPENDAL_Bucket_Name"), Some("bucket_name".to_string()));
    assert_eq!(option_key("OPENDAL_"), Some(String::new()));
    assert_eq!(option_key("OPENDAL_TYPE"), None);
    assert_eq!(option_key("opendal_root"), None);
    assert_eq!(option_key("PATH"), None);
    assert_eq!(option_key("OPENDA"), None);
}

#[test]
fn options_hold_prefixed_variables_only() {
    let env = vars(&[
        ("OPENDAL_TYPE", "fs"),
        ("PATH", "/usr/bin"),
        ("OPENDAL_ROOT", "/srv/dav"),
        ("OPENDAL_BUCKET", "SECRET-REDACTED"),
    ]);
    let cfg = backend_config_from_vars(&env, &registered()).unwrap();
    assert_eq!(cfg.scheme, "fs");
    assert_eq!(cfg.options.len(), 2);
    assert_eq!(cfg.option("root"), Some("/srv/dav".to_string()));
    assert_eq!(cfg.option("bucket"), Some("SECRET-REDACTED".to_string()));
    assert_eq!(cfg.option("type"), None);
    assert_eq!(cfg.option("path"), None);
}

#[test]
fn later_variable_wins_on_same_key() {
    let env = vars(&[("OPENDAL_ROOT", "/first"), ("OPENDAL_root", "/second")]);
    let opts = collect_options(&env);
    assert_eq!(opts, vec![("root".to_string(), "/second".to_string())]);
}

#[test]
fn last_scheme_variable_counts() {
    let env = vars(&[("OPENDAL_TYPE", "fs"), ("OPENDAL_TYPE", "memory")]);
    assert_eq!(scheme_value(&env), Some("memory".to_string()));
    assert_eq!(scheme_value(&vars(&[("HOME", "/")])), None);
}

#[test]
fn memory_backend_builds() {
    let env = vars(&[("OPENDAL_TYPE", "memory")]);
    assert!(build_operator_from_env(&env).is_ok());
}

#[test]
fn backend_refusal_names_missing_key() {
    let env = vars(&[("OPENDAL_TYPE", "fs")]);
    match build_operator_from_env(&env) {
        Err(ConfigError::BackendInit(reason)) => assert!(reason.contains("root"), "{reason}"),
        other => panic!("expected a backend error, got {:?}", other.map(|_| ())),
    }
}
