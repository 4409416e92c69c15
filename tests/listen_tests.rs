use dav_gateway::config::ConfigError;
use dav_gateway::listen::{parse_port, resolve_listen_address, ListenAddress, DEFAULT_PORT};

#[test]
fn port_zero_is_refused() {
    assert_eq!(parse_port("0"), Err(ConfigError::InvalidPort("0".to_string())));
    assert_eq!(parse_port("000"), Err(ConfigError::InvalidPort("000".to_string())));
}

#[test]
fn non_numeric_port_is_refused() {
    assert_eq!(parse_port("http"), Err(ConfigError::InvalidPort("http".to_string())));
    assert_eq!(parse_port(""), Err(ConfigError::InvalidPort(String::new())));
    assert_eq!(parse_port("+"), Err(ConfigError::InvalidPort("+".to_string())));
    assert_eq!(parse_port("-1"), Err(ConfigError::InvalidPort("-1".to_string())));
    assert_eq!(parse_port("80a"), Err(ConfigError::InvalidPort("80a".to_string())));
    assert_eq!(parse_port(" 80"), Err(ConfigError::InvalidPort(" 80".to_string())));
}

#[test]
fn port_out_of_range_is_refused() {
    assert_eq!(parse_port("65536"), Err(ConfigError::InvalidPort("65536".to_string())));
    assert_eq!(
        parse_port("99999999999999999999"),
        Err(ConfigError::InvalidPort("99999999999999999999".to_string()))
    );
}

#[test]
fn valid_ports_are_read() {
    assert_eq!(parse_port("8080"), Ok(8080));
    assert_eq!(parse_port("1"), Ok(1));
    assert_eq!(parse_port("65535"), Ok(65535));
    assert_eq!(parse_port("+443"), Ok(443));
    assert_eq!(parse_port("0080"), Ok(80));
}

#[test]
fn defaults_apply_when_unset() {
    assert_eq!(
        resolve_listen_address(None, None),
        Ok(ListenAddress { host: "0.0.0.0".to_string(), port: DEFAULT_PORT })
    );
    assert_eq!(DEFAULT_PORT, 8080);
}

#[test]
fn configured_host_and_port_are_used() {
    assert_eq!(
        resolve_listen_address(Some("127.0.0.1".to_string()), Some("9000".to_string())),
        Ok(ListenAddress { host: "127.0.0.1".to_string(), port: 9000 })
    );
}

#[test]
fn bad_port_fails_resolution() {
    assert_eq!(
        resolve_listen_address(None, Some("0".to_string())),
        Err(ConfigError::InvalidPort("0".to_string()))
    );
    assert_eq!(
        resolve_listen_address(Some("localhost".to_string()), Some("web".to_string())),
        Err(ConfigError::InvalidPort("web".to_string()))
    );
}
