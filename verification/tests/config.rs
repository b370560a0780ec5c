use todo_app::config::{
    parse_or, BindAddr, Config, ConfigError, ConfigValue, HostAddr, DEFAULT_LOG_FILTER,
};

/// Key/value pairs as the environment would give them.
fn source(pairs: &[(&str, &str)]) -> Vec<(String, String)> {
    pairs
        .iter()
        .map(|(k, v)| (k.to_string(), v.to_string()))
        .collect()
}

#[test]
fn database_url_is_required() {
    let err = Config::from_source(&source(&[]), None).unwrap_err();

    assert_eq!(err.to_string(), "DATABASE_URL is not set");
}

#[test]
fn defaults_are_applied_when_only_database_url_is_set() {
    let config = Config::from_source(&source(&[("DATABASE_URL", "postgres://localhost/x")]), None)
        .expect("should build with defaults");

    // 127.0.0.1:3000
    assert_eq!(
        config.bind_addr,
        BindAddr { host: HostAddr::V4([127, 0, 0, 1]), port: 3000 }
    );
    assert_eq!(config.max_connections, 5);
    assert_eq!(config.log_dir, "logs");
    assert_eq!(config.log_filter, DEFAULT_LOG_FILTER);
}

#[test]
fn values_from_the_environment_win() {
    // "0.0.0.0" read as an IP address
    let host = Some(Ok(HostAddr::V4([0, 0, 0, 0])));
    let config = Config::from_source(
        &source(&[
            ("DATABASE_URL", "postgres://localhost/x"),
            ("HOST", "0.0.0.0"),
            ("PORT", "8080"),
            ("DATABASE_MAX_CONNECTIONS", "20"),
            ("LOG_DIR", "/var/log/todo"),
            ("RUST_LOG", "info"),
        ]),
        host,
    )
    .expect("should accept every value");

    // 0.0.0.0:8080
    assert_eq!(
        config.bind_addr,
        BindAddr { host: HostAddr::V4([0, 0, 0, 0]), port: 8080 }
    );
    assert_eq!(config.max_connections, 20);
    assert_eq!(config.log_dir, "/var/log/todo");
    assert_eq!(config.log_filter, "info");
}

#[test]
fn an_unparsable_port_names_the_offending_key() {
    let err = Config::from_source(
        &source(&[("DATABASE_URL", "postgres://localhost/x"), ("PORT", "http")]),
        None,
    )
    .unwrap_err();

    let text = err.to_string();
    assert!(text.starts_with("PORT is invalid: \"http\""), "{text}");
}

#[test]
fn an_unparsable_host_names_the_offending_key() {
    // what reading "localhost" as an IP address gives
    let host = Some(Err("invalid IP address syntax".to_string()));
    let err = Config::from_source(
        &source(&[("DATABASE_URL", "postgres://localhost/x"), ("HOST", "localhost")]),
        host,
    )
    .unwrap_err();

    let text = err.to_string();
    assert!(text.starts_with("HOST is invalid"), "{text}");
}

#[test]
fn unparsable_port_reports_key_value_and_reason() {
    let err = Config::from_source(
        &source(&[("DATABASE_URL", "postgres://localhost/x"), ("PORT", "http")]),
        None,
    )
    .unwrap_err();
    match &err {
        ConfigError::Invalid { key, value, reason } => {
            assert_eq!(*key, "PORT");
            assert_eq!(value, "http");
            assert_eq!(reason, "invalid digit found in string");
        }
        other => panic!("unexpected {other:?}"),
    }
    assert_eq!(
        err.to_string(),
        "PORT is invalid: \"http\" (invalid digit found in string)"
    );
}

#[test]
fn host_is_checked_before_port() {
    let host = Some(Err("invalid IP address syntax".to_string()));
    let err = Config::from_source(
        &source(&[
            ("DATABASE_URL", "postgres://localhost/x"),
            ("HOST", "localhost"),
            ("PORT", "http"),
        ]),
        host,
    )
    .unwrap_err();
    assert_eq!(
        err.to_string(),
        "HOST is invalid: \"localhost\" (invalid IP address syntax)"
    );
}

#[test]
fn missing_url_wins_over_bad_values() {
    let err = Config::from_source(&source(&[("PORT", "http")]), None).unwrap_err();
    assert_eq!(err.to_string(), "DATABASE_URL is not set");
}

#[test]
fn first_pair_of_a_key_counts() {
    let config = Config::from_source(
        &source(&[
            ("DATABASE_URL", "postgres://a"),
            ("DATABASE_URL", "postgres://b"),
        ]),
        None,
    )
    .unwrap();
    assert_eq!(config.database_url, "postgres://a");
}

#[test]
fn invalid_max_connections_is_reported() {
    let err = Config::from_source(
        &source(&[
            ("DATABASE_URL", "postgres://localhost/x"),
            ("DATABASE_MAX_CONNECTIONS", "-1"),
        ]),
        None,
    )
    .unwrap_err();
    assert_eq!(
        err.to_string(),
        "DATABASE_MAX_CONNECTIONS is invalid: \"-1\" (invalid digit found in string)"
    );
}

#[test]
fn ipv6_host_is_kept() {
    let host = Some(Ok(HostAddr::V6([0, 0, 0, 0, 0, 0, 0, 1])));
    let config = Config::from_source(
        &source(&[("DATABASE_URL", "postgres://x"), ("HOST", "::1")]),
        host,
    )
    .unwrap();
    assert_eq!(config.bind_addr.host, HostAddr::V6([0, 0, 0, 0, 0, 0, 0, 1]));
    assert_eq!(config.bind_addr.port, 3000);
}

#[test]
fn parse_or_uses_the_default_when_unset() {
    assert_eq!(parse_or("PORT", None, 3000u16).unwrap(), 3000);
    assert_eq!(parse_or("PORT", Some("8080".to_string()), 3000u16).unwrap(), 8080);
}

#[test]
fn unsigned_reading_follows_from_str() {
    assert_eq!(<u16 as ConfigValue>::parse_value("0").unwrap(), 0);
    assert_eq!(<u16 as ConfigValue>::parse_value("+42").unwrap(), 42);
    assert_eq!(<u16 as ConfigValue>::parse_value("65535").unwrap(), 65535);
    assert_eq!(<u16 as ConfigValue>::parse_value("007").unwrap(), 7);
    assert_eq!(
        <u16 as ConfigValue>::parse_value("65536").unwrap_err(),
        "number too large to fit in target type"
    );
    assert_eq!(
        <u16 as ConfigValue>::parse_value("").unwrap_err(),
        "cannot parse integer from empty string"
    );
    assert_eq!(
        <u16 as ConfigValue>::parse_value("+").unwrap_err(),
        "invalid digit found in string"
    );
    assert_eq!(
        <u16 as ConfigValue>::parse_value(" 1").unwrap_err(),
        "invalid digit found in string"
    );
    assert_eq!(
        <u32 as ConfigValue>::parse_value("4294967295").unwrap(),
        4294967295
    );
    assert_eq!(
        <u32 as ConfigValue>::parse_value("4294967296").unwrap_err(),
        "number too large to fit in target type"
    );
    // the same answers as std gives
    for raw in ["", "+", "-", "-1", "12a", "99999x", "65535", "65536", "+7", "a1"] {
        let ours = <u16 as ConfigValue>::parse_value(raw);
        let std = raw.parse::<u16>().map_err(|e| e.to_string());
        assert_eq!(ours, std, "{raw:?}");
    }
}
