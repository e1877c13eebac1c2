use vpn_tunnel::config::{Config, ConfigError, DurationVal, NetType};

#[test]
fn defaults_apply_when_the_environment_is_empty() {
    let cfg = Config::from_env(None, None, None).unwrap();
    assert_eq!(cfg.net_type, NetType::Central);
    assert_eq!(cfg.ping_interval, DurationVal { secs: 15, nanos: 0 });
    assert_eq!(cfg.host, "127.0.0.1:7464");
}

#[test]
fn values_from_the_environment_win() {
    let cfg = Config::from_env(Some("hybrid"), Some("3s"), Some("relay.example:7477")).unwrap();
    assert_eq!(cfg.net_type, NetType::Hybrid);
    assert_eq!(cfg.ping_interval, DurationVal { secs: 3, nanos: 0 });
    assert_eq!(cfg.host, "relay.example:7477");
}

#[test]
fn duration_grammar_handles_compound_spans() {
    let cfg = Config::from_env(None, Some("1m 30s"), None).unwrap();
    assert_eq!(cfg.ping_interval, DurationVal { secs: 90, nanos: 0 });
    let cfg = Config::from_env(None, Some("250ms"), None).unwrap();
    assert_eq!(cfg.ping_interval, DurationVal { secs: 0, nanos: 250_000_000 });
}

#[test]
fn bad_values_are_refused() {
    assert_eq!(
        Config::from_env(Some("mesh"), None, None).unwrap_err(),
        ConfigError::InvalidNetType
    );
    assert_eq!(
        Config::from_env(None, Some("not-a-duration"), None).unwrap_err(),
        ConfigError::InvalidDuration
    );
}

#[test]
fn net_type_defaults_to_central() {
    assert_eq!(NetType::default(), NetType::Central);
    let cfg = Config::from_env(Some("central"), None, None).unwrap();
    assert_eq!(cfg.net_type, NetType::Central);
}

#[test]
fn only_the_parser_edge_is_refused_before_parsing() {
    // The parser's one panic edge needs a seconds total at the 64-bit
    // limit together with a full nanosecond carry; the guard refuses only
    // values that combine sub-second syntax with more than eleven digits.
    assert_eq!(
        Config::from_env(None, Some("18446744073709551615s 1000000000ns"), None).unwrap_err(),
        ConfigError::InvalidDuration
    );
    assert_eq!(
        Config::from_env(None, Some("111111111111ms"), None).unwrap_err(),
        ConfigError::InvalidDuration
    );
    // Large whole-second values carry no sub-second syntax and parse
    // whatever their digits.
    let cfg = Config::from_env(None, Some("1234567890s"), None).unwrap();
    assert_eq!(cfg.ping_interval, DurationVal { secs: 1_234_567_890, nanos: 0 });
    let cfg = Config::from_env(None, Some("99999999999999s"), None).unwrap();
    assert_eq!(cfg.ping_interval, DurationVal { secs: 99_999_999_999_999, nanos: 0 });
    // Sub-second values within eleven digits parse too.
    let cfg = Config::from_env(None, Some("3600000000us"), None).unwrap();
    assert_eq!(cfg.ping_interval, DurationVal { secs: 3600, nanos: 0 });
    let cfg = Config::from_env(None, Some("99999s 99999ms"), None).unwrap();
    assert_eq!(cfg.ping_interval, DurationVal { secs: 100_098, nanos: 999_000_000 });
    let cfg = Config::from_env(None, Some("9999s 999ms"), None).unwrap();
    assert_eq!(cfg.ping_interval, DurationVal { secs: 9999, nanos: 999_000_000 });
}
