use scramjet::config::Config;

#[test]
fn test_config_defaults() {
    let config = Config::default();
    assert!(config.validate().is_ok(), "Default config should be valid");
    assert_eq!(config.rpc_url, "https://api.mainnet-beta.solana.com");
    assert!(config.geyser_url.is_none());
    assert_eq!(config.rpc_poll_interval_ms, 400);
    assert_eq!(config.scout_interval_ms, 1000);
    assert_eq!(config.default_compute_unit_limit, 200000);
}

#[test]
fn test_config_validation_interval_too_low() {
    let mut config = Config::default();
    config.rpc_poll_interval_ms = 10;
    let result = config.validate();
    assert!(result.is_err());
    let err = result.unwrap_err().message();
    assert!(err.contains("too low"));
}

#[test]
fn test_config_validation_zero_compute_units() {
    let mut config = Config::default();
    config.default_compute_unit_limit = 0;
    let result = config.validate();
    assert!(result.is_err());
    let err = result.unwrap_err().message();
    assert!(err.contains("transactions will fail"));
}

#[test]
fn test_config_validation_keep_alive_exceeds_timeout() {
    let mut config = Config::default();
    config.quic_keep_alive_secs = 15;
    config.quic_idle_timeout_secs = 10;
    let result = config.validate();
    assert!(result.is_err());
    let err = result.unwrap_err().message();
    assert!(err.contains("must be less than"));
}

#[test]
fn test_config_validation_scout_interval_too_low() {
    let mut config = Config::default();
    config.scout_interval_ms = 49;
    let result = config.validate();
    assert!(result.is_err());
    assert!(result.unwrap_err().message().contains("too low"));
}

#[test]
fn test_config_validation_monitor_interval_too_low() {
    let mut config = Config::default();
    config.monitor_interval_ms = 1;
    let result = config.validate();
    assert!(result.is_err());
    assert!(result.unwrap_err().message().contains("too low"));
}

#[test]
fn test_config_validation_zero_idle_timeout() {
    let mut config = Config::default();
    config.quic_keep_alive_secs = 0;
    config.quic_idle_timeout_secs = 0;
    let result = config.validate();
    assert!(result.is_err());
    assert!(result.unwrap_err().message().contains("disconnect immediately"));
}

#[test]
fn test_config_validation_backoff_cap_below_initial() {
    let mut config = Config::default();
    config.geyser_reconnect_delay_ms = 5000;
    config.geyser_max_reconnect_delay_ms = 4000;
    let result = config.validate();
    assert!(result.is_err());
    assert!(result.unwrap_err().message().contains("must be >="));
}

#[test]
fn test_config_validation_boundaries_accepted() {
    let mut config = Config::default();
    config.rpc_poll_interval_ms = 50;
    config.scout_interval_ms = 50;
    config.monitor_interval_ms = 50;
    config.quic_keep_alive_secs = 9;
    config.quic_idle_timeout_secs = 10;
    config.geyser_reconnect_delay_ms = 4000;
    config.geyser_max_reconnect_delay_ms = 4000;
    assert!(config.validate().is_ok());
}

#[test]
fn test_config_duration_getters() {
    let config = Config::default();
    assert_eq!(config.rpc_poll_interval(), std::time::Duration::from_millis(400));
    assert_eq!(config.scout_interval(), std::time::Duration::from_millis(1000));
    assert_eq!(config.monitor_interval(), std::time::Duration::from_millis(400));
    assert_eq!(config.geyser_reconnect_delay(), std::time::Duration::from_millis(1000));
    assert_eq!(config.geyser_max_reconnect_delay(), std::time::Duration::from_millis(10000));
    assert_eq!(config.quic_keep_alive(), std::time::Duration::from_secs(5));
    assert_eq!(config.quic_idle_timeout(), std::time::Duration::from_secs(10));
}
