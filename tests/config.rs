use mcstatus_http::{parse_flag, Config, ConfigError, CACHE_CAPACITY};

#[test]
fn defaults_apply() {
    let c = Config::load(None, None, None, None).unwrap();
    assert_eq!(c.mc_monitor_executable, "mc-monitor");
    assert!(c.use_mc_monitor);
    assert_eq!(c.capacity, CACHE_CAPACITY);
    assert_eq!(c.time_to_live, 10_000_000_000);
    assert_eq!(c.time_to_idle, None);
}

#[test]
fn durations_are_read() {
    let c = Config::load(
        Some("/usr/bin/probe".to_owned()),
        Some("1m 30s".to_owned()),
        Some("250ms".to_owned()),
        Some("true".to_owned()),
    )
    .unwrap();
    assert_eq!(c.mc_monitor_executable, "/usr/bin/probe");
    assert_eq!(c.time_to_live, 90_000_000_000);
    assert_eq!(c.time_to_idle, Some(250_000_000));
}

#[test]
fn bad_settings_are_refused() {
    let r = Config::load(None, Some("soon".to_owned()), None, None);
    assert_eq!(r.unwrap_err(), ConfigError::InvalidTimeToLive);
    let r = Config::load(None, None, Some("later".to_owned()), None);
    assert_eq!(r.unwrap_err(), ConfigError::InvalidTimeToIdle);
    let r = Config::load(None, None, None, Some("yes".to_owned()));
    assert_eq!(r.unwrap_err(), ConfigError::InvalidBackendFlag);
}

#[test]
fn from_parts_checks_each_value() {
    let c = Config::from_parts(None, Some(5), Some(Some(7)), Some("false".to_owned())).unwrap();
    assert_eq!(c.time_to_live, 5);
    assert_eq!(c.time_to_idle, Some(7));
    assert!(!c.use_mc_monitor);
    let too_long = u64::MAX as u128 + 1;
    assert_eq!(
        Config::from_parts(None, Some(too_long), None, None).unwrap_err(),
        ConfigError::DurationTooLong
    );
    assert_eq!(
        Config::from_parts(None, None, None, None).unwrap_err(),
        ConfigError::InvalidTimeToLive
    );
    assert_eq!(
        Config::from_parts(None, Some(1), Some(None), None).unwrap_err(),
        ConfigError::InvalidTimeToIdle
    );
}

#[test]
fn flags_read_like_std() {
    assert_eq!(parse_flag("true"), Some(true));
    assert_eq!(parse_flag("false"), Some(false));
    assert_eq!(parse_flag("True"), None);
    assert_eq!(parse_flag(""), None);
}
