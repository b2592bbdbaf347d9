use sandpile::config::{parse_decimal, Config, ConfigError};

fn args(values: &[&str]) -> Vec<String> {
    values.iter().map(|v| v.to_string()).collect()
}

#[test]
fn defaults_when_no_arguments() {
    let config = Config::from_args(&args(&[])).unwrap_or_else(|_| panic!("refused"));
    assert_eq!(config.width(), 10);
    assert_eq!(config.height(), 10);
    assert_eq!(config.period_ms(), 10);
}

#[test]
fn all_three_values_read_in_order() {
    let config = Config::from_args(&args(&["30", "20", "0"])).unwrap_or_else(|_| panic!("refused"));
    assert_eq!(config.width(), 30);
    assert_eq!(config.height(), 20);
    assert_eq!(config.period_ms(), 0);
}

#[test]
fn missing_values_take_defaults() {
    let config = Config::from_args(&args(&["7"])).unwrap_or_else(|_| panic!("refused"));
    assert_eq!(config.width(), 7);
    assert_eq!(config.height(), 10);
    assert_eq!(config.period_ms(), 10);
}

#[test]
fn config_errors() {
    assert!(matches!(Config::from_args(&args(&["0"])), Err(ConfigError::Width)));
    assert!(matches!(Config::from_args(&args(&["ten"])), Err(ConfigError::Width)));
    assert!(matches!(Config::from_args(&args(&["5", "-1"])), Err(ConfigError::Height)));
    assert!(matches!(Config::from_args(&args(&["5", "0", "x"])), Err(ConfigError::Height)));
    assert!(matches!(Config::from_args(&args(&["5", "5", "1.5"])), Err(ConfigError::Period)));
    assert!(matches!(
        Config::from_args(&args(&["4294967296", "4294967296"])),
        Err(ConfigError::TooLarge)
    ));
}

#[test]
fn decimal_parsing() {
    assert_eq!(parse_decimal("0"), Some(0));
    assert_eq!(parse_decimal("042"), Some(42));
    assert_eq!(parse_decimal("18446744073709551615"), Some(u64::MAX));
    assert_eq!(parse_decimal("18446744073709551616"), None);
    assert_eq!(parse_decimal(""), None);
    assert_eq!(parse_decimal("+5"), None);
    assert_eq!(parse_decimal("12a"), None);
    assert_eq!(parse_decimal(" 1"), None);
}
