use leader_election::config::{config_text, ConfigError};

#[test]
fn config_text_is_trimmed() {
    assert_eq!(
        config_text(b"  {\"list\": [\"10.0.0.1\"]}\n").unwrap(),
        "{\"list\": [\"10.0.0.1\"]}"
    );
}

#[test]
fn blank_config_is_refused() {
    assert_eq!(config_text(b"").err(), Some(ConfigError::Empty));
    assert_eq!(config_text(b" \n\t ").err(), Some(ConfigError::Empty));
}

#[test]
fn invalid_utf8_is_replaced() {
    assert_eq!(config_text(b"\xffab").unwrap(), "\u{fffd}ab");
}

#[test]
fn trimming_follows_unicode_white_space() {
    assert_eq!(config_text("\u{3000}x\u{85}\u{a0}".as_bytes()).unwrap(), "x");
    assert_eq!(config_text("\u{200b}x".as_bytes()).unwrap(), "\u{200b}x");
    assert_eq!(config_text("\u{2028}\u{2029}".as_bytes()).err(), Some(ConfigError::Empty));
}
