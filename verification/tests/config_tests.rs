use shadow_proxy::config::{
    default_max_concurrent, default_proxy_addr, default_timeout, default_ui_addr, Config,
    ConfigError, EnvSettings, ProxyConfig, SocketAddress, UiConfig,
};
use shadow_proxy::parse::{parse_server_list, parse_u64, parse_usize};
use shadow_proxy::text::{has_prefix, is_white_space_char, trim, trim_end_char};

fn config_with(old_servers: Vec<String>, new_servers: Vec<String>) -> Config {
    Config {
        proxy: ProxyConfig {
            address: default_proxy_addr(),
            old_servers,
            new_servers,
            old_servers_timeout_secs: 15,
            new_servers_timeout_secs: 15,
            old_servers_additional_headers: vec![],
            new_servers_additional_headers: vec![],
            max_concurrent_requests: 1000,
        },
        ui: UiConfig {
            address: default_ui_addr(),
        },
    }
}

fn unset_env() -> EnvSettings {
    EnvSettings {
        proxy_address: None,
        ui_address: None,
        old_servers: None,
        new_servers: None,
        old_timeout: None,
        new_timeout: None,
        max_concurrent: None,
    }
}

#[test]
fn test_config_validation_requires_old_servers() {
    let config = Config {
        proxy: ProxyConfig {
            address: default_proxy_addr(),
            old_servers: vec![],
            new_servers: vec!["http://localhost:8082".to_string()],
            old_servers_timeout_secs: 15,
            new_servers_timeout_secs: 15,
            old_servers_additional_headers: vec![],
            new_servers_additional_headers: vec![],
            max_concurrent_requests: 1000,
        },
        ui: UiConfig {
            address: default_ui_addr(),
        },
    };

    assert!(config.validate().is_err());
}

#[test]
fn test_config_validation_requires_new_servers() {
    let config = Config {
        proxy: ProxyConfig {
            address: default_proxy_addr(),
            old_servers: vec!["http://localhost:8080".to_string()],
            new_servers: vec![],
            old_servers_timeout_secs: 15,
            new_servers_timeout_secs: 15,
            old_servers_additional_headers: vec![],
            new_servers_additional_headers: vec![],
            max_concurrent_requests: 1000,
        },
        ui: UiConfig {
            address: default_ui_addr(),
        },
    };

    assert!(config.validate().is_err());
}

#[test]
fn test_valid_config() {
    let config = Config {
        proxy: ProxyConfig {
            address: default_proxy_addr(),
            old_servers: vec!["http://localhost:8080".to_string()],
            new_servers: vec!["http://localhost:8082".to_string()],
            old_servers_timeout_secs: 15,
            new_servers_timeout_secs: 15,
            old_servers_additional_headers: vec![],
            new_servers_additional_headers: vec![],
            max_concurrent_requests: 1000,
        },
        ui: UiConfig {
            address: default_ui_addr(),
        },
    };

    assert!(config.validate().is_ok());
}

#[test]
fn validation_reports_missing_old_before_missing_new() {
    let config = config_with(vec![], vec![]);
    assert!(matches!(config.validate(), Err(ConfigError::NoOldServers)));
    let config = config_with(vec!["http://a".to_string()], vec![]);
    assert!(matches!(config.validate(), Err(ConfigError::NoNewServers)));
}

#[test]
fn validation_names_first_bad_old_server() {
    let config = config_with(
        vec![
            "https://ok".to_string(),
            "ftp://bad".to_string(),
            "localhost:1".to_string(),
        ],
        vec!["gopher://also-bad".to_string()],
    );
    match config.validate() {
        Err(ConfigError::InvalidOldServerUrl(u)) => assert_eq!(u, "ftp://bad"),
        other => panic!("unexpected {:?}", other),
    }
}

#[test]
fn validation_names_first_bad_new_server() {
    let config = config_with(
        vec!["http://ok".to_string()],
        vec!["https://fine".to_string(), "HTTP://upper".to_string()],
    );
    match config.validate() {
        Err(ConfigError::InvalidNewServerUrl(u)) => assert_eq!(u, "HTTP://upper"),
        other => panic!("unexpected {:?}", other),
    }
}

#[test]
fn validation_accepts_https() {
    let config = config_with(vec!["https://a".to_string()], vec!["https://b".to_string()]);
    assert!(config.validate().is_ok());
    let config = config_with(vec!["http:/".to_string()], vec!["https://b".to_string()]);
    assert!(config.validate().is_err());
}

#[test]
fn config_error_messages() {
    assert_eq!(
        ConfigError::NoOldServers.message(),
        "At least one old server must be specified"
    );
    assert_eq!(
        ConfigError::NoNewServers.message(),
        "At least one new server must be specified"
    );
    assert_eq!(
        ConfigError::InvalidOldServerUrl("x".to_string()).message(),
        "Old server URL must start with http:// or https://: x"
    );
    assert_eq!(
        ConfigError::InvalidNewServerUrl("y".to_string()).message(),
        "New server URL must start with http:// or https://: y"
    );
}

#[test]
fn defaults_have_documented_values() {
    assert_eq!(default_timeout(), 15);
    assert_eq!(default_max_concurrent(), 1000);
    assert_eq!(
        default_proxy_addr(),
        SocketAddress::V4 {
            ip: [0, 0, 0, 0],
            port: 8081
        }
    );
    assert_eq!(
        default_ui_addr(),
        SocketAddress::V4 {
            ip: [0, 0, 0, 0],
            port: 9000
        }
    );
}

#[test]
fn from_env_with_nothing_set_uses_defaults() {
    let config = Config::from_env(&unset_env());
    assert_eq!(config.proxy.address, default_proxy_addr());
    assert_eq!(config.ui.address, default_ui_addr());
    assert_eq!(config.proxy.old_servers, vec!["http://localhost:8080".to_string()]);
    assert_eq!(config.proxy.new_servers, vec!["http://localhost:8082".to_string()]);
    assert_eq!(config.proxy.old_servers_timeout_secs, 15);
    assert_eq!(config.proxy.new_servers_timeout_secs, 15);
    assert_eq!(config.proxy.max_concurrent_requests, 1000);
    assert!(config.proxy.old_servers_additional_headers.is_empty());
    assert!(config.proxy.new_servers_additional_headers.is_empty());
    assert!(config.validate().is_ok());
}

#[test]
fn from_env_reads_every_setting() {
    let addr = SocketAddress::V6 {
        ip: [0, 0, 0, 0, 0, 0, 0, 1],
        port: 1234,
        flowinfo: 0,
        scope_id: 0,
    };
    let env = EnvSettings {
        proxy_address: Some(addr),
        ui_address: Some(SocketAddress::V4 {
            ip: [127, 0, 0, 1],
            port: 9100,
        }),
        old_servers: Some(" http://prod1:8080 , http://prod2:8080,,".to_string()),
        new_servers: Some("http://staging:8082".to_string()),
        old_timeout: Some("30".to_string()),
        new_timeout: Some("+7".to_string()),
        max_concurrent: Some("100".to_string()),
    };
    let config = Config::from_env(&env);
    assert_eq!(config.proxy.address, addr);
    assert_eq!(
        config.ui.address,
        SocketAddress::V4 {
            ip: [127, 0, 0, 1],
            port: 9100
        }
    );
    assert_eq!(
        config.proxy.old_servers,
        vec!["http://prod1:8080".to_string(), "http://prod2:8080".to_string()]
    );
    assert_eq!(config.proxy.new_servers, vec!["http://staging:8082".to_string()]);
    assert_eq!(config.proxy.old_servers_timeout_secs, 30);
    assert_eq!(config.proxy.new_servers_timeout_secs, 7);
    assert_eq!(config.proxy.max_concurrent_requests, 100);
}

#[test]
fn from_env_falls_back_on_unparsable_numbers() {
    let mut env = unset_env();
    env.old_timeout = Some("fifteen".to_string());
    env.new_timeout = Some(" 20".to_string());
    env.max_concurrent = Some("-5".to_string());
    let config = Config::from_env(&env);
    assert_eq!(config.proxy.old_servers_timeout_secs, 15);
    assert_eq!(config.proxy.new_servers_timeout_secs, 15);
    assert_eq!(config.proxy.max_concurrent_requests, 1000);
}

#[test]
fn from_env_with_empty_server_setting_fails_validation() {
    let mut env = unset_env();
    env.old_servers = Some(" , ,".to_string());
    let config = Config::from_env(&env);
    assert!(config.proxy.old_servers.is_empty());
    assert!(matches!(config.validate(), Err(ConfigError::NoOldServers)));
}

#[test]
fn client_timeout_is_larger_timeout() {
    let mut config = config_with(vec![], vec![]);
    config.proxy.old_servers_timeout_secs = 3;
    config.proxy.new_servers_timeout_secs = 40;
    assert_eq!(config.proxy.client_timeout_secs(), 40);
    config.proxy.old_servers_timeout_secs = 41;
    assert_eq!(config.proxy.client_timeout_secs(), 41);
}

#[test]
fn parse_numbers_agree_with_std() {
    let inputs = [
        "", "+", "-", "0", "00", "+0", "-0", "15", "+15", "1_000", " 1", "1 ", "12a",
        "18446744073709551615", "18446744073709551616", "+18446744073709551615",
        "99999999999999999999999", "٣", "0x10", "1.0",
    ];
    for s in inputs.iter() {
        assert_eq!(parse_u64(s), s.parse::<u64>().ok(), "input {:?}", s);
        assert_eq!(parse_usize(s), s.parse::<usize>().ok(), "input {:?}", s);
    }
}

#[test]
fn white_space_matches_std_for_every_char() {
    for u in 0u32..=0x10FFFF {
        if let Some(c) = char::from_u32(u) {
            assert_eq!(is_white_space_char(c), c.is_whitespace(), "char {:#x}", u);
        }
    }
}

#[test]
fn trim_matches_std() {
    let inputs = [
        "", " ", "  a  ", "\t\nhttp://x\u{3000}", "\u{a0}x\u{85}", "x y", "\u{200b}x",
    ];
    for s in inputs.iter() {
        assert_eq!(trim(s), s.trim(), "input {:?}", s);
    }
}

#[test]
fn trim_end_char_matches_std() {
    for s in ["http://a/", "http://a//", "http://a", "/", "", "a/b/"].iter() {
        assert_eq!(trim_end_char(s, '/'), s.trim_end_matches('/'));
    }
}

#[test]
fn has_prefix_cases() {
    assert!(has_prefix("http://x", "http://"));
    assert!(has_prefix("http://", "http://"));
    assert!(!has_prefix("http:/", "http://"));
    assert!(!has_prefix("https://x", "http://"));
    assert!(has_prefix("anything", ""));
}

#[test]
fn server_list_matches_std_split() {
    let inputs = [
        "", ",", "a", " a ,b,, c ", "http://x:1,http://y:2", "\u{3000}a\u{3000},\tb",
        "a,,,", ",a",
    ];
    for raw in inputs.iter() {
        let expected: Vec<String> = raw
            .split(',')
            .map(|s| s.trim().to_string())
            .filter(|s| !s.is_empty())
            .collect();
        assert_eq!(parse_server_list(raw), expected, "input {:?}", raw);
    }
}

#[test]
fn server_list_round_trip() {
    let items = vec!["http://a:1".to_string(), "http://b:2".to_string(), "c d".to_string()];
    let joined = items.join(",");
    assert_eq!(parse_server_list(&joined), items);
    assert!(parse_server_list("").is_empty());
}

#[test]
fn validation_refuses_zero_concurrency_last() {
    let mut config = config_with(vec!["http://a".to_string()], vec!["http://b".to_string()]);
    config.proxy.max_concurrent_requests = 0;
    let err = config.validate().unwrap_err();
    assert!(matches!(err, ConfigError::NoConcurrency));
    assert_eq!(err.message(), "Max concurrent requests must be at least 1");
    config.proxy.old_servers = vec![];
    assert!(matches!(config.validate().unwrap_err(), ConfigError::NoOldServers));
    config.proxy.old_servers = vec!["ftp://a".to_string()];
    assert!(matches!(
        config.validate().unwrap_err(),
        ConfigError::InvalidOldServerUrl(_)
    ));
    config.proxy.old_servers = vec!["http://a".to_string()];
    config.proxy.max_concurrent_requests = 1;
    assert!(config.validate().is_ok());
}
