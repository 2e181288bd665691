use vortexwall::config::{
    choose_config, config_candidates, default_ban_secs, default_config_path, default_threshold,
    default_watch, default_window_secs, load, startup_config, validate, AppConfig, ConfigError,
    ConfigFile, RawConfig, WatchConfig,
};

fn empty() -> RawConfig {
    RawConfig { threshold: None, window_secs: None, ban_secs: None, allowlist: None, watch: None }
}

fn config(threshold: usize, window_secs: u64, ban_secs: u64) -> AppConfig {
    AppConfig { threshold, window_secs, ban_secs, ..AppConfig::builtin() }
}

fn check_builtin(cfg: &AppConfig) {
    assert_eq!(cfg.threshold, 5);
    assert_eq!(cfg.window_secs, 600);
    assert_eq!(cfg.ban_secs, 3600);
    assert!(cfg.allowlist.is_empty());
    assert_eq!(cfg.watch.len(), 1);
    assert_eq!(cfg.watch[0].service, "sshd");
}

#[test]
fn defaults() {
    assert_eq!(default_threshold(), 5);
    assert_eq!(default_window_secs(), 600);
    assert_eq!(default_ban_secs(), 3600);
    assert_eq!(default_watch().len(), 1);
    assert_eq!(default_watch()[0].service, "sshd");
    check_builtin(&AppConfig::builtin());
    check_builtin(&empty().resolve());
}

#[test]
fn what_is_written_down_is_kept() {
    let raw = RawConfig {
        threshold: Some(0),
        window_secs: Some(1),
        ban_secs: Some(2),
        allowlist: Some(vec!["192.0.2.1".to_string()]),
        watch: Some(vec![]),
    };
    let cfg = raw.resolve();
    assert_eq!((cfg.threshold, cfg.window_secs, cfg.ban_secs), (0, 1, 2));
    assert_eq!(cfg.allowlist, vec!["192.0.2.1".to_string()]);
    assert!(cfg.watch.is_empty());
    let raw = RawConfig {
        watch: Some(vec![WatchConfig { service: "nginx".to_string() }]),
        ..empty()
    };
    assert_eq!(raw.resolve().watch[0].service, "nginx");
}

#[test]
fn loading_says_what_failed() {
    assert_eq!(
        load("/a/b", ConfigFile::Unreadable("gone".to_string())).unwrap_err(),
        "failed to read /a/b: gone"
    );
    assert_eq!(
        load("/a/b", ConfigFile::Malformed("bad key".to_string())).unwrap_err(),
        "failed to parse /a/b: bad key"
    );
    check_builtin(&load("/a/b", ConfigFile::Parsed(empty())).unwrap());
}

#[test]
fn zero_settings_are_refused() {
    assert_eq!(validate(&AppConfig::builtin()), Ok(()));
    assert_eq!(validate(&config(1, 1, 1)), Ok(()));
    assert_eq!(validate(&config(0, 600, 3600)), Err(ConfigError::ZeroThreshold));
    assert_eq!(validate(&config(5, 0, 3600)), Err(ConfigError::ZeroWindow));
    assert_eq!(validate(&config(5, 600, 0)), Err(ConfigError::ZeroBan));
    assert_eq!(validate(&config(0, 0, 0)), Err(ConfigError::ZeroThreshold));
    assert_eq!(validate(&config(1, 0, 0)), Err(ConfigError::ZeroWindow));
    assert_eq!(ConfigError::ZeroThreshold.message(), "threshold must be at least 1");
    assert_eq!(ConfigError::ZeroWindow.message(), "window_secs must be at least 1");
    assert_eq!(ConfigError::ZeroBan.message(), "ban_secs must be at least 1");
}

#[test]
fn startup_takes_the_file_or_the_defaults() {
    check_builtin(&startup_config(None).unwrap());
    assert_eq!(startup_config(Some(Err("why".to_string()))).unwrap_err(), "why");
    assert_eq!(startup_config(Some(Ok(config(7, 8, 9)))).unwrap().threshold, 7);
    assert_eq!(
        startup_config(Some(Ok(config(7, 0, 9)))).unwrap_err(),
        "Config error: window_secs must be at least 1"
    );
}

#[test]
fn a_named_file_comes_first() {
    assert_eq!(choose_config(Some(1), Some(2)), Some(1));
    assert_eq!(choose_config(None, Some(2)), Some(2));
    assert_eq!(choose_config::<u8>(None, None), None);
}

fn candidates(xdg: Option<&str>, home: Option<&str>) -> Vec<String> {
    config_candidates(xdg.map(|s| s.to_string()), home.map(|s| s.to_string()))
}

#[test]
fn candidates_follow_the_environment() {
    assert_eq!(
        candidates(Some("/x"), Some("/home/u")),
        vec![
            "/x/vortexwall/config.toml",
            "/home/u/.config/vortexwall/config.toml",
            "config.toml",
        ]
    );
    assert_eq!(
        candidates(None, Some("/home/u")),
        vec!["/home/u/.config/vortexwall/config.toml", "config.toml"]
    );
    assert_eq!(candidates(Some("/x/"), None), vec!["/x/vortexwall/config.toml", "config.toml"]);
    assert_eq!(candidates(Some(""), None), vec!["vortexwall/config.toml", "config.toml"]);
    assert_eq!(candidates(None, Some("/")), vec!["/.config/vortexwall/config.toml", "config.toml"]);
    assert_eq!(candidates(None, None), vec!["config.toml"]);
}

#[test]
fn the_first_file_that_exists_is_taken() {
    let two = || vec!["a".to_string(), "b".to_string()];
    assert_eq!(default_config_path(two(), &vec![true, true]), Some("a".to_string()));
    assert_eq!(default_config_path(two(), &vec![false, true]), Some("b".to_string()));
    assert_eq!(default_config_path(two(), &vec![false, false]), None);
    assert_eq!(default_config_path(vec![], &vec![]), None);
}
