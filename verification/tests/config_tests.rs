use banqline::config::{app_dir_from, default_config, Config};

fn expected_app_dir() -> std::path::PathBuf {
    dirs::config_dir()
        .or_else(|| dirs::home_dir().map(|home| home.join(".config")))
        .unwrap_or_default()
        .join("banqline")
}

#[test]
fn default_config_has_sensible_values() {
    let cfg = default_config();
    assert_eq!(cfg.redirect_url, "http://localhost:19876/callback");
    assert_eq!(cfg.callback_port, 19876);
    assert_eq!(cfg.log_level, "info");
    assert!(cfg.application_id.is_empty());
    assert!(cfg.key_path.is_empty());
    assert!(cfg.tag_rules.is_empty());
    assert!(cfg.alert_rules.is_empty());
}

#[test]
fn config_path_helper() {
    let cfg = default_config();
    let app_dir = expected_app_dir();

    assert_eq!(cfg.config_path(), app_dir.join("config.yaml").to_string_lossy());
    assert_eq!(cfg.session_path(), app_dir.join("session.json").to_string_lossy());
}

#[test]
fn key_abs_path_empty_is_error() {
    let cfg = default_config();
    assert!(cfg.key_abs_path().is_err());
}

#[test]
fn key_abs_path_empty_error_text() {
    let cfg = default_config();
    assert_eq!(cfg.key_abs_path().unwrap_err(), "key_path is not set");
}

#[test]
fn key_abs_path_resolves_relative_to_app_config_dir() {
    let app_dir = expected_app_dir();
    let cfg = Config { key_path: "my-key.pem".into(), ..default_config() };
    let resolved = cfg.key_abs_path().unwrap();
    assert_eq!(resolved, app_dir.join("my-key.pem").to_string_lossy());
}

#[test]
fn key_abs_path_uses_file_name_inside_app_config_dir() {
    let app_dir = expected_app_dir();
    let cfg = Config { key_path: "/tmp/other/place/my-key.pem".into(), ..default_config() };

    let resolved = cfg.key_abs_path().unwrap();

    assert_eq!(resolved, app_dir.join("my-key.pem").to_string_lossy());
}

#[test]
fn key_abs_path_without_file_name_is_error() {
    let cfg = Config { key_path: "/tmp/..".into(), ..default_config() };
    assert_eq!(cfg.key_abs_path().unwrap_err(), "key_path must contain a file name");
}

#[test]
fn data_path_is_inside_app_dir() {
    let cfg = default_config();
    assert_eq!(cfg.data_path(), expected_app_dir().join("data.db").to_string_lossy());
    assert_eq!(cfg.app_dir(), expected_app_dir().to_string_lossy());
}

#[test]
fn app_dir_from_prefers_config_dir() {
    assert_eq!(app_dir_from(Some("/cfg".into()), Some("/home/u".into())), "/cfg/banqline");
    assert_eq!(app_dir_from(None, Some("/home/u".into())), "/home/u/.config/banqline");
}
