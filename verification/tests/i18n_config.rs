use diff_by_time::config::Config;
use diff_by_time::i18n::I18n;

#[test]
fn messages_in_english_and_chinese() {
    let en = I18n::new("en");
    assert_eq!(en.t("time_label"), "time");
    assert_eq!(en.t("no_such_key"), "no_such_key");
    assert_eq!(en.t_format("diff_exit_code", &["0", "1"]), "exit code: 0 -> 1");
    let zh = I18n::new("zh_CN");
    assert_eq!(zh.t("time_label"), "时间");
    let other = I18n::new("fr");
    assert_eq!(other.t("time_label"), "time");
}

#[test]
fn placeholders_are_filled_in_turn() {
    let en = I18n::new("en");
    assert_eq!(en.t_format("diff_command", &["ls"]), "Command: ls");
    assert_eq!(en.t_format("diff_command", &[]), "Command: {0}");
}

#[test]
fn default_settings() {
    let c = Config::default();
    assert_eq!(c.storage.max_retention_days, 365);
    assert!(c.storage.auto_archive);
    assert_eq!(c.display.max_history_shown, 10);
    assert_eq!(c.display.language, "auto");
    assert_eq!(c.display.tui_mode, "interactive");
    assert!(!c.display.alt_screen);
}

#[test]
fn effective_language() {
    let mut c = Config::default();
    assert_eq!(c.get_effective_language(Some("zh_CN.UTF-8")), "zh_CN");
    assert_eq!(c.get_effective_language(None), "en_US");
    c.display.language = "zh".to_string();
    assert_eq!(c.get_effective_language(Some("en_US.UTF-8")), "zh");
}

#[test]
fn settings_file_location() {
    assert_eq!(Config::get_config_path(Some("/home/u".to_string())), "/home/u/.dt/config.toml");
    assert_eq!(Config::get_config_path(None), "./.dt/config.toml");
}

#[test]
fn settings_file_of_the_current_user() {
    assert!(Config::default_config_path().ends_with(".dt/config.toml"));
}
