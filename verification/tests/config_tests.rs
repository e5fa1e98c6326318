use ekuke::config::{config_path, config_path_for, ekuke_dir_for, default_ai_base_url, default_ai_model, plugin_config, Config};

#[test]
fn defaults() {
    assert_eq!(default_ai_base_url(), "https://api.openai.com/v1");
    assert_eq!(default_ai_model(), "gpt-4o-mini");
    let c = Config::defaults_in("/home/u/.ekuke");
    assert_eq!(c.default_author, "Anonymous-beta");
    assert_eq!(c.plugins_dir, "/home/u/.ekuke/plugins");
    assert_eq!(c.cases_dir, "/home/u/.ekuke/cases");
    assert_eq!(c.ui_theme, "dark");
    assert!(!c.ai_enabled && !c.proxy_enabled && !c.tor_enabled);
    assert!(c.api_keys.is_empty());
}

#[test]
fn default_config_lives_in_ekuke_dir() {
    let c = Config::default();
    assert!(c.plugins_dir.ends_with(".ekuke/plugins"));
    assert!(c.cases_dir.ends_with(".ekuke/cases"));
    assert!(config_path().ends_with(".ekuke/config.json"));
}

#[test]
fn plugin_config_overrides_come_last() {
    let keys = vec![("shodan".to_string(), "k1".to_string())];
    let over = vec![("shodan".to_string(), "k2".to_string()), ("depth".to_string(), "2".to_string())];
    let merged = plugin_config(&keys, &over);
    assert_eq!(merged.len(), 3);
    let last_shodan = merged.iter().rev().find(|(k, _)| k == "shodan").unwrap();
    assert_eq!(last_shodan.1, "k2");
}

#[test]
fn application_directory_from_home() {
    assert_eq!(ekuke_dir_for(Some("/home/u")), "/home/u/.ekuke");
    assert_eq!(ekuke_dir_for(None), "./.ekuke");
    assert_eq!(config_path_for(Some("/home/u")), "/home/u/.ekuke/config.json");
    assert_eq!(config_path_for(None), "./.ekuke/config.json");
    let c = Config::defaults_for(Some("/srv/h"));
    assert_eq!(c.plugins_dir, "/srv/h/.ekuke/plugins");
    assert_eq!(c.cases_dir, "/srv/h/.ekuke/cases");
    let d = Config::defaults_for(None);
    assert_eq!(d.cases_dir, "./.ekuke/cases");
    assert_eq!(d.ai_model, "gpt-4o-mini");
}
