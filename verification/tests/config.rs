use quicktrad::config::{
    apply_lang_codes, gdk_backend_value, config_path, lang_code_for_flag, lang_codes_from_args, set_font_size,
    status_line, swap_config, AppConfig, LinuxBackend, WindowPosition,
};

fn args(list: &[&str]) -> Vec<String> {
    list.iter().map(|s| s.to_string()).collect()
}

#[test]
fn defaults_match_a_fresh_installation() {
    let cfg = AppConfig::default();
    assert_eq!(cfg.provider, "mymemory");
    assert_eq!(cfg.source_lang, "pt");
    assert_eq!(cfg.target_lang, "en");
    assert_eq!(cfg.libretranslate_url, "https://libretranslate.com/translate");
    assert_eq!(cfg.api_keys.len(), 0);
    assert!(!cfg.save_history);
    assert_eq!(cfg.font_size, 14);
    assert_eq!(cfg.window_width, 520);
    assert_eq!(cfg.window_height, 240);
    assert_eq!(cfg.window_position, WindowPosition::CursorMonitor);
    assert_eq!(cfg.window_x, None);
    assert_eq!(cfg.window_y, None);
    assert!(cfg.always_on_top);
    assert!(cfg.hide_on_blur);
    assert!(cfg.show_on_start);
    assert_eq!(cfg.linux_backend, LinuxBackend::XWayland);
}

#[test]
fn font_size_is_clamped() {
    let mut cfg = AppConfig::default();
    assert_eq!(set_font_size(&mut cfg, 5), 12);
    assert_eq!(cfg.font_size, 12);
    assert_eq!(set_font_size(&mut cfg, 40), 28);
    assert_eq!(cfg.font_size, 28);
    assert_eq!(set_font_size(&mut cfg, 18), 18);
    assert_eq!(cfg.font_size, 18);
    assert_eq!(set_font_size(&mut cfg, 12), 12);
    assert_eq!(set_font_size(&mut cfg, 28), 28);
}

#[test]
fn swap_inverts_the_pair() {
    let cfg = AppConfig::default();
    let swapped = swap_config(cfg).ok().unwrap();
    assert_eq!(swapped.source_lang, "en");
    assert_eq!(swapped.target_lang, "pt");
    let back = swap_config(swapped).ok().unwrap();
    assert_eq!(back.source_lang, "pt");
    assert_eq!(back.target_lang, "en");
}

#[test]
fn swap_refuses_auto_source() {
    let mut cfg = AppConfig::default();
    cfg.source_lang = "auto".to_string();
    let err = swap_config(cfg).err().unwrap();
    assert_eq!(
        err.message(),
        "Não dá para inverter com origem \"auto\": defina um idioma de origem explícito primeiro."
    );
}

#[test]
fn status_line_is_source_space_target() {
    let cfg = AppConfig::default();
    assert_eq!(status_line(&cfg), "pt en");
}

#[test]
fn flag_aliases() {
    assert_eq!(lang_code_for_flag("du").as_deref(), Some("de"));
    assert_eq!(lang_code_for_flag("jp").as_deref(), Some("ja"));
    assert_eq!(lang_code_for_flag("auto").as_deref(), Some("auto"));
    assert_eq!(lang_code_for_flag("ru").as_deref(), Some("ru"));
    assert_eq!(lang_code_for_flag("xx"), None);
}

#[test]
fn two_flags_set_source_and_target() {
    let codes = lang_codes_from_args(&args(&["quicktrad", "--pt", "--en"]));
    assert_eq!(codes, vec!["pt".to_string(), "en".to_string()]);
    let mut cfg = AppConfig::default();
    cfg.source_lang = "fr".to_string();
    assert!(apply_lang_codes(&mut cfg, &codes));
    assert_eq!(cfg.source_lang, "pt");
    assert_eq!(cfg.target_lang, "en");
}

#[test]
fn one_flag_sets_only_the_target() {
    let codes = lang_codes_from_args(&args(&["quicktrad", "--jp"]));
    assert_eq!(codes, vec!["ja".to_string()]);
    let mut cfg = AppConfig::default();
    assert!(apply_lang_codes(&mut cfg, &codes));
    assert_eq!(cfg.source_lang, "pt");
    assert_eq!(cfg.target_lang, "ja");
}

#[test]
fn other_arguments_are_not_language_flags() {
    let codes = lang_codes_from_args(&args(&["quicktrad", "--toggle", "pt", "-en", "--", "--du"]));
    assert_eq!(codes, vec!["de".to_string()]);
    let none = lang_codes_from_args(&args(&["quicktrad", "--toggle"]));
    assert!(none.is_empty());
    let mut cfg = AppConfig::default();
    assert!(!apply_lang_codes(&mut cfg, &none));
    assert_eq!(cfg.source_lang, "pt");
    assert_eq!(cfg.target_lang, "en");
}

#[test]
fn three_flags_use_the_first_two() {
    let codes = lang_codes_from_args(&args(&["--es", "--fr", "--it"]));
    let mut cfg = AppConfig::default();
    apply_lang_codes(&mut cfg, &codes);
    assert_eq!(cfg.source_lang, "es");
    assert_eq!(cfg.target_lang, "fr");
}

#[test]
fn config_file_lives_in_the_config_dir() {
    assert_eq!(config_path("/home/u/.config/quicktrad", false), "/home/u/.config/quicktrad/config.toml");
    assert_eq!(config_path("/tmp/quicktrad/", false), "/tmp/quicktrad/config.toml");
    assert_eq!(config_path("", false), "config.toml");
}

#[test]
fn config_path_on_windows() {
    assert_eq!(
        config_path("C:\\Users\\u\\AppData\\Roaming\\quicktrad", true),
        "C:\\Users\\u\\AppData\\Roaming\\quicktrad\\config.toml"
    );
    assert_eq!(config_path("C:\\q\\", true), "C:\\q\\config.toml");
    assert_eq!(config_path("C:/q/", true), "C:/q/config.toml");
    assert_eq!(config_path("C:", true), "C:config.toml");
    assert_eq!(config_path("C:", false), "C:/config.toml");
}

#[test]
fn gdk_backend_choice() {
    assert_eq!(gdk_backend_value(false, LinuxBackend::XWayland).as_deref(), Some("x11"));
    assert_eq!(gdk_backend_value(false, LinuxBackend::Wayland).as_deref(), Some("wayland"));
    assert_eq!(gdk_backend_value(false, LinuxBackend::Auto), None);
    assert_eq!(gdk_backend_value(true, LinuxBackend::Wayland), None);
}
