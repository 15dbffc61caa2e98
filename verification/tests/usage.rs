use quicktrad::config::AppConfig;
use quicktrad::usage::{
    day_of_month_utc, db_path, month_start, usage_disabled_message, usage_entry, usage_line, UsageSummary,
};

#[test]
fn day_of_month_examples() {
    assert_eq!(day_of_month_utc(0), 1);
    assert_eq!(day_of_month_utc(86_399), 1);
    assert_eq!(day_of_month_utc(86_400), 2);
    assert_eq!(day_of_month_utc(1_700_000_000), 14);
    assert_eq!(day_of_month_utc(951_782_400), 29);
    assert_eq!(day_of_month_utc(-1), 31);
    assert_eq!(day_of_month_utc(i64::MIN), day_of_month_utc(i64::MIN));
}

#[test]
fn month_start_examples() {
    assert_eq!(month_start(1_700_000_000), 1_698_796_800);
    assert_eq!(month_start(1_698_796_800), 1_698_796_800);
    assert_eq!(month_start(1_698_796_799), 1_696_118_400);
    assert_eq!(month_start(0), 0);
    assert_eq!(month_start(951_782_400), 949_363_200);
}

#[test]
fn history_off_or_blank_records_nothing() {
    let mut cfg = AppConfig::default();
    assert!(usage_entry(&cfg, "olá").is_none());
    cfg.save_history = true;
    assert!(usage_entry(&cfg, " \n\t").is_none());
    let e = usage_entry(&cfg, "olá mundo").unwrap();
    assert_eq!(e.provider, "mymemory");
    assert_eq!(e.source_lang, "pt");
    assert_eq!(e.target_lang, "en");
    assert_eq!(e.chars, 9);
    assert_eq!(e.text, "olá mundo");
}

#[test]
fn usage_line_format() {
    let s = UsageSummary {
        provider: "deepl".to_string(),
        entries: 3,
        chars_total: 1234,
        entries_month: 0,
        chars_month: -7,
    };
    assert_eq!(
        usage_line(&s),
        "provider=deepl chars_total=1234 entries_total=3 chars_este_mes=-7 entries_este_mes=0"
    );
}

#[test]
fn usage_db_lives_in_the_config_dir() {
    assert_eq!(db_path("/c/quicktrad", false), "/c/quicktrad/usage.db");
    assert_eq!(db_path("D:\\c\\quicktrad", true), "D:\\c\\quicktrad\\usage.db");
}

#[test]
fn usage_needs_history() {
    let mut cfg = AppConfig::default();
    assert_eq!(
        usage_disabled_message(&cfg).as_deref(),
        Some("[quicktrad] save_history está desligado no config.toml — nenhum uso foi registrado. Ligue com `save_history = true` pra passar a contar.")
    );
    cfg.save_history = true;
    assert_eq!(usage_disabled_message(&cfg), None);
}
