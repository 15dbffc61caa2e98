use quicktrad::normalizer::{normalize_text, reload_normalizer, ReplacementsConfig, TextNormalizer};
use quicktrad::table::StringMap;

fn table(pairs: &[(&str, &str)]) -> StringMap {
    let mut m = StringMap::new();
    for (k, v) in pairs {
        m.insert(k.to_string(), v.to_string());
    }
    m
}

/// The built-in replacement tables that the tests below exercise.
fn builtin_replacements() -> ReplacementsConfig {
    ReplacementsConfig {
        pt: table(&[
            ("vc", "você"),
            ("td", "tudo"),
            ("c/", "com"),
            ("/", "barra"),
            ("sla", "sei lá"),
            ("tá", "está"),
            ("n", "não"),
            ("q", "que"),
        ]),
        en: table(&[
            ("idk", "I don't know"),
            ("wtf", "what the fuck"),
            ("w/", "with"),
            ("/", "slash"),
            ("tbh", "to be honest"),
        ]),
    }
}

#[test]
fn test_pt_normalization() {
    let normalizer = TextNormalizer::load(builtin_replacements(), None);
    let input = "olá vc, td bem? vou c/ vc hoje / sla";
    let output = normalizer.normalize(input, "pt");
    assert_eq!(output, "olá você, tudo bem? vou com você hoje barra sei lá");
}

#[test]
fn test_word_boundaries_no_false_positives() {
    let normalizer = TextNormalizer::load(builtin_replacements(), None);
    let input = "o advogado banana quer ajuda";
    let output = normalizer.normalize(input, "pt");
    assert_eq!(output, "o advogado banana quer ajuda");
}

#[test]
fn test_en_normalization() {
    let normalizer = TextNormalizer::load(builtin_replacements(), None);
    let input = "idk wtf you mean w/ this / tbh";
    let output = normalizer.normalize(input, "en");
    assert_eq!(output, "I don't know what the fuck you mean with this slash to be honest");
}

#[test]
fn test_case_insensitivity() {
    let normalizer = TextNormalizer::load(builtin_replacements(), None);
    let input = "IDK WTF VC TÁ FALANDO";
    let output_en = normalizer.normalize(input, "en");
    assert!(output_en.contains("I don't know what the fuck"));
    let output_pt = normalizer.normalize(input, "pt");
    assert!(output_pt.contains("você está"));
}

#[test]
fn user_table_overrides_builtin_entry() {
    let mut user = ReplacementsConfig::new();
    user.pt = table(&[("vc", "vocês")]);
    let normalizer = TextNormalizer::load(builtin_replacements(), Some(user));
    assert_eq!(normalizer.normalize("vc e td", "pt-BR"), "vocês e tudo");
}

#[test]
fn regional_tags_use_primary_subtag() {
    let normalizer = TextNormalizer::load(builtin_replacements(), None);
    assert_eq!(normalizer.normalize("vc", "PT_br"), "você");
    assert_eq!(normalizer.normalize("vc", "en-US"), "vc");
    assert_eq!(normalizer.normalize("idk", "fr"), "I don't know");
}

#[test]
fn longer_keys_win_over_their_prefixes() {
    let mut en = table(&[("w/", "with"), ("w/o", "without")]);
    en.insert("/".to_string(), "slash".to_string());
    let cfg = ReplacementsConfig { pt: StringMap::new(), en };
    let normalizer = TextNormalizer::load(cfg, None);
    assert_eq!(normalizer.normalize("w/o sugar, w/ milk", "en"), "without sugar, with milk");
}

#[test]
fn meta_characters_in_keys_are_literal() {
    let cfg = ReplacementsConfig { pt: StringMap::new(), en: table(&[("a.b", "dot"), ("c+", "plus")]) };
    let normalizer = TextNormalizer::load(cfg, None);
    assert_eq!(normalizer.normalize("axb a.b c+ cc", "en"), "axb dot plus cc");
}

#[test]
fn empty_table_leaves_text_untouched() {
    let normalizer = TextNormalizer::load(ReplacementsConfig::new(), None);
    assert_eq!(normalizer.normalize("  two   spaces ", "en"), "  two   spaces ");
}

#[test]
fn whitespace_is_squeezed_after_replacement() {
    let normalizer = TextNormalizer::load(builtin_replacements(), None);
    assert_eq!(normalizer.normalize("  vc \t\n td  ", "pt"), "você tudo");
}

#[test]
fn unreadable_normalizer_returns_text() {
    assert_eq!(normalize_text(None, " vc ", "pt"), " vc ");
    let normalizer = TextNormalizer::load(builtin_replacements(), None);
    assert_eq!(normalize_text(Some(&normalizer), "vc", "pt"), "você");
}

#[test]
fn primary_subtag_case_is_ignored() {
    let normalizer = TextNormalizer::load(builtin_replacements(), None);
    for tag in ["pt", "PT", "pT", "Pt-br", "pt_PT", "PT-"] {
        assert_eq!(normalizer.normalize("vc td", tag), "você tudo");
    }
    for tag in ["", "p", "ptx", "en", "-pt", "fr_CA"] {
        assert_eq!(normalizer.normalize("vc td", tag), normalizer.normalize("vc td", "en"));
    }
}

#[test]
fn empty_tables_in_every_language() {
    let normalizer = TextNormalizer::load(ReplacementsConfig::new(), Some(ReplacementsConfig::new()));
    for tag in ["pt", "en", "pt-BR", ""] {
        assert_eq!(normalizer.normalize(" vc \t td  ", tag), " vc \t td  ");
    }
}

#[test]
fn reload_takes_user_edits() {
    let mut current = TextNormalizer::load(builtin_replacements(), None);
    assert_eq!(current.normalize("vc", "pt"), "você");
    let mut user = ReplacementsConfig::new();
    user.pt = table(&[("vc", "vós"), ("blz", "beleza")]);
    reload_normalizer(&mut current, builtin_replacements(), Some(user));
    let mut user_again = ReplacementsConfig::new();
    user_again.pt = table(&[("vc", "vós"), ("blz", "beleza")]);
    let fresh = TextNormalizer::load(builtin_replacements(), Some(user_again));
    for text in ["vc", "blz, vc", "td bem?", "idk"] {
        for tag in ["pt", "en"] {
            assert_eq!(current.normalize(text, tag), fresh.normalize(text, tag));
        }
    }
    assert_eq!(current.normalize("blz, vc", "pt"), "beleza, vós");
}

#[test]
fn compiled_tables_report_no_refusal() {
    let normalizer = TextNormalizer::load(builtin_replacements(), None);
    assert!(!normalizer.pattern_refused(true));
    assert!(!normalizer.pattern_refused(false));
    let empty = TextNormalizer::load(ReplacementsConfig::new(), None);
    assert!(!empty.pattern_refused(true));
    assert!(!empty.pattern_refused(false));
}
