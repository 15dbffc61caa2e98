use quicktrad::config::AppConfig;
use quicktrad::translation::{
    build_provider, deepl_endpoint, deepl_form, join_google_chunks, libretranslate_fields,
    mymemory_langpair, pick_deepl_translation, pick_mymemory_translation, pro_key, Provider,
    TranslateError,
};

#[test]
fn provider_selection() {
    let mut cfg = AppConfig::default();
    assert!(matches!(build_provider(&cfg), Provider::MyMemory));
    cfg.provider = "mymemory".to_string();
    assert!(matches!(build_provider(&cfg), Provider::MyMemory));
    cfg.provider = "google".to_string();
    assert!(matches!(build_provider(&cfg), Provider::GoogleFree));
    cfg.provider = "argos".to_string();
    match build_provider(&cfg) {
        Provider::Unimplemented(name) => assert_eq!(name, "argos"),
        other => panic!("unexpected {:?}", other),
    }
}

#[test]
fn libretranslate_uses_url_and_optional_key() {
    let mut cfg = AppConfig::default();
    cfg.provider = "libretranslate".to_string();
    match build_provider(&cfg) {
        Provider::LibreTranslate { url, api_key } => {
            assert_eq!(url, "https://libretranslate.com/translate");
            assert_eq!(api_key, None);
        }
        other => panic!("unexpected {:?}", other),
    }
    cfg.api_keys.insert("libretranslate".to_string(), "k1".to_string());
    match build_provider(&cfg) {
        Provider::LibreTranslate { api_key, .. } => assert_eq!(api_key.as_deref(), Some("k1")),
        other => panic!("unexpected {:?}", other),
    }
}

#[test]
fn deepl_needs_a_key_and_free_keys_end_in_fx() {
    let mut cfg = AppConfig::default();
    cfg.provider = "deepl".to_string();
    match build_provider(&cfg) {
        Provider::Unimplemented(name) => {
            assert_eq!(name, "deepl (defina api_keys.deepl no config.toml)");
            assert_eq!(
                TranslateError::Unimplemented(name).message(),
                "Provedor 'deepl (defina api_keys.deepl no config.toml)' ainda não implementado."
            );
        }
        other => panic!("unexpected {:?}", other),
    }
    cfg.api_keys.insert("deepl".to_string(), "abc:fx".to_string());
    match build_provider(&cfg) {
        Provider::DeepL { api_key, pro } => {
            assert_eq!(api_key, "abc:fx");
            assert!(!pro);
        }
        other => panic!("unexpected {:?}", other),
    }
    cfg.api_keys.insert("deepl".to_string(), "abc".to_string());
    assert!(matches!(build_provider(&cfg), Provider::DeepL { pro: true, .. }));
    assert!(pro_key("fx"));
    assert!(!pro_key(":fx"));
}

#[test]
fn deepl_request_shape() {
    assert_eq!(deepl_endpoint(true), "https://api.deepl.com/v2/translate");
    assert_eq!(deepl_endpoint(false), "https://api-free.deepl.com/v2/translate");
    let form = deepl_form("key", "olá", "pt", "en");
    let as_pairs: Vec<(&str, &str)> = form.iter().map(|(a, b)| (a.as_str(), b.as_str())).collect();
    assert_eq!(as_pairs, vec![("auth_key", "key"), ("text", "olá"), ("target_lang", "en"), ("source_lang", "pt")]);
    let auto = deepl_form("key", "olá", "auto", "en");
    assert_eq!(auto.len(), 3);
}

#[test]
fn deepl_answer_takes_first_translation() {
    assert_eq!(pick_deepl_translation(vec!["a".to_string(), "b".to_string()]).ok().unwrap(), "a");
    let err = pick_deepl_translation(vec![]).err().unwrap();
    assert_eq!(err.message(), "DeepL não retornou tradução");
}

#[test]
fn mymemory_refuses_auto() {
    assert_eq!(mymemory_langpair("pt", "en").ok().unwrap(), "pt|en");
    let err = mymemory_langpair("auto", "en").err().unwrap();
    assert_eq!(
        err.message(),
        "O provedor MyMemory não faz auto-detecção de idioma: escolha o idioma de origem manualmente."
    );
}

#[test]
fn mymemory_falls_back_to_first_nonblank_match() {
    let top = pick_mymemory_translation("hello".to_string(), vec!["x".to_string()]);
    assert_eq!(top.ok().unwrap(), "hello");
    let fallback = pick_mymemory_translation(
        "  ".to_string(),
        vec!["".to_string(), " \t".to_string(), "hi".to_string(), "hey".to_string()],
    );
    assert_eq!(fallback.ok().unwrap(), "hi");
    let none = pick_mymemory_translation("".to_string(), vec![" ".to_string()]);
    assert_eq!(
        none.err().unwrap().message(),
        "MyMemory não encontrou nenhuma tradução para esse texto."
    );
}

#[test]
fn google_chunks_are_concatenated() {
    let chunks = vec![Some("Good ".to_string()), None, Some("morning".to_string())];
    assert_eq!(join_google_chunks(&chunks), "Good morning");
    assert_eq!(join_google_chunks(&vec![]), "");
}

#[test]
fn libretranslate_body() {
    let f = libretranslate_fields("oi", "auto", "en", &Some("k".to_string()));
    let as_pairs: Vec<(&str, &str)> = f.iter().map(|(a, b)| (a.as_str(), b.as_str())).collect();
    assert_eq!(as_pairs, vec![("q", "oi"), ("source", "auto"), ("target", "en"), ("format", "text"), ("api_key", "k")]);
    assert_eq!(libretranslate_fields("oi", "pt", "en", &None).len(), 4);
}
