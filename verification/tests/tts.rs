use quicktrad::normalizer::{ReplacementsConfig, TextNormalizer};
use quicktrad::table::StringMap;
use quicktrad::tts::{
    find_piper_executable, known_voice_url, piper_search_list, resolve_voice_for_lang,
    speech_text, uses_configured_piper, voice_model_files, voice_model_urls,
};

#[test]
fn voice_resolution_order() {
    let mut voices = StringMap::new();
    assert_eq!(resolve_voice_for_lang(&voices, "pt-BR"), "pt_BR-faber-medium");
    assert_eq!(resolve_voice_for_lang(&voices, "de"), "en_US-lessac-high");
    voices.insert("pt".to_string(), "pt_PT-tugao-medium".to_string());
    assert_eq!(resolve_voice_for_lang(&voices, "PT_br"), "pt_PT-tugao-medium");
    voices.insert("pt-br".to_string(), "pt_BR-edresson-low".to_string());
    assert_eq!(resolve_voice_for_lang(&voices, "pt-BR"), "pt_BR-edresson-low");
}

#[test]
fn voice_files_and_downloads() {
    let (onnx, json) = voice_model_files("en_US-lessac-high");
    assert_eq!(onnx, "en_US-lessac-high.onnx");
    assert_eq!(json, "en_US-lessac-high.onnx.json");
    let (u1, u2) = voice_model_urls("pt_BR-faber-medium").unwrap();
    assert_eq!(u1, "https://huggingface.co/rhasspy/piper-voices/resolve/main/pt/pt_BR/faber/medium/pt_BR-faber-medium.onnx");
    assert_eq!(u2, "https://huggingface.co/rhasspy/piper-voices/resolve/main/pt/pt_BR/faber/medium/pt_BR-faber-medium.onnx.json");
    assert!(voice_model_urls("xx").is_none());
    assert!(known_voice_url("en_US-lessac-high").is_some());
}

#[test]
fn configured_piper_path_rules() {
    assert!(!uses_configured_piper(""));
    assert!(!uses_configured_piper("  "));
    assert!(!uses_configured_piper("piper"));
    assert!(uses_configured_piper("/opt/piper/piper"));
}

#[test]
fn piper_search_order() {
    let list = piper_search_list("/opt/p", "/data/bin", Some("/usr/bin::/bin/"), false);
    assert_eq!(
        list,
        vec!["/opt/p", "/data/bin/piper/piper", "/data/bin/piper", "/usr/bin/piper", "piper", "/bin/piper"]
    );
    let found = find_piper_executable("piper", "/data/bin", Some("/usr/bin:/bin"), false, |p: &String| p == "/bin/piper");
    assert_eq!(found.ok().unwrap(), "/bin/piper");
    let missing = find_piper_executable("", "/d", None, false, |_p: &String| false);
    assert_eq!(
        missing.err().unwrap(),
        "Executável do Piper não foi encontrado. Instale o Piper no sistema ou configure o caminho no config.toml (tts.piper_path)."
    );
}

#[test]
fn piper_search_order_on_windows() {
    let list = piper_search_list("piper", "D:\\q", Some("C:\\a;C:\\b\\"), true);
    assert_eq!(
        list,
        vec![
            "D:\\q\\piper\\piper",
            "D:\\q\\piper",
            "D:\\q\\piper\\piper.exe",
            "D:\\q\\piper.exe",
            "C:\\a\\piper",
            "C:\\b\\piper",
            "C:\\a\\piper.exe",
            "C:\\b\\piper.exe",
        ]
    );
    let found = find_piper_executable("", "D:\\q", Some("C:\\a;C:\\b"), true, |p: &String| {
        p == "C:\\b\\piper.exe"
    });
    assert_eq!(found.ok().unwrap(), "C:\\b\\piper.exe");
    let unix = piper_search_list("", "/q", Some("/x;/y"), false);
    assert_eq!(unix, vec!["/q/piper/piper", "/q/piper", "/x;/y/piper"]);
}

#[test]
fn spoken_text_rules() {
    let mut pt = StringMap::new();
    pt.insert("vc".to_string(), "você".to_string());
    pt.insert("x".to_string(), " ".to_string());
    let n = TextNormalizer::load(ReplacementsConfig { pt, en: StringMap::new() }, None);
    assert_eq!(speech_text(Some(&n), "   ", "pt"), None);
    assert_eq!(speech_text(Some(&n), "  vc  ", "pt").as_deref(), Some("você"));
    assert_eq!(speech_text(Some(&n), " x ", "pt").as_deref(), Some("x"));
    assert_eq!(speech_text(None, " vc ", "pt").as_deref(), Some("vc"));
}
