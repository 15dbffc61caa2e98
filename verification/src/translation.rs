//! Which translation provider the settings select, and the decisions each
//! provider makes around its web request: the parameters it sends and how
//! it reads an answer. The requests themselves are made by the caller.
use vstd::prelude::*;
use vstd::string::*;
use crate::config::AppConfig;
use crate::text::{all_white, append_str, chars_of, is_blank, text_eq};

verus! {

/// A translation engine and what it needs.
#[derive(Debug)]
pub enum Provider {
    /// A free translation memory; no key, no language detection.
    MyMemory,
    /// A LibreTranslate instance, with an optional key.
    LibreTranslate { url: String, api_key: Option<String> },
    /// Google's unofficial public endpoint.
    GoogleFree,
    /// DeepL; free keys end in `:fx` and use the free host.
    DeepL { api_key: String, pro: bool },
    /// A provider name that is not supported, or DeepL without a key.
    Unimplemented(String),
}

/// The characters of an optional string.
pub open spec fn opt_view(o: Option<String>) -> Option<Seq<char>> {
    match o {
        Some(s) => Some(s@),
        None => None,
    }
}

/// The value of a key in a map, if it has one.
pub open spec fn lookup(m: Map<Seq<char>, Seq<char>>, k: Seq<char>) -> Option<Seq<char>> {
    if m.contains_key(k) {
        Some(m[k])
    } else {
        None
    }
}

/// Whether `s` ends with `suffix`.
pub open spec fn ends_with(s: Seq<char>, suffix: Seq<char>) -> bool {
    s.len() >= suffix.len() && s.subrange(s.len() - suffix.len(), s.len() as int) == suffix
}

/// A DeepL key is a pro key unless it ends in `:fx`.
pub open spec fn is_pro_key(key: Seq<char>) -> bool {
    !ends_with(key, seq![':', 'f', 'x'])
}

/// The provider that the settings select.
pub open spec fn builds_provider(cfg: AppConfig, r: Provider) -> bool {
    let name = cfg.provider@;
    if name == "mymemory"@ {
        r is MyMemory
    } else if name == "libretranslate"@ {
        r matches Provider::LibreTranslate { url, api_key } && url@ == cfg.libretranslate_url@
            && opt_view(api_key) == lookup(cfg.api_keys@, "libretranslate"@)
    } else if name == "google"@ {
        r is GoogleFree
    } else if name == "deepl"@ {
        match lookup(cfg.api_keys@, "deepl"@) {
            Some(key) => r matches Provider::DeepL { api_key, pro } && api_key@ == key && pro
                == is_pro_key(key),
            None => r matches Provider::Unimplemented(n) && n@
                == "deepl (defina api_keys.deepl no config.toml)"@,
        }
    } else {
        r matches Provider::Unimplemented(n) && n@ == name
    }
}

/// The provider follows the settings: `libretranslate` goes to the URL set
/// in `libretranslate_url`, whatever it is, with the key from `api_keys` if
/// there is one; `deepl` with a key carries that key, on the pro host
/// exactly when the key is not a free one; `mymemory` needs nothing.
pub proof fn provider_follows_settings(cfg: AppConfig, r: Provider)
    requires
        builds_provider(cfg, r),
    ensures
        cfg.provider@ == "libretranslate"@ ==> (r matches Provider::LibreTranslate { url, api_key }
            && url@ == cfg.libretranslate_url@ && opt_view(api_key) == lookup(
            cfg.api_keys@,
            "libretranslate"@,
        )),
        cfg.provider@ == "deepl"@ && lookup(cfg.api_keys@, "deepl"@) is Some ==> (r matches Provider::DeepL {
            api_key,
            pro,
        } && Some(api_key@) == lookup(cfg.api_keys@, "deepl"@) && pro == is_pro_key(api_key@)),
        cfg.provider@ == "mymemory"@ ==> r is MyMemory,
        cfg.provider@ == "google"@ ==> r is GoogleFree,
{
    reveal_strlit("libretranslate");
    reveal_strlit("deepl");
    reveal_strlit("mymemory");
    reveal_strlit("google");
    assert("libretranslate"@.len() == 14);
    assert("mymemory"@.len() == 8);
    assert("google"@.len() == 6);
    assert("deepl"@.len() == 5);
    assert(builds_provider(cfg, r));
}

fn copy_opt(o: Option<&String>) -> (r: Option<String>)
    ensures
        opt_view(r) == match o {
            Some(s) => Some(s@),
            None => None,
        },
{
    match o {
        Some(s) => Some(s.clone()),
        None => None,
    }
}

/// Whether a DeepL key is a pro key.
pub fn pro_key(key: &str) -> (r: bool)
    ensures
        r == is_pro_key(key@),
{
    let v = chars_of(key);
    let n = v.len();
    let free = n >= 3 && v[n - 3] == ':' && v[n - 2] == 'f' && v[n - 1] == 'x';
    proof {
        if free {
            assert(v@.subrange(n - 3, n as int) =~= seq![':', 'f', 'x']);
        } else if n >= 3 {
            if v@.subrange(n - 3, n as int) == seq![':', 'f', 'x'] {
                assert(v@.subrange(n - 3, n as int)[0] == v@[n - 3]);
                assert(v@.subrange(n - 3, n as int)[1] == v@[n - 2]);
                assert(v@.subrange(n - 3, n as int)[2] == v@[n - 1]);
            }
        }
    }
    !free
}

/// Picks the provider named in the settings.
pub fn build_provider(cfg: &AppConfig) -> (r: Provider)
    ensures
        builds_provider(*cfg, r),
{
    let name = cfg.provider.as_str();
    if text_eq(name, "mymemory") {
        Provider::MyMemory
    } else if text_eq(name, "libretranslate") {
        let key = copy_opt(cfg.api_keys.get("libretranslate"));
        Provider::LibreTranslate { url: cfg.libretranslate_url.clone(), api_key: key }
    } else if text_eq(name, "google") {
        Provider::GoogleFree
    } else if text_eq(name, "deepl") {
        match cfg.api_keys.get("deepl") {
            Some(key) => Provider::DeepL { api_key: key.clone(), pro: pro_key(key.as_str()) },
            None => Provider::Unimplemented(
                String::from_str("deepl (defina api_keys.deepl no config.toml)"),
            ),
        }
    } else {
        Provider::Unimplemented(cfg.provider.clone())
    }
}

/// A failure decided by the library rather than by the network.
#[derive(Debug)]
pub enum TranslateError {
    /// MyMemory cannot detect the source language.
    AutoDetectUnsupported,
    /// MyMemory returned no usable translation.
    NoMatch,
    /// DeepL returned no translation.
    NoTranslation,
    /// The named provider is not implemented.
    Unimplemented(String),
}

impl TranslateError {
    /// The message shown to the user.
    pub fn message(&self) -> (s: String)
        ensures
            s@ == match self {
                TranslateError::AutoDetectUnsupported => "O provedor MyMemory não faz auto-detecção de idioma: escolha o idioma de origem manualmente."@,
                TranslateError::NoMatch => "MyMemory não encontrou nenhuma tradução para esse texto."@,
                TranslateError::NoTranslation => "DeepL não retornou tradução"@,
                TranslateError::Unimplemented(name) => "Provedor '"@ + name@ + "' ainda não implementado."@,
            },
    {
        match self {
            TranslateError::AutoDetectUnsupported => String::from_str(
                "O provedor MyMemory não faz auto-detecção de idioma: escolha o idioma de origem manualmente.",
            ),
            TranslateError::NoMatch => String::from_str(
                "MyMemory não encontrou nenhuma tradução para esse texto.",
            ),
            TranslateError::NoTranslation => String::from_str("DeepL não retornou tradução"),
            TranslateError::Unimplemented(name) => {
                let mut s = String::from_str("Provedor '");
                append_str(&mut s, name.as_str());
                append_str(&mut s, "' ainda não implementado.");
                s
            },
        }
    }
}

/// The `langpair` parameter MyMemory takes (`source|target`); a source of
/// `auto` is refused, since MyMemory does not detect languages.
pub fn mymemory_langpair(source: &str, target: &str) -> (r: Result<String, TranslateError>)
    ensures
        r is Err <==> source@ == "auto"@,
        r matches Err(e) ==> e is AutoDetectUnsupported,
        r matches Ok(p) ==> p@ == source@ + seq!['|'] + target@,
{
    if text_eq(source, "auto") {
        return Err(TranslateError::AutoDetectUnsupported);
    }
    let mut p = String::from_str(source);
    p.push('|');
    append_str(&mut p, target);
    Ok(p)
}

/// The index of the first string that is not blank, or -1, read from left
/// to right.
pub open spec fn first_nonblank(items: Seq<String>) -> int
    decreases items.len(),
{
    if items.len() == 0 {
        -1
    } else {
        let p = first_nonblank(items.drop_last());
        if p >= 0 {
            p
        } else if !all_white(items.last()@) {
            items.len() - 1
        } else {
            -1
        }
    }
}

proof fn lemma_first_nonblank(items: Seq<String>)
    ensures
        -1 <= first_nonblank(items) < items.len(),
    decreases items.len(),
{
    if items.len() > 0 {
        lemma_first_nonblank(items.drop_last());
    }
}

/// Reads MyMemory's answer: its top translation when that is not blank,
/// otherwise the first match that is not blank (the top entry sometimes
/// comes back empty).
pub fn pick_mymemory_translation(top: String, matches: Vec<String>) -> (r: Result<String, TranslateError>)
    ensures
        !all_white(top@) ==> (r matches Ok(t) && t@ == top@),
        all_white(top@) && first_nonblank(matches@) >= 0 ==> (r matches Ok(t) && t@
            == matches@[first_nonblank(matches@)]@),
        all_white(top@) && first_nonblank(matches@) < 0 ==> (r matches Err(e) && e is NoMatch),
{
    if !is_blank(top.as_str()) {
        return Ok(top);
    }
    proof {
        lemma_first_nonblank(matches@);
    }
    for i in 0..matches.len()
        invariant
            all_white(top@),
            first_nonblank(matches@.take(i as int)) == -1,
    {
        assert(matches@.take(i + 1).drop_last() =~= matches@.take(i as int));
        assert(matches@.take(i + 1).last() == matches@[i as int]);
        if !is_blank(matches[i].as_str()) {
            proof {
                lemma_first_nonblank_prefix(matches@, i + 1);
            }
            return Ok(matches[i].clone());
        }
    }
    assert(matches@.take(matches@.len() as int) =~= matches@);
    Err(TranslateError::NoMatch)
}

proof fn lemma_first_nonblank_prefix(items: Seq<String>, n: int)
    requires
        0 <= n <= items.len(),
        first_nonblank(items.take(n)) >= 0,
    ensures
        first_nonblank(items) == first_nonblank(items.take(n)),
    decreases items.len() - n,
{
    if n < items.len() {
        assert(items.take(n + 1).drop_last() =~= items.take(n));
        lemma_first_nonblank_prefix(items, n + 1);
    } else {
        assert(items.take(n) =~= items);
    }
}

/// DeepL's endpoint: the pro host for pro keys, the free host otherwise.
pub fn deepl_endpoint(pro: bool) -> (s: String)
    ensures
        s@ == (if pro {
            "https://api.deepl.com/v2/translate"@
        } else {
            "https://api-free.deepl.com/v2/translate"@
        }),
{
    if pro {
        String::from_str("https://api.deepl.com/v2/translate")
    } else {
        String::from_str("https://api-free.deepl.com/v2/translate")
    }
}

fn pair(k: &str, v: &str) -> (r: (String, String))
    ensures
        r.0@ == k@,
        r.1@ == v@,
{
    (String::from_str(k), String::from_str(v))
}

/// The form DeepL receives: key, text and target language, and the source
/// language unless it is `auto` (DeepL then detects it).
pub fn deepl_form(api_key: &str, text: &str, source: &str, target: &str) -> (r: Vec<(String, String)>)
    ensures
        r@.len() == (if source@ == "auto"@ {
            3int
        } else {
            4int
        }),
        r@[0].0@ == "auth_key"@ && r@[0].1@ == api_key@,
        r@[1].0@ == "text"@ && r@[1].1@ == text@,
        r@[2].0@ == "target_lang"@ && r@[2].1@ == target@,
        source@ != "auto"@ ==> r@[3].0@ == "source_lang"@ && r@[3].1@ == source@,
{
    let mut params: Vec<(String, String)> = Vec::new();
    params.push(pair("auth_key", api_key));
    params.push(pair("text", text));
    params.push(pair("target_lang", target));
    if !text_eq(source, "auto") {
        params.push(pair("source_lang", source));
    }
    params
}

/// Reads DeepL's answer: its first translation.
pub fn pick_deepl_translation(translations: Vec<String>) -> (r: Result<String, TranslateError>)
    ensures
        translations@.len() > 0 ==> (r matches Ok(t) && t@ == translations@[0]@),
        translations@.len() == 0 ==> (r matches Err(e) && e is NoTranslation),
{
    if translations.len() == 0 {
        Err(TranslateError::NoTranslation)
    } else {
        Ok(translations[0].clone())
    }
}

/// The sentences of Google's answer joined, skipping entries without text.
pub open spec fn joined_chunks(chunks: Seq<Option<String>>) -> Seq<char>
    decreases chunks.len(),
{
    if chunks.len() == 0 {
        seq![]
    } else {
        let p = joined_chunks(chunks.drop_last());
        match chunks.last() {
            Some(s) => p + s@,
            None => p,
        }
    }
}

/// Joins the sentences of Google's answer.
pub fn join_google_chunks(chunks: &Vec<Option<String>>) -> (s: String)
    ensures
        s@ == joined_chunks(chunks@),
{
    let mut out = String::new();
    for i in 0..chunks.len()
        invariant
            out@ == joined_chunks(chunks@.take(i as int)),
    {
        assert(chunks@.take(i + 1).drop_last() =~= chunks@.take(i as int));
        assert(chunks@.take(i + 1).last() == chunks@[i as int]);
        match &chunks[i] {
            Some(c) => append_str(&mut out, c.as_str()),
            None => {},
        }
    }
    assert(chunks@.take(chunks@.len() as int) =~= chunks@);
    out
}

/// The JSON fields LibreTranslate receives: text, source, target, format
/// `text`, and the key when there is one.
pub fn libretranslate_fields(text: &str, source: &str, target: &str, api_key: &Option<String>) -> (r:
    Vec<(String, String)>)
    ensures
        r@.len() == (if api_key is Some {
            5int
        } else {
            4int
        }),
        r@[0].0@ == "q"@ && r@[0].1@ == text@,
        r@[1].0@ == "source"@ && r@[1].1@ == source@,
        r@[2].0@ == "target"@ && r@[2].1@ == target@,
        r@[3].0@ == "format"@ && r@[3].1@ == "text"@,
        api_key matches Some(k) ==> r@[4].0@ == "api_key"@ && r@[4].1@ == k@,
{
    let mut fields: Vec<(String, String)> = Vec::new();
    fields.push(pair("q", text));
    fields.push(pair("source", source));
    fields.push(pair("target", target));
    fields.push(pair("format", "text"));
    match api_key {
        Some(k) => fields.push(pair("api_key", k.as_str())),
        None => {},
    }
    fields
}

} // verus!
