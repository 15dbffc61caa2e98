//! Text-to-speech decisions: the voice for a language, the voice files and
//! where the known voices are downloaded from, whether a configured Piper
//! path is to be tried, and the text that is actually spoken.
use vstd::prelude::*;
use vstd::string::*;
use crate::normalizer::{normalize_text, normalized, TextNormalizer};
use crate::keyorder::key_views;
use crate::table::StringMap;
use crate::text::{
    all_ascii, ascii_lowered, all_white, append_str, chars_of, check_pt, is_blank, is_pt, join_path, joined_path, lang_prefix,
    lang_prefix_of, lowercase, split_at_char, split_fields, tag_prefix, text_eq, trim_white, trimmed,
};

verus! {

/// The voice for a language: the one configured for the full lower-cased
/// tag, else the one for its primary subtag, else the built-in Portuguese
/// voice for `pt` and the English voice for everything else.
pub open spec fn voice_for(voices: Map<Seq<char>, Seq<char>>, lang: Seq<char>) -> Seq<char> {
    voice_for_lowered(voices, lowercase(lang))
}

/// The voice for an already lower-cased tag.
pub open spec fn voice_for_lowered(voices: Map<Seq<char>, Seq<char>>, lower: Seq<char>) -> Seq<char> {
    let prefix = tag_prefix(lower);
    if voices.contains_key(lower) {
        voices[lower]
    } else if voices.contains_key(prefix) {
        voices[prefix]
    } else if is_pt(prefix) {
        "pt_BR-faber-medium"@
    } else {
        "en_US-lessac-high"@
    }
}

/// A voice configured for the full lower-cased tag wins, for any language;
/// failing that, one configured for the primary subtag; only when neither is
/// configured does the built-in voice apply, Portuguese for `pt` and English
/// otherwise. So the voice is always a configured one or a built-in one.
pub proof fn configured_voice_wins(voices: Map<Seq<char>, Seq<char>>, lang: Seq<char>)
    ensures
        voices.contains_key(lowercase(lang)) ==> voice_for(voices, lang) == voices[lowercase(lang)],
        !voices.contains_key(lowercase(lang)) && voices.contains_key(lang_prefix(lang)) ==> voice_for(voices, lang)
            == voices[lang_prefix(lang)],
        !voices.contains_key(lowercase(lang)) && !voices.contains_key(lang_prefix(lang)) ==> voice_for(
            voices,
            lang,
        ) == if is_pt(lang_prefix(lang)) {
            "pt_BR-faber-medium"@
        } else {
            "en_US-lessac-high"@
        },
        voices.values().contains(voice_for(voices, lang)) || voice_for(voices, lang) == "pt_BR-faber-medium"@
            || voice_for(voices, lang) == "en_US-lessac-high"@,
{
    if voices.contains_key(lowercase(lang)) {
        assert(voices.values().contains(voices[lowercase(lang)]));
    } else if voices.contains_key(lang_prefix(lang)) {
        assert(voices.values().contains(voices[lang_prefix(lang)]));
    }
}

/// Chooses the voice for a language.
pub fn resolve_voice_for_lang(voices: &StringMap, lang: &str) -> (v: String)
    ensures
        v@ == voice_for(voices@, lang@),
        all_ascii(lang@) ==> v@ == voice_for_lowered(voices@, ascii_lowered(lang@)),
{
    let (lower, prefix) = lang_prefix_of(lang);
    match voices.get(lower.as_str()) {
        Some(v) => {
            return v.clone();
        },
        None => {},
    }
    match voices.get(prefix.as_str()) {
        Some(v) => {
            return v.clone();
        },
        None => {},
    }
    if check_pt(prefix.as_str()) {
        String::from_str("pt_BR-faber-medium")
    } else {
        String::from_str("en_US-lessac-high")
    }
}

/// Where the voices that can be fetched automatically are published.
pub open spec fn known_voice_base(voice: Seq<char>) -> Option<Seq<char>> {
    if voice == "pt_BR-faber-medium"@ {
        Some("https://huggingface.co/rhasspy/piper-voices/resolve/main/pt/pt_BR/faber/medium/"@)
    } else if voice == "en_US-lessac-high"@ {
        Some("https://huggingface.co/rhasspy/piper-voices/resolve/main/en/en_US/lessac/high/"@)
    } else {
        None
    }
}

/// The download folder of a known voice.
pub fn known_voice_url(voice: &str) -> (r: Option<String>)
    ensures
        r matches Some(u) ==> known_voice_base(voice@) == Some(u@),
        r is None ==> known_voice_base(voice@) is None,
{
    if text_eq(voice, "pt_BR-faber-medium") {
        Some(String::from_str("https://huggingface.co/rhasspy/piper-voices/resolve/main/pt/pt_BR/faber/medium/"))
    } else if text_eq(voice, "en_US-lessac-high") {
        Some(String::from_str("https://huggingface.co/rhasspy/piper-voices/resolve/main/en/en_US/lessac/high/"))
    } else {
        None
    }
}

/// The file names of a voice's model and of its configuration.
pub fn voice_model_files(voice: &str) -> (r: (String, String))
    ensures
        r.0@ == voice@ + ".onnx"@,
        r.1@ == voice@ + ".onnx.json"@,
{
    let mut onnx = String::from_str(voice);
    append_str(&mut onnx, ".onnx");
    let mut json = String::from_str(voice);
    append_str(&mut json, ".onnx.json");
    (onnx, json)
}

/// The download addresses of a voice's model and configuration, for the
/// voices whose folder is known.
pub fn voice_model_urls(voice: &str) -> (r: Option<(String, String)>)
    ensures
        r is Some <==> known_voice_base(voice@) is Some,
        r matches Some(u) ==> u.0@ == known_voice_base(voice@).unwrap() + voice@ + ".onnx"@ && u.1@
            == known_voice_base(voice@).unwrap() + voice@ + ".onnx.json"@,
{
    match known_voice_url(voice) {
        Some(base) => {
            let (onnx, json) = voice_model_files(voice);
            let mut onnx_url = base.clone();
            append_str(&mut onnx_url, onnx.as_str());
            let mut json_url = base;
            append_str(&mut json_url, json.as_str());
            proof {
                assert(onnx_url@ =~= known_voice_base(voice@).unwrap() + voice@ + ".onnx"@);
                assert(json_url@ =~= known_voice_base(voice@).unwrap() + voice@ + ".onnx.json"@);
            }
            Some((onnx_url, json_url))
        },
        None => None,
    }
}

/// Whether the Piper path from the settings is to be tried first: it is
/// not blank and is not the bare name `piper`, which is searched for
/// instead.
pub fn uses_configured_piper(piper_path: &str) -> (r: bool)
    ensures
        r == (!all_white(piper_path@) && piper_path@ != "piper"@),
{
    !is_blank(piper_path) && !text_eq(piper_path, "piper")
}

/// The directories listed in `PATH`, split at `;` on Windows and at `:`
/// elsewhere; none when `PATH` is unset.
pub open spec fn path_dirs(path_var: Option<Seq<char>>, windows: bool) -> Seq<Seq<char>> {
    match path_var {
        Some(p) => split_fields(p, if windows { ';' } else { ':' }),
        None => seq![],
    }
}

/// `name` inside each directory, in order.
pub open spec fn in_each(dirs: Seq<Seq<char>>, name: Seq<char>, windows: bool) -> Seq<Seq<char>> {
    dirs.map_values(|d: Seq<char>| joined_path(d, name, windows))
}

/// The places searched for the Piper executable, in order: the path from
/// the settings (when it is to be tried); `piper/piper` and `piper` in the
/// application's binary folder, and on Windows `piper/piper.exe` and
/// `piper.exe` there too; then `piper` in each directory of `PATH`, and on
/// Windows `piper.exe` in each directory of `PATH` after that.
pub open spec fn piper_candidates(
    piper_path: Seq<char>,
    bin_dir: Seq<char>,
    path_var: Option<Seq<char>>,
    windows: bool,
) -> Seq<Seq<char>> {
    let sub = joined_path(bin_dir, "piper"@, windows);
    (if !all_white(piper_path) && piper_path != "piper"@ {
        seq![piper_path]
    } else {
        seq![]
    }) + seq![joined_path(sub, "piper"@, windows), joined_path(bin_dir, "piper"@, windows)] + (
    if windows {
        seq![joined_path(sub, "piper.exe"@, windows), joined_path(bin_dir, "piper.exe"@, windows)]
    } else {
        seq![]
    }) + in_each(path_dirs(path_var, windows), "piper"@, windows) + (if windows {
        in_each(path_dirs(path_var, windows), "piper.exe"@, windows)
    } else {
        seq![]
    })
}

/// On every platform, Windows included, a configured Piper path that is not
/// blank and not the bare name `piper` is the first place searched; without
/// one, the search starts with `piper/piper` in the binary folder. The
/// `PATH` directories come last, each tried for `piper`.
pub proof fn configured_piper_path_is_tried_first(
    piper_path: Seq<char>,
    bin_dir: Seq<char>,
    path_var: Option<Seq<char>>,
    windows: bool,
)
    ensures
        piper_candidates(piper_path, bin_dir, path_var, windows).len() >= 2,
        !all_white(piper_path) && piper_path != "piper"@ ==> piper_candidates(
            piper_path,
            bin_dir,
            path_var,
            windows,
        )[0] == piper_path,
        !(!all_white(piper_path) && piper_path != "piper"@) ==> piper_candidates(
            piper_path,
            bin_dir,
            path_var,
            windows,
        )[0] == joined_path(joined_path(bin_dir, "piper"@, windows), "piper"@, windows),
        forall|i: int|
            0 <= i < path_dirs(path_var, windows).len() ==> piper_candidates(
                piper_path,
                bin_dir,
                path_var,
                windows,
            ).contains(joined_path(#[trigger] path_dirs(path_var, windows)[i], "piper"@, windows)),
{
    let c = piper_candidates(piper_path, bin_dir, path_var, windows);
    let sub = joined_path(bin_dir, "piper"@, windows);
    let head: Seq<Seq<char>> = if !all_white(piper_path) && piper_path != "piper"@ {
        seq![piper_path]
    } else {
        seq![]
    };
    let locals: Seq<Seq<char>> = seq![joined_path(sub, "piper"@, windows), joined_path(bin_dir, "piper"@, windows)];
    let exes: Seq<Seq<char>> = if windows {
        seq![joined_path(sub, "piper.exe"@, windows), joined_path(bin_dir, "piper.exe"@, windows)]
    } else {
        seq![]
    };
    let dirs = in_each(path_dirs(path_var, windows), "piper"@, windows);
    let tail: Seq<Seq<char>> = if windows {
        in_each(path_dirs(path_var, windows), "piper.exe"@, windows)
    } else {
        seq![]
    };
    assert(c == head + locals + exes + dirs + tail);
    assert((head + locals + exes + dirs + tail)[0] == (if head.len() > 0 { head[0] } else { locals[0] }));
    assert forall|i: int| 0 <= i < path_dirs(path_var, windows).len() implies c.contains(
        joined_path(#[trigger] path_dirs(path_var, windows)[i], "piper"@, windows),
    ) by {
        let at = head.len() + locals.len() + exes.len() + i;
        assert(dirs[i] == joined_path(path_dirs(path_var, windows)[i], "piper"@, windows));
        assert((head + locals + exes + dirs + tail)[at] == dirs[i]);
    }
}

/// Appends `name` inside each directory.
fn append_joined(r: &mut Vec<String>, dirs: &Vec<String>, name: &str, windows: bool)
    ensures
        key_views(final(r)@) == key_views(old(r)@) + in_each(key_views(dirs@), name@, windows),
{
    let ghost start = key_views(r@);
    let ghost dv = key_views(dirs@);
    for k in 0..dirs.len()
        invariant
            dv == key_views(dirs@),
            key_views(r@) == start + in_each(dv.take(k as int), name@, windows),
    {
        let c = join_path(dirs[k].as_str(), name, windows);
        let ghost before = key_views(r@);
        r.push(c);
        proof {
            assert(dv[k as int] == dirs@[k as int]@);
            assert(key_views(r@) =~= before.push(c@));
            assert(in_each(dv.take(k + 1), name@, windows) =~= in_each(dv.take(k as int), name@, windows).push(
                joined_path(dv[k as int], name@, windows),
            ));
            assert(key_views(r@) =~= start + in_each(dv.take(k + 1), name@, windows));
        }
    }
    assert(dv.take(dirs@.len() as int) =~= dv);
}

/// Pushes one path.
fn push_path(r: &mut Vec<String>, p: String)
    ensures
        key_views(final(r)@) == key_views(old(r)@).push(p@),
{
    let ghost before = key_views(r@);
    r.push(p);
    assert(key_views(r@) =~= before.push(p@));
}

/// Lists the places searched for Piper.
pub fn piper_search_list(piper_path: &str, bin_dir: &str, path_var: Option<&str>, windows: bool) -> (r:
    Vec<String>)
    ensures
        key_views(r@) == piper_candidates(piper_path@, bin_dir@, opt_str(path_var), windows),
{
    let mut r: Vec<String> = Vec::new();
    assert(key_views(r@) =~= seq![]);
    if uses_configured_piper(piper_path) {
        push_path(&mut r, String::from_str(piper_path));
    }
    let sub = join_path(bin_dir, "piper", windows);
    push_path(&mut r, join_path(sub.as_str(), "piper", windows));
    push_path(&mut r, join_path(bin_dir, "piper", windows));
    if windows {
        push_path(&mut r, join_path(sub.as_str(), "piper.exe", windows));
        push_path(&mut r, join_path(bin_dir, "piper.exe", windows));
    }
    let ghost head = key_views(r@);
    let dirs: Vec<String> = match path_var {
        Some(p) => {
            let sep = if windows {
                ';'
            } else {
                ':'
            };
            split_at_char(p, sep)
        },
        None => Vec::new(),
    };
    assert(key_views(dirs@) =~= path_dirs(opt_str(path_var), windows));
    append_joined(&mut r, &dirs, "piper", windows);
    if windows {
        append_joined(&mut r, &dirs, "piper.exe", windows);
    }
    assert(key_views(r@) =~= piper_candidates(piper_path@, bin_dir@, opt_str(path_var), windows));
    r
}

/// The characters of an optional text.
pub open spec fn opt_str(o: Option<&str>) -> Option<Seq<char>> {
    match o {
        Some(p) => Some(p@),
        None => None,
    }
}

/// The message given when Piper is nowhere to be found.
pub open spec fn piper_missing_message() -> Seq<char> {
    "Executável do Piper não foi encontrado. Instale o Piper no sistema ou configure o caminho no config.toml (tts.piper_path)."@
}

/// A probe of `path` has reported that no file is there.
pub open spec fn probed_missing<F: Fn(&String) -> bool>(is_file: F, path: Seq<char>) -> bool {
    exists|s: String| s@ == path && #[trigger] is_file.ensures((&s,), false)
}

/// Finds Piper: the first searched place that `is_file` reports as a file.
pub fn find_piper_executable<F: Fn(&String) -> bool>(
    piper_path: &str,
    bin_dir: &str,
    path_var: Option<&str>,
    windows: bool,
    is_file: F,
) -> (r: Result<String, String>)
    requires
        forall|p: &String| is_file.requires((p,)),
    ensures
        r matches Ok(p) ==> exists|i: int|
            0 <= i < piper_candidates(piper_path@, bin_dir@, opt_str(path_var), windows).len() && p@
                == #[trigger] piper_candidates(piper_path@, bin_dir@, opt_str(path_var), windows)[i] && forall|j: int|
                0 <= j < i ==> probed_missing(
                    is_file,
                    piper_candidates(piper_path@, bin_dir@, opt_str(path_var), windows)[j],
                ),
        r matches Ok(p) ==> is_file.ensures((&p,), true),
        r is Err ==> forall|j: int|
            0 <= j < piper_candidates(piper_path@, bin_dir@, opt_str(path_var), windows).len() ==> probed_missing(
                is_file,
                #[trigger] piper_candidates(piper_path@, bin_dir@, opt_str(path_var), windows)[j],
            ),
        r matches Err(m) ==> m@ == piper_missing_message(),
{
    let list = piper_search_list(piper_path, bin_dir, path_var, windows);
    let ghost want = piper_candidates(piper_path@, bin_dir@, opt_str(path_var), windows);
    for i in 0..list.len()
        invariant
            forall|p: &String| is_file.requires((p,)),
            want == piper_candidates(piper_path@, bin_dir@, opt_str(path_var), windows),
            key_views(list@) == want,
            forall|j: int| 0 <= j < i ==> probed_missing(is_file, #[trigger] want[j]),
    {
        assert(key_views(list@)[i as int] == list@[i as int]@);
        if is_file(&list[i]) {
            let found = list[i].clone();
            assert(found@ == want[i as int]);
            return Ok(found);
        }
        proof {
            assert(list@[i as int]@ == want[i as int]);
            assert(is_file.ensures((&list@[i as int],), false));
        }
    }
    Err(String::from_str(
        "Executável do Piper não foi encontrado. Instale o Piper no sistema ou configure o caminho no config.toml (tts.piper_path).",
    ))
}

/// The text that is spoken: nothing for blank text; otherwise the trimmed
/// text normalized for its language, or the trimmed text itself when
/// normalization leaves nothing.
pub open spec fn spoken_text(normalizer: Option<&TextNormalizer>, text: Seq<char>, lang: Seq<char>) -> Option<Seq<char>> {
    let t = trim_white(text);
    if t.len() == 0 {
        None
    } else {
        let n = match normalizer {
            Some(m) => normalized(
                m.pattern(is_pt(lang_prefix(lang))),
                m.table(is_pt(lang_prefix(lang))),
                t,
            ),
            None => t,
        };
        if n.len() == 0 {
            Some(t)
        } else {
            Some(n)
        }
    }
}

/// Prepares a text for speech.
pub fn speech_text(normalizer: Option<&TextNormalizer>, text: &str, lang: &str) -> (r: Option<String>)
    ensures
        match r {
            Some(s) => spoken_text(normalizer, text@, lang@) == Some(s@),
            None => spoken_text(normalizer, text@, lang@) is None,
        },
{
    let v = chars_of(text);
    let t = trimmed(&v);
    if t.unicode_len() == 0 {
        return None;
    }
    let n = normalize_text(normalizer, t.as_str(), lang);
    if n.unicode_len() == 0 {
        Some(t)
    } else {
        Some(n)
    }
}

} // verus!
