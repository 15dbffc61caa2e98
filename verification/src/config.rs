//! The application settings and the rules that change them: defaults,
//! font size limits, swapping the language pair, and language flags given
//! on the command line.
use vstd::prelude::*;
use vstd::string::*;
use crate::table::StringMap;
use crate::text::{append_str, join_path, joined_path, text_eq};

verus! {

/// Where the popup is centred each time it opens.
#[derive(Clone, Copy, Debug, PartialEq, Eq, Structural)]
pub enum WindowPosition {
    CursorMonitor,
    PrimaryMonitor,
    Fixed,
}

impl Default for WindowPosition {
    fn default() -> (r: Self)
        ensures
            r == WindowPosition::CursorMonitor,
    {
        WindowPosition::CursorMonitor
    }
}

/// The graphics backend used on Linux.
#[derive(Clone, Copy, Debug, PartialEq, Eq, Structural)]
pub enum LinuxBackend {
    XWayland,
    Wayland,
    Auto,
}

impl Default for LinuxBackend {
    fn default() -> (r: Self)
        ensures
            r == LinuxBackend::XWayland,
    {
        LinuxBackend::XWayland
    }
}

/// The settings kept in `config.toml`.
pub struct AppConfig {
    pub provider: String,
    pub source_lang: String,
    pub target_lang: String,
    pub libretranslate_url: String,
    pub api_keys: StringMap,
    /// Opt-in: record each translated text and its character count locally.
    pub save_history: bool,
    /// Font size of the popup's text areas.
    pub font_size: u8,
    /// Window width in logical pixels.
    pub window_width: u32,
    /// Window height in logical pixels.
    pub window_height: u32,
    pub window_position: WindowPosition,
    /// Physical X coordinate, used only by `WindowPosition::Fixed`.
    pub window_x: Option<i32>,
    /// Physical Y coordinate, used only by `WindowPosition::Fixed`.
    pub window_y: Option<i32>,
    pub always_on_top: bool,
    pub hide_on_blur: bool,
    pub show_on_start: bool,
    pub linux_backend: LinuxBackend,
}

fn default_provider() -> (s: String)
    ensures
        s@ == "mymemory"@,
{
    String::from_str("mymemory")
}

fn default_source() -> (s: String)
    ensures
        s@ == "pt"@,
{
    String::from_str("pt")
}

fn default_target() -> (s: String)
    ensures
        s@ == "en"@,
{
    String::from_str("en")
}

fn default_libretranslate_url() -> (s: String)
    ensures
        s@ == "https://libretranslate.com/translate"@,
{
    String::from_str("https://libretranslate.com/translate")
}

fn default_font_size() -> (n: u8)
    ensures
        n == 14,
{
    14
}

fn default_window_width() -> (n: u32)
    ensures
        n == 520,
{
    520
}

fn default_window_height() -> (n: u32)
    ensures
        n == 240,
{
    240
}

fn default_always_on_top() -> (b: bool)
    ensures
        b,
{
    true
}

fn default_hide_on_blur() -> (b: bool)
    ensures
        b,
{
    true
}

fn default_show_on_start() -> (b: bool)
    ensures
        b,
{
    true
}

/// The `GDK_BACKEND` value to set before the toolkit starts: none when the
/// variable is already set (an explicit environment always wins) or when
/// the settings ask for automatic selection.
pub fn gdk_backend_value(already_set: bool, backend: LinuxBackend) -> (r: Option<String>)
    ensures
        already_set ==> r is None,
        !already_set ==> match backend {
            LinuxBackend::XWayland => r matches Some(v) && v@ == "x11"@,
            LinuxBackend::Wayland => r matches Some(v) && v@ == "wayland"@,
            LinuxBackend::Auto => r is None,
        },
{
    if already_set {
        return None;
    }
    match backend {
        LinuxBackend::XWayland => Some(String::from_str("x11")),
        LinuxBackend::Wayland => Some(String::from_str("wayland")),
        LinuxBackend::Auto => None,
    }
}

/// The settings of a fresh installation.
pub open spec fn is_default_config(c: AppConfig) -> bool {
    &&& c.provider@ == "mymemory"@
    &&& c.source_lang@ == "pt"@
    &&& c.target_lang@ == "en"@
    &&& c.libretranslate_url@ == "https://libretranslate.com/translate"@
    &&& c.api_keys@ == Map::<Seq<char>, Seq<char>>::empty()
    &&& !c.save_history
    &&& c.font_size == 14
    &&& c.window_width == 520
    &&& c.window_height == 240
    &&& c.window_position == WindowPosition::CursorMonitor
    &&& c.window_x is None
    &&& c.window_y is None
    &&& c.always_on_top
    &&& c.hide_on_blur
    &&& c.show_on_start
    &&& c.linux_backend == LinuxBackend::XWayland
}

impl Default for AppConfig {
    fn default() -> (r: Self)
        ensures
            is_default_config(r),
    {
        AppConfig {
            provider: default_provider(),
            source_lang: default_source(),
            target_lang: default_target(),
            libretranslate_url: default_libretranslate_url(),
            api_keys: StringMap::new(),
            save_history: false,
            font_size: default_font_size(),
            window_width: default_window_width(),
            window_height: default_window_height(),
            window_position: WindowPosition::default(),
            window_x: None,
            window_y: None,
            always_on_top: default_always_on_top(),
            hide_on_blur: default_hide_on_blur(),
            show_on_start: default_show_on_start(),
            linux_backend: LinuxBackend::default(),
        }
    }
}

/// The settings file inside the configuration directory.
pub fn config_path(config_dir: &str, windows: bool) -> (p: String)
    ensures
        p@ == joined_path(config_dir@, "config.toml"@, windows),
{
    join_path(config_dir, "config.toml", windows)
}

/// The smallest font size kept: still legible on dense screens.
pub const MIN_FONT_SIZE: u8 = 12;

/// The largest font size kept: the compact popup layout still holds.
pub const MAX_FONT_SIZE: u8 = 28;

/// `value` brought into `[lo, hi]`.
pub open spec fn clamped(value: int, lo: int, hi: int) -> int {
    if value < lo {
        lo
    } else if value > hi {
        hi
    } else {
        value
    }
}

/// A stored font size always lies in the kept range, and storing it again
/// keeps it as it is.
pub proof fn font_size_stays_in_range(n: int)
    ensures
        MIN_FONT_SIZE <= clamped(n, MIN_FONT_SIZE as int, MAX_FONT_SIZE as int) <= MAX_FONT_SIZE,
        clamped(clamped(n, MIN_FONT_SIZE as int, MAX_FONT_SIZE as int), MIN_FONT_SIZE as int, MAX_FONT_SIZE as int)
            == clamped(n, MIN_FONT_SIZE as int, MAX_FONT_SIZE as int),
{
}

/// Stores a font size, brought into the kept range, and returns the size
/// stored; nothing else changes.
pub fn set_font_size(cfg: &mut AppConfig, font_size: u8) -> (r: u8)
    ensures
        r == clamped(font_size as int, MIN_FONT_SIZE as int, MAX_FONT_SIZE as int),
        *final(cfg) == (AppConfig { font_size: r, ..*old(cfg) }),
{
    let size = if font_size < MIN_FONT_SIZE {
        MIN_FONT_SIZE
    } else if font_size > MAX_FONT_SIZE {
        MAX_FONT_SIZE
    } else {
        font_size
    };
    cfg.font_size = size;
    size
}

/// Why the language pair cannot be swapped.
#[derive(Debug)]
pub enum SwapError {
    /// The source language is `auto`: there is no known language to put in
    /// its place as target.
    AutoSource,
}

impl SwapError {
    /// The message shown to the user.
    pub fn message(&self) -> (s: String)
        ensures
            s@ == "Não dá para inverter com origem \"auto\": defina um idioma de origem explícito primeiro."@,
    {
        String::from_str(
            "Não dá para inverter com origem \"auto\": defina um idioma de origem explícito primeiro.",
        )
    }
}

/// The settings with source and target languages exchanged.
pub open spec fn swapped(c: AppConfig) -> AppConfig {
    AppConfig { source_lang: c.target_lang, target_lang: c.source_lang, ..c }
}

/// Exchanges source and target languages (pt→en becomes en→pt), refusing a
/// source of `auto`.
pub fn swap_config(cfg: AppConfig) -> (r: Result<AppConfig, SwapError>)
    ensures
        r is Err <==> cfg.source_lang@ == "auto"@,
        r matches Ok(c) ==> c == swapped(cfg),
{
    if text_eq(cfg.source_lang.as_str(), "auto") {
        return Err(SwapError::AutoSource);
    }
    let mut cfg = cfg;
    std::mem::swap(&mut cfg.source_lang, &mut cfg.target_lang);
    Ok(cfg)
}

/// Swapping twice gives back the settings one started from.
pub proof fn swap_twice_restores(cfg: AppConfig)
    ensures
        swapped(swapped(cfg)) == cfg,
{
}

/// "source target", as the `--status` and `--swap` commands print the pair.
pub fn status_line(cfg: &AppConfig) -> (s: String)
    ensures
        s@ == cfg.source_lang@ + seq![' '] + cfg.target_lang@,
{
    let mut s = cfg.source_lang.clone();
    s.push(' ');
    append_str(&mut s, cfg.target_lang.as_str());
    s
}

/// The language code that a command-line flag (without its leading `--`)
/// selects: `du` is German and `jp` Japanese, the other accepted flags are
/// their own code.
pub open spec fn lang_flag_code(flag: Seq<char>) -> Option<Seq<char>> {
    if flag == "auto"@ {
        Some("auto"@)
    } else if flag == "en"@ {
        Some("en"@)
    } else if flag == "pt"@ {
        Some("pt"@)
    } else if flag == "es"@ {
        Some("es"@)
    } else if flag == "fr"@ {
        Some("fr"@)
    } else if flag == "de"@ {
        Some("de"@)
    } else if flag == "du"@ {
        Some("de"@)
    } else if flag == "it"@ {
        Some("it"@)
    } else if flag == "ja"@ {
        Some("ja"@)
    } else if flag == "jp"@ {
        Some("ja"@)
    } else if flag == "zh"@ {
        Some("zh"@)
    } else if flag == "ru"@ {
        Some("ru"@)
    } else {
        None
    }
}

/// The language codes that have a flag of their own.
pub open spec fn flag_languages() -> Set<Seq<char>> {
    set!["auto"@, "en"@, "pt"@, "es"@, "fr"@, "de"@, "it"@, "ja"@, "zh"@, "ru"@]
}

/// Every accepted language flag selects its own code, except the two
/// aliases: `du` selects German (`de`) and `jp` Japanese (`ja`). No other
/// flag selects anything, and every selected code is one of those codes.
pub proof fn flags_select_their_language(flag: Seq<char>)
    ensures
        flag_languages().contains(flag) ==> lang_flag_code(flag) == Some(flag),
        flag == "du"@ ==> lang_flag_code(flag) == Some("de"@),
        flag == "jp"@ ==> lang_flag_code(flag) == Some("ja"@),
        lang_flag_code(flag) is Some <==> (flag_languages().contains(flag) || flag == "du"@ || flag == "jp"@),
        lang_flag_code(flag) matches Some(c) ==> flag_languages().contains(c),
{
    reveal_strlit("auto");
    reveal_strlit("en");
    reveal_strlit("pt");
    reveal_strlit("es");
    reveal_strlit("fr");
    reveal_strlit("de");
    reveal_strlit("du");
    reveal_strlit("it");
    reveal_strlit("ja");
    reveal_strlit("jp");
    reveal_strlit("zh");
    reveal_strlit("ru");
    assert("auto"@.len() == 4);
    assert("en"@[0] == 'e' && "en"@[1] == 'n');
    assert("pt"@[0] == 'p' && "pt"@[1] == 't');
    assert("es"@[0] == 'e' && "es"@[1] == 's');
    assert("fr"@[0] == 'f' && "fr"@[1] == 'r');
    assert("de"@[0] == 'd' && "de"@[1] == 'e');
    assert("du"@[0] == 'd' && "du"@[1] == 'u');
    assert("it"@[0] == 'i' && "it"@[1] == 't');
    assert("ja"@[0] == 'j' && "ja"@[1] == 'a');
    assert("jp"@[0] == 'j' && "jp"@[1] == 'p');
    assert("zh"@[0] == 'z' && "zh"@[1] == 'h');
    assert("ru"@[0] == 'r' && "ru"@[1] == 'u');
}

/// The language code for a flag.
pub fn lang_code_for_flag(flag: &str) -> (r: Option<String>)
    ensures
        r matches Some(c) ==> lang_flag_code(flag@) == Some(c@),
        r is None ==> lang_flag_code(flag@) is None,
{
    if text_eq(flag, "auto") {
        Some(String::from_str("auto"))
    } else if text_eq(flag, "en") {
        Some(String::from_str("en"))
    } else if text_eq(flag, "pt") {
        Some(String::from_str("pt"))
    } else if text_eq(flag, "es") {
        Some(String::from_str("es"))
    } else if text_eq(flag, "fr") {
        Some(String::from_str("fr"))
    } else if text_eq(flag, "de") {
        Some(String::from_str("de"))
    } else if text_eq(flag, "du") {
        Some(String::from_str("de"))
    } else if text_eq(flag, "it") {
        Some(String::from_str("it"))
    } else if text_eq(flag, "ja") {
        Some(String::from_str("ja"))
    } else if text_eq(flag, "jp") {
        Some(String::from_str("ja"))
    } else if text_eq(flag, "zh") {
        Some(String::from_str("zh"))
    } else if text_eq(flag, "ru") {
        Some(String::from_str("ru"))
    } else {
        None
    }
}

/// The argument without a leading `--`, if it has one.
pub open spec fn flag_name(arg: Seq<char>) -> Option<Seq<char>> {
    if arg.len() >= 2 && arg[0] == '-' && arg[1] == '-' {
        Some(arg.skip(2))
    } else {
        None
    }
}

/// The language code an argument selects, if any.
pub open spec fn arg_lang_code(arg: Seq<char>) -> Option<Seq<char>> {
    match flag_name(arg) {
        Some(f) => lang_flag_code(f),
        None => None,
    }
}

/// The language codes that the arguments select, in order.
pub open spec fn arg_lang_codes(args: Seq<String>) -> Seq<Seq<char>>
    decreases args.len(),
{
    if args.len() == 0 {
        seq![]
    } else {
        let p = arg_lang_codes(args.drop_last());
        match arg_lang_code(args.last()@) {
            Some(c) => p.push(c),
            None => p,
        }
    }
}

fn lang_code_for_arg(arg: &str) -> (r: Option<String>)
    ensures
        r matches Some(c) ==> arg_lang_code(arg@) == Some(c@),
        r is None ==> arg_lang_code(arg@) is None,
{
    let v = crate::text::chars_of(arg);
    if v.len() >= 2 && v[0] == '-' && v[1] == '-' {
        let rest = crate::text::string_from_range(&v, 2, v.len());
        assert(v@.subrange(2, v@.len() as int) == arg@.skip(2));
        lang_code_for_flag(rest.as_str())
    } else {
        None
    }
}

/// The language codes selected by flags such as `--pt --en`, in order.
pub fn lang_codes_from_args(args: &Vec<String>) -> (codes: Vec<String>)
    ensures
        codes@.len() == arg_lang_codes(args@).len(),
        forall|i: int| 0 <= i < codes@.len() ==> (#[trigger] codes@[i])@ == arg_lang_codes(args@)[i],
{
    let mut codes: Vec<String> = Vec::new();
    for i in 0..args.len()
        invariant
            codes@.len() == arg_lang_codes(args@.take(i as int)).len(),
            forall|j: int| 0 <= j < codes@.len() ==> (#[trigger] codes@[j])@ == arg_lang_codes(args@.take(i as int))[j],
    {
        assert(args@.take(i + 1).drop_last() =~= args@.take(i as int));
        assert(args@.take(i + 1).last() == args@[i as int]);
        match lang_code_for_arg(args[i].as_str()) {
            Some(c) => {
                codes.push(c);
            },
            None => {},
        }
    }
    assert(args@.take(args@.len() as int) =~= args@);
    codes
}

/// What language codes do to the settings: two or more set source and
/// target from the first two, one sets only the target.
pub open spec fn with_lang_codes(c: AppConfig, codes: Seq<Seq<char>>) -> (Seq<char>, Seq<char>) {
    if codes.len() >= 2 {
        (codes[0], codes[1])
    } else if codes.len() == 1 {
        (c.source_lang@, codes[0])
    } else {
        (c.source_lang@, c.target_lang@)
    }
}

/// Applies language codes from the command line; returns whether there
/// was any. Only the two languages change.
pub fn apply_lang_codes(cfg: &mut AppConfig, codes: &Vec<String>) -> (found: bool)
    ensures
        found == (codes@.len() > 0),
        final(cfg).source_lang@ == with_lang_codes(*old(cfg), codes@.map_values(|s: String| s@)).0,
        final(cfg).target_lang@ == with_lang_codes(*old(cfg), codes@.map_values(|s: String| s@)).1,
        *final(cfg) == (AppConfig {
            source_lang: final(cfg).source_lang,
            target_lang: final(cfg).target_lang,
            ..*old(cfg)
        }),
{
    let ghost cv = codes@.map_values(|s: String| s@);
    if codes.len() == 0 {
        return false;
    }
    if codes.len() >= 2 {
        cfg.source_lang = codes[0].clone();
        cfg.target_lang = codes[1].clone();
        assert(cv[0] == codes@[0]@ && cv[1] == codes@[1]@);
    } else {
        cfg.target_lang = codes[0].clone();
        assert(cv[0] == codes@[0]@);
    }
    true
}

} // verus!
