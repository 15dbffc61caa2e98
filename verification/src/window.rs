//! The popup window's rules: size limits, where it is placed, whether fixed
//! coordinates can be honoured, what a saved area selection stores, and the
//! decisions taken on focus changes, tray-menu clicks and new invocations.
use vstd::prelude::*;
use vstd::string::*;
use crate::config::{clamped, lang_codes_from_args, arg_lang_codes, AppConfig, WindowPosition};
use crate::text::{chars_of, lemma_split_fields_nonempty, split_fields, text_eq};

verus! {

/// Narrowest window kept, in logical pixels.
pub const MIN_WIDTH: u32 = 320;

/// Widest window kept, in logical pixels.
pub const MAX_WIDTH: u32 = 2400;

/// Lowest window kept, in logical pixels.
pub const MIN_HEIGHT: u32 = 180;

/// Tallest window kept, in logical pixels.
pub const MAX_HEIGHT: u32 = 1600;

/// A width brought into the kept range, so that a slip in the file cannot
/// make the window vanish or outgrow a desktop.
pub fn clamp_width(w: u32) -> (r: u32)
    ensures
        r == clamped(w as int, MIN_WIDTH as int, MAX_WIDTH as int),
{
    if w < MIN_WIDTH {
        MIN_WIDTH
    } else if w > MAX_WIDTH {
        MAX_WIDTH
    } else {
        w
    }
}

/// A height brought into the kept range.
pub fn clamp_height(h: u32) -> (r: u32)
    ensures
        r == clamped(h as int, MIN_HEIGHT as int, MAX_HEIGHT as int),
{
    if h < MIN_HEIGHT {
        MIN_HEIGHT
    } else if h > MAX_HEIGHT {
        MAX_HEIGHT
    } else {
        h
    }
}

/// The window size to apply for the settings.
pub fn window_size(cfg: &AppConfig) -> (r: (u32, u32))
    ensures
        r.0 == clamped(cfg.window_width as int, MIN_WIDTH as int, MAX_WIDTH as int),
        r.1 == clamped(cfg.window_height as int, MIN_HEIGHT as int, MAX_HEIGHT as int),
{
    (clamp_width(cfg.window_width), clamp_height(cfg.window_height))
}

/// Where to put the window when it opens.
#[derive(Clone, Copy, Debug, PartialEq, Eq, Structural)]
pub enum Placement {
    /// Centre it on the work area of the monitor under the cursor.
    CursorMonitor,
    /// Centre it on the primary monitor's work area.
    PrimaryMonitor,
    /// Move it to these physical coordinates.
    Fixed { x: i32, y: i32 },
    /// Fixed coordinates were asked for where the compositor places windows
    /// itself (native Wayland): leave the window where it is and say so.
    FixedUnsupported,
}

/// The placement that the settings ask for, given whether fixed
/// coordinates can be honoured. A fixed position without both coordinates
/// falls back to the cursor's monitor.
pub open spec fn placement_for(cfg: AppConfig, fixed_supported: bool) -> Placement {
    match cfg.window_position {
        WindowPosition::CursorMonitor => Placement::CursorMonitor,
        WindowPosition::PrimaryMonitor => Placement::PrimaryMonitor,
        WindowPosition::Fixed => if !fixed_supported {
            Placement::FixedUnsupported
        } else {
            match (cfg.window_x, cfg.window_y) {
                (Some(x), Some(y)) => Placement::Fixed { x, y },
                _ => Placement::CursorMonitor,
            }
        },
    }
}

/// Decides where the window goes.
pub fn window_placement(cfg: &AppConfig, fixed_supported: bool) -> (r: Placement)
    ensures
        r == placement_for(*cfg, fixed_supported),
{
    match cfg.window_position {
        WindowPosition::CursorMonitor => Placement::CursorMonitor,
        WindowPosition::PrimaryMonitor => Placement::PrimaryMonitor,
        WindowPosition::Fixed => {
            if !fixed_supported {
                Placement::FixedUnsupported
            } else {
                match (cfg.window_x, cfg.window_y) {
                    (Some(x), Some(y)) => Placement::Fixed { x, y },
                    _ => Placement::CursorMonitor,
                }
            }
        },
    }
}

/// `a - b`, or 0 when `b` is larger.
pub open spec fn saturating_diff(a: int, b: int) -> int {
    if a > b {
        a - b
    } else {
        0
    }
}

/// The top-left corner that centres a window of the given size in a work
/// area; a window larger than the area goes to the area's corner.
pub fn center_in_work_area(
    area_x: i32,
    area_y: i32,
    area_width: u32,
    area_height: u32,
    width: u32,
    height: u32,
) -> (r: (i32, i32))
    requires
        i32::MIN <= area_x + saturating_diff(area_width as int, width as int) / 2 <= i32::MAX,
        i32::MIN <= area_y + saturating_diff(area_height as int, height as int) / 2 <= i32::MAX,
    ensures
        r.0 == area_x + saturating_diff(area_width as int, width as int) / 2,
        r.1 == area_y + saturating_diff(area_height as int, height as int) / 2,
{
    let dx = if area_width > width {
        area_width - width
    } else {
        0
    };
    let dy = if area_height > height {
        area_height - height
    } else {
        0
    };
    let x = area_x + (dx / 2) as i32;
    let y = area_y + (dy / 2) as i32;
    (x, y)
}

/// Lower-cases an ASCII letter, leaving every other character as it is.
pub open spec fn ascii_lower(c: char) -> int {
    let n = c as u32;
    if 65 <= n <= 90 {
        n + 32
    } else {
        n as int
    }
}

/// The two texts are equal when ASCII letters are compared without case,
/// as `str::eq_ignore_ascii_case` compares them.
pub open spec fn eq_ignore_ascii_case(a: Seq<char>, b: Seq<char>) -> bool {
    a.len() == b.len() && forall|i: int| 0 <= i < a.len() ==> ascii_lower(#[trigger] a[i]) == ascii_lower(b[i])
}

/// Whether a field of `GDK_BACKEND`, trimmed, names Wayland.
pub open spec fn names_wayland(field: Seq<char>) -> bool {
    eq_ignore_ascii_case(crate::text::trim_white(field), "wayland"@)
}

/// Whether some field of the list names Wayland.
pub open spec fn any_wayland(fields: Seq<Seq<char>>) -> bool
    decreases fields.len(),
{
    if fields.len() == 0 {
        false
    } else {
        any_wayland(fields.drop_last()) || names_wayland(fields.last())
    }
}

/// Fixed coordinates can be honoured unless the `GDK_BACKEND` value (empty
/// when unset) lists Wayland among its comma-separated backends.
pub open spec fn fixed_supported_for(gdk_backend: Seq<char>) -> bool {
    !any_wayland(split_fields(gdk_backend, ','))
}

fn field_names_wayland(field: &Vec<char>) -> (r: bool)
    ensures
        r == names_wayland(field@),
{
    let t = crate::text::trimmed(field);
    let tv = chars_of(t.as_str());
    let w = chars_of("wayland");
    if tv.len() != w.len() {
        return false;
    }
    for i in 0..tv.len()
        invariant
            tv@ == crate::text::trim_white(field@),
            w@ == "wayland"@,
            tv@.len() == w@.len(),
            forall|j: int| 0 <= j < i ==> ascii_lower(#[trigger] tv@[j]) == ascii_lower(w@[j]),
    {
        let a = tv[i] as u32;
        let b = w[i] as u32;
        let la = if 65 <= a && a <= 90 {
            a + 32
        } else {
            a
        };
        let lb = if 65 <= b && b <= 90 {
            b + 32
        } else {
            b
        };
        if la != lb {
            return false;
        }
    }
    true
}

/// Whether the window may be moved to fixed coordinates, given the value
/// of `GDK_BACKEND` (empty when unset). Native Wayland leaves placement to
/// the compositor.
pub fn fixed_position_supported(gdk_backend: &str) -> (r: bool)
    ensures
        r == fixed_supported_for(gdk_backend@),
{
    let v = chars_of(gdk_backend);
    let mut field: Vec<char> = Vec::new();
    let mut found = false;
    for i in 0..v.len()
        invariant
            v@ == gdk_backend@,
            split_fields(v@.take(i as int), ',').len() >= 1,
            field@ == split_fields(v@.take(i as int), ',').last(),
            found == any_wayland(split_fields(v@.take(i as int), ',').drop_last()),
    {
        let ghost before = split_fields(v@.take(i as int), ',');
        assert(v@.take(i + 1).drop_last() =~= v@.take(i as int));
        assert(v@.take(i + 1).last() == v@[i as int]);
        let ghost after = split_fields(v@.take(i + 1), ',');
        if v[i] == ',' {
            let named = field_names_wayland(&field);
            proof {
                assert(after == before.push(seq![]));
                assert(after.drop_last() =~= before);
                assert(before =~= before.drop_last().push(before.last()));
            }
            found = found || named;
            field = Vec::new();
            assert(field@ =~= after.last());
        } else {
            field.push(v[i]);
            proof {
                assert(after == before.update(before.len() - 1, before.last().push(v@[i as int])));
                assert(after.drop_last() =~= before.drop_last());
            }
        }
    }
    assert(v@.take(v@.len() as int) =~= v@);
    let last_named = field_names_wayland(&field);
    proof {
        lemma_split_fields_nonempty(v@, ',');
    }
    !(found || last_named)
}

/// Stores an area picked on screen: fixed placement at the given physical
/// corner, with the logical size brought into the kept range.
pub fn apply_area_selection(cfg: &mut AppConfig, x: i32, y: i32, logical_width: u32, logical_height: u32)
    ensures
        *final(cfg) == (AppConfig {
            window_position: WindowPosition::Fixed,
            window_x: Some(x),
            window_y: Some(y),
            window_width: clamped(logical_width as int, MIN_WIDTH as int, MAX_WIDTH as int) as u32,
            window_height: clamped(logical_height as int, MIN_HEIGHT as int, MAX_HEIGHT as int) as u32,
            ..*old(cfg)
        }),
{
    cfg.window_position = WindowPosition::Fixed;
    cfg.window_x = Some(x);
    cfg.window_y = Some(y);
    cfg.window_width = clamp_width(logical_width);
    cfg.window_height = clamp_height(logical_height);
}

/// What a focus change does: gaining focus arms hide-on-blur; losing it
/// disarms it and, if it was armed, hides the window when the settings ask
/// for hiding on blur. The window gets a spurious blur before its first
/// focus, which this keeps from hiding it.
pub fn focus_transition(armed: bool, focused: bool) -> (r: (bool, bool))
    ensures
        r.0 == focused,
        r.1 == (!focused && armed),
{
    if focused {
        (true, false)
    } else {
        (false, armed)
    }
}

/// What a tray-menu entry does.
#[derive(Clone, Copy, Debug, PartialEq, Eq, Structural)]
pub enum MenuAction {
    Toggle,
    SelectArea,
    OpenConfig,
    ReloadConfig,
    Quit,
}

/// The action for a menu entry's id, if it is one of ours.
pub fn menu_action(id: &str) -> (r: Option<MenuAction>)
    ensures
        r == (if id@ == "toggle"@ {
            Some(MenuAction::Toggle)
        } else if id@ == "select-area"@ {
            Some(MenuAction::SelectArea)
        } else if id@ == "config"@ {
            Some(MenuAction::OpenConfig)
        } else if id@ == "reload-config"@ {
            Some(MenuAction::ReloadConfig)
        } else if id@ == "quit"@ {
            Some(MenuAction::Quit)
        } else {
            None
        }),
{
    if text_eq(id, "toggle") {
        Some(MenuAction::Toggle)
    } else if text_eq(id, "select-area") {
        Some(MenuAction::SelectArea)
    } else if text_eq(id, "config") {
        Some(MenuAction::OpenConfig)
    } else if text_eq(id, "reload-config") {
        Some(MenuAction::ReloadConfig)
    } else if text_eq(id, "quit") {
        Some(MenuAction::Quit)
    } else {
        None
    }
}

/// The label of the tray entry that picks a fixed area.
pub fn area_menu_label(supported: bool) -> (s: String)
    ensures
        s@ == (if supported {
            "Definir área fixa"@
        } else {
            "Definir área fixa (requer XWayland)"@
        }),
{
    if supported {
        String::from_str("Definir área fixa")
    } else {
        String::from_str("Definir área fixa (requer XWayland)")
    }
}

/// Whether any argument is exactly `flag`.
pub open spec fn has_arg(args: Seq<String>, flag: Seq<char>) -> bool {
    exists|i: int| 0 <= i < args.len() && (#[trigger] args[i])@ == flag
}

/// Whether any argument is exactly `flag`.
pub fn any_arg(args: &Vec<String>, flag: &str) -> (r: bool)
    ensures
        r == has_arg(args@, flag@),
{
    for i in 0..args.len()
        invariant
            forall|j: int| 0 <= j < i ==> (#[trigger] args@[j])@ != flag@,
    {
        if text_eq(args[i].as_str(), flag) {
            return true;
        }
    }
    false
}

/// What a second invocation asks of the running instance.
#[derive(Debug)]
pub enum InstanceAction {
    /// `--select-area`: open the area picker.
    SelectArea,
    /// Language flags: store these codes and show the window with them.
    ApplyLanguages(Vec<String>),
    /// Anything else: show or hide the window.
    Toggle,
}

/// Decides what a new invocation with these arguments does.
pub fn instance_action(args: &Vec<String>) -> (r: InstanceAction)
    ensures
        r is SelectArea <==> has_arg(args@, "--select-area"@),
        r is Toggle <==> !has_arg(args@, "--select-area"@) && arg_lang_codes(args@).len() == 0,
        r matches InstanceAction::ApplyLanguages(codes) ==> codes@.len() == arg_lang_codes(args@).len()
            && forall|i: int| 0 <= i < codes@.len() ==> (#[trigger] codes@[i])@ == arg_lang_codes(args@)[i],
{
    if any_arg(args, "--select-area") {
        return InstanceAction::SelectArea;
    }
    let codes = lang_codes_from_args(args);
    if codes.len() > 0 {
        InstanceAction::ApplyLanguages(codes)
    } else {
        InstanceAction::Toggle
    }
}

/// Whether the window shows right away at start: when the settings ask for
/// it and the area picker is not opening instead.
pub fn show_at_start(cfg: &AppConfig, args: &Vec<String>) -> (r: bool)
    ensures
        r == (cfg.show_on_start && !has_arg(args@, "--select-area"@)),
{
    cfg.show_on_start && !any_arg(args, "--select-area")
}

} // verus!
