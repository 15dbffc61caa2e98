use quicktrad::config::{AppConfig, WindowPosition};
use quicktrad::window::{
    apply_area_selection, area_menu_label, center_in_work_area, fixed_position_supported,
    focus_transition, instance_action, menu_action, show_at_start, window_placement, window_size,
    InstanceAction, MenuAction, Placement,
};

fn args(list: &[&str]) -> Vec<String> {
    list.iter().map(|s| s.to_string()).collect()
}

#[test]
fn window_size_is_clamped() {
    let mut cfg = AppConfig::default();
    assert_eq!(window_size(&cfg), (520, 240));
    cfg.window_width = 10;
    cfg.window_height = 5000;
    assert_eq!(window_size(&cfg), (320, 1600));
    cfg.window_width = 9999;
    cfg.window_height = 0;
    assert_eq!(window_size(&cfg), (2400, 180));
}

#[test]
fn placement_follows_settings() {
    let mut cfg = AppConfig::default();
    assert_eq!(window_placement(&cfg, true), Placement::CursorMonitor);
    cfg.window_position = WindowPosition::PrimaryMonitor;
    assert_eq!(window_placement(&cfg, false), Placement::PrimaryMonitor);
    cfg.window_position = WindowPosition::Fixed;
    assert_eq!(window_placement(&cfg, true), Placement::CursorMonitor);
    cfg.window_x = Some(-100);
    assert_eq!(window_placement(&cfg, true), Placement::CursorMonitor);
    cfg.window_y = Some(50);
    assert_eq!(window_placement(&cfg, true), Placement::Fixed { x: -100, y: 50 });
    assert_eq!(window_placement(&cfg, false), Placement::FixedUnsupported);
}

#[test]
fn centering_in_work_area() {
    assert_eq!(center_in_work_area(0, 0, 1920, 1080, 520, 240), (700, 420));
    assert_eq!(center_in_work_area(1920, 30, 1280, 994, 520, 240), (2300, 407));
    assert_eq!(center_in_work_area(10, 20, 300, 100, 520, 240), (10, 20));
}

#[test]
fn fixed_coordinates_need_a_non_wayland_backend() {
    assert!(fixed_position_supported(""));
    assert!(fixed_position_supported("x11"));
    assert!(!fixed_position_supported("wayland"));
    assert!(!fixed_position_supported("x11, Wayland "));
    assert!(!fixed_position_supported("WAYLAND,x11"));
    assert!(fixed_position_supported("waylandx,x11"));
    assert!(fixed_position_supported(",,"));
}

#[test]
fn area_selection_is_stored_clamped() {
    let mut cfg = AppConfig::default();
    apply_area_selection(&mut cfg, -5, 12, 100, 2000);
    assert_eq!(cfg.window_position, WindowPosition::Fixed);
    assert_eq!(cfg.window_x, Some(-5));
    assert_eq!(cfg.window_y, Some(12));
    assert_eq!(cfg.window_width, 320);
    assert_eq!(cfg.window_height, 1600);
    assert_eq!(cfg.font_size, 14);
}

#[test]
fn blur_before_first_focus_does_not_hide() {
    assert_eq!(focus_transition(false, false), (false, false));
    assert_eq!(focus_transition(false, true), (true, false));
    assert_eq!(focus_transition(true, false), (false, true));
    assert_eq!(focus_transition(true, true), (true, false));
}

#[test]
fn tray_menu_ids() {
    assert_eq!(menu_action("toggle"), Some(MenuAction::Toggle));
    assert_eq!(menu_action("select-area"), Some(MenuAction::SelectArea));
    assert_eq!(menu_action("config"), Some(MenuAction::OpenConfig));
    assert_eq!(menu_action("reload-config"), Some(MenuAction::ReloadConfig));
    assert_eq!(menu_action("quit"), Some(MenuAction::Quit));
    assert_eq!(menu_action("other"), None);
    assert_eq!(area_menu_label(true), "Definir área fixa");
    assert_eq!(area_menu_label(false), "Definir área fixa (requer XWayland)");
}

#[test]
fn second_invocation_actions() {
    assert!(matches!(instance_action(&args(&["quicktrad", "--select-area", "--pt"])), InstanceAction::SelectArea));
    match instance_action(&args(&["quicktrad", "--en", "--pt"])) {
        InstanceAction::ApplyLanguages(codes) => assert_eq!(codes, vec!["en".to_string(), "pt".to_string()]),
        other => panic!("unexpected {:?}", other),
    }
    assert!(matches!(instance_action(&args(&["quicktrad", "--toggle"])), InstanceAction::Toggle));
}

#[test]
fn start_shows_window_unless_selecting_area() {
    let mut cfg = AppConfig::default();
    assert!(show_at_start(&cfg, &args(&["quicktrad"])));
    assert!(!show_at_start(&cfg, &args(&["quicktrad", "--select-area"])));
    cfg.show_on_start = false;
    assert!(!show_at_start(&cfg, &args(&["quicktrad"])));
}
