use wowland::config::{colors_of, gaps_of, workspace_count_of, ConfigFile, GapsConfig, WorkspaceConfig};
use wowland::geometry::{Point, Size};
use wowland::input::Action;
use wowland::launcher::{DesktopEntry, LaunchError};
use wowland::layout::{Gaps, LayoutMode};
use wowland::runtime::{resize_target, Compositor, Effect, GrabButton, GrabStart};
use wowland::window::{DecorationColors, Rgb, WindowId};

fn origin() -> Point {
    Point::new(0, 0)
}

fn compositor() -> Compositor {
    let mut c = Compositor::new(vec!["pavucontrol".to_string()]);
    c.set_output_size(Size::new(1000, 800));
    c
}

#[test]
fn new_compositor_state() {
    let c = Compositor::new(Vec::new());
    assert_eq!(c.output_size(), Size::new(1, 1));
    assert!(c.layout_dirty());
    assert!(c.needs_redraw());
    assert!(!c.should_exit());
    assert_eq!(c.layout().mode, LayoutMode::MasterStack { ratio: 50 });
}

#[test]
fn quit_sets_exit_flag() {
    let mut c = compositor();
    let e = c.apply_action(Action::Quit, origin());
    assert!(e.is_empty());
    assert!(c.should_exit());
}

#[test]
fn layout_actions_switch_mode() {
    let mut c = compositor();
    c.apply_layout();
    assert!(!c.layout_dirty());
    c.apply_action(Action::NextLayout, origin());
    assert_eq!(c.layout().mode, LayoutMode::Grid);
    assert!(c.layout_dirty());
    c.apply_action(Action::PrevLayout, origin());
    assert_eq!(c.layout().mode, LayoutMode::MasterStack { ratio: 60 });
}

#[test]
fn new_toplevel_focuses_and_applies_rules() {
    let mut c = compositor();
    let (a, e) = c.new_toplevel(Some("foot".to_string()));
    assert_eq!(a, WindowId(1));
    assert!(matches!(e.as_slice(), [Effect::FocusKeyboard(id)] if *id == a));
    let (b, _) = c.new_toplevel(Some("pavucontrol".to_string()));
    assert!(c.windows().window(b).map(|w| w.is_floating()).unwrap_or(false));
    assert!(!c.windows().window(a).map(|w| w.is_floating()).unwrap_or(true));
    assert_eq!(c.windows().focused_id(), Some(b));
    c.apply_floating_rule(Some(a), Some("pavucontrol".to_string()));
    assert!(c.windows().window(a).map(|w| w.is_floating()).unwrap_or(false));
}

#[test]
fn apply_layout_tiles_and_reports_changes() {
    let mut c = compositor();
    let (a, _) = c.new_toplevel(None);
    let (b, _) = c.new_toplevel(None);
    assert!(c.layout_fits());
    let changed = c.apply_layout();
    assert_eq!(changed, vec![a, b]);
    let wa = c.windows().window(a).unwrap();
    assert_eq!(wa.location(), Point::new(0, 0));
    assert_eq!(wa.size(), Size::new(500, 772));
    let wb = c.windows().window(b).unwrap();
    assert_eq!(wb.location(), Point::new(500, 0));
    assert!(c.apply_layout().is_empty());
}

#[test]
fn focus_actions_move_the_keyboard() {
    let mut c = compositor();
    let (a, _) = c.new_toplevel(None);
    let (_b, _) = c.new_toplevel(None);
    let e = c.apply_action(Action::FocusNext, origin());
    assert!(matches!(e.as_slice(), [Effect::FocusKeyboard(id)] if *id == a));
    assert_eq!(c.windows().focused_id(), Some(a));
}

#[test]
fn toggle_minimize_moves_focus_on() {
    let mut c = compositor();
    let (a, _) = c.new_toplevel(None);
    let (b, _) = c.new_toplevel(None);
    let e = c.apply_action(Action::ToggleMinimize, origin());
    assert!(c.windows().window(b).unwrap().is_minimized());
    assert!(matches!(e.as_slice(), [Effect::FocusKeyboard(id)] if *id == a));
    assert!(c.layout_dirty());
}

#[test]
fn toggle_maximize_reports_size() {
    let mut c = compositor();
    let (a, _) = c.new_toplevel(None);
    let e = c.apply_action(Action::ToggleMaximize, origin());
    match e.as_slice() {
        [Effect::Maximized { id, maximized, size }] => {
            assert_eq!(*id, a);
            assert!(*maximized);
            assert_eq!(*size, Size::new(1000, 772));
        }
        other => panic!("unexpected effects {:?}", other),
    }
    let e = c.apply_action(Action::ToggleMaximize, origin());
    assert!(matches!(e.as_slice(), [Effect::Maximized { maximized: false, .. }]));
    assert_eq!(c.windows().window(a).unwrap().size(), Size::new(800, 600));
}

#[test]
fn toggle_float_and_close_and_opacity() {
    let mut c = compositor();
    let (a, _) = c.new_toplevel(None);
    c.apply_action(Action::ToggleFloat, origin());
    assert!(c.windows().window(a).unwrap().is_floating());
    let e = c.apply_action(Action::CloseFocused, origin());
    assert!(matches!(e.as_slice(), [Effect::Close(id)] if *id == a));
    c.apply_action(Action::CycleOpacity, origin());
    assert_eq!(c.windows().window(a).unwrap().opacity(), 85);
}

#[test]
fn workspace_actions_round_trip() {
    let mut c = compositor();
    c.new_toplevel(None);
    let e = c.apply_action(Action::WorkspaceNext, origin());
    assert!(matches!(e.as_slice(), [Effect::ResetPointerGrabs]));
    assert_eq!(c.windows().current_workspace(), 1);
    c.apply_action(Action::WorkspacePrev, origin());
    assert_eq!(c.windows().current_workspace(), 0);
}

#[test]
fn move_to_workspace_takes_focused_window() {
    let mut c = compositor();
    let (a, _) = c.new_toplevel(None);
    c.apply_action(Action::MoveToWorkspacePrev, origin());
    assert_eq!(c.windows().window(a).unwrap().workspace(), 3);
    assert_eq!(c.windows().focused_window().map(|w| w.id()), None);
    let e = c.apply_action(Action::MoveToWorkspaceNext, Point::new(5000, 5000));
    assert!(e.is_empty());
}

#[test]
fn spawn_and_launcher_effects() {
    let mut c = compositor();
    let e = c.apply_action(Action::Spawn { command: "wofi --show drun".to_string() }, origin());
    assert!(matches!(e.as_slice(), [Effect::SpawnShell(s)] if s == "wofi --show drun"));
    c.add_desktop_entry(DesktopEntry {
        name: "Firefox".to_string(),
        command: "firefox --new-window".to_string(),
        icon: None,
        categories: Vec::new(),
    });
    c.add_desktop_entry(DesktopEntry {
        name: "Broken".to_string(),
        command: " ".to_string(),
        icon: None,
        categories: Vec::new(),
    });
    let e = c.apply_action(Action::Launcher { query: Some("fire".to_string()) }, origin());
    match e.as_slice() {
        [Effect::Launch(cmd)] => {
            assert_eq!(cmd.program, "firefox");
            assert_eq!(cmd.args, vec!["--new-window".to_string()]);
        }
        other => panic!("unexpected effects {:?}", other),
    }
    let e = c.apply_action(Action::Launcher { query: Some("broken".to_string()) }, origin());
    assert!(matches!(e.as_slice(), [Effect::LaunchFailed(LaunchError::NoExecCommand)]));
    let e = c.apply_action(Action::Launcher { query: Some("none".to_string()) }, origin());
    assert!(e.is_empty());
    let e = c.apply_action(Action::Launcher { query: None }, origin());
    assert!(matches!(e.as_slice(), [Effect::Launch(_)]));
}

#[test]
fn requests_from_clients() {
    let mut c = compositor();
    let (a, _) = c.new_toplevel(None);
    let (b, _) = c.new_toplevel(None);
    let e = c.minimize_request(b);
    assert!(matches!(e.as_slice(), [Effect::FocusKeyboard(id)] if *id == a));
    let e = c.maximize_request(a, true);
    assert!(matches!(e.as_slice(), [Effect::Maximized { .. }]));
    assert!(c.maximize_request(a, true).is_empty());
    c.toplevel_destroyed(a);
    assert!(c.windows().window(a).is_none());
    c.mark_drawn();
    c.surface_committed(false);
    assert!(!c.needs_redraw());
    c.surface_committed(true);
    assert!(c.needs_redraw());
}

fn bare_config() -> ConfigFile {
    ConfigFile {
        keybindings: Vec::new(),
        floating_app_ids: Vec::new(),
        super_modifier: "logo".to_string(),
        decoration_focused: None,
        decoration_unfocused: None,
        gaps: None,
        workspace: None,
    }
}

#[test]
fn configure_sets_gaps_and_workspaces() {
    let mut c = compositor();
    let mut config = bare_config();
    config.gaps = Some(GapsConfig { inner: Some(3), outer: Some(7) });
    config.workspace = Some(WorkspaceConfig { count: 2 });
    c.configure(&config);
    assert_eq!(c.layout().gaps, Gaps { inner: 3, outer: 7 });
    assert_eq!(c.windows().workspace_count(), 2);
}

#[test]
fn missing_gaps_take_the_defaults() {
    let mut c = compositor();
    c.configure(&bare_config());
    assert_eq!(c.layout().gaps, Gaps { inner: 5, outer: 10 });
    assert_eq!(c.windows().workspace_count(), 4);
    let mut config = bare_config();
    config.gaps = Some(GapsConfig { inner: Some(2), outer: None });
    c.configure(&config);
    assert_eq!(c.layout().gaps, Gaps { inner: 2, outer: 10 });
    config.gaps = Some(GapsConfig { inner: None, outer: Some(0) });
    c.configure(&config);
    assert_eq!(c.layout().gaps, Gaps { inner: 5, outer: 0 });
    assert_eq!(gaps_of(&bare_config()), Gaps { inner: 5, outer: 10 });
}

#[test]
fn configured_colors_reach_new_windows() {
    let mut c = compositor();
    let mut config = bare_config();
    config.decoration_focused = Some("#476178".to_string());
    config.decoration_unfocused = Some("#2E333D".to_string());
    let colors = DecorationColors::Custom {
        focused: Rgb { r: 0x47, g: 0x61, b: 0x78 },
        unfocused: Rgb { r: 0x2e, g: 0x33, b: 0x3d },
    };
    assert_eq!(colors_of(&config), Some(colors));
    c.configure(&config);
    let (a, _) = c.new_toplevel(None);
    assert_eq!(c.windows().window(a).map(|w| w.decoration_colors()), Some(colors));
}

#[test]
fn colors_need_both_readable() {
    let mut config = bare_config();
    config.decoration_focused = Some("#476178".to_string());
    assert_eq!(colors_of(&config), None);
    config.decoration_unfocused = Some("#zz0000".to_string());
    assert_eq!(colors_of(&config), None);
    config.decoration_focused = Some("nope".to_string());
    config.decoration_unfocused = Some("#2e333d".to_string());
    assert_eq!(colors_of(&config), None);
    assert_eq!(workspace_count_of(&config), None);
}

#[test]
fn pointer_grabs() {
    let mut c = compositor();
    let (a, _) = c.new_toplevel(None);
    assert_eq!(c.begin_grab(a, GrabButton::Left), None);
    c.apply_action(Action::ToggleFloat, origin());
    assert_eq!(c.window_at(Point::new(1, 1)), Some(a));
    assert_eq!(c.begin_grab(a, GrabButton::Left), Some(GrabStart::Drag(Point::new(0, 0))));
    assert!(c.windows().window(a).unwrap().is_dragging());
    c.drag_to(a, Point::new(40, 50));
    assert_eq!(c.windows().window(a).unwrap().location(), Point::new(40, 50));
    c.set_dragging(a, false);
    assert_eq!(c.begin_grab(a, GrabButton::Right), Some(GrabStart::Resize(Size::new(800, 600))));
    assert!(c.resize_to(a, resize_target(Size::new(800, 600), -700, 10)));
    assert_eq!(c.windows().window(a).unwrap().size(), Size::new(160, 610));
}

#[test]
fn workspace_switch_ends_drags() {
    let mut c = compositor();
    let (a, _) = c.new_toplevel(None);
    c.apply_action(Action::ToggleFloat, origin());
    assert_eq!(c.begin_grab(a, GrabButton::Left), Some(GrabStart::Drag(Point::new(0, 0))));
    assert!(c.windows().window(a).unwrap().is_dragging());
    let e = c.apply_action(Action::WorkspaceNext, origin());
    assert!(matches!(e.first(), Some(Effect::ResetPointerGrabs)));
    assert!(!c.windows().window(a).unwrap().is_dragging());
    assert_eq!(c.windows().current_workspace(), 1);
}
