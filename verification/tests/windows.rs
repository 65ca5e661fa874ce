use wowland::geometry::{Point, Rect, Size};
use wowland::manager::WindowManager;
use wowland::color::Color;
use wowland::window::{DecorationColors, Paint, Rgb, Window, WindowId};

#[test]
fn new_window_defaults() {
    let w = Window::new(WindowId(7), 2);
    assert_eq!(w.id(), WindowId(7));
    assert_eq!(w.location(), Point::new(0, 0));
    assert_eq!(w.size(), Size::new(800, 600));
    assert_eq!(w.opacity(), 100);
    assert_eq!(w.workspace(), 2);
    assert!(!w.is_floating());
    assert!(!w.is_minimized());
    assert!(!w.is_maximized());
    assert!(!w.is_dragging());
    assert_eq!(w.decoration_colors(), DecorationColors::Builtin);
}

#[test]
fn floating_cannot_be_cleared_while_forced() {
    let mut w = Window::new(WindowId(1), 0);
    assert!(w.set_forced_floating(true));
    assert!(w.is_floating());
    assert!(!w.set_floating(false));
    assert!(w.is_floating());
    assert!(w.set_forced_floating(false));
    assert!(w.is_floating());
    assert!(w.set_floating(false));
    assert!(!w.is_floating());
}

#[test]
fn maximize_then_unmaximize_restores_geometry() {
    let mut w = Window::new(WindowId(1), 0);
    w.set_geometry(Point::new(30, 40), Size::new(300, 200));
    assert!(w.set_maximized(true, Size::new(1280, 720)));
    assert_eq!(w.location(), Point::new(0, 0));
    assert_eq!(w.size(), Size::new(1280, 692));
    assert!(w.is_floating());
    assert!(!w.set_floating(false));
    assert!(!w.set_maximized(true, Size::new(1280, 720)));
    assert!(w.set_maximized(false, Size::new(1280, 720)));
    assert_eq!(w.location(), Point::new(30, 40));
    assert_eq!(w.size(), Size::new(300, 200));
    assert!(!w.is_floating());
    assert!(!w.is_maximized());
}

#[test]
fn maximized_size_is_at_least_one() {
    let mut w = Window::new(WindowId(1), 0);
    w.set_maximized(true, Size::new(0, 10));
    assert_eq!(w.size(), Size::new(1, 1));
}

#[test]
fn opacity_cycles_through_three_levels() {
    let mut w = Window::new(WindowId(1), 0);
    w.cycle_opacity();
    assert_eq!(w.opacity(), 85);
    w.cycle_opacity();
    assert_eq!(w.opacity(), 70);
    w.cycle_opacity();
    assert_eq!(w.opacity(), 100);
}

#[test]
fn changes_bump_the_decoration_commit() {
    let mut w = Window::new(WindowId(1), 0);
    assert_eq!(w.decoration_commit(), 0);
    assert!(!w.set_geometry(Point::new(0, 0), Size::new(800, 600)));
    assert_eq!(w.decoration_commit(), 0);
    assert!(w.set_size(Size::new(10, 10)));
    assert_eq!(w.decoration_commit(), 1);
    w.set_location(Point::new(5, 5));
    assert_eq!(w.decoration_commit(), 2);
    w.set_dragging(true);
    assert_eq!(w.decoration_commit(), 3);
    assert!(w.set_workspace(1));
    assert_eq!(w.decoration_commit(), 4);
}

#[test]
fn outer_rect_includes_decoration() {
    let mut w = Window::new(WindowId(1), 0);
    w.set_geometry(Point::new(10, 20), Size::new(100, 50));
    assert_eq!(w.outer_size(), Size::new(100, 78));
    assert_eq!(w.outer_rect(), Rect::new(Point::new(10, 20), Size::new(100, 78)));
    assert_eq!(w.decoration_rect(), Rect::new(Point::new(10, 20), Size::new(100, 28)));
    assert!(w.outer_rect().contains(Point::new(10, 20)));
    assert!(!w.outer_rect().contains(Point::new(110, 20)));
    assert!(!w.outer_rect().contains(Point::new(10, 98)));
}

#[test]
fn contains_saturates_far_edge() {
    let r = Rect::new(Point::new(i32::MAX - 5, 0), Size::new(100, 10));
    assert!(r.contains(Point::new(i32::MAX - 1, 5)));
}

#[test]
fn add_window_focuses_and_numbers_from_one() {
    let mut m = WindowManager::new();
    assert_eq!(m.workspace_count(), 4);
    assert_eq!(m.current_workspace(), 0);
    let a = m.add_window();
    let b = m.add_window();
    assert_eq!(a, WindowId(1));
    assert_eq!(b, WindowId(2));
    assert_eq!(m.focused_id(), Some(b));
    assert_eq!(m.focused_window().map(|w| w.id()), Some(b));
    assert_eq!(m.windows().len(), 2);
}

#[test]
fn focus_raises_window_to_top() {
    let mut m = WindowManager::new();
    let a = m.add_window();
    let _b = m.add_window();
    let c = m.add_window();
    assert!(m.focus_window(a));
    let ids: Vec<WindowId> = m.windows().iter().map(|w| w.id()).collect();
    assert_eq!(ids, vec![WindowId(2), c, a]);
    assert_eq!(m.focused_id(), Some(a));
}

#[test]
fn focus_next_and_prev_follow_stacking_order() {
    let mut m = WindowManager::new();
    let a = m.add_window();
    let b = m.add_window();
    let c = m.add_window();
    // order a b c, focus c: next wraps to a
    assert_eq!(m.focus_next(), Some(a));
    // order b c a, focus a: prev is c, and a goes to the bottom
    assert_eq!(m.focus_prev(), Some(c));
    // order a b c, focus c: next undoes the step back
    assert_eq!(m.focus_next(), Some(a));
    let _ = b;
}

#[test]
fn focus_prev_walks_back_through_all_windows() {
    let mut m = WindowManager::new();
    let a = m.add_window();
    let b = m.add_window();
    let c = m.add_window();
    assert_eq!(m.focused_id(), Some(c));
    assert_eq!(m.focus_prev(), Some(b));
    assert_eq!(m.focus_prev(), Some(a));
    assert_eq!(m.focus_prev(), Some(c));
    assert_eq!(m.focus_prev(), Some(b));
    // a step forward undoes a step back
    assert_eq!(m.focus_next(), Some(c));
    assert_eq!(m.focused_id(), Some(c));
}

#[test]
fn focus_skips_minimized_and_other_workspaces() {
    let mut m = WindowManager::new();
    let a = m.add_window();
    let b = m.add_window();
    assert!(m.set_minimized(a, true));
    assert!(!m.focus_window(a));
    assert!(m.move_window_to_workspace(b, 1));
    assert!(!m.focus_window(b));
    assert_eq!(m.focus_next(), None);
}

#[test]
fn switching_workspace_drops_focus() {
    let mut m = WindowManager::new();
    m.add_window();
    assert!(m.next_workspace());
    assert_eq!(m.current_workspace(), 1);
    assert!(m.focused_window().is_none());
    assert!(m.prev_workspace());
    assert_eq!(m.current_workspace(), 0);
    assert!(m.prev_workspace());
    assert_eq!(m.current_workspace(), 3);
    assert!(!m.set_current_workspace(4));
    assert!(!m.set_current_workspace(3));
}

#[test]
fn move_to_missing_workspace_fails() {
    let mut m = WindowManager::new();
    let a = m.add_window();
    assert!(!m.move_window_to_workspace(a, 4));
    assert!(!m.move_window_to_workspace(a, 0));
    assert!(!m.move_window_to_workspace(WindowId(99), 1));
}

#[test]
fn shrinking_workspaces_drops_their_windows() {
    let mut m = WindowManager::new();
    let a = m.add_window();
    let b = m.add_window();
    assert!(m.move_window_to_workspace(b, 3));
    assert!(m.set_current_workspace(3));
    assert!(m.focus_window(b));
    m.set_workspace_count(2);
    assert_eq!(m.workspace_count(), 2);
    assert_eq!(m.current_workspace(), 1);
    assert_eq!(m.windows().len(), 1);
    assert_eq!(m.windows()[0].id(), a);
    assert_eq!(m.focused_id(), None);
    m.set_workspace_count(0);
    assert_eq!(m.workspace_count(), 2);
}

#[test]
fn remove_window_clears_focus() {
    let mut m = WindowManager::new();
    let a = m.add_window();
    let removed = m.remove_window(a);
    assert_eq!(removed.map(|w| w.id()), Some(a));
    assert_eq!(m.focused_id(), None);
    assert!(m.remove_window(a).is_none());
}

#[test]
fn window_at_finds_topmost() {
    let mut m = WindowManager::new();
    let a = m.add_window();
    let b = m.add_window();
    assert_eq!(m.window_at(Point::new(10, 10)), Some(b));
    assert!(m.set_minimized(b, true));
    assert_eq!(m.window_at(Point::new(10, 10)), Some(a));
    assert_eq!(m.window_at(Point::new(900, 10)), None);
    assert_eq!(m.window_at(Point::new(10, 627)), Some(a));
    assert_eq!(m.window_at(Point::new(10, 628)), None);
}

#[test]
fn cycle_focused_opacity_needs_focus() {
    let mut m = WindowManager::new();
    assert!(!m.cycle_focused_opacity());
    let a = m.add_window();
    assert!(m.cycle_focused_opacity());
    assert_eq!(m.window(a).map(|w| w.opacity()), Some(85));
}

#[test]
fn decoration_colors_apply_to_present_and_later_windows() {
    let mut m = WindowManager::new();
    let a = m.add_window();
    let colors = DecorationColors::Custom {
        focused: Rgb { r: 1, g: 2, b: 3 },
        unfocused: Rgb { r: 4, g: 5, b: 6 },
    };
    m.set_decoration_colors(colors);
    assert_eq!(m.window(a).map(|w| w.decoration_colors()), Some(colors));
    let b = m.add_window();
    assert_eq!(m.window(b).map(|w| w.decoration_colors()), Some(colors));
}

#[test]
fn decoration_paint_follows_focus_and_opacity() {
    let mut w = Window::new(WindowId(1), 0);
    assert_eq!(
        w.decoration_paint(true),
        (Paint::Builtin(Color { r: 280, g: 320, b: 400, a: 1000 }), 1000)
    );
    assert_eq!(
        w.decoration_paint(false),
        (Paint::Builtin(Color { r: 180, g: 200, b: 260, a: 1000 }), 1000)
    );
    w.cycle_opacity();
    let colors = DecorationColors::Custom {
        focused: Rgb { r: 1, g: 2, b: 3 },
        unfocused: Rgb { r: 4, g: 5, b: 6 },
    };
    w.set_decoration_colors(colors);
    assert_eq!(w.decoration_paint(false), (Paint::Configured(Rgb { r: 4, g: 5, b: 6 }), 850));
}

#[test]
fn shown_windows_are_those_to_draw() {
    let mut m = WindowManager::new();
    let a = m.add_window();
    let b = m.add_window();
    let c = m.add_window();
    assert!(m.set_minimized(b, true));
    assert!(m.move_window_to_workspace(c, 1));
    let shown: Vec<WindowId> = m.shown_windows().iter().map(|w| w.id()).collect();
    assert_eq!(shown, vec![a]);
}
