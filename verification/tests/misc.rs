use wowland::color::{decoration_alpha, decoration_focused, panel_background};
use wowland::geometry::{Point, Rect, Size};
use wowland::panel::Panel;
use wowland::state::{DisplayState, RendererState, State};
use wowland::text::{chars_of, split_pieces, trim_range, Separator};

#[test]
fn panel_indicators() {
    let mut p = Panel::new(3);
    p.update(1, 3);
    let ind = p.indicators();
    assert_eq!(ind.len(), 3);
    assert_eq!(ind[0].rect, Rect::new(Point::new(10, 6), Size::new(30, 16)));
    assert_eq!(ind[2].rect.loc, Point::new(78, 6));
    assert!(!ind[0].current && ind[1].current && !ind[2].current);
    assert_eq!(ind[0].commit, 0);
    p.update(2, 3);
    let ind = p.indicators();
    assert_eq!(ind[0].commit, 1);
    assert!(ind[2].current);
    assert_eq!(p.background_rect(Size::new(1280, 720)), Rect::new(Point::new(0, 0), Size::new(1280, 28)));
}

#[test]
fn state_initializes_once() {
    let mut s = State::new();
    assert_eq!(s.initialize(), (true, true));
    assert_eq!(s.initialize(), (false, false));
    let mut d = DisplayState::new();
    assert!(d.initialize());
    assert!(!d.initialize());
    let mut r = RendererState::new();
    assert!(r.initialize());
}

#[test]
fn colors_and_alpha() {
    assert!(panel_background().is_opaque());
    assert_eq!(decoration_focused().r, 280);
    assert_eq!(decoration_alpha(1000, 85), 850);
    assert_eq!(decoration_alpha(1000, 100), 1000);
    assert_eq!(decoration_alpha(40, 100), 50);
}

#[test]
fn text_helpers() {
    let v = chars_of(" \u{3000}a b\t");
    let t = trim_range(&v, 0, v.len());
    assert_eq!(t, vec!['a', ' ', 'b']);
    let p = split_pieces(&chars_of("a;;b;"), 0, 5, Separator::Char(';'));
    assert_eq!(p, vec![vec!['a'], vec!['b']]);
    let w = split_pieces(&chars_of(" x  yz "), 0, 7, Separator::White);
    assert_eq!(w, vec![vec!['x'], vec!['y', 'z']]);
}
