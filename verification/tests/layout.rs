use wowland::geometry::{Point, Rect, Size};
use wowland::layout::{apply_outer_gaps, grid_rects, master_stack_rects, Gaps, LayoutEngine, LayoutMode};

fn rect(x: i32, y: i32, w: i32, h: i32) -> Rect {
    Rect::new(Point::new(x, y), Size::new(w, h))
}

#[test]
fn outer_gaps_shrink_the_area() {
    assert_eq!(apply_outer_gaps(Size::new(1000, 800), 10), rect(10, 10, 980, 780));
    assert_eq!(apply_outer_gaps(Size::new(10, 10), 10), rect(10, 10, 1, 1));
}

#[test]
fn single_window_fills_the_area() {
    let r = master_stack_rects(1, Size::new(1000, 800), Gaps { inner: 5, outer: 10 }, 50);
    assert_eq!(r, vec![rect(10, 10, 980, 780)]);
}

#[test]
fn master_stack_exact_rects() {
    let r = master_stack_rects(2, Size::new(1000, 800), Gaps::default(), 60);
    assert_eq!(r, vec![rect(0, 0, 600, 800), rect(600, 0, 400, 800)]);
    let r = master_stack_rects(4, Size::new(1000, 800), Gaps { inner: 5, outer: 10 }, 50);
    // area 980x780 at (10,10); master 490; stack x 505, width 485
    // stack height (780 - 2*5) / 3 = 256
    assert_eq!(
        r,
        vec![
            rect(10, 10, 490, 780),
            rect(505, 10, 485, 256),
            rect(505, 271, 485, 256),
            rect(505, 532, 485, 256),
        ]
    );
}

#[test]
fn grid_exact_rects() {
    let r = grid_rects(5, Size::new(1000, 800), Gaps::default());
    // 3 columns, 2 rows: cells 333x400
    assert_eq!(r[0], rect(0, 0, 333, 400));
    assert_eq!(r[2], rect(666, 0, 333, 400));
    assert_eq!(r[3], rect(0, 400, 333, 400));
    assert_eq!(r[4], rect(333, 400, 333, 400));
    let r = grid_rects(4, Size::new(1000, 800), Gaps { inner: 10, outer: 0 });
    assert_eq!(r, vec![rect(0, 0, 495, 395), rect(505, 0, 495, 395), rect(0, 405, 495, 395), rect(505, 405, 495, 395)]);
}

#[test]
fn negative_space_gives_unit_cells() {
    let r = master_stack_rects(3, Size::new(100, 10), Gaps { inner: 50, outer: 0 }, 50);
    assert_eq!(r[1].size.h, 1);
    assert_eq!(r[2].loc.y, 51);
}

#[test]
fn layout_mode_switches() {
    assert_eq!(LayoutMode::default(), LayoutMode::MasterStack { ratio: 50 });
    assert_eq!(LayoutMode::default().next(), LayoutMode::Grid);
    assert_eq!(LayoutMode::Grid.next(), LayoutMode::MasterStack { ratio: 60 });
    assert_eq!(LayoutMode::Grid.prev(), LayoutMode::MasterStack { ratio: 60 });
    assert_eq!(LayoutMode::MasterStack { ratio: 60 }.prev(), LayoutMode::Grid);
}

#[test]
fn fits_rejects_overflowing_gaps() {
    let engine = LayoutEngine { mode: LayoutMode::Grid, gaps: Gaps { inner: 0, outer: i32::MAX } };
    assert!(!engine.fits(1, Size::new(100, 100)));
    let engine = LayoutEngine::default();
    assert!(engine.fits(3, Size::new(1920, 1080)));
    assert!(engine.fits(0, Size::new(1920, 1080)));
}
