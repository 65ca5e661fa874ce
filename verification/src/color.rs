//! Colours of the compositor's own drawing, with channels in thousandths.
use vstd::prelude::*;

verus! {

/// A colour whose channels are given in thousandths (0 to 1000).
#[derive(Clone, Copy, Debug, PartialEq, Eq, Structural)]
pub struct Color {
    pub r: u16,
    pub g: u16,
    pub b: u16,
    pub a: u16,
}

/// The output's background.
pub fn background() -> (c: Color)
    ensures
        c == (Color { r: 120, g: 140, b: 180, a: 1000 }),
{
    Color { r: 120, g: 140, b: 180, a: 1000 }
}

/// The panel's background.
pub fn panel_background() -> (c: Color)
    ensures
        c == (Color { r: 150, g: 170, b: 210, a: 1000 }),
{
    Color { r: 150, g: 170, b: 210, a: 1000 }
}

/// The indicator of the current workspace.
pub fn indicator_current() -> (c: Color)
    ensures
        c == (Color { r: 280, g: 320, b: 400, a: 1000 }),
{
    Color { r: 280, g: 320, b: 400, a: 1000 }
}

/// The indicators of the other workspaces.
pub fn indicator_other() -> (c: Color)
    ensures
        c == (Color { r: 120, g: 140, b: 180, a: 1000 }),
{
    Color { r: 120, g: 140, b: 180, a: 1000 }
}

/// The built-in decoration colour of the focused window.
pub fn decoration_focused() -> (c: Color)
    ensures
        c == (Color { r: 280, g: 320, b: 400, a: 1000 }),
{
    Color { r: 280, g: 320, b: 400, a: 1000 }
}

/// The built-in decoration colour of the other windows.
pub fn decoration_unfocused() -> (c: Color)
    ensures
        c == (Color { r: 180, g: 200, b: 260, a: 1000 }),
{
    Color { r: 180, g: 200, b: 260, a: 1000 }
}

impl Color {
    /// Whether the colour is fully opaque.
    pub fn is_opaque(&self) -> (r: bool)
        ensures
            r == (self.a == 1000),
    {
        self.a == 1000
    }
}

pub open spec fn clamp(x: int, lo: int, hi: int) -> int {
    if x < lo { lo } else if x > hi { hi } else { x }
}

/// The alpha of a window's decoration: the colour's alpha scaled by the
/// window's opacity (in percent), kept between 0.05 and 1.
pub fn decoration_alpha(alpha: u16, opacity: u32) -> (r: u16)
    requires
        alpha <= 1000,
        opacity <= 100,
    ensures
        r == clamp(alpha * opacity / 100, 50, 1000),
{
    proof {
        assert((alpha as int) * (opacity as int) <= 100000) by (nonlinear_arith)
            requires
                alpha <= 1000,
                opacity <= 100,
        ;
        assert(0 <= (alpha as int) * (opacity as int)) by (nonlinear_arith)
            requires
                alpha >= 0,
                opacity >= 0,
        ;
    }
    let scaled = (alpha as u32) * opacity / 100;
    if scaled < 50 {
        50
    } else if scaled > 1000 {
        1000
    } else {
        scaled as u16
    }
}

} // verus!
