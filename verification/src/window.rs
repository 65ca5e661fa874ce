//! A managed toplevel window: its geometry and its floating, maximized,
//! minimized, dragging, opacity and workspace state.
use vstd::prelude::*;
use crate::geometry::{Point, Size, Rect};
use crate::color::{Color, clamp, decoration_alpha, decoration_focused, decoration_unfocused};

verus! {

/// Height of the title decoration drawn above each window.
pub const DECORATION_HEIGHT: i32 = 28;

/// Height of the panel at the top of the output.
pub const PANEL_HEIGHT: i32 = 28;

/// Width and height of a freshly mapped window.
pub const INITIAL_WIDTH: i32 = 800;
pub const INITIAL_HEIGHT: i32 = 600;

/// Identifier of a managed window; unique within a window manager.
#[derive(Clone, Copy, Debug, PartialEq, Eq, Hash, Structural)]
pub struct WindowId(pub u64);

/// An 8-bit-per-channel colour.
#[derive(Clone, Copy, Debug, PartialEq, Eq, Structural)]
pub struct Rgb {
    pub r: u8,
    pub g: u8,
    pub b: u8,
}

/// The colours of a window's decoration: the built-in ones, or colours from
/// the configuration.
#[derive(Clone, Copy, Debug, PartialEq, Eq, Structural)]
pub enum DecorationColors {
    Builtin,
    Custom { focused: Rgb, unfocused: Rgb },
}

/// What a decoration is painted with: a built-in colour (channels in
/// thousandths) or a configured 8-bit one.
#[derive(Clone, Copy, Debug, PartialEq, Eq, Structural)]
pub enum Paint {
    Builtin(Color),
    Configured(Rgb),
}

/// The paint of a window's decoration, focused or not, and its alpha in
/// thousandths: every decoration colour is opaque, so the alpha is the
/// window's opacity, kept between 0.05 and 1.
pub open spec fn decoration_paint_of(v: WindowView, focused: bool) -> (Paint, u16) {
    (
        match v.decoration {
            DecorationColors::Builtin => Paint::Builtin(
                if focused {
                    Color { r: 280, g: 320, b: 400, a: 1000 }
                } else {
                    Color { r: 180, g: 200, b: 260, a: 1000 }
                },
            ),
            DecorationColors::Custom { focused: f, unfocused: u } => Paint::Configured(
                if focused {
                    f
                } else {
                    u
                },
            ),
        },
        clamp(1000 * v.opacity / 100, 50, 1000) as u16,
    )
}

/// A window's state as a value, for contracts.
pub struct WindowView {
    pub id: WindowId,
    pub location: Point,
    pub size: Size,
    pub decoration: DecorationColors,
    /// Incremented (wrapping) whenever the decoration has to be redrawn.
    pub commit: u64,
    pub dragging: bool,
    pub floating: bool,
    pub forced_floating: bool,
    pub minimized: bool,
    pub maximized: bool,
    /// Opacity in percent.
    pub opacity: u32,
    pub restore_geometry: Option<(Point, Size)>,
    pub restore_floating: bool,
    pub workspace: usize,
}

/// The successor of a commit counter, wrapping at the top.
pub open spec fn bump(c: u64) -> u64 {
    if c == u64::MAX { 0 } else { (c + 1) as u64 }
}

pub open spec fn max_i32(a: int, b: int) -> int {
    if a >= b { a } else { b }
}

impl WindowView {
    /// The state every window keeps: a forced-floating or maximized window
    /// floats, and a maximized window (and only such) remembers the geometry
    /// it had before.
    pub open spec fn well_formed(self) -> bool {
        &&& self.forced_floating ==> self.floating
        &&& self.maximized ==> self.floating
        &&& self.maximized <==> self.restore_geometry is Some
        &&& self.opacity <= 100
    }

    /// A window floats when it was made to float or a rule forces it to.
    pub open spec fn is_floating(self) -> bool {
        self.floating || self.forced_floating
    }

    pub open spec fn initial(id: WindowId, workspace: usize) -> WindowView {
        WindowView {
            id,
            location: Point { x: 0, y: 0 },
            size: Size { w: INITIAL_WIDTH, h: INITIAL_HEIGHT },
            decoration: DecorationColors::Builtin,
            commit: 0,
            dragging: false,
            floating: false,
            forced_floating: false,
            minimized: false,
            maximized: false,
            opacity: 100,
            restore_geometry: None,
            restore_floating: false,
            workspace,
        }
    }

    pub open spec fn with_workspace(self, workspace: usize) -> WindowView {
        if self.workspace != workspace {
            WindowView { workspace, commit: bump(self.commit), ..self }
        } else {
            self
        }
    }

    pub open spec fn with_dragging(self, dragging: bool) -> WindowView {
        if self.dragging != dragging {
            WindowView { dragging, commit: bump(self.commit), ..self }
        } else {
            self
        }
    }

    /// Floating can be switched off neither for a maximized window nor for
    /// one that a rule forces to float.
    pub open spec fn with_floating(self, floating: bool) -> WindowView {
        if (self.maximized || self.forced_floating) && !floating {
            self
        } else if self.floating != floating {
            WindowView { floating, commit: bump(self.commit), ..self }
        } else {
            self
        }
    }

    /// Forcing a window to float also makes it float; lifting the force
    /// leaves its own floating flag as it is.
    pub open spec fn with_forced_floating(self, forced: bool) -> WindowView {
        if self.forced_floating != forced {
            WindowView {
                forced_floating: forced,
                floating: if forced { true } else { self.floating },
                commit: bump(self.commit),
                ..self
            }
        } else {
            self
        }
    }

    pub open spec fn with_minimized(self, minimized: bool) -> WindowView {
        if self.minimized != minimized {
            WindowView { minimized, commit: bump(self.commit), ..self }
        } else {
            self
        }
    }

    /// The client size of a window maximized on an output of size `output`.
    pub open spec fn maximized_size(output: Size) -> Size {
        Size {
            w: max_i32(output.w as int, 1) as i32,
            h: max_i32(output.h - DECORATION_HEIGHT, 1) as i32,
        }
    }

    /// Maximizing remembers the geometry and floating flag and fills the
    /// output below the decoration; unmaximizing restores both (the floating
    /// flag only where no rule forces the window to float).
    pub open spec fn with_maximized(self, maximized: bool, output: Size) -> WindowView {
        if self.maximized == maximized {
            self
        } else if maximized {
            WindowView {
                restore_geometry: Some((self.location, self.size)),
                restore_floating: self.floating,
                maximized: true,
                floating: true,
                location: Point { x: 0, y: 0 },
                size: Self::maximized_size(output),
                commit: bump(self.commit),
                ..self
            }
        } else {
            let (location, size) = match self.restore_geometry {
                Some(g) => g,
                None => (self.location, self.size),
            };
            WindowView {
                maximized: false,
                location,
                size,
                restore_geometry: None,
                floating: if !self.forced_floating { self.restore_floating } else { self.floating },
                commit: bump(self.commit),
                ..self
            }
        }
    }

    /// The next opacity in the cycle 100% -> 85% -> 70% -> 100%.
    pub open spec fn next_opacity(opacity: u32) -> u32 {
        if opacity <= 75 { 100 } else if opacity <= 90 { 70 } else { 85 }
    }

    pub open spec fn with_next_opacity(self) -> WindowView {
        WindowView {
            opacity: Self::next_opacity(self.opacity),
            commit: bump(self.commit),
            ..self
        }
    }

    pub open spec fn with_geometry(self, location: Point, size: Size) -> WindowView {
        if self.location != location || self.size != size {
            WindowView { location, size, commit: bump(self.commit), ..self }
        } else {
            self
        }
    }

    pub open spec fn with_size(self, size: Size) -> WindowView {
        if self.size != size {
            WindowView { size, commit: bump(self.commit), ..self }
        } else {
            self
        }
    }

    pub open spec fn with_location(self, location: Point) -> WindowView {
        if self.location != location {
            WindowView { location, commit: bump(self.commit), ..self }
        } else {
            self
        }
    }

    pub open spec fn with_decoration(self, decoration: DecorationColors) -> WindowView {
        WindowView { decoration, ..self }
    }

    /// The size including the decoration above the client area.
    pub open spec fn outer_size(self) -> Size {
        Size { w: self.size.w, h: (self.size.h + DECORATION_HEIGHT) as i32 }
    }

    pub open spec fn outer_fits(self) -> bool {
        self.size.h + DECORATION_HEIGHT <= i32::MAX
    }

    pub open spec fn outer_rect(self) -> Rect {
        Rect { loc: self.location, size: self.outer_size() }
    }
}

/// A managed window.
#[derive(Clone, Copy)]
pub struct Window {
    id: WindowId,
    location: Point,
    size: Size,
    decoration: DecorationColors,
    decoration_commit: u64,
    dragging: bool,
    floating: bool,
    forced_floating: bool,
    minimized: bool,
    maximized: bool,
    opacity: u32,
    restore_geometry: Option<(Point, Size)>,
    restore_floating: bool,
    workspace: usize,
}

impl View for Window {
    type V = WindowView;

    closed spec fn view(&self) -> WindowView {
        WindowView {
            id: self.id,
            location: self.location,
            size: self.size,
            decoration: self.decoration,
            commit: self.decoration_commit,
            dragging: self.dragging,
            floating: self.floating,
            forced_floating: self.forced_floating,
            minimized: self.minimized,
            maximized: self.maximized,
            opacity: self.opacity,
            restore_geometry: self.restore_geometry,
            restore_floating: self.restore_floating,
            workspace: self.workspace,
        }
    }
}

fn bump_commit(c: u64) -> (r: u64)
    ensures
        r == bump(c),
{
    if c == u64::MAX {
        0
    } else {
        c + 1
    }
}

impl Window {
    /// A new window at the origin, 800x600, opaque, tiled, on `workspace`.
    pub fn new(id: WindowId, workspace: usize) -> (r: Window)
        ensures
            r@ == WindowView::initial(id, workspace),
            r@.well_formed(),
    {
        Window {
            id,
            location: Point { x: 0, y: 0 },
            size: Size { w: INITIAL_WIDTH, h: INITIAL_HEIGHT },
            decoration: DecorationColors::Builtin,
            decoration_commit: 0,
            dragging: false,
            floating: false,
            forced_floating: false,
            minimized: false,
            maximized: false,
            opacity: 100,
            restore_geometry: None,
            restore_floating: false,
            workspace,
        }
    }

    pub fn id(&self) -> (r: WindowId)
        ensures
            r == self@.id,
    {
        self.id
    }

    pub fn location(&self) -> (r: Point)
        ensures
            r == self@.location,
    {
        self.location
    }

    pub fn size(&self) -> (r: Size)
        ensures
            r == self@.size,
    {
        self.size
    }

    pub fn is_dragging(&self) -> (r: bool)
        ensures
            r == self@.dragging,
    {
        self.dragging
    }

    pub fn is_minimized(&self) -> (r: bool)
        ensures
            r == self@.minimized,
    {
        self.minimized
    }

    pub fn is_maximized(&self) -> (r: bool)
        ensures
            r == self@.maximized,
    {
        self.maximized
    }

    /// Opacity in percent.
    pub fn opacity(&self) -> (r: u32)
        ensures
            r == self@.opacity,
    {
        self.opacity
    }

    pub fn workspace(&self) -> (r: usize)
        ensures
            r == self@.workspace,
    {
        self.workspace
    }

    pub fn decoration_colors(&self) -> (r: DecorationColors)
        ensures
            r == self@.decoration,
    {
        self.decoration
    }

    /// The counter that changes whenever the decoration must be redrawn.
    pub fn decoration_commit(&self) -> (r: u64)
        ensures
            r == self@.commit,
    {
        self.decoration_commit
    }

    pub fn set_workspace(&mut self, workspace: usize) -> (r: bool)
        requires
            old(self)@.well_formed(),
        ensures
            final(self)@ == old(self)@.with_workspace(workspace),
            r == (old(self)@.workspace != workspace),
            final(self)@.well_formed(),
    {
        if self.workspace != workspace {
            self.workspace = workspace;
            self.decoration_commit = bump_commit(self.decoration_commit);
            return true;
        }
        false
    }

    pub fn set_dragging(&mut self, dragging: bool)
        requires
            old(self)@.well_formed(),
        ensures
            final(self)@ == old(self)@.with_dragging(dragging),
            final(self)@.well_formed(),
    {
        if self.dragging != dragging {
            self.dragging = dragging;
            self.decoration_commit = bump_commit(self.decoration_commit);
        }
    }

    pub fn is_floating(&self) -> (r: bool)
        ensures
            r == self@.is_floating(),
    {
        self.floating || self.forced_floating
    }

    pub fn set_floating(&mut self, floating: bool) -> (r: bool)
        requires
            old(self)@.well_formed(),
        ensures
            final(self)@ == old(self)@.with_floating(floating),
            r == (final(self)@ != old(self)@),
            final(self)@.well_formed(),
    {
        if self.maximized && !floating {
            return false;
        }
        if self.forced_floating && !floating {
            return false;
        }
        if self.floating != floating {
            self.floating = floating;
            self.decoration_commit = bump_commit(self.decoration_commit);
            return true;
        }
        false
    }

    pub fn set_forced_floating(&mut self, forced: bool) -> (r: bool)
        requires
            old(self)@.well_formed(),
        ensures
            final(self)@ == old(self)@.with_forced_floating(forced),
            r == (old(self)@.forced_floating != forced),
            final(self)@.well_formed(),
    {
        if self.forced_floating != forced {
            self.forced_floating = forced;
            if forced {
                self.floating = true;
            }
            self.decoration_commit = bump_commit(self.decoration_commit);
            return true;
        }
        false
    }

    pub fn set_minimized(&mut self, minimized: bool) -> (r: bool)
        requires
            old(self)@.well_formed(),
        ensures
            final(self)@ == old(self)@.with_minimized(minimized),
            r == (old(self)@.minimized != minimized),
            final(self)@.well_formed(),
    {
        if self.minimized != minimized {
            self.minimized = minimized;
            self.decoration_commit = bump_commit(self.decoration_commit);
            return true;
        }
        false
    }

    pub fn set_maximized(&mut self, maximized: bool, output_size: Size) -> (r: bool)
        requires
            old(self)@.well_formed(),
            output_size.h >= i32::MIN + DECORATION_HEIGHT,
        ensures
            final(self)@ == old(self)@.with_maximized(maximized, output_size),
            r == (old(self)@.maximized != maximized),
            final(self)@.well_formed(),
    {
        if self.maximized == maximized {
            return false;
        }
        if maximized {
            self.restore_geometry = Some((self.location, self.size));
            self.restore_floating = self.floating;
            self.maximized = true;
            self.floating = true;
            self.location = Point { x: 0, y: 0 };
            let h = output_size.h - DECORATION_HEIGHT;
            let height = if h >= 1 { h } else { 1 };
            let width = if output_size.w >= 1 { output_size.w } else { 1 };
            self.size = Size { w: width, h: height };
        } else {
            self.maximized = false;
            match self.restore_geometry.take() {
                Some((location, size)) => {
                    self.location = location;
                    self.size = size;
                },
                None => {},
            }
            if !self.forced_floating {
                self.floating = self.restore_floating;
            }
        }
        self.decoration_commit = bump_commit(self.decoration_commit);
        true
    }

    /// Steps the opacity through 100% -> 85% -> 70% -> 100%.
    pub fn cycle_opacity(&mut self)
        requires
            old(self)@.well_formed(),
        ensures
            final(self)@ == old(self)@.with_next_opacity(),
            final(self)@.well_formed(),
    {
        self.opacity = if self.opacity <= 75 {
            100
        } else if self.opacity <= 90 {
            70
        } else {
            85
        };
        self.decoration_commit = bump_commit(self.decoration_commit);
    }

    pub fn set_geometry(&mut self, location: Point, size: Size) -> (r: bool)
        requires
            old(self)@.well_formed(),
        ensures
            final(self)@ == old(self)@.with_geometry(location, size),
            r == (old(self)@.location != location || old(self)@.size != size),
            final(self)@.well_formed(),
    {
        let changed = self.location != location || self.size != size;
        if changed {
            self.location = location;
            self.size = size;
            self.decoration_commit = bump_commit(self.decoration_commit);
        }
        changed
    }

    pub fn set_size(&mut self, size: Size) -> (r: bool)
        requires
            old(self)@.well_formed(),
        ensures
            final(self)@ == old(self)@.with_size(size),
            r == (old(self)@.size != size),
            final(self)@.well_formed(),
    {
        if self.size != size {
            self.size = size;
            self.decoration_commit = bump_commit(self.decoration_commit);
            return true;
        }
        false
    }

    pub fn set_location(&mut self, location: Point)
        requires
            old(self)@.well_formed(),
        ensures
            final(self)@ == old(self)@.with_location(location),
            final(self)@.well_formed(),
    {
        if self.location != location {
            self.location = location;
            self.decoration_commit = bump_commit(self.decoration_commit);
        }
    }

    /// The size including the decoration.
    pub fn outer_size(&self) -> (r: Size)
        requires
            self@.outer_fits(),
        ensures
            r == self@.outer_size(),
    {
        Size { w: self.size.w, h: self.size.h + DECORATION_HEIGHT }
    }

    /// The area the window occupies including its decoration.
    pub fn outer_rect(&self) -> (r: Rect)
        requires
            self@.outer_fits(),
        ensures
            r == self@.outer_rect(),
    {
        Rect { loc: self.location, size: self.outer_size() }
    }

    /// The paint and alpha of the window's decoration (see
    /// [`decoration_paint_of`]).
    pub fn decoration_paint(&self, focused: bool) -> (r: (Paint, u16))
        requires
            self@.opacity <= 100,
        ensures
            r == decoration_paint_of(self@, focused),
    {
        let paint = match self.decoration {
            DecorationColors::Builtin => Paint::Builtin(
                if focused {
                    decoration_focused()
                } else {
                    decoration_unfocused()
                },
            ),
            DecorationColors::Custom { focused: f, unfocused: u } => Paint::Configured(
                if focused {
                    f
                } else {
                    u
                },
            ),
        };
        (paint, decoration_alpha(1000, self.opacity))
    }

    /// The area of the decoration drawn at the window's location.
    pub fn decoration_rect(&self) -> (r: Rect)
        ensures
            r == (Rect { loc: self@.location, size: Size { w: self@.size.w, h: DECORATION_HEIGHT } }),
    {
        Rect { loc: self.location, size: Size { w: self.size.w, h: DECORATION_HEIGHT } }
    }

    pub fn set_decoration_colors(&mut self, colors: DecorationColors)
        requires
            old(self)@.well_formed(),
        ensures
            final(self)@ == old(self)@.with_decoration(colors),
            final(self)@.well_formed(),
    {
        self.decoration = colors;
    }
}

/// Maximizing a window and unmaximizing it again gives back its location,
/// size and floating flag, and leaves it unmaximized with nothing to restore;
/// besides the redraw counter, only the remembered floating flag differs.
pub proof fn lemma_maximize_round_trip(v: WindowView, output: Size)
    requires
        v.well_formed(),
        !v.maximized,
    ensures
        v.with_maximized(true, output).with_maximized(false, output) == (WindowView {
            commit: bump(bump(v.commit)),
            restore_floating: v.floating,
            ..v
        }),
{
}

/// Every state change keeps a window well-formed.
pub proof fn lemma_changes_keep_well_formed(
    v: WindowView,
    flag: bool,
    output: Size,
    location: Point,
    size: Size,
    workspace: usize,
    colors: DecorationColors,
)
    requires
        v.well_formed(),
    ensures
        v.with_workspace(workspace).well_formed(),
        v.with_dragging(flag).well_formed(),
        v.with_floating(flag).well_formed(),
        v.with_forced_floating(flag).well_formed(),
        v.with_minimized(flag).well_formed(),
        v.with_maximized(flag, output).well_formed(),
        v.with_next_opacity().well_formed(),
        v.with_geometry(location, size).well_formed(),
        v.with_size(size).well_formed(),
        v.with_location(location).well_formed(),
        v.with_decoration(colors).well_formed(),
{
}

/// A window that a rule forces to float cannot be made to stop floating.
pub proof fn lemma_forced_stays_floating(v: WindowView, floating: bool, output: Size)
    requires
        v.well_formed(),
        v.forced_floating,
    ensures
        v.with_floating(floating).is_floating(),
        v.with_maximized(false, output).is_floating(),
{
}

/// Cycling the opacity three times returns to the start from any of the
/// three levels.
pub proof fn lemma_opacity_cycle(opacity: u32)
    requires
        opacity == 100 || opacity == 85 || opacity == 70,
    ensures
        WindowView::next_opacity(WindowView::next_opacity(WindowView::next_opacity(opacity)))
            == opacity,
        WindowView::next_opacity(opacity) != opacity,
{
}

/// Toggling the floating flag of a window that is neither maximized nor
/// forced to float, and toggling it back, gives back the flag.
pub proof fn lemma_floating_toggle(v: WindowView)
    requires
        v.well_formed(),
        !v.maximized,
        !v.forced_floating,
    ensures
        v.with_floating(!v.floating).with_floating(v.floating) == (WindowView {
            commit: bump(bump(v.commit)),
            ..v
        }),
{
}

} // verus!
