//! The compositor's reaction to user actions and to requests from client
//! windows: the decisions of the event loop, as transitions from state and
//! event to the next state and the effects to perform.
use vstd::prelude::*;
use crate::geometry::{Point, Size};
use crate::window::{WindowId, WindowView, DecorationColors};
use crate::manager::{
    WindowManager, ManagerView, visible, has_id, topmost_at, focused_shown_id, lemma_focus_shows,
    none_dragging, shown_ids,
};
use crate::layout::{LayoutEngine, tiled_indices};
use crate::launcher::{
    AppLauncher, DesktopEntry, LaunchCommand, LaunchError, matching, launch_command, strings_view,
};
use crate::input::Action;
use crate::config::{
    ConfigFile, colors_readable, config_colors, config_gaps, config_workspace_count, colors_of, gaps_of,
    workspace_count_of,
};
use crate::text::{chars_of, seq_eq};

verus! {

/// Smallest width a floating window can be resized to.
pub const MIN_FLOAT_WIDTH: i32 = 160;

/// Smallest height a floating window can be resized to.
pub const MIN_FLOAT_HEIGHT: i32 = 120;

/// Something the event loop has to do outside the window-management state.
#[derive(Debug)]
pub enum Effect {
    /// Give the keyboard focus to the window's surface.
    FocusKeyboard(WindowId),
    /// Ask the window's client to close it.
    Close(WindowId),
    /// Tell the window's client that it is (un)maximized, with its new size.
    Maximized { id: WindowId, maximized: bool, size: Size },
    /// End any pointer drag or resize in progress.
    ResetPointerGrabs,
    /// Run a command line through `sh -c`.
    SpawnShell(String),
    /// Start a program with arguments.
    Launch(LaunchCommand),
    /// An application could not be launched.
    LaunchFailed(LaunchError),
}

/// An effect as a value, for contracts.
pub enum EffectView {
    FocusKeyboard(WindowId),
    Close(WindowId),
    Maximized { id: WindowId, maximized: bool, size: Size },
    ResetPointerGrabs,
    SpawnShell(Seq<char>),
    Launch { program: Seq<char>, args: Seq<Seq<char>> },
    LaunchFailed(LaunchError),
}

impl Effect {
    pub open spec fn view_effect(self) -> EffectView {
        match self {
            Effect::FocusKeyboard(id) => EffectView::FocusKeyboard(id),
            Effect::Close(id) => EffectView::Close(id),
            Effect::Maximized { id, maximized, size } => EffectView::Maximized { id, maximized, size },
            Effect::ResetPointerGrabs => EffectView::ResetPointerGrabs,
            Effect::SpawnShell(c) => EffectView::SpawnShell(c@),
            Effect::Launch(c) => EffectView::Launch { program: c.program@, args: strings_view(c.args@) },
            Effect::LaunchFailed(e) => EffectView::LaunchFailed(e),
        }
    }
}

pub open spec fn effects_view(v: Seq<Effect>) -> Seq<EffectView> {
    v.map_values(|e: Effect| e.view_effect())
}

/// The compositor's state as a value, for contracts.
pub struct CompositorView {
    pub windows: ManagerView,
    pub layout: LayoutEngine,
    pub entries: Seq<DesktopEntry>,
    pub floating_app_ids: Seq<Seq<char>>,
    pub output: Size,
    /// The windows must be arranged again.
    pub layout_dirty: bool,
    /// The output must be drawn again.
    pub needs_redraw: bool,
    /// The compositor is to quit.
    pub should_exit: bool,
}

impl CompositorView {
    pub open spec fn well_formed(self) -> bool {
        &&& self.windows.well_formed()
        &&& self.output.w >= 0
        &&& self.output.h >= 0
    }

    /// Every shown window's area, decoration included, has `i32` coordinates.
    pub open spec fn shown_fit(self) -> bool {
        forall|i: int|
            0 <= i < self.windows.windows.len() && visible(
                #[trigger] self.windows.windows[i],
                self.windows.current_workspace,
            ) ==> self.windows.windows[i].outer_fits()
    }

    pub open spec fn with_windows(self, w: ManagerView) -> CompositorView {
        CompositorView { windows: w, ..self }
    }

    pub open spec fn dirty(self) -> CompositorView {
        CompositorView { layout_dirty: true, needs_redraw: true, ..self }
    }

    /// Focusing a window: where it can take the focus it is raised and
    /// focused, its surface gets the keyboard, and the output is redrawn
    /// where the focused window changed.
    pub open spec fn focus(self, id: WindowId) -> (CompositorView, Seq<EffectView>) {
        if self.windows.focusable(id) {
            (
                CompositorView {
                    windows: self.windows.with_focus(id),
                    needs_redraw: self.needs_redraw || focused_shown_id(self.windows) != Some(id),
                    ..self
                },
                seq![EffectView::FocusKeyboard(id)],
            )
        } else {
            (self, Seq::empty())
        }
    }

    /// Moving the focus on to the next shown window, where there is one.
    pub open spec fn refocus(self) -> (CompositorView, Seq<EffectView>) {
        match self.windows.next_target() {
            Some(id) => self.with_windows(self.windows.with_focus(id)).focus(id),
            None => (self, Seq::empty()),
        }
    }

    /// Stepping the focus back to the previous shown window, where there is
    /// one (see [`ManagerView::with_prev_focus`]).
    pub open spec fn refocus_prev(self) -> (CompositorView, Seq<EffectView>) {
        match self.windows.prev_target() {
            Some(id) => self.with_windows(self.windows.with_prev_focus()).focus(id),
            None => (self, Seq::empty()),
        }
    }

    /// (Un)maximizing window `id`: where its state changes, its client is
    /// told and the output is redrawn.
    pub open spec fn maximize(self, id: WindowId, maximized: bool) -> (CompositorView, Seq<EffectView>) {
        if has_id(self.windows.windows, id) && self.windows.window(id).maximized != maximized {
            let w = self.windows.with_window(
                id,
                self.windows.window(id).with_maximized(maximized, self.output),
            );
            (
                CompositorView { windows: w, needs_redraw: true, ..self },
                seq![EffectView::Maximized { id, maximized, size: w.window(id).size }],
            )
        } else {
            (self, Seq::empty())
        }
    }

    /// The window an action that moves a window applies to: the focused one,
    /// else the one under the pointer.
    pub open spec fn active_window(self, pointer: Point) -> Option<WindowId> {
        match focused_shown_id(self.windows) {
            Some(id) => Some(id),
            None => topmost_at(self.windows.windows, self.windows.current_workspace, pointer),
        }
    }

    /// Moving the active window to workspace `target`.
    pub open spec fn move_active(self, pointer: Point, target: usize) -> (CompositorView, Seq<EffectView>) {
        match self.active_window(pointer) {
            Some(id) => if has_id(self.windows.windows, id) && self.windows.window(id).workspace
                != target {
                let (c, e) = self.with_windows(
                    self.windows.with_window(id, self.windows.window(id).with_workspace(target)),
                ).refocus();
                (c.dirty(), e)
            } else {
                (self, Seq::empty())
            },
            None => (self, Seq::empty()),
        }
    }

    /// Switching to workspace `target`: every drag ends (no window stays
    /// marked as dragged, and the event loop is told to drop its grabs), and
    /// the focus moves on on the new workspace.
    pub open spec fn switch_to(self, target: usize) -> (CompositorView, Seq<EffectView>) {
        if self.windows.workspace_count > 1 {
            let (c, e) = self.with_windows(
                self.windows.with_current_workspace(target).without_dragging(),
            ).refocus();
            (c.dirty(), seq![EffectView::ResetPointerGrabs] + e)
        } else {
            (self, Seq::empty())
        }
    }

    /// The state after applying decoration colours (where given), gaps and
    /// a workspace count (where given).
    pub open spec fn configured(
        self,
        colors: Option<DecorationColors>,
        gaps: crate::layout::Gaps,
        workspace_count: Option<usize>,
    ) -> CompositorView {
        let w1 = match colors {
            Some(c) => ManagerView {
                windows: self.windows.windows.map_values(|w: WindowView| w.with_decoration(c)),
                decoration: c,
                ..self.windows
            },
            None => self.windows,
        };
        CompositorView {
            windows: match workspace_count {
                Some(n) => w1.with_workspace_count(n),
                None => w1,
            },
            layout: LayoutEngine { gaps, ..self.layout },
            ..self
        }
    }

    /// Whether a rule makes windows of application `app_id` float.
    pub open spec fn floats_by_rule(self, app_id: Seq<char>) -> bool {
        exists|i: int| 0 <= i < self.floating_app_ids.len() && self.floating_app_ids[i] == app_id
    }

    /// A new window: added on the current workspace, forced to float where
    /// a rule names its application, focused, and the layout redone.
    pub open spec fn after_new_toplevel(self, app_id: Option<Seq<char>>) -> (CompositorView, Seq<EffectView>) {
        let id = WindowId(self.windows.next_id);
        let w1 = ManagerView {
            windows: self.windows.windows.push(self.windows.new_window(id)),
            focused: Some(id),
            next_id: (self.windows.next_id + 1) as u64,
            ..self.windows
        };
        let w2 = match app_id {
            Some(a) => w1.with_window(id, w1.window(id).with_forced_floating(self.floats_by_rule(a))),
            None => w1,
        };
        let (c, e) = self.with_windows(w2).focus(id);
        (CompositorView { layout_dirty: true, ..c }, e)
    }

    /// A window's application id became known or changed: the floating
    /// rules are applied to it again.
    pub open spec fn after_app_id(self, id: Option<WindowId>, app_id: Option<Seq<char>>) -> CompositorView {
        match (app_id, id) {
            (Some(a), Some(id)) => {
                let w = self.windows;
                if has_id(w.windows, id) && w.window(id).forced_floating != self.floats_by_rule(a) {
                    CompositorView {
                        windows: w.with_window(
                            id,
                            w.window(id).with_forced_floating(self.floats_by_rule(a)),
                        ),
                        layout_dirty: true,
                        ..self
                    }
                } else {
                    self
                }
            },
            _ => self,
        }
    }

    /// What an action does.
    pub open spec fn outcome(self, action: Action, pointer: Point) -> (CompositorView, Seq<EffectView>) {
        let w = self.windows;
        let fw = w.focused_window();
        match action {
            Action::Quit => (CompositorView { should_exit: true, ..self }, Seq::empty()),
            Action::NextLayout | Action::PrevLayout => (
                CompositorView {
                    layout: LayoutEngine { mode: self.layout.mode.spec_next(), ..self.layout },
                    layout_dirty: true,
                    ..self
                },
                Seq::empty(),
            ),
            Action::FocusNext => self.refocus(),
            Action::FocusPrev => self.refocus_prev(),
            Action::ToggleFloat => match fw {
                Some(f) => {
                    let nw = f.with_floating(!f.is_floating());
                    if nw != f {
                        (self.with_windows(w.with_window(f.id, nw)).dirty(), Seq::empty())
                    } else {
                        (self, Seq::empty())
                    }
                },
                None => (self, Seq::empty()),
            },
            Action::ToggleMaximize => match fw {
                Some(f) => {
                    let (c, e) = self.maximize(f.id, !f.maximized);
                    (c.dirty(), e)
                },
                None => (self, Seq::empty()),
            },
            Action::ToggleMinimize => match fw {
                Some(f) => {
                    let c = self.with_windows(w.with_window(f.id, f.with_minimized(!f.minimized)));
                    let (c2, e) = if !f.minimized {
                        c.refocus()
                    } else {
                        c.focus(f.id)
                    };
                    (c2.dirty(), e)
                },
                None => (self, Seq::empty()),
            },
            Action::CloseFocused => match fw {
                Some(f) => (
                    CompositorView { needs_redraw: true, ..self },
                    seq![EffectView::Close(f.id)],
                ),
                None => (self, Seq::empty()),
            },
            Action::CycleOpacity => match fw {
                Some(f) => (
                    CompositorView {
                        windows: w.with_window(f.id, f.with_next_opacity()),
                        needs_redraw: true,
                        ..self
                    },
                    Seq::empty(),
                ),
                None => (self, Seq::empty()),
            },
            Action::WorkspaceNext => self.switch_to(w.next_workspace_index()),
            Action::WorkspacePrev => self.switch_to(w.prev_workspace_index()),
            Action::MoveToWorkspaceNext => self.move_active(pointer, w.next_workspace_index()),
            Action::MoveToWorkspacePrev => self.move_active(pointer, w.prev_workspace_index()),
            Action::Spawn { command } => (self, seq![EffectView::SpawnShell(command@)]),
            Action::Launcher { query } => {
                let q = match query {
                    Some(q) => q@,
                    None => ""@,
                };
                let found = matching(self.entries, q);
                if found.len() == 0 {
                    (self, Seq::empty())
                } else {
                    match launch_command(self.entries, found[0].name@) {
                        Ok((program, args)) => (self, seq![EffectView::Launch { program, args }]),
                        Err(e) => (self, seq![EffectView::LaunchFailed(e)]),
                    }
                }
            },
        }
    }
}

/// The compositor's window-management state.
pub struct Compositor {
    windows: WindowManager,
    layout: LayoutEngine,
    launcher: AppLauncher,
    floating_app_ids: Vec<String>,
    output_size: Size,
    layout_dirty: bool,
    needs_redraw: bool,
    should_exit: bool,
}

impl View for Compositor {
    type V = CompositorView;

    closed spec fn view(&self) -> CompositorView {
        CompositorView {
            windows: self.windows@,
            layout: self.layout,
            entries: self.launcher.spec_entries(),
            floating_app_ids: strings_view(self.floating_app_ids@),
            output: self.output_size,
            layout_dirty: self.layout_dirty,
            needs_redraw: self.needs_redraw,
            should_exit: self.should_exit,
        }
    }
}

fn same_id(a: Option<WindowId>, b: Option<WindowId>) -> (r: bool)
    ensures
        r == (a == b),
{
    match (a, b) {
        (Some(x), Some(y)) => x.0 == y.0,
        (None, None) => true,
        _ => false,
    }
}

impl Compositor {
    /// No windows, the default layout, a 1x1 output, everything to be
    /// arranged and drawn.
    pub fn new(floating_app_ids: Vec<String>) -> (r: Compositor)
        ensures
            r@.well_formed(),
            r@.windows == ManagerView::initial(),
            r@.layout == (LayoutEngine {
                mode: crate::layout::LayoutMode::MasterStack { ratio: 50 },
                gaps: crate::layout::Gaps { inner: 0, outer: 0 },
            }),
            r@.entries.len() == 0,
            r@.floating_app_ids == strings_view(floating_app_ids@),
            r@.output == (Size { w: 1, h: 1 }),
            r@.layout_dirty,
            r@.needs_redraw,
            !r@.should_exit,
    {
        Compositor {
            windows: WindowManager::new(),
            layout: LayoutEngine::default(),
            launcher: AppLauncher::new(),
            floating_app_ids,
            output_size: Size { w: 1, h: 1 },
            layout_dirty: true,
            needs_redraw: true,
            should_exit: false,
        }
    }

    pub fn windows(&self) -> (r: &WindowManager)
        ensures
            r@ == self@.windows,
    {
        &self.windows
    }

    pub fn layout(&self) -> (r: LayoutEngine)
        ensures
            r == self@.layout,
    {
        self.layout
    }

    pub fn launcher(&self) -> (r: &AppLauncher)
        ensures
            r.spec_entries() == self@.entries,
    {
        &self.launcher
    }

    pub fn output_size(&self) -> (r: Size)
        ensures
            r == self@.output,
    {
        self.output_size
    }

    pub fn layout_dirty(&self) -> (r: bool)
        ensures
            r == self@.layout_dirty,
    {
        self.layout_dirty
    }

    pub fn needs_redraw(&self) -> (r: bool)
        ensures
            r == self@.needs_redraw,
    {
        self.needs_redraw
    }

    pub fn should_exit(&self) -> (r: bool)
        ensures
            r == self@.should_exit,
    {
        self.should_exit
    }

    /// Records that the output has been drawn.
    pub fn mark_drawn(&mut self)
        ensures
            final(self)@ == (CompositorView { needs_redraw: false, ..old(self)@ }),
    {
        self.needs_redraw = false;
    }

    /// Records the output's size; a change means arranging and drawing again.
    pub fn set_output_size(&mut self, size: Size)
        requires
            size.w >= 0,
            size.h >= 0,
        ensures
            old(self)@.output != size ==> final(self)@ == (CompositorView {
                output: size,
                ..old(self)@.dirty()
            }),
            old(self)@.output == size ==> final(self)@ == old(self)@,
    {
        if self.output_size != size {
            self.output_size = size;
            self.layout_dirty = true;
            self.needs_redraw = true;
        }
    }

    /// Adds an application the launcher can start.
    pub fn add_desktop_entry(&mut self, entry: DesktopEntry)
        ensures
            final(self)@ == (CompositorView { entries: old(self)@.entries.push(entry), ..old(self)@ }),
    {
        self.launcher.add_entry(entry);
    }

    /// Applies a configuration's decoration colours, gaps (with the defaults
    /// 5 and 10 for those it leaves out) and workspace count.
    pub fn configure(&mut self, config: &ConfigFile)
        requires
            old(self)@.well_formed(),
            colors_readable(*config),
        ensures
            final(self)@.well_formed(),
            final(self)@ == old(self)@.configured(
                config_colors(*config),
                config_gaps(*config),
                config_workspace_count(*config),
            ),
    {
        if let Some(c) = colors_of(config) {
            self.windows.set_decoration_colors(c);
        }
        self.layout.gaps = gaps_of(config);
        if let Some(n) = workspace_count_of(config) {
            self.windows.set_workspace_count(n);
        }
    }

    /// Focuses window `id` (see [`CompositorView::focus`]).
    pub fn set_focus(&mut self, id: WindowId) -> (r: Vec<Effect>)
        requires
            old(self)@.well_formed(),
        ensures
            final(self)@.well_formed(),
            (final(self)@, effects_view(r@)) == old(self)@.focus(id),
    {
        let was = match self.windows.focused_window() {
            Some(w) => Some(w.id()),
            None => None,
        };
        if !self.windows.focus_window(id) {
            let r = Vec::new();
            proof {
                assert(effects_view(r@) =~= Seq::<EffectView>::empty());
            }
            return r;
        }
        proof {
            lemma_focus_shows(old(self)@.windows, id);
        }
        let mut effects: Vec<Effect> = Vec::new();
        let now = match self.windows.focused_window() {
            Some(w) => {
                effects.push(Effect::FocusKeyboard(w.id()));
                Some(w.id())
            },
            None => None,
        };
        if !same_id(was, now) {
            self.needs_redraw = true;
        }
        proof {
            assert(effects_view(effects@) =~= seq![EffectView::FocusKeyboard(id)]);
        }
        effects
    }

    /// Moves the focus on to the next shown window, where there is one.
    fn refocus_current_workspace(&mut self) -> (r: Vec<Effect>)
        requires
            old(self)@.well_formed(),
        ensures
            final(self)@.well_formed(),
            (final(self)@, effects_view(r@)) == old(self)@.refocus(),
    {
        match self.windows.focus_next() {
            Some(id) => self.set_focus(id),
            None => {
                let r = Vec::new();
                proof {
                    assert(effects_view(r@) =~= Seq::<EffectView>::empty());
                }
                r
            },
        }
    }

    /// (Un)maximizes window `id` (see [`CompositorView::maximize`]); true
    /// where its state changed.
    fn set_maximized(&mut self, id: WindowId, maximized: bool) -> (r: (bool, Vec<Effect>))
        requires
            old(self)@.well_formed(),
        ensures
            final(self)@.well_formed(),
            (final(self)@, effects_view(r.1@)) == old(self)@.maximize(id, maximized),
            r.0 == (has_id(old(self)@.windows.windows, id) && old(self)@.windows.window(id).maximized
                != maximized),
    {
        let output = self.output_size;
        if !self.windows.set_maximized(id, maximized, output) {
            let r = Vec::new();
            proof {
                let ov = old(self)@.windows;
                if has_id(ov.windows, id) {
                    let p = crate::manager::pos_of(ov.windows, id);
                    assert(ov.windows.update(p, ov.windows[p]) =~= ov.windows);
                }
                assert(effects_view(r@) =~= Seq::<EffectView>::empty());
            }
            return (false, r);
        }
        let mut effects: Vec<Effect> = Vec::new();
        match self.windows.window(id) {
            Some(w) => {
                effects.push(Effect::Maximized { id, maximized, size: w.size() });
            },
            None => {},
        }
        self.needs_redraw = true;
        proof {
            let ov = old(self)@.windows;
            let p = crate::manager::pos_of(ov.windows, id);
            let nw = self@.windows.windows;
            assert(nw[p].id == id);
            assert(has_id(nw, id));
            let q = crate::manager::pos_of(nw, id);
            assert(nw[q].id == id);
            assert(q == p);
            assert(effects_view(effects@) =~= seq![
                EffectView::Maximized { id, maximized, size: self@.windows.window(id).size },
            ]);
        }
        (true, effects)
    }

    /// The focused window on the current workspace, else the topmost shown
    /// one under `pointer`.
    fn active_window_id(&self, pointer: Point) -> (r: Option<WindowId>)
        requires
            self@.well_formed(),
            focused_shown_id(self@.windows) is None ==> self@.shown_fit(),
        ensures
            r == self@.active_window(pointer),
    {
        match self.windows.focused_window() {
            Some(w) => Some(w.id()),
            None => self.windows.window_at(pointer),
        }
    }

    fn no_effects() -> (r: Vec<Effect>)
        ensures
            effects_view(r@) == Seq::<EffectView>::empty(),
            r@.len() == 0,
    {
        let r = Vec::new();
        assert(effects_view(r@) =~= Seq::<EffectView>::empty());
        r
    }

    fn one_effect(e: Effect) -> (r: Vec<Effect>)
        ensures
            effects_view(r@) == seq![e.view_effect()],
    {
        let mut r = Vec::new();
        r.push(e);
        assert(effects_view(r@) =~= seq![e.view_effect()]);
        r
    }

    /// Switches to the next or previous workspace (`forward`).
    fn switch_workspace(&mut self, forward: bool) -> (r: Vec<Effect>)
        requires
            old(self)@.well_formed(),
        ensures
            final(self)@.well_formed(),
            (final(self)@, effects_view(r@)) == old(self)@.switch_to(
                if forward {
                    old(self)@.windows.next_workspace_index()
                } else {
                    old(self)@.windows.prev_workspace_index()
                },
            ),
    {
        let switched = if forward {
            self.windows.next_workspace()
        } else {
            self.windows.prev_workspace()
        };
        if !switched {
            return Self::no_effects();
        }
        self.windows.stop_dragging();
        let mut effects = Self::one_effect(Effect::ResetPointerGrabs);
        let mut more = self.refocus_current_workspace();
        let ghost e1 = effects@;
        let ghost e2 = more@;
        effects.append(&mut more);
        self.layout_dirty = true;
        self.needs_redraw = true;
        proof {
            assert(effects@ == e1 + e2);
            assert(effects_view(effects@) =~= effects_view(e1) + effects_view(e2));
        }
        effects
    }

    /// Moves the active window to the next or previous workspace (`forward`).
    fn move_to_workspace(&mut self, pointer: Point, forward: bool) -> (r: Vec<Effect>)
        requires
            old(self)@.well_formed(),
            focused_shown_id(old(self)@.windows) is None ==> old(self)@.shown_fit(),
        ensures
            final(self)@.well_formed(),
            (final(self)@, effects_view(r@)) == old(self)@.move_active(
                pointer,
                if forward {
                    old(self)@.windows.next_workspace_index()
                } else {
                    old(self)@.windows.prev_workspace_index()
                },
            ),
    {
        let id = match self.active_window_id(pointer) {
            Some(id) => id,
            None => {
                return Self::no_effects();
            },
        };
        let current = self.windows.current_workspace();
        let count = self.windows.workspace_count();
        let target = if forward {
            (current + 1) % count
        } else if current == 0 {
            count - 1
        } else {
            current - 1
        };
        proof {
            if forward {
                let c = current as int;
                let n = count as int;
                if c + 1 < n {
                    vstd::arithmetic::div_mod::lemma_small_mod((c + 1) as nat, n as nat);
                } else {
                    vstd::arithmetic::div_mod::lemma_mod_self_0(n);
                }
            }
        }
        if !self.windows.move_window_to_workspace(id, target) {
            proof {
                let ov = old(self)@.windows;
                if has_id(ov.windows, id) {
                    let p = crate::manager::pos_of(ov.windows, id);
                    assert(ov.windows.update(p, ov.windows[p]) =~= ov.windows);
                }
            }
            return Self::no_effects();
        }
        let effects = self.refocus_current_workspace();
        self.layout_dirty = true;
        self.needs_redraw = true;
        effects
    }

    /// Performs a user action (see [`CompositorView::outcome`]) and returns
    /// the effects the event loop has to carry out, in order. `pointer` is
    /// the pointer position, for actions on the window under it.
    #[verifier::rlimit(40)]
    pub fn apply_action(&mut self, action: Action, pointer: Point) -> (r: Vec<Effect>)
        requires
            old(self)@.well_formed(),
            (action is MoveToWorkspaceNext || action is MoveToWorkspacePrev) && focused_shown_id(
                old(self)@.windows,
            ) is None ==> old(self)@.shown_fit(),
        ensures
            final(self)@.well_formed(),
            (final(self)@, effects_view(r@)) == old(self)@.outcome(action, pointer),
    {
        match action {
            Action::Quit => {
                self.should_exit = true;
                Self::no_effects()
            },
            Action::NextLayout => {
                self.layout.mode = self.layout.mode.next();
                self.layout_dirty = true;
                Self::no_effects()
            },
            Action::PrevLayout => {
                self.layout.mode = self.layout.mode.prev();
                self.layout_dirty = true;
                Self::no_effects()
            },
            Action::FocusNext => match self.windows.focus_next() {
                Some(id) => self.set_focus(id),
                None => Self::no_effects(),
            },
            Action::FocusPrev => match self.windows.focus_prev() {
                Some(id) => self.set_focus(id),
                None => Self::no_effects(),
            },
            Action::ToggleFloat => {
                let (id, floating) = match self.windows.focused_window() {
                    Some(w) => (w.id(), !w.is_floating()),
                    None => {
                        return Self::no_effects();
                    },
                };
                if self.windows.set_floating(id, floating) {
                    self.layout_dirty = true;
                    self.needs_redraw = true;
                } else {
                    proof {
                        let ov = old(self)@.windows;
                        let p = crate::manager::pos_of(ov.windows, id);
                        assert(ov.windows.update(p, ov.windows[p]) =~= ov.windows);
                    }
                }
                Self::no_effects()
            },
            Action::ToggleMaximize => {
                let (id, maximized) = match self.windows.focused_window() {
                    Some(w) => (w.id(), !w.is_maximized()),
                    None => {
                        return Self::no_effects();
                    },
                };
                let (changed, effects) = self.set_maximized(id, maximized);
                if changed {
                    self.layout_dirty = true;
                    self.needs_redraw = true;
                }
                effects
            },
            Action::ToggleMinimize => {
                let (id, minimized) = match self.windows.focused_window() {
                    Some(w) => (w.id(), !w.is_minimized()),
                    None => {
                        return Self::no_effects();
                    },
                };
                if self.windows.set_minimized(id, minimized) {
                    let effects = if minimized {
                        self.refocus_current_workspace()
                    } else {
                        self.set_focus(id)
                    };
                    self.layout_dirty = true;
                    self.needs_redraw = true;
                    effects
                } else {
                    Self::no_effects()
                }
            },
            Action::CloseFocused => {
                let id = match self.windows.focused_window() {
                    Some(w) => w.id(),
                    None => {
                        return Self::no_effects();
                    },
                };
                self.needs_redraw = true;
                Self::one_effect(Effect::Close(id))
            },
            Action::CycleOpacity => {
                if self.windows.cycle_focused_opacity() {
                    self.needs_redraw = true;
                }
                Self::no_effects()
            },
            Action::WorkspaceNext => self.switch_workspace(true),
            Action::WorkspacePrev => self.switch_workspace(false),
            Action::MoveToWorkspaceNext => self.move_to_workspace(pointer, true),
            Action::MoveToWorkspacePrev => self.move_to_workspace(pointer, false),
            Action::Spawn { command } => Self::one_effect(Effect::SpawnShell(command)),
            Action::Launcher { query } => {
                let q: &str = match &query {
                    Some(q) => q.as_str(),
                    None => "",
                };
                let found = self.launcher.search(q);
                if found.len() == 0 {
                    proof {
                        assert(found@.map_values(|e: &DesktopEntry| *e).len() == 0);
                    }
                    return Self::no_effects();
                }
                proof {
                    assert(found@.map_values(|e: &DesktopEntry| *e)[0] == *found@[0]);
                }
                let name = found[0].name.as_str();
                match self.launcher.command_for(name) {
                    Ok(c) => Self::one_effect(Effect::Launch(c)),
                    Err(e) => Self::one_effect(Effect::LaunchFailed(e)),
                }
            },
        }
    }

    /// Whether a rule makes windows of application `app_id` float.
    fn should_float(&self, app_id: &String) -> (r: bool)
        ensures
            r == self@.floats_by_rule(app_id@),
    {
        let mut i: usize = 0;
        while i < self.floating_app_ids.len()
            invariant
                i <= self.floating_app_ids@.len(),
                forall|j: int| 0 <= j < i ==> self.floating_app_ids@[j]@ != app_id@,
            decreases self.floating_app_ids@.len() - i,
        {
            if self.floating_app_ids[i] == *app_id {
                proof {
                    assert(self@.floating_app_ids[i as int] == app_id@);
                }
                return true;
            }
            i += 1;
        }
        proof {
            assert forall|j: int| 0 <= j < self@.floating_app_ids.len() implies self@.floating_app_ids[j]
                != app_id@ by {
                assert(self@.floating_app_ids[j] == self.floating_app_ids@[j]@);
            }
        }
        false
    }

    /// A client mapped a new toplevel window with application id `app_id`;
    /// returns its identifier and the effects to carry out.
    pub fn new_toplevel(&mut self, app_id: Option<String>) -> (r: (WindowId, Vec<Effect>))
        requires
            old(self)@.well_formed(),
            old(self)@.windows.next_id < u64::MAX,
        ensures
            final(self)@.well_formed(),
            r.0 == WindowId(old(self)@.windows.next_id),
            (final(self)@, effects_view(r.1@)) == old(self)@.after_new_toplevel(
                match app_id {
                    Some(a) => Some(a@),
                    None => None,
                },
            ),
    {
        let id = self.windows.add_window();
        let ghost mid = self@;
        proof {
            let s = mid.windows.windows;
            crate::manager::lemma_pos_of(s, id, s.len() - 1);
        }
        let ghost a = match &app_id {
            Some(a) => Some(a@),
            None => None::<Seq<char>>,
        };
        let ghost o = old(self)@;
        let ghost w1 = ManagerView {
            windows: o.windows.windows.push(o.windows.new_window(id)),
            focused: Some(id),
            next_id: (o.windows.next_id + 1) as u64,
            ..o.windows
        };
        assert(mid.windows == w1);
        assert(mid == o.with_windows(w1));
        if let Some(app) = &app_id {
            let floats = self.should_float(app);
            self.windows.set_forced_floating(id, floats);
        }
        let ghost w2 = match a {
            Some(a) => w1.with_window(id, w1.window(id).with_forced_floating(o.floats_by_rule(a))),
            None => w1,
        };
        assert(self@ == o.with_windows(w2));
        let effects = self.set_focus(id);
        self.layout_dirty = true;
        (id, effects)
    }

    /// The application id of window `id` became known or changed (`id` is
    /// `None` where the surface belongs to no managed window).
    pub fn apply_floating_rule(&mut self, id: Option<WindowId>, app_id: Option<String>)
        requires
            old(self)@.well_formed(),
        ensures
            final(self)@.well_formed(),
            final(self)@ == old(self)@.after_app_id(
                id,
                match app_id {
                    Some(a) => Some(a@),
                    None => None,
                },
            ),
    {
        let app = match &app_id {
            Some(a) => a,
            None => {
                return;
            },
        };
        let floats = self.should_float(app);
        if let Some(id) = id {
            if self.windows.set_forced_floating(id, floats) {
                self.layout_dirty = true;
            } else {
                proof {
                    let ov = old(self)@.windows;
                    if has_id(ov.windows, id) {
                        let p = crate::manager::pos_of(ov.windows, id);
                        assert(ov.windows.update(p, ov.windows[p]) =~= ov.windows);
                    }
                }
            }
        }
    }

    /// A client asked for window `id` to be (un)maximized.
    pub fn maximize_request(&mut self, id: WindowId, maximized: bool) -> (r: Vec<Effect>)
        requires
            old(self)@.well_formed(),
        ensures
            final(self)@.well_formed(),
            ({
                let (c, e) = old(self)@.maximize(id, maximized);
                &&& effects_view(r@) == e
                &&& final(self)@ == if e.len() > 0 {
                    CompositorView { layout_dirty: true, ..c }
                } else {
                    c
                }
            }),
    {
        let (changed, effects) = self.set_maximized(id, maximized);
        if changed {
            self.layout_dirty = true;
        }
        effects
    }

    /// A client asked for window `id` to be minimized: the focus moves on
    /// to the next shown window.
    pub fn minimize_request(&mut self, id: WindowId) -> (r: Vec<Effect>)
        requires
            old(self)@.well_formed(),
        ensures
            final(self)@.well_formed(),
            has_id(old(self)@.windows.windows, id) && !old(self)@.windows.window(id).minimized ==> ({
                let (c, e) = old(self)@.with_windows(
                    old(self)@.windows.with_window(id, old(self)@.windows.window(id).with_minimized(true)),
                ).refocus();
                &&& effects_view(r@) == e
                &&& final(self)@ == (CompositorView { layout_dirty: true, ..c })
            }),
            !(has_id(old(self)@.windows.windows, id) && !old(self)@.windows.window(id).minimized) ==> (
            final(self)@ == old(self)@ && r@.len() == 0),
    {
        if self.windows.set_minimized(id, true) {
            let effects = self.refocus_current_workspace();
            self.layout_dirty = true;
            effects
        } else {
            proof {
                let ov = old(self)@.windows;
                if has_id(ov.windows, id) {
                    let p = crate::manager::pos_of(ov.windows, id);
                    assert(ov.windows.update(p, ov.windows[p]) =~= ov.windows);
                }
            }
            Self::no_effects()
        }
    }

    /// The client destroyed window `id`: it goes, the focus moves on to the
    /// next shown window, and the layout is redone.
    pub fn toplevel_destroyed(&mut self, id: WindowId) -> (r: Vec<Effect>)
        requires
            old(self)@.well_formed(),
        ensures
            final(self)@.well_formed(),
            ({
                let (c, e) = old(self)@.with_windows(old(self)@.windows.without_window(id)).refocus();
                &&& effects_view(r@) == e
                &&& final(self)@ == (CompositorView { layout_dirty: true, ..c })
            }),
    {
        let _ = self.windows.remove_window(id);
        let effects = self.refocus_current_workspace();
        self.layout_dirty = true;
        effects
    }

    /// Whether arranging the windows stays within `i32` arithmetic.
    pub fn layout_fits(&self) -> (r: bool)
        requires
            self@.well_formed(),
        ensures
            r == self@.layout.fits_for(
                tiled_indices(self@.windows.windows, self@.windows.current_workspace).len(),
                self@.output,
            ),
    {
        self.windows.layout_fits(&self.layout, self.output_size)
    }

    /// Arranges the windows on the current workspace and returns those whose
    /// size or place changed (their clients are to be told).
    pub fn apply_layout(&mut self) -> (r: Vec<WindowId>)
        requires
            old(self)@.well_formed(),
            old(self)@.layout.fits_for(
                tiled_indices(old(self)@.windows.windows, old(self)@.windows.current_workspace).len(),
                old(self)@.output,
            ),
        ensures
            final(self)@.well_formed(),
            final(self)@ == (CompositorView {
                windows: ManagerView {
                    windows: old(self)@.layout.arranged(
                        old(self)@.windows.windows,
                        old(self)@.windows.current_workspace,
                        old(self)@.output,
                    ),
                    ..old(self)@.windows
                },
                layout_dirty: false,
                needs_redraw: true,
                ..old(self)@
            }),
            r@ == old(self)@.layout.changed(
                old(self)@.windows.windows,
                old(self)@.windows.current_workspace,
                old(self)@.output,
            ),
    {
        let layout = self.layout;
        let output = self.output_size;
        let changed = self.windows.arrange(&layout, output);
        self.layout_dirty = false;
        self.needs_redraw = true;
        changed
    }

    /// A surface committed new content; `managed` says whether it belongs to
    /// a managed window, which then needs to be drawn again.
    pub fn surface_committed(&mut self, managed: bool)
        ensures
            final(self)@ == if managed {
                CompositorView { needs_redraw: true, ..old(self)@ }
            } else {
                old(self)@
            },
    {
        if managed {
            self.needs_redraw = true;
        }
    }

    /// The topmost shown window under `point`.
    pub fn window_at(&self, point: Point) -> (r: Option<WindowId>)
        requires
            self@.well_formed(),
            self@.shown_fit(),
        ensures
            r == topmost_at(self@.windows.windows, self@.windows.current_workspace, point),
    {
        self.windows.window_at(point)
    }

    /// Marks window `id` as dragged, or not.
    pub fn set_dragging(&mut self, id: WindowId, dragging: bool)
        requires
            old(self)@.well_formed(),
        ensures
            final(self)@.well_formed(),
            final(self)@ == old(self)@.with_windows(
                old(self)@.windows.with_window(id, old(self)@.windows.window(id).with_dragging(dragging)),
            ),
    {
        self.windows.set_dragging(id, dragging);
    }

    /// Moves the dragged window `id` to `location` and asks for a redraw where
    /// the window exists.
    pub fn drag_to(&mut self, id: WindowId, location: Point)
        requires
            old(self)@.well_formed(),
        ensures
            final(self)@.well_formed(),
            final(self)@ == (CompositorView {
                windows: old(self)@.windows.with_window(
                    id,
                    old(self)@.windows.window(id).with_location(location),
                ),
                needs_redraw: old(self)@.needs_redraw || has_id(old(self)@.windows.windows, id),
                ..old(self)@
            }),
    {
        let exists = match self.windows.window(id) {
            Some(_) => true,
            None => false,
        };
        self.windows.set_window_location(id, location);
        if exists {
            self.needs_redraw = true;
        }
    }

    /// Resizes window `id` to `size`; true (and a redraw) where its size
    /// changed, in which case its client is to be told.
    pub fn resize_to(&mut self, id: WindowId, size: Size) -> (r: bool)
        requires
            old(self)@.well_formed(),
        ensures
            final(self)@.well_formed(),
            r == (has_id(old(self)@.windows.windows, id) && old(self)@.windows.window(id).size != size),
            final(self)@ == (CompositorView {
                windows: old(self)@.windows.with_window(id, old(self)@.windows.window(id).with_size(size)),
                needs_redraw: old(self)@.needs_redraw || r,
                ..old(self)@
            }),
    {
        let changed = self.windows.set_window_size(id, size);
        if changed {
            self.needs_redraw = true;
        }
        changed
    }

    /// Starts a pointer grab on window `id` (after a Super+click on it): a
    /// drag with the left button, a resize with the right one. Only floating,
    /// unmaximized windows can be grabbed; a drag marks the window as
    /// dragged. Returns the window's location (drag) or size (resize).
    pub fn begin_grab(&mut self, id: WindowId, button: GrabButton) -> (r: Option<GrabStart>)
        requires
            old(self)@.well_formed(),
        ensures
            final(self)@.well_formed(),
            ({
                let w = old(self)@.windows;
                if has_id(w.windows, id) && w.window(id).is_floating() && !w.window(id).maximized {
                    match button {
                        GrabButton::Left => r == Some(GrabStart::Drag(w.window(id).location))
                            && final(self)@ == old(self)@.with_windows(
                            w.with_window(id, w.window(id).with_dragging(true)),
                        ),
                        GrabButton::Right => r == Some(GrabStart::Resize(w.window(id).size))
                            && final(self)@ == old(self)@,
                    }
                } else {
                    r is None && final(self)@ == old(self)@
                }
            }),
    {
        let (floating, maximized, location, size) = match self.windows.window(id) {
            Some(w) => (w.is_floating(), w.is_maximized(), w.location(), w.size()),
            None => {
                return None;
            },
        };
        if !floating || maximized {
            return None;
        }
        match button {
            GrabButton::Left => {
                self.windows.set_dragging(id, true);
                Some(GrabStart::Drag(location))
            },
            GrabButton::Right => Some(GrabStart::Resize(size)),
        }
    }
}

/// The pointer button that starts a grab.
#[derive(Clone, Copy, Debug, PartialEq, Eq, Structural)]
pub enum GrabButton {
    Left,
    Right,
}

/// A started pointer grab, with what it starts from.
#[derive(Clone, Copy, Debug, PartialEq, Eq, Structural)]
pub enum GrabStart {
    /// A drag, from the window's location.
    Drag(Point),
    /// A resize, from the window's size.
    Resize(Size),
}

pub open spec fn max_int(a: int, b: int) -> int {
    if a >= b { a } else { b }
}

/// The size of a window being resized: its size at the start of the grab
/// plus the pointer's movement, at least `MIN_FLOAT_WIDTH` x
/// `MIN_FLOAT_HEIGHT`.
pub fn resize_target(start: Size, dx: i32, dy: i32) -> (r: Size)
    requires
        i32::MIN <= start.w + dx <= i32::MAX,
        i32::MIN <= start.h + dy <= i32::MAX,
    ensures
        r.w == max_int(start.w + dx, MIN_FLOAT_WIDTH as int),
        r.h == max_int(start.h + dy, MIN_FLOAT_HEIGHT as int),
{
    let w = start.w + dx;
    let h = start.h + dy;
    Size {
        w: if w >= MIN_FLOAT_WIDTH { w } else { MIN_FLOAT_WIDTH },
        h: if h >= MIN_FLOAT_HEIGHT { h } else { MIN_FLOAT_HEIGHT },
    }
}

/// Moving the focus on keeps the workspaces as they are.
proof fn lemma_refocus_keeps_workspaces(c: CompositorView)
    requires
        c.well_formed(),
    ensures
        c.refocus().0.windows.current_workspace == c.windows.current_workspace,
        c.refocus().0.windows.workspace_count == c.windows.workspace_count,
        c.refocus().0.well_formed(),
{
    match c.windows.next_target() {
        Some(id) => {
            let w = c.windows;
            crate::manager::lemma_next_target_focusable(w);
            lemma_focus_shows(w, id);
            let w1 = w.with_focus(id);
            if w1.focusable(id) {
                lemma_focus_shows(w1, id);
            }
        },
        None => {},
    }
}

/// Switching to the next workspace and then to the previous one (by the
/// bound actions) comes back to the workspace one started from.
pub proof fn lemma_workspace_actions_round_trip(c: CompositorView, pointer: Point)
    requires
        c.well_formed(),
    ensures
        c.outcome(Action::WorkspaceNext, pointer).0.well_formed(),
        c.outcome(Action::WorkspaceNext, pointer).0.outcome(Action::WorkspacePrev, pointer).0.windows.current_workspace
            == c.windows.current_workspace,
{
    let w = c.windows;
    crate::manager::lemma_workspace_round_trip(w);
    if w.workspace_count > 1 {
        let w1 = w.with_current_workspace(w.next_workspace_index());
        crate::manager::lemma_without_dragging(w1);
        let c1 = c.with_windows(w1.without_dragging());
        lemma_refocus_keeps_workspaces(c1);
        let c2 = c1.refocus().0.dirty();
        let w3 = c2.windows.with_current_workspace(c2.windows.prev_workspace_index());
        crate::manager::lemma_without_dragging(w3);
        let c3 = c2.with_windows(w3.without_dragging());
        lemma_refocus_keeps_workspaces(c3);
    }
}

/// The active window moved to another workspace `target` (the focused one
/// there) keeps its identifier and lands on `target`.
proof fn lemma_move_lands(c: CompositorView, p: Point, target: usize)
    requires
        c.well_formed(),
        target < c.windows.workspace_count,
        target != c.windows.current_workspace,
        focused_shown_id(c.windows) is Some,
    ensures
        has_id(c.move_active(p, target).0.windows.windows, focused_shown_id(c.windows)->0),
        c.move_active(p, target).0.windows.window(focused_shown_id(c.windows)->0).workspace == target,
{
    let w = c.windows;
    let f = focused_shown_id(w)->0;
    assert(has_id(w.windows, f));
    assert(w.window(f).workspace == w.current_workspace);
    let nw = w.window(f).with_workspace(target);
    let p0 = crate::manager::pos_of(w.windows, f);
    assert(w.windows[p0].id == f);
    crate::window::lemma_changes_keep_well_formed(
        w.window(f),
        false,
        c.output,
        w.window(f).location,
        w.window(f).size,
        target,
        w.window(f).decoration,
    );
    crate::manager::lemma_with_window(w, f, nw);
    let w1 = w.with_window(f, nw);
    crate::manager::lemma_pos_of(w1.windows, f, p0);
    assert(w1.window(f) == nw);
    let c1 = c.with_windows(w1);
    match w1.next_target() {
        Some(id) => {
            crate::manager::lemma_next_target_focusable(w1);
            lemma_focus_shows(w1, id);
            crate::manager::lemma_focus_keeps_window(w1, id, f);
            let w2 = w1.with_focus(id);
            crate::manager::lemma_focus_keeps_window(w2, id, f);
        },
        None => {},
    }
}

/// The move actions send the active window (here the focused one) to the
/// next workspace, `(current + 1) mod count`, or the previous one,
/// `(current + count - 1) mod count`; the switch actions go to the same
/// workspaces.
pub proof fn lemma_move_and_switch_targets(c: CompositorView, p: Point)
    requires
        c.well_formed(),
        c.windows.workspace_count > 1,
        focused_shown_id(c.windows) is Some,
    ensures
        ({
            let f = focused_shown_id(c.windows)->0;
            let n = c.windows.workspace_count as int;
            let cur = c.windows.current_workspace as int;
            let next = c.outcome(Action::MoveToWorkspaceNext, p).0.windows;
            let prev = c.outcome(Action::MoveToWorkspacePrev, p).0.windows;
            &&& has_id(next.windows, f)
            &&& next.window(f).workspace == (cur + 1) % n
            &&& has_id(prev.windows, f)
            &&& prev.window(f).workspace == (cur + n - 1) % n
            &&& c.outcome(Action::WorkspaceNext, p).0.windows.current_workspace == (cur + 1) % n
            &&& c.outcome(Action::WorkspacePrev, p).0.windows.current_workspace == (cur + n - 1) % n
        }),
{
    let w = c.windows;
    let n = w.workspace_count as int;
    let cur = w.current_workspace as int;
    if cur + 1 < n {
        vstd::arithmetic::div_mod::lemma_small_mod((cur + 1) as nat, n as nat);
    } else {
        vstd::arithmetic::div_mod::lemma_mod_self_0(n);
    }
    if cur >= 1 {
        vstd::arithmetic::div_mod::lemma_mod_add_multiples_vanish(cur - 1, n);
        vstd::arithmetic::div_mod::lemma_small_mod((cur - 1) as nat, n as nat);
        assert(n + (cur - 1) == cur + n - 1);
    } else {
        vstd::arithmetic::div_mod::lemma_small_mod((n - 1) as nat, n as nat);
    }
    assert(w.next_workspace_index() as int == (cur + 1) % n);
    assert(w.prev_workspace_index() as int == (cur + n - 1) % n);
    lemma_move_lands(c, p, w.next_workspace_index());
    lemma_move_lands(c, p, w.prev_workspace_index());
    crate::manager::lemma_workspace_round_trip(w);
    let w1 = w.with_current_workspace(w.next_workspace_index());
    crate::manager::lemma_without_dragging(w1);
    lemma_refocus_keeps_workspaces(c.with_windows(w1.without_dragging()));
    let w2 = w.with_current_workspace(w.prev_workspace_index());
    crate::manager::lemma_without_dragging(w2);
    lemma_refocus_keeps_workspaces(c.with_windows(w2.without_dragging()));
}

proof fn lemma_refocus_prev_onto(c: CompositorView, t: WindowId)
    requires
        c.windows.prev_target() == Some(t),
        c.windows.with_prev_focus().focusable(t),
    ensures
        c.refocus_prev().0.windows == c.windows.with_prev_focus().with_focus(t),
        c.refocus_prev().1 == seq![EffectView::FocusKeyboard(t)],
{
}

proof fn lemma_refocus_onto_bottom(c: CompositorView)
    requires
        c.windows.well_formed(),
        shown_ids(c.windows).len() >= 1,
        c.windows.focused == Some(shown_ids(c.windows).last()),
    ensures
        c.refocus().0.windows.focused == Some(shown_ids(c.windows)[0]),
{
    crate::manager::lemma_step_forward(c.windows);
    let f = shown_ids(c.windows)[0];
    let w3 = c.windows.with_focus(f);
    assert(w3.with_focus(f).focused == Some(f));
}

proof fn lemma_focus_actions(c: CompositorView, p: Point)
    ensures
        c.outcome(Action::FocusPrev, p) == c.refocus_prev(),
        c.outcome(Action::FocusNext, p) == c.refocus(),
{
}

proof fn lemma_refocus_prev_top(c: CompositorView)
    requires
        c.windows.well_formed(),
        shown_ids(c.windows).len() >= 2,
        c.windows.focused == Some(shown_ids(c.windows).last()),
    ensures
        ({
            let ids = shown_ids(c.windows);
            let t = ids[ids.len() - 2];
            let c1 = c.refocus_prev();
            &&& c1.0.windows.focused == Some(t)
            &&& c1.1 == seq![EffectView::FocusKeyboard(t)]
            &&& c1.0.windows.well_formed()
            &&& shown_ids(c1.0.windows).len() >= 1
            &&& c1.0.windows.focused == Some(shown_ids(c1.0.windows).last())
            &&& shown_ids(c1.0.windows)[0] == ids.last()
        }),
{
    let w = c.windows;
    let ids = shown_ids(w);
    let k = ids.len() as int;
    let t = ids[k - 2];
    crate::manager::lemma_step_back(w);
    let w1 = w.with_prev_focus();
    let ids1 = shown_ids(w1);
    assert(ids1.last() == t);
    crate::manager::lemma_visible_ids_members(w1.windows, w1.current_workspace);
    assert(w1.focusable(ids1[k - 1]));
    lemma_refocus_prev_onto(c, t);
    crate::manager::lemma_focus_top(w1, t);
    assert(ids1[0] == ids.last());
}

/// Focus Prev steps back: from the topmost shown window, with at least two
/// shown, it focuses the shown window just below it (and gives that window
/// the keyboard), and a Focus Next afterwards gives the focus back.
pub proof fn lemma_focus_prev_steps_back(c: CompositorView, p: Point)
    requires
        c.well_formed(),
        shown_ids(c.windows).len() >= 2,
        c.windows.focused == Some(shown_ids(c.windows).last()),
    ensures
        ({
            let ids = shown_ids(c.windows);
            let t = ids[ids.len() - 2];
            let c1 = c.outcome(Action::FocusPrev, p);
            &&& c1.0.windows.focused == Some(t)
            &&& c1.1 == seq![EffectView::FocusKeyboard(t)]
            &&& c1.0.outcome(Action::FocusNext, p).0.windows.focused == c.windows.focused
        }),
{
    lemma_focus_actions(c, p);
    lemma_refocus_prev_top(c);
    let c1 = c.refocus_prev().0;
    lemma_focus_actions(c1, p);
    lemma_refocus_onto_bottom(c1);
}

proof fn lemma_replace_window(w: ManagerView, f: WindowId, nw: WindowView)
    requires
        w.well_formed(),
        has_id(w.windows, f),
        nw.id == f,
        nw.well_formed(),
        nw.workspace < w.workspace_count,
    ensures
        w.with_window(f, nw).well_formed(),
        has_id(w.with_window(f, nw).windows, f),
        w.with_window(f, nw).window(f) == nw,
{
    let p0 = crate::manager::pos_of(w.windows, f);
    assert(w.windows[p0].id == f);
    crate::manager::lemma_with_window(w, f, nw);
    let w1 = w.with_window(f, nw);
    crate::manager::lemma_pos_of(w1.windows, f, p0);
}

proof fn lemma_focus_keeps(c: CompositorView, id: WindowId, f: WindowId)
    requires
        c.windows.well_formed(),
        has_id(c.windows.windows, f),
    ensures
        has_id(c.focus(id).0.windows.windows, f),
        c.focus(id).0.windows.window(f) == c.windows.window(f),
{
    crate::manager::lemma_focus_keeps_window(c.windows, id, f);
}

proof fn lemma_refocus_keeps(c: CompositorView, f: WindowId)
    requires
        c.windows.well_formed(),
        has_id(c.windows.windows, f),
    ensures
        has_id(c.refocus().0.windows.windows, f),
        c.refocus().0.windows.window(f) == c.windows.window(f),
{
    let w1 = c.windows;
    match w1.next_target() {
        Some(id) => {
            crate::manager::lemma_next_target_focusable(w1);
            lemma_focus_shows(w1, id);
            crate::manager::lemma_focus_keeps_window(w1, id, f);
            let w2 = w1.with_focus(id);
            crate::manager::lemma_focus_keeps_window(w2, id, f);
        },
        None => {},
    }
}

/// The toggles act on the focused window: Toggle Minimize flips whether it
/// is minimized, Toggle Maximize whether it is maximized, Toggle Float
/// (where neither maximizing nor a rule holds it floating) whether it
/// floats, and Cycle Opacity steps its opacity 100% -> 85% -> 70% -> 100%.
pub proof fn lemma_toggles_flip(c: CompositorView, p: Point)
    requires
        c.well_formed(),
        c.windows.focused_window() is Some,
    ensures
        ({
            let fw = c.windows.focused_window()->0;
            let f = fw.id;
            let mini = c.outcome(Action::ToggleMinimize, p).0.windows;
            let maxi = c.outcome(Action::ToggleMaximize, p).0.windows;
            let flo = c.outcome(Action::ToggleFloat, p).0.windows;
            let opa = c.outcome(Action::CycleOpacity, p).0.windows;
            &&& has_id(mini.windows, f) && mini.window(f).minimized == !fw.minimized
            &&& has_id(maxi.windows, f) && maxi.window(f).maximized == !fw.maximized
            &&& !fw.maximized && !fw.forced_floating ==> has_id(flo.windows, f)
                && flo.window(f).is_floating() == !fw.is_floating()
            &&& has_id(opa.windows, f)
            &&& fw.opacity == 100 ==> opa.window(f).opacity == 85
            &&& fw.opacity == 85 ==> opa.window(f).opacity == 70
            &&& fw.opacity == 70 ==> opa.window(f).opacity == 100
        }),
{
    let w = c.windows;
    let fw = w.focused_window()->0;
    let f = fw.id;
    assert(has_id(w.windows, f));
    let p0 = crate::manager::pos_of(w.windows, f);
    assert(w.windows[p0].id == f);
    assert(fw == w.window(f));
    assert(fw.well_formed() && fw.workspace < w.workspace_count);
    crate::window::lemma_changes_keep_well_formed(
        fw,
        !fw.minimized,
        c.output,
        fw.location,
        fw.size,
        fw.workspace,
        fw.decoration,
    );
    crate::window::lemma_changes_keep_well_formed(
        fw,
        !fw.maximized,
        c.output,
        fw.location,
        fw.size,
        fw.workspace,
        fw.decoration,
    );
    crate::window::lemma_changes_keep_well_formed(
        fw,
        !fw.is_floating(),
        c.output,
        fw.location,
        fw.size,
        fw.workspace,
        fw.decoration,
    );
    let nm = fw.with_minimized(!fw.minimized);
    lemma_replace_window(w, f, nm);
    let cm = c.with_windows(w.with_window(f, nm));
    lemma_refocus_keeps(cm, f);
    lemma_focus_keeps(cm, f, f);
    let nx = fw.with_maximized(!fw.maximized, c.output);
    lemma_replace_window(w, f, nx);
    let nf = fw.with_floating(!fw.is_floating());
    lemma_replace_window(w, f, nf);
    let no = fw.with_next_opacity();
    lemma_replace_window(w, f, no);
}

/// Moving the focus on drags no window that was not dragged.
proof fn lemma_refocus_keeps_none_dragging(c: CompositorView)
    requires
        c.well_formed(),
        none_dragging(c.windows.windows),
    ensures
        none_dragging(c.refocus().0.windows.windows),
{
    match c.windows.next_target() {
        Some(id) => {
            let w = c.windows;
            crate::manager::lemma_next_target_focusable(w);
            lemma_focus_shows(w, id);
            crate::manager::lemma_focus_keeps_none_dragging(w, id);
            let w1 = w.with_focus(id);
            crate::manager::lemma_focus_keeps_none_dragging(w1, id);
        },
        None => {},
    }
}

/// A switch to another workspace ends every drag: afterwards no window is
/// marked as dragged, and the first effect tells the event loop to drop its
/// pointer grabs.
pub proof fn lemma_switch_ends_drags(c: CompositorView, pointer: Point, action: Action)
    requires
        c.well_formed(),
        c.windows.workspace_count > 1,
        action is WorkspaceNext || action is WorkspacePrev,
    ensures
        none_dragging(c.outcome(action, pointer).0.windows.windows),
        c.outcome(action, pointer).1.len() >= 1,
        c.outcome(action, pointer).1[0] == EffectView::ResetPointerGrabs,
{
    let w = c.windows;
    crate::manager::lemma_workspace_round_trip(w);
    let target = if action is WorkspaceNext {
        w.next_workspace_index()
    } else {
        w.prev_workspace_index()
    };
    let w1 = w.with_current_workspace(target);
    assert(w1.well_formed());
    crate::manager::lemma_without_dragging(w1);
    let c1 = c.with_windows(w1.without_dragging());
    lemma_refocus_keeps_none_dragging(c1);
}

/// Quitting only sets the quit flag.
pub proof fn lemma_quit(c: CompositorView, pointer: Point)
    ensures
        c.outcome(Action::Quit, pointer) == (CompositorView { should_exit: true, ..c }, Seq::<EffectView>::empty()),
{
}

} // verus!
