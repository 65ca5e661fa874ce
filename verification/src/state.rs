//! Start-up state of the display, the renderer and the input subsystem.
use vstd::prelude::*;
use crate::input::InputState;

verus! {

/// Whether the Wayland display has been set up.
pub struct DisplayState {
    initialized: bool,
}

impl DisplayState {
    pub closed spec fn is_initialized(&self) -> bool {
        self.initialized
    }

    pub fn new() -> (r: DisplayState)
        ensures
            !r.is_initialized(),
    {
        DisplayState { initialized: false }
    }

    /// Marks the display as set up; true where it was not before (the first
    /// call), false on every later one.
    pub fn initialize(&mut self) -> (r: bool)
        ensures
            final(self).is_initialized(),
            r == !old(self).is_initialized(),
    {
        if self.initialized {
            return false;
        }
        self.initialized = true;
        true
    }
}

/// Whether the renderer has been set up.
pub struct RendererState {
    initialized: bool,
}

impl RendererState {
    pub closed spec fn is_initialized(&self) -> bool {
        self.initialized
    }

    pub fn new() -> (r: RendererState)
        ensures
            !r.is_initialized(),
    {
        RendererState { initialized: false }
    }

    /// Marks the renderer as set up; true on the first call only.
    pub fn initialize(&mut self) -> (r: bool)
        ensures
            final(self).is_initialized(),
            r == !old(self).is_initialized(),
    {
        if self.initialized {
            return false;
        }
        self.initialized = true;
        true
    }
}

/// The subsystems of the compositor before its event loop runs.
pub struct State {
    pub display: DisplayState,
    pub input: InputState,
    pub renderer: RendererState,
}

impl State {
    /// Nothing set up, no keybindings.
    pub fn new() -> (r: State)
        ensures
            !r.display.is_initialized(),
            !r.renderer.is_initialized(),
            r.input.spec_keybindings().len() == 0,
    {
        State {
            display: DisplayState::new(),
            input: InputState::new(Vec::new(), false),
            renderer: RendererState::new(),
        }
    }

    /// Sets up the display and then the renderer; returns which of the two
    /// were set up by this call.
    pub fn initialize(&mut self) -> (r: (bool, bool))
        ensures
            final(self).display.is_initialized(),
            final(self).renderer.is_initialized(),
            r.0 == !old(self).display.is_initialized(),
            r.1 == !old(self).renderer.is_initialized(),
            final(self).input == old(self).input,
    {
        let d = self.display.initialize();
        let g = self.renderer.initialize();
        (d, g)
    }
}

} // verus!
