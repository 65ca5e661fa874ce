//! The window-management core of a tiling Wayland compositor: windows and
//! workspaces, tiling layouts, keybindings, configuration values, desktop
//! entries for the application launcher, and the compositor's reaction to
//! user actions.
pub mod geometry;
pub mod window;
pub mod manager;
pub mod layout;
pub mod text;
pub mod input;
pub mod config;
pub mod launcher;
pub mod panel;
pub mod state;
pub mod runtime;
pub mod color;
