use wowland::color::background;
use wowland::config::ConfigFile;
use wowland::geometry::Size;
use wowland::input::{ModifiersMask, ModifiersState};
use wowland::layout::{grid_rects, master_stack_rects, Gaps};

#[test]
fn default_config_has_keybindings() {
    let config = ConfigFile::default();
    assert!(!config.keybindings.is_empty());
}

#[test]
fn modifiers_match_when_required_set() {
    let mut mods = ModifiersState::default();
    mods.logo = true;
    let mask = ModifiersMask {
        super_key: true,
        ..ModifiersMask::default()
    };
    assert!(mask.matches(&mods, false));
}

#[test]
fn master_stack_rects_returns_master_and_stack() {
    let rects = master_stack_rects(2, Size::new(1000, 800), Gaps::default(), 60);
    assert_eq!(rects.len(), 2);
    assert!(rects[0].size.w > rects[1].size.w);
}

#[test]
fn grid_rects_count_matches() {
    let rects = grid_rects(5, Size::new(1000, 800), Gaps::default());
    assert_eq!(rects.len(), 5);
}

#[test]
fn background_is_opaque() {
    assert!(background().is_opaque());
}
