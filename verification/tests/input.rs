use wowland::config::{ConfigFile, KeybindingConfig};
use wowland::input::{
    key_from_handle, keysym_from_lookups, normalize_keysym, parse_modifiers, resolve_keybindings,
    Action, InputState,
    ModifiersMask, ModifiersState, NO_SYMBOL,
};

fn strings(v: &[&str]) -> Vec<String> {
    v.iter().map(|s| s.to_string()).collect()
}

#[test]
fn parse_modifiers_names_and_cases() {
    let m = parse_modifiers(&strings(&["Super", "SHIFT", "bogus"]));
    assert_eq!(m, ModifiersMask { ctrl: false, alt: false, shift: true, super_key: true });
    let m = parse_modifiers(&strings(&["control", "Alt", "meta"]));
    assert_eq!(m, ModifiersMask { ctrl: true, alt: true, shift: false, super_key: true });
    let m = parse_modifiers(&strings(&["ctrl", "LOGO"]));
    assert_eq!(m, ModifiersMask { ctrl: true, alt: false, shift: false, super_key: true });
    assert_eq!(parse_modifiers(&Vec::new()), ModifiersMask::default());
    assert_eq!(parse_modifiers(&strings(&["sup er", "ctr"])), ModifiersMask::default());
}

#[test]
fn mask_matching_with_alt_as_super() {
    let mask = ModifiersMask { super_key: true, shift: true, ..ModifiersMask::default() };
    let mods = ModifiersState { alt: true, shift: true, ..ModifiersState::default() };
    assert!(mask.matches(&mods, true));
    assert!(!mask.matches(&mods, false));
    let extra = ModifiersState { ctrl: true, logo: true, shift: true, alt: false };
    assert!(mask.matches(&extra, false));
    assert!(ModifiersMask::default().matches(&ModifiersState::default(), false));
}

#[test]
fn normalize_folds_letters() {
    // 'Q' is 0x51, 'q' is 0x71
    assert_eq!(normalize_keysym(0x51), 0x71);
    assert_eq!(normalize_keysym(0x71), 0x71);
    // '1' stays
    assert_eq!(normalize_keysym(0x31), 0x31);
    // Return (0xff0d) has no letter
    assert_eq!(normalize_keysym(0xff0d), 0xff0d);
    // A letter given as a Unicode keysym folds to the lower-case Latin keysym
    assert_eq!(normalize_keysym(0x0100_0041), 0x61);
    // Latin-1 letters are not ASCII and stay
    assert_eq!(normalize_keysym(0xc0), 0xc0);
}

#[test]
fn key_from_handle_prefers_raw_latin_sym() {
    assert_eq!(key_from_handle(Some(0x4a), 0x6b), Some(0x6a));
    assert_eq!(key_from_handle(Some(NO_SYMBOL), 0x4b), Some(0x6b));
    assert_eq!(key_from_handle(None, 0xff0d), Some(0xff0d));
    assert_eq!(key_from_handle(None, NO_SYMBOL), None);
}

#[test]
fn resolve_drops_unknown_keys() {
    let bindings = vec![
        KeybindingConfig { action: Action::Quit, key: "Q".to_string(), modifiers: strings(&["super"]) },
        KeybindingConfig { action: Action::FocusNext, key: "Nope".to_string(), modifiers: Vec::new() },
        KeybindingConfig {
            action: Action::Spawn { command: "foot".to_string() },
            key: "Return".to_string(),
            modifiers: strings(&["super", "shift"]),
        },
    ];
    let resolved = resolve_keybindings(&bindings, &vec![Some(0x51), None, Some(0xff0d)]);
    assert_eq!(resolved.len(), 2);
    assert_eq!(resolved[0].action, Action::Quit);
    assert_eq!(resolved[0].keysym, 0x71);
    assert_eq!(resolved[0].modifiers, ModifiersMask { super_key: true, ..ModifiersMask::default() });
    assert_eq!(resolved[1].action, Action::Spawn { command: "foot".to_string() });
    assert_eq!(resolved[1].keysym, 0xff0d);
}

#[test]
fn action_for_prefers_the_most_specific_binding() {
    let bindings = vec![
        KeybindingConfig { action: Action::ToggleMinimize, key: "M".to_string(), modifiers: strings(&["super"]) },
        KeybindingConfig { action: Action::ToggleMaximize, key: "M".to_string(), modifiers: strings(&["super", "shift"]) },
    ];
    let resolved = resolve_keybindings(&bindings, &vec![Some(0x4d), Some(0x4d)]);
    let mut input = InputState::new(resolved, false);
    let both = ModifiersState { logo: true, shift: true, ..ModifiersState::default() };
    let logo = ModifiersState { logo: true, ..ModifiersState::default() };
    assert_eq!(input.action_for(&both, 0x6d), Some(Action::ToggleMaximize));
    assert_eq!(input.action_for(&logo, 0x6d), Some(Action::ToggleMinimize));
    assert_eq!(input.action_for(&ModifiersState::default(), 0x6d), None);
    assert_eq!(input.action_for(&logo, 0x6e), None);
    input.update_modifiers(&both);
    assert_eq!(input.modifiers(), both);
    assert!(input.super_pressed(&logo));
    assert!(!input.super_is_alt());
}

#[test]
fn action_clone_keeps_payload() {
    let a = Action::Launcher { query: Some("fire".to_string()) };
    assert_eq!(a.clone(), a);
}

/// The keysyms of the default configuration's key names.
fn default_keysym(name: &str) -> Option<u32> {
    match name {
        "space" => Some(0x20),
        "Left" => Some(0xff51),
        "Right" => Some(0xff53),
        "Return" => Some(0xff0d),
        _ if name.len() == 1 => Some(name.as_bytes()[0] as u32),
        _ => None,
    }
}

#[test]
fn default_bindings_with_shift_reach_their_actions() {
    let config = ConfigFile::default();
    let keysyms: Vec<Option<u32>> = config.keybindings.iter().map(|b| default_keysym(&b.key)).collect();
    let input = InputState::new(resolve_keybindings(&config.keybindings, &keysyms), false);
    let logo = ModifiersState { logo: true, ..ModifiersState::default() };
    let logo_shift = ModifiersState { logo: true, shift: true, ..ModifiersState::default() };
    assert_eq!(input.action_for(&logo, 0x20), Some(Action::NextLayout));
    assert_eq!(input.action_for(&logo_shift, 0x20), Some(Action::PrevLayout));
    assert_eq!(input.action_for(&logo, 0xff51), Some(Action::WorkspacePrev));
    assert_eq!(input.action_for(&logo_shift, 0xff51), Some(Action::MoveToWorkspacePrev));
    assert_eq!(input.action_for(&logo, 0xff53), Some(Action::WorkspaceNext));
    assert_eq!(input.action_for(&logo_shift, 0xff53), Some(Action::MoveToWorkspaceNext));
    assert_eq!(input.action_for(&logo_shift, 0x6d), Some(Action::ToggleMaximize));
    assert_eq!(input.action_for(&logo, 0x6d), Some(Action::ToggleMinimize));
    // a key bound with Super alone still fires with Shift held
    assert_eq!(input.action_for(&logo_shift, 0x71), Some(Action::Quit));
}

#[test]
fn equally_specific_bindings_keep_their_order() {
    let bindings = vec![
        KeybindingConfig { action: Action::Quit, key: "q".to_string(), modifiers: strings(&["super"]) },
        KeybindingConfig { action: Action::FocusNext, key: "q".to_string(), modifiers: strings(&["alt"]) },
    ];
    let input = InputState::new(resolve_keybindings(&bindings, &vec![Some(0x71), Some(0x71)]), false);
    let both = ModifiersState { logo: true, alt: true, ..ModifiersState::default() };
    assert_eq!(input.action_for(&both, 0x71), Some(Action::Quit));
}

#[test]
fn exact_lookup_wins_over_case_insensitive() {
    assert_eq!(keysym_from_lookups(0x51, 0x71), Some(0x51));
    assert_eq!(keysym_from_lookups(NO_SYMBOL, 0xff0d), Some(0xff0d));
    assert_eq!(keysym_from_lookups(NO_SYMBOL, NO_SYMBOL), None);
}
