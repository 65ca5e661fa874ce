use wowland::config::{
    config_is_usable, default_super_modifier, default_workspace_count, load_config_with_fallback,
    parse_hex_color, super_is_alt, ConfigFile, GapsConfig, KeybindingConfig, WorkspaceConfig,
    DEFAULT_CONFIG,
};
use wowland::input::Action;
use wowland::window::Rgb;

#[test]
fn default_config_matches_embedded_text() {
    let config = ConfigFile::default();
    assert_eq!(config.keybindings.len(), 16);
    assert_eq!(config.super_modifier, "logo");
    assert_eq!(config.gaps.as_ref().map(|g| (g.inner, g.outer)), Some((Some(5), Some(10))));
    assert_eq!(config.workspace.as_ref().map(|w| w.count), Some(4));
    assert!(config.floating_app_ids.is_empty());
    assert_eq!(config.keybindings[0].action, Action::Quit);
    assert_eq!(config.keybindings[0].key, "Q");
    assert_eq!(config.keybindings[0].modifiers, vec!["super".to_string()]);
    assert_eq!(config.keybindings[2].action, Action::PrevLayout);
    assert_eq!(config.keybindings[2].modifiers, vec!["super".to_string(), "shift".to_string()]);
    assert_eq!(
        config.keybindings[14].action,
        Action::Spawn { command: "wofi --show drun".to_string() }
    );
    assert_eq!(config.keybindings[14].key, "Return");
    assert_eq!(config.keybindings[15].action, Action::Launcher { query: Some(String::new()) });
    assert!(DEFAULT_CONFIG.contains("[[keybindings]]"));
    assert_eq!(DEFAULT_CONFIG.matches("[[keybindings]]").count(), 16);
}

#[test]
fn defaults_for_missing_fields() {
    assert_eq!(default_workspace_count(), 4);
    assert_eq!(default_super_modifier(), "logo");
    assert_eq!(WorkspaceConfig::default().count, 0);
    let g = GapsConfig::default();
    assert!(g.inner.is_none() && g.outer.is_none());
}

#[test]
fn parse_hex_color_examples() {
    assert_eq!(parse_hex_color("#476178"), Some(Rgb { r: 0x47, g: 0x61, b: 0x78 }));
    assert_eq!(parse_hex_color("2E333D"), Some(Rgb { r: 0x2e, g: 0x33, b: 0x3d }));
    assert_eq!(parse_hex_color("##ff00FF"), Some(Rgb { r: 255, g: 0, b: 255 }));
    assert_eq!(parse_hex_color("+f+a+0"), None);
    assert_eq!(parse_hex_color("#+fffff"), None);
    assert_eq!(parse_hex_color("#12345"), None);
    assert_eq!(parse_hex_color("#1234567"), None);
    assert_eq!(parse_hex_color("#gg0000"), None);
    assert_eq!(parse_hex_color("#-10000"), None);
    assert_eq!(parse_hex_color(""), None);
}

#[test]
fn super_is_alt_ignores_case() {
    let mut config = ConfigFile::default();
    assert!(!super_is_alt(&config));
    config.super_modifier = "ALT".to_string();
    assert!(super_is_alt(&config));
    config.super_modifier = "Alt".to_string();
    assert!(super_is_alt(&config));
    config.super_modifier = "alt ".to_string();
    assert!(!super_is_alt(&config));
}

fn empty_config() -> ConfigFile {
    ConfigFile {
        keybindings: Vec::new(),
        floating_app_ids: Vec::new(),
        super_modifier: "logo".to_string(),
        decoration_focused: None,
        decoration_unfocused: None,
        gaps: None,
        workspace: None,
    }
}

#[test]
fn fallback_prefers_usable_explicit_config() {
    let mut explicit = empty_config();
    explicit.floating_app_ids.push("pavucontrol".to_string());
    assert!(config_is_usable(&explicit));
    let chosen = load_config_with_fallback(Some(explicit), None);
    assert_eq!(chosen.floating_app_ids, vec!["pavucontrol".to_string()]);
}

#[test]
fn fallback_skips_unusable_configs() {
    assert!(!config_is_usable(&empty_config()));
    let mut xdg = empty_config();
    xdg.keybindings.push(KeybindingConfig {
        action: Action::Quit,
        key: "X".to_string(),
        modifiers: Vec::new(),
    });
    let chosen = load_config_with_fallback(Some(empty_config()), Some(xdg));
    assert_eq!(chosen.keybindings.len(), 1);
    assert_eq!(chosen.keybindings[0].key, "X");
    let chosen = load_config_with_fallback(Some(empty_config()), Some(empty_config()));
    assert_eq!(chosen.keybindings.len(), 16);
    let chosen = load_config_with_fallback(None, None);
    assert_eq!(chosen.keybindings.len(), 16);
}

fn action_name(a: &Action) -> String {
    match a {
        Action::Quit => "quit".to_string(),
        Action::NextLayout => "next-layout".to_string(),
        Action::PrevLayout => "prev-layout".to_string(),
        Action::FocusNext => "focus-next".to_string(),
        Action::FocusPrev => "focus-prev".to_string(),
        Action::ToggleFloat => "toggle-float".to_string(),
        Action::ToggleMaximize => "toggle-maximize".to_string(),
        Action::ToggleMinimize => "toggle-minimize".to_string(),
        Action::CloseFocused => "close-focused".to_string(),
        Action::CycleOpacity => "cycle-opacity".to_string(),
        Action::WorkspacePrev => "workspace-prev".to_string(),
        Action::WorkspaceNext => "workspace-next".to_string(),
        Action::MoveToWorkspacePrev => "move-to-workspace-prev".to_string(),
        Action::MoveToWorkspaceNext => "move-to-workspace-next".to_string(),
        Action::Spawn { command } => format!("spawn={}", command),
        Action::Launcher { query } => format!("launcher={}", query.clone().unwrap_or_default()),
    }
}

#[test]
fn default_config_equals_parsed_embedded_text() {
    let table: toml::Table = toml::from_str(DEFAULT_CONFIG).unwrap();
    let config = ConfigFile::default();
    assert_eq!(table["super_modifier"].as_str(), Some(config.super_modifier.as_str()));
    assert_eq!(table["gaps"]["inner"].as_integer(), Some(5));
    assert_eq!(table["gaps"]["outer"].as_integer(), Some(10));
    assert_eq!(table["workspace"]["count"].as_integer(), Some(4));
    let bindings = table["keybindings"].as_array().unwrap();
    assert_eq!(bindings.len(), config.keybindings.len());
    for (raw, parsed) in bindings.iter().zip(config.keybindings.iter()) {
        let name = match &raw["action"] {
            toml::Value::String(s) => s.clone(),
            toml::Value::Table(t) => {
                let (k, v) = t.iter().next().unwrap();
                format!("{}={}", k, v.as_str().unwrap())
            }
            other => panic!("unexpected action {:?}", other),
        };
        assert_eq!(name, action_name(&parsed.action));
        assert_eq!(raw["key"].as_str(), Some(parsed.key.as_str()));
        let mods: Vec<String> = raw["modifiers"]
            .as_array()
            .unwrap()
            .iter()
            .map(|m| m.as_str().unwrap().to_string())
            .collect();
        assert_eq!(mods, parsed.modifiers);
    }
}
