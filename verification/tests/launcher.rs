use wowland::launcher::{parse_desktop_entry, AppLauncher, DesktopEntry, LaunchError};

const FIREFOX: &str = "[Desktop Entry]\n# a comment\nName=Firefox\nExec=firefox %u --new-window\nIcon = firefox \nCategories=Network;WebBrowser;;\n";

#[test]
fn parse_desktop_file_fields() {
    let e = parse_desktop_entry(FIREFOX).expect("entry");
    assert_eq!(e.name, "Firefox");
    assert_eq!(e.command, "firefox %u --new-window");
    assert_eq!(e.icon.as_deref(), Some("firefox"));
    assert_eq!(e.categories, vec!["Network".to_string(), "WebBrowser".to_string()]);
}

#[test]
fn parse_desktop_file_later_keys_win_and_trim() {
    let e = parse_desktop_entry("  Name = A \r\nName=B=C\nExec=b\n").expect("entry");
    assert_eq!(e.name, "B=C");
    assert_eq!(e.command, "b");
    assert_eq!(e.icon, None);
    assert!(e.categories.is_empty());
}

#[test]
fn parse_desktop_file_needs_name_and_exec() {
    assert!(parse_desktop_entry("Name=Only\n").is_none());
    assert!(parse_desktop_entry("Exec=only\n").is_none());
    assert!(parse_desktop_entry("").is_none());
    assert!(parse_desktop_entry("name=lower\nExec=x\n").is_none());
}

#[test]
fn no_display_hides_entry() {
    assert!(parse_desktop_entry("Name=A\nExec=a\nNoDisplay=true\n").is_none());
    assert!(parse_desktop_entry("NoDisplay = true\nName=A\nExec=a\n").is_none());
    assert!(parse_desktop_entry("Name=A\nExec=a\nNoDisplay=false\n").is_some());
}

fn entry(name: &str, command: &str) -> DesktopEntry {
    DesktopEntry { name: name.to_string(), command: command.to_string(), icon: None, categories: Vec::new() }
}

#[test]
fn search_ignores_case() {
    let mut l = AppLauncher::new();
    l.add_entry(entry("Firefox", "firefox"));
    l.add_entry(entry("Files", "nautilus"));
    l.add_entry(entry("Terminal", "foot"));
    let found: Vec<&str> = l.search("FI").iter().map(|e| e.name.as_str()).collect();
    assert_eq!(found, vec!["Firefox", "Files"]);
    let found: Vec<&str> = l.search("fox").iter().map(|e| e.name.as_str()).collect();
    assert_eq!(found, vec!["Firefox"]);
    assert!(l.search("zzz").is_empty());
    assert_eq!(l.search("").len(), 3);
}

#[test]
fn longer_query_narrows_search() {
    let mut l = AppLauncher::new();
    l.add_entry(entry("Firefox", "firefox"));
    l.add_entry(entry("Files", "nautilus"));
    l.add_entry(entry("Terminal", "foot"));
    let wide: Vec<&str> = l.search("f").iter().map(|e| e.name.as_str()).collect();
    let narrow: Vec<&str> = l.search("fIr").iter().map(|e| e.name.as_str()).collect();
    assert_eq!(wide, vec!["Firefox", "Files"]);
    assert_eq!(narrow, vec!["Firefox"]);
    assert!(narrow.iter().all(|n| wide.contains(n)));
}

#[test]
fn command_for_splits_words() {
    let mut l = AppLauncher::default();
    l.add_entry(entry("Editor", "  vim\t-p  file "));
    l.add_entry(entry("Empty", "   "));
    let c = l.command_for("EDITOR").expect("command");
    assert_eq!(c.program, "vim");
    assert_eq!(c.args, vec!["-p".to_string(), "file".to_string()]);
    assert_eq!(l.command_for("Empty").err(), Some(LaunchError::NoExecCommand));
    assert_eq!(l.command_for("Missing").err(), Some(LaunchError::AppNotFound));
}

#[test]
fn command_for_takes_last_entry_with_the_name() {
    let mut l = AppLauncher::new();
    l.add_entry(entry("App", "first"));
    l.add_entry(entry("app", "second"));
    assert_eq!(l.command_for("APP").expect("command").program, "second");
    assert_eq!(l.entries().len(), 2);
}
