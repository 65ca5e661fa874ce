//! Configuration values: keybindings, floating rules, decoration colours,
//! gaps and workspaces, and the choice among configuration sources.
use vstd::prelude::*;
use vstd::string::StringExecFns;
use vstd::utf8::{encode_utf8, is_char_boundary};
use crate::input::{Action, string_views};
use crate::text::{chars_of, seq_eq_ignore_ascii_case, eq_ignore_ascii_case};
use crate::window::{Rgb, DecorationColors};
use crate::layout::Gaps;

verus! {

/// The built-in configuration, as configuration-file text.
pub const DEFAULT_CONFIG: &'static str = "# Wowland Configuration
# Default keybindings

super_modifier = \"logo\"

[gaps]
inner = 5
outer = 10

[workspace]
count = 4

[[keybindings]]
action = \"quit\"
key = \"Q\"
modifiers = [\"super\"]

[[keybindings]]
action = \"next-layout\"
key = \"space\"
modifiers = [\"super\"]

[[keybindings]]
action = \"prev-layout\"
key = \"space\"
modifiers = [\"super\", \"shift\"]

[[keybindings]]
action = \"focus-next\"
key = \"J\"
modifiers = [\"super\"]

[[keybindings]]
action = \"focus-prev\"
key = \"K\"
modifiers = [\"super\"]

[[keybindings]]
action = \"toggle-float\"
key = \"F\"
modifiers = [\"super\"]

[[keybindings]]
action = \"toggle-maximize\"
key = \"M\"
modifiers = [\"super\", \"shift\"]

[[keybindings]]
action = \"toggle-minimize\"
key = \"M\"
modifiers = [\"super\"]

[[keybindings]]
action = \"close-focused\"
key = \"W\"
modifiers = [\"super\"]

[[keybindings]]
action = \"cycle-opacity\"
key = \"O\"
modifiers = [\"super\"]

[[keybindings]]
action = \"workspace-prev\"
key = \"Left\"
modifiers = [\"super\"]

[[keybindings]]
action = \"workspace-next\"
key = \"Right\"
modifiers = [\"super\"]

[[keybindings]]
action = \"move-to-workspace-prev\"
key = \"Left\"
modifiers = [\"super\", \"shift\"]

[[keybindings]]
action = \"move-to-workspace-next\"
key = \"Right\"
modifiers = [\"super\", \"shift\"]

[[keybindings]]
action = { spawn = \"wofi --show drun\" }
key = \"Return\"
modifiers = [\"super\"]

[[keybindings]]
action = { launcher = \"\" }
key = \"P\"
modifiers = [\"super\"]
";

/// One keybinding as written in the configuration.
#[derive(Debug)]
pub struct KeybindingConfig {
    pub action: Action,
    pub key: String,
    pub modifiers: Vec<String>,
}

/// Gaps as configured; an absent gap counts as 0.
#[derive(Debug)]
pub struct GapsConfig {
    pub inner: Option<i32>,
    pub outer: Option<i32>,
}

impl Default for GapsConfig {
    fn default() -> (r: GapsConfig)
        ensures
            r.inner is None,
            r.outer is None,
    {
        GapsConfig { inner: None, outer: None }
    }
}

/// The workspace section of the configuration.
#[derive(Debug)]
pub struct WorkspaceConfig {
    pub count: usize,
}

impl Default for WorkspaceConfig {
    fn default() -> (r: WorkspaceConfig)
        ensures
            r.count == 0,
    {
        WorkspaceConfig { count: 0 }
    }
}

/// The contents of a configuration file.
#[derive(Debug)]
pub struct ConfigFile {
    pub keybindings: Vec<KeybindingConfig>,
    /// Application ids whose windows always float.
    pub floating_app_ids: Vec<String>,
    /// "logo" (the default) or "alt": the key that acts as Super.
    pub super_modifier: String,
    /// Decoration colour of the focused window, as `#rrggbb`.
    pub decoration_focused: Option<String>,
    /// Decoration colour of the other windows, as `#rrggbb`.
    pub decoration_unfocused: Option<String>,
    pub gaps: Option<GapsConfig>,
    pub workspace: Option<WorkspaceConfig>,
}

/// The workspace count where the workspace section gives none.
pub fn default_workspace_count() -> (r: usize)
    ensures
        r == 4,
{
    4
}

/// The Super key where the configuration names none: the logo key.
pub fn default_super_modifier() -> (r: String)
    ensures
        r@ == "logo"@,
{
    String::from_str("logo")
}

/// The built-in configuration: the keybindings listed in [`DEFAULT_CONFIG`]
/// in its order, Super on the logo key, gaps 5 (inner) and 10 (outer), four
/// workspaces, no floating rules and the built-in decoration colours.
pub open spec fn is_builtin_config(c: ConfigFile) -> bool {
    let kb = c.keybindings@;
    &&& c.super_modifier@ == "logo"@
    &&& c.floating_app_ids@.len() == 0
    &&& c.decoration_focused is None
    &&& c.decoration_unfocused is None
    &&& c.gaps matches Some(g) && g.inner == Some(5i32) && g.outer == Some(10i32)
    &&& c.workspace matches Some(w) && w.count == 4
    &&& kb.len() == 16
        &&& kb[0].action == Action::Quit
        &&& kb[0].key@ == "Q"@ && string_views(kb[0].modifiers@) == seq!["super"@]
        &&& kb[1].action == Action::NextLayout
        &&& kb[1].key@ == "space"@ && string_views(kb[1].modifiers@) == seq!["super"@]
        &&& kb[2].action == Action::PrevLayout
        &&& kb[2].key@ == "space"@ && string_views(kb[2].modifiers@) == seq!["super"@, "shift"@]
        &&& kb[3].action == Action::FocusNext
        &&& kb[3].key@ == "J"@ && string_views(kb[3].modifiers@) == seq!["super"@]
        &&& kb[4].action == Action::FocusPrev
        &&& kb[4].key@ == "K"@ && string_views(kb[4].modifiers@) == seq!["super"@]
        &&& kb[5].action == Action::ToggleFloat
        &&& kb[5].key@ == "F"@ && string_views(kb[5].modifiers@) == seq!["super"@]
        &&& kb[6].action == Action::ToggleMaximize
        &&& kb[6].key@ == "M"@ && string_views(kb[6].modifiers@) == seq!["super"@, "shift"@]
        &&& kb[7].action == Action::ToggleMinimize
        &&& kb[7].key@ == "M"@ && string_views(kb[7].modifiers@) == seq!["super"@]
        &&& kb[8].action == Action::CloseFocused
        &&& kb[8].key@ == "W"@ && string_views(kb[8].modifiers@) == seq!["super"@]
        &&& kb[9].action == Action::CycleOpacity
        &&& kb[9].key@ == "O"@ && string_views(kb[9].modifiers@) == seq!["super"@]
        &&& kb[10].action == Action::WorkspacePrev
        &&& kb[10].key@ == "Left"@ && string_views(kb[10].modifiers@) == seq!["super"@]
        &&& kb[11].action == Action::WorkspaceNext
        &&& kb[11].key@ == "Right"@ && string_views(kb[11].modifiers@) == seq!["super"@]
        &&& kb[12].action == Action::MoveToWorkspacePrev
        &&& kb[12].key@ == "Left"@ && string_views(kb[12].modifiers@) == seq!["super"@, "shift"@]
        &&& kb[13].action == Action::MoveToWorkspaceNext
        &&& kb[13].key@ == "Right"@ && string_views(kb[13].modifiers@) == seq!["super"@, "shift"@]
        &&& kb[14].action matches Action::Spawn { command } && command@ == "wofi --show drun"@
        &&& kb[14].key@ == "Return"@ && string_views(kb[14].modifiers@) == seq!["super"@]
        &&& kb[15].action matches Action::Launcher { query: Some(q) } && q@ == ""@
        &&& kb[15].key@ == "P"@ && string_views(kb[15].modifiers@) == seq!["super"@]
}

fn binding(action: Action, key: &str, modifiers: Vec<String>) -> (r: KeybindingConfig)
    ensures
        r.action == action,
        r.key@ == key@,
        r.modifiers == modifiers,
{
    KeybindingConfig { action, key: String::from_str(key), modifiers }
}

fn super_only() -> (r: Vec<String>)
    ensures
        string_views(r@) == seq!["super"@],
{
    let mut v: Vec<String> = Vec::new();
    v.push(String::from_str("super"));
    assert(string_views(v@) =~= seq!["super"@]);
    v
}

fn super_shift() -> (r: Vec<String>)
    ensures
        string_views(r@) == seq!["super"@, "shift"@],
{
    let mut v: Vec<String> = Vec::new();
    v.push(String::from_str("super"));
    v.push(String::from_str("shift"));
    assert(string_views(v@) =~= seq!["super"@, "shift"@]);
    v
}

impl Default for ConfigFile {
    /// The built-in configuration (see [`is_builtin_config`]).
    fn default() -> (r: ConfigFile)
        ensures
            is_builtin_config(r),
    {
        let mut keybindings: Vec<KeybindingConfig> = Vec::new();
        keybindings.push(binding(Action::Quit, "Q", super_only()));
        keybindings.push(binding(Action::NextLayout, "space", super_only()));
        keybindings.push(binding(Action::PrevLayout, "space", super_shift()));
        keybindings.push(binding(Action::FocusNext, "J", super_only()));
        keybindings.push(binding(Action::FocusPrev, "K", super_only()));
        keybindings.push(binding(Action::ToggleFloat, "F", super_only()));
        keybindings.push(binding(Action::ToggleMaximize, "M", super_shift()));
        keybindings.push(binding(Action::ToggleMinimize, "M", super_only()));
        keybindings.push(binding(Action::CloseFocused, "W", super_only()));
        keybindings.push(binding(Action::CycleOpacity, "O", super_only()));
        keybindings.push(binding(Action::WorkspacePrev, "Left", super_only()));
        keybindings.push(binding(Action::WorkspaceNext, "Right", super_only()));
        keybindings.push(binding(Action::MoveToWorkspacePrev, "Left", super_shift()));
        keybindings.push(binding(Action::MoveToWorkspaceNext, "Right", super_shift()));
        keybindings.push(binding(Action::Spawn { command: String::from_str("wofi --show drun") }, "Return", super_only()));
        keybindings.push(binding(Action::Launcher { query: Some(String::from_str("")) }, "P", super_only()));
        ConfigFile {
            keybindings,
            floating_app_ids: Vec::new(),
            super_modifier: default_super_modifier(),
            decoration_focused: None,
            decoration_unfocused: None,
            gaps: Some(GapsConfig { inner: Some(5), outer: Some(10) }),
            workspace: Some(WorkspaceConfig { count: 4 }),
        }
    }
}

/// A configuration is worth using where it binds a key or makes some
/// application float.
pub open spec fn usable(c: ConfigFile) -> bool {
    c.keybindings@.len() > 0 || c.floating_app_ids@.len() > 0
}

pub fn config_is_usable(config: &ConfigFile) -> (r: bool)
    ensures
        r == usable(*config),
{
    config.keybindings.len() > 0 || config.floating_app_ids.len() > 0
}

/// The configuration to run with: the one from the path given on the
/// command line where it is usable, else the one from the XDG location where
/// it is usable, else the built-in one. Each argument is the loaded file
/// (`None` where it was not looked at).
pub fn load_config_with_fallback(explicit: Option<ConfigFile>, xdg: Option<ConfigFile>) -> (r:
    ConfigFile)
    ensures
        (explicit matches Some(c) && usable(c)) ==> r == explicit->0,
        !(explicit matches Some(c) && usable(c)) && (xdg matches Some(c) && usable(c)) ==> r == xdg->0,
        !(explicit matches Some(c) && usable(c)) && !(xdg matches Some(c) && usable(c))
            ==> is_builtin_config(r),
{
    if let Some(config) = explicit {
        if config_is_usable(&config) {
            return config;
        }
    }
    if let Some(config) = xdg {
        if config_is_usable(&config) {
            return config;
        }
    }
    ConfigFile::default()
}

/// The gap between tiled windows where the configuration names none.
pub const DEFAULT_INNER_GAP: i32 = 5;

/// The gap at the output's edges where the configuration names none.
pub const DEFAULT_OUTER_GAP: i32 = 10;

/// The gaps a configuration asks for: each one given in the `[gaps]` table,
/// the default (5 inner, 10 outer) for one it leaves out or where there is no
/// table.
pub open spec fn config_gaps(c: ConfigFile) -> Gaps {
    match c.gaps {
        Some(g) => Gaps {
            inner: match g.inner {
                Some(i) => i,
                None => DEFAULT_INNER_GAP,
            },
            outer: match g.outer {
                Some(o) => o,
                None => DEFAULT_OUTER_GAP,
            },
        },
        None => Gaps { inner: DEFAULT_INNER_GAP, outer: DEFAULT_OUTER_GAP },
    }
}

/// The gaps a configuration asks for (see [`config_gaps`]).
pub fn gaps_of(config: &ConfigFile) -> (r: Gaps)
    ensures
        r == config_gaps(*config),
{
    match &config.gaps {
        Some(g) => Gaps {
            inner: match g.inner {
                Some(i) => i,
                None => DEFAULT_INNER_GAP,
            },
            outer: match g.outer {
                Some(o) => o,
                None => DEFAULT_OUTER_GAP,
            },
        },
        None => Gaps { inner: DEFAULT_INNER_GAP, outer: DEFAULT_OUTER_GAP },
    }
}

/// The decoration colours a configuration asks for: both colours where both
/// are given and read as `#rrggbb`; the built-in ones (`None`) otherwise.
pub open spec fn config_colors(c: ConfigFile) -> Option<DecorationColors> {
    match c.decoration_focused {
        Some(f) => match hex_color(f@) {
            Some(fc) => match c.decoration_unfocused {
                Some(u) => match hex_color(u@) {
                    Some(uc) => Some(DecorationColors::Custom { focused: fc, unfocused: uc }),
                    None => None,
                },
                None => None,
            },
            None => None,
        },
        None => None,
    }
}

/// Whether the colour texts can be read: the focused colour is read first,
/// and the unfocused one only where the focused one is a colour (each read
/// panics where it would cut a character, see [`hex_pieces_ok`]).
pub open spec fn colors_readable(c: ConfigFile) -> bool {
    &&& c.decoration_focused matches Some(f) ==> hex_pieces_ok(f@)
    &&& (c.decoration_focused matches Some(f) && hex_color(f@) is Some
        && c.decoration_unfocused is Some) ==> hex_pieces_ok(c.decoration_unfocused->0@)
}

/// The decoration colours a configuration asks for (see [`config_colors`]).
pub fn colors_of(config: &ConfigFile) -> (r: Option<DecorationColors>)
    requires
        colors_readable(*config),
    ensures
        r == config_colors(*config),
{
    let focused = match &config.decoration_focused {
        Some(f) => match parse_hex_color(f.as_str()) {
            Some(c) => c,
            None => {
                return None;
            },
        },
        None => {
            return None;
        },
    };
    let unfocused = match &config.decoration_unfocused {
        Some(u) => match parse_hex_color(u.as_str()) {
            Some(c) => c,
            None => {
                return None;
            },
        },
        None => {
            return None;
        },
    };
    Some(DecorationColors::Custom { focused, unfocused })
}

/// The workspace count a configuration asks for, where it has a workspace
/// section.
pub open spec fn config_workspace_count(c: ConfigFile) -> Option<usize> {
    match c.workspace {
        Some(w) => Some(w.count),
        None => None,
    }
}

/// The workspace count a configuration asks for (see
/// [`config_workspace_count`]).
pub fn workspace_count_of(config: &ConfigFile) -> (r: Option<usize>)
    ensures
        r == config_workspace_count(*config),
{
    match &config.workspace {
        Some(w) => Some(w.count),
        None => None,
    }
}


/// Whether the configuration maps Super to Alt ("alt", in any ASCII case).
pub fn super_is_alt(config: &ConfigFile) -> (r: bool)
    ensures
        r == eq_ignore_ascii_case(config.super_modifier@, seq!['a', 'l', 't']),
{
    let v = chars_of(config.super_modifier.as_str());
    let alt = ['a', 'l', 't'];
    proof {
        assert(alt@ =~= seq!['a', 'l', 't']);
    }
    seq_eq_ignore_ascii_case(&v, &alt)
}

/// `s` without its leading `#` characters.
pub open spec fn strip_hashes(s: Seq<char>) -> Seq<char>
    decreases s.len(),
{
    if s.len() > 0 && s[0] == '#' {
        strip_hashes(s.drop_first())
    } else {
        s
    }
}

/// The value of a hexadecimal digit (either case).
pub open spec fn hex_digit(c: char) -> Option<u8> {
    if '0' <= c <= '9' {
        Some((c as u32 - '0' as u32) as u8)
    } else if 'a' <= c <= 'f' {
        Some((c as u32 - 'a' as u32 + 10) as u8)
    } else if 'A' <= c <= 'F' {
        Some((c as u32 - 'A' as u32 + 10) as u8)
    } else {
        None
    }
}

/// A byte written as two hexadecimal digits.
pub open spec fn byte_from_pair(a: char, b: char) -> Option<u8> {
    match (hex_digit(a), hex_digit(b)) {
        (Some(x), Some(y)) => Some((16 * x + y) as u8),
        _ => None,
    }
}

/// The colour `#rrggbb` denotes: leading `#`s are dropped, six characters
/// must remain, and each pair must be a byte in base 16.
pub open spec fn hex_color(s: Seq<char>) -> Option<Rgb> {
    let h = strip_hashes(s);
    if h.len() != 6 {
        None
    } else {
        match (byte_from_pair(h[0], h[1]), byte_from_pair(h[2], h[3]), byte_from_pair(h[4], h[5])) {
            (Some(r), Some(g), Some(b)) => Some(Rgb { r, g, b }),
            _ => None,
        }
    }
}

/// Whether the text after the `#`s can be cut into three two-byte pieces
/// where it is six bytes long (cutting inside a character panics).
pub open spec fn hex_pieces_ok(s: Seq<char>) -> bool {
    let b = encode_utf8(strip_hashes(s));
    b.len() == 6 ==> is_char_boundary(b, 2) && is_char_boundary(b, 4)
}

fn hex_digit_exec(c: char) -> (r: Option<u8>)
    ensures
        r == hex_digit(c),
{
    if '0' <= c && c <= '9' {
        Some((c as u32 - '0' as u32) as u8)
    } else if 'a' <= c && c <= 'f' {
        Some((c as u32 - 'a' as u32 + 10) as u8)
    } else if 'A' <= c && c <= 'F' {
        Some((c as u32 - 'A' as u32 + 10) as u8)
    } else {
        None
    }
}

fn byte_from_pair_exec(a: char, b: char) -> (r: Option<u8>)
    ensures
        r == byte_from_pair(a, b),
{
    match (hex_digit_exec(a), hex_digit_exec(b)) {
        (Some(x), Some(y)) => Some(16 * x + y),
        _ => None,
    }
}

proof fn lemma_strip_hashes(s: Seq<char>, k: int)
    requires
        0 <= k <= s.len(),
        forall|j: int| 0 <= j < k ==> s[j] == '#',
        k == s.len() || s[k] != '#',
    ensures
        strip_hashes(s) == s.skip(k),
    decreases k,
{
    if k > 0 {
        assert(forall|j: int| 0 <= j < k - 1 ==> #[trigger] s.drop_first()[j] == s[j + 1]);
        lemma_strip_hashes(s.drop_first(), k - 1);
        assert(s.drop_first().skip(k - 1) =~= s.skip(k));
    } else {
        assert(s.skip(0) =~= s);
    }
}

/// The colour a `#rrggbb` string denotes (see [`hex_color`]).
pub fn parse_hex_color(hex: &str) -> (r: Option<Rgb>)
    requires
        hex_pieces_ok(hex@),
    ensures
        r == hex_color(hex@),
{
    let v = chars_of(hex);
    let mut k: usize = 0;
    while k < v.len() && v[k] == '#'
        invariant
            k <= v@.len(),
            forall|j: int| 0 <= j < k ==> v@[j] == '#',
        decreases v@.len() - k,
    {
        k += 1;
    }
    proof {
        lemma_strip_hashes(v@, k as int);
    }
    if v.len() - k != 6 {
        return None;
    }
    let r = match byte_from_pair_exec(v[k], v[k + 1]) {
        Some(x) => x,
        None => {
            return None;
        },
    };
    let g = match byte_from_pair_exec(v[k + 2], v[k + 3]) {
        Some(x) => x,
        None => {
            return None;
        },
    };
    let b = match byte_from_pair_exec(v[k + 4], v[k + 5]) {
        Some(x) => x,
        None => {
            return None;
        },
    };
    Some(Rgb { r, g, b })
}

/// The lower-case hexadecimal digit for `d < 16`.
pub open spec fn hex_char(d: int) -> char {
    if d < 10 {
        ('0' as u32 + d) as char
    } else {
        ('a' as u32 + d - 10) as char
    }
}

/// `#rrggbb` for a colour, in lower case.
pub open spec fn canonical_hex(c: Rgb) -> Seq<char> {
    seq![
        '#',
        hex_char(c.r as int / 16),
        hex_char(c.r as int % 16),
        hex_char(c.g as int / 16),
        hex_char(c.g as int % 16),
        hex_char(c.b as int / 16),
        hex_char(c.b as int % 16),
    ]
}

proof fn lemma_pair_round_trip(x: u8)
    ensures
        byte_from_pair(hex_char(x as int / 16), hex_char(x as int % 16)) == Some(x),
{
    let hi = x / 16;
    let lo = x % 16;
    assert(hex_digit(hex_char(hi as int)) == Some(hi as u8));
    assert(hex_digit(hex_char(lo as int)) == Some(lo as u8));
    assert(hex_char(hi as int) != '+');
}

/// Reading back the `#rrggbb` form of any colour gives that colour.
pub proof fn lemma_hex_color_round_trip(c: Rgb)
    ensures
        hex_color(canonical_hex(c)) == Some(c),
{
    let s = canonical_hex(c);
    let t = s.drop_first();
    assert(s[0] == '#');
    assert(t[0] != '#');
    assert(strip_hashes(t) == t);
    assert(strip_hashes(s) == t);
    lemma_pair_round_trip(c.r);
    lemma_pair_round_trip(c.g);
    lemma_pair_round_trip(c.b);
}

} // verus!
