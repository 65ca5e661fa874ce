//! Keybindings: actions, modifier masks, keysym normalisation and the
//! lookup from a pressed key to the action bound to it.
use vstd::prelude::*;
use crate::text::{chars_of, seq_eq_ignore_ascii_case, eq_ignore_ascii_case, ascii_lower, is_ascii_alpha};

verus! {

/// Something a keybinding can make the compositor do.
#[derive(Debug, PartialEq, Eq)]
pub enum Action {
    Quit,
    NextLayout,
    PrevLayout,
    FocusNext,
    FocusPrev,
    ToggleFloat,
    ToggleMaximize,
    ToggleMinimize,
    CloseFocused,
    CycleOpacity,
    WorkspacePrev,
    WorkspaceNext,
    MoveToWorkspacePrev,
    MoveToWorkspaceNext,
    /// Run a command line through `sh -c`.
    Spawn { command: String },
    /// Launch the first desktop application whose name matches the query.
    Launcher { query: Option<String> },
}

impl Clone for Action {
    fn clone(&self) -> (r: Action)
        ensures
            r == *self,
    {
        match self {
            Action::Quit => Action::Quit,
            Action::NextLayout => Action::NextLayout,
            Action::PrevLayout => Action::PrevLayout,
            Action::FocusNext => Action::FocusNext,
            Action::FocusPrev => Action::FocusPrev,
            Action::ToggleFloat => Action::ToggleFloat,
            Action::ToggleMaximize => Action::ToggleMaximize,
            Action::ToggleMinimize => Action::ToggleMinimize,
            Action::CloseFocused => Action::CloseFocused,
            Action::CycleOpacity => Action::CycleOpacity,
            Action::WorkspacePrev => Action::WorkspacePrev,
            Action::WorkspaceNext => Action::WorkspaceNext,
            Action::MoveToWorkspacePrev => Action::MoveToWorkspacePrev,
            Action::MoveToWorkspaceNext => Action::MoveToWorkspaceNext,
            Action::Spawn { command } => Action::Spawn { command: command.clone() },
            Action::Launcher { query } => Action::Launcher {
                query: match query {
                    Some(q) => Some(q.clone()),
                    None => None,
                },
            },
        }
    }
}

/// The modifier keys currently held.
#[derive(Clone, Copy, Debug, Default, PartialEq, Eq, Structural)]
pub struct ModifiersState {
    pub ctrl: bool,
    pub alt: bool,
    pub shift: bool,
    /// The logo ("Super", "Windows") key.
    pub logo: bool,
}

/// The modifiers a keybinding requires.
#[derive(Clone, Copy, Debug, Default, PartialEq, Eq, Structural)]
pub struct ModifiersMask {
    pub ctrl: bool,
    pub alt: bool,
    pub shift: bool,
    pub super_key: bool,
}

/// Whether `mask` is satisfied by `mods`: every required modifier is held
/// (others may be held too). "Super" means Alt where `super_is_alt`, the logo
/// key otherwise.
pub open spec fn mask_matches(mask: ModifiersMask, mods: ModifiersState, super_is_alt: bool) -> bool {
    let super_pressed = if super_is_alt { mods.alt } else { mods.logo };
    &&& (!mask.ctrl || mods.ctrl)
    &&& (!mask.alt || mods.alt)
    &&& (!mask.shift || mods.shift)
    &&& (!mask.super_key || super_pressed)
}

impl ModifiersMask {
    pub fn matches(&self, mods: &ModifiersState, super_is_alt: bool) -> (r: bool)
        ensures
            r == mask_matches(*self, *mods, super_is_alt),
    {
        let super_pressed = if super_is_alt {
            mods.alt
        } else {
            mods.logo
        };
        (!self.ctrl || mods.ctrl) && (!self.alt || mods.alt) && (!self.shift || mods.shift) && (
        !self.super_key || super_pressed)
    }
}

/// A keybinding with its key resolved to a keysym.
#[derive(Debug)]
pub struct ResolvedKeybinding {
    pub action: Action,
    pub keysym: u32,
    pub modifiers: ModifiersMask,
}

/// Whether binding `b` fires for `keysym` with `mods` held.
pub open spec fn binding_applies(
    b: ResolvedKeybinding,
    keysym: u32,
    mods: ModifiersState,
    super_is_alt: bool,
) -> bool {
    b.keysym == keysym && mask_matches(b.modifiers, mods, super_is_alt)
}

/// The keysym `NoSymbol`.
pub const NO_SYMBOL: u32 = 0;

/// The character `xkeysym::Keysym::key_char` gives for a raw keysym.
pub uninterp spec fn keysym_char(raw: u32) -> Option<char>;

/// Calls `xkeysym::Keysym::key_char`, which translates a keysym to its
/// approximate character. Stated: the result is `keysym_char(raw)`; a keysym
/// in the printable ASCII range 0x20..=0x7e or the Latin-1 range 0xa0..=0xff
/// maps to the character with the same code; a keysym 0x01000000 + c with c a
/// Unicode scalar value up to 0x10ffff maps to c, and one that encodes a
/// surrogate maps to nothing. The keypad and special-key rules and the
/// legacy keysym tables are left unstated.
#[verifier::external_body]
fn key_char(raw: u32) -> (r: Option<char>)
    ensures
        r == keysym_char(raw),
        0x20 <= raw <= 0x7e ==> r == Some(raw as char),
        0xa0 <= raw <= 0xff ==> r == Some(raw as char),
        0x0100d800 <= raw <= 0x0100dfff ==> r is None,
        (0x01000000 <= raw < 0x0100d800 || 0x0100e000 <= raw <= 0x0110ffff) ==> r == Some(
            (raw - 0x01000000) as char,
        ),
{
    xkeysym::Keysym::new(raw).key_char()
}

/// Letter keysyms fold to lower case; every other keysym stays. On the
/// printable ASCII keysyms, whose character has the same code, this is the
/// folding of `A`..`Z` to `a`..`z`.
pub open spec fn normalized(raw: u32) -> u32 {
    if 0x41 <= raw <= 0x5a {
        (raw + 0x20) as u32
    } else if 0x20 <= raw <= 0x7e {
        raw
    } else {
        normalized_char(raw)
    }
}

/// The folding by the character `key_char` gives for a keysym.
pub open spec fn normalized_char(raw: u32) -> u32 {
    match keysym_char(raw) {
        Some(ch) => if is_ascii_alpha(ch) {
            ascii_lower(ch) as u32
        } else {
            raw
        },
        None => raw,
    }
}

/// Folds keysyms whose character is an ASCII letter to the lower-case letter.
pub fn normalize_keysym(raw: u32) -> (r: u32)
    ensures
        r == normalized(raw),
        0x41 <= raw <= 0x5a ==> r == raw + 0x20,
        0x20 <= raw <= 0x7e && !(0x41 <= raw <= 0x5a) ==> r == raw,
{
    match key_char(raw) {
        Some(ch) => {
            if ('A' <= ch && ch <= 'Z') || ('a' <= ch && ch <= 'z') {
                let code = ch as u32;
                if 'A' <= ch && ch <= 'Z' {
                    code + 32
                } else {
                    code
                }
            } else {
                raw
            }
        },
        None => raw,
    }
}

/// The key of a key event: the raw Latin (or raw current) keysym where there
/// is one, else the keysym the modifiers produce; normalised. `None` where
/// neither is a symbol.
pub open spec fn key_from_syms(raw_latin: Option<u32>, modified: u32) -> Option<u32> {
    match raw_latin {
        Some(sym) if sym != NO_SYMBOL => Some(normalized(sym)),
        _ => if modified == NO_SYMBOL {
            None
        } else {
            Some(normalized(modified))
        },
    }
}

/// The key of a key event (see [`key_from_syms`]), from the two keysyms
/// the keyboard state gives for it.
pub fn key_from_handle(raw_latin: Option<u32>, modified: u32) -> (r: Option<u32>)
    ensures
        r == key_from_syms(raw_latin, modified),
{
    if let Some(sym) = raw_latin {
        if sym != NO_SYMBOL {
            return Some(normalize_keysym(sym));
        }
    }
    if modified == NO_SYMBOL {
        None
    } else {
        Some(normalize_keysym(modified))
    }
}

/// The modifier names, lower case.
pub open spec fn name_ctrl() -> Seq<char> {
    seq!['c', 't', 'r', 'l']
}

pub open spec fn name_control() -> Seq<char> {
    seq!['c', 'o', 'n', 't', 'r', 'o', 'l']
}

pub open spec fn name_alt() -> Seq<char> {
    seq!['a', 'l', 't']
}

pub open spec fn name_shift() -> Seq<char> {
    seq!['s', 'h', 'i', 'f', 't']
}

pub open spec fn name_super() -> Seq<char> {
    seq!['s', 'u', 'p', 'e', 'r']
}

pub open spec fn name_logo() -> Seq<char> {
    seq!['l', 'o', 'g', 'o']
}

pub open spec fn name_meta() -> Seq<char> {
    seq!['m', 'e', 't', 'a']
}

pub open spec fn names_ctrl(v: Seq<char>) -> bool {
    eq_ignore_ascii_case(v, name_ctrl()) || eq_ignore_ascii_case(v, name_control())
}

pub open spec fn names_alt(v: Seq<char>) -> bool {
    eq_ignore_ascii_case(v, name_alt())
}

pub open spec fn names_shift(v: Seq<char>) -> bool {
    eq_ignore_ascii_case(v, name_shift())
}

pub open spec fn names_super(v: Seq<char>) -> bool {
    eq_ignore_ascii_case(v, name_super()) || eq_ignore_ascii_case(v, name_logo())
        || eq_ignore_ascii_case(v, name_meta())
}

/// The mask naming each modifier that some entry of `values` names, case
/// ignored: "ctrl"/"control", "alt", "shift", "super"/"logo"/"meta".
/// Other entries are ignored.
pub open spec fn modifiers_named(values: Seq<Seq<char>>) -> ModifiersMask {
    ModifiersMask {
        ctrl: exists|i: int| 0 <= i < values.len() && names_ctrl(#[trigger] values[i]),
        alt: exists|i: int| 0 <= i < values.len() && names_alt(#[trigger] values[i]),
        shift: exists|i: int| 0 <= i < values.len() && names_shift(#[trigger] values[i]),
        super_key: exists|i: int| 0 <= i < values.len() && names_super(#[trigger] values[i]),
    }
}

pub open spec fn string_views(values: Seq<String>) -> Seq<Seq<char>> {
    values.map_values(|s: String| s@)
}

/// The mask of modifiers named in `values` (see [`modifiers_named`]).
pub fn parse_modifiers(values: &Vec<String>) -> (r: ModifiersMask)
    ensures
        r == modifiers_named(string_views(values@)),
{
    let ghost vs = string_views(values@);
    let mut mask = ModifiersMask { ctrl: false, alt: false, shift: false, super_key: false };
    let ctrl = ['c', 't', 'r', 'l'];
    let control = ['c', 'o', 'n', 't', 'r', 'o', 'l'];
    let alt = ['a', 'l', 't'];
    let shift = ['s', 'h', 'i', 'f', 't'];
    let sup = ['s', 'u', 'p', 'e', 'r'];
    let logo = ['l', 'o', 'g', 'o'];
    let meta = ['m', 'e', 't', 'a'];
    proof {
        assert(ctrl@ =~= name_ctrl());
        assert(control@ =~= name_control());
        assert(alt@ =~= name_alt());
        assert(shift@ =~= name_shift());
        assert(sup@ =~= name_super());
        assert(logo@ =~= name_logo());
        assert(meta@ =~= name_meta());
    }
    let mut i: usize = 0;
    while i < values.len()
        invariant
            vs == string_views(values@),
            vs.len() == values@.len(),
            i <= values@.len(),
            ctrl@ == name_ctrl(),
            control@ == name_control(),
            alt@ == name_alt(),
            shift@ == name_shift(),
            sup@ == name_super(),
            logo@ == name_logo(),
            meta@ == name_meta(),
            mask.ctrl == exists|j: int| 0 <= j < i && names_ctrl(#[trigger] vs[j]),
            mask.alt == exists|j: int| 0 <= j < i && names_alt(#[trigger] vs[j]),
            mask.shift == exists|j: int| 0 <= j < i && names_shift(#[trigger] vs[j]),
            mask.super_key == exists|j: int| 0 <= j < i && names_super(#[trigger] vs[j]),
        decreases values@.len() - i,
    {
        let v = chars_of(values[i].as_str());
        proof {
            assert(vs[i as int] == v@);
        }
        if seq_eq_ignore_ascii_case(&v, &ctrl) || seq_eq_ignore_ascii_case(&v, &control) {
            mask.ctrl = true;
        } else if seq_eq_ignore_ascii_case(&v, &alt) {
            mask.alt = true;
        } else if seq_eq_ignore_ascii_case(&v, &shift) {
            mask.shift = true;
        } else if seq_eq_ignore_ascii_case(&v, &sup) || seq_eq_ignore_ascii_case(&v, &logo)
            || seq_eq_ignore_ascii_case(&v, &meta) {
            mask.super_key = true;
        }
        proof {
            let w = v@;
            assert(names_ctrl(w) ==> !names_alt(w) && !names_shift(w) && !names_super(w)) by {
                if names_ctrl(w) && (names_alt(w) || names_shift(w) || names_super(w)) {
                    assert(ascii_lower(w[0]) == 'c');
                }
            }
            assert(names_alt(w) ==> !names_shift(w) && !names_super(w)) by {
                if names_alt(w) && (names_shift(w) || names_super(w)) {
                    assert(ascii_lower(w[0]) == 'a');
                }
            }
            assert(names_shift(w) ==> !names_super(w)) by {
                if names_shift(w) && names_super(w) {
                    assert(ascii_lower(w[1]) == 'h');
                }
            }
        }
        i += 1;
    }
    mask
}

/// The bindings whose key resolved: for each `i` with `keysyms[i]` a
/// keysym, the binding's action, the keysym normalised, and the modifiers it
/// names; in order.
pub open spec fn resolved_from(bindings: Seq<crate::config::KeybindingConfig>, keysyms: Seq<Option<u32>>, n: nat) -> Seq<
    (Action, u32, ModifiersMask),
>
    decreases n,
{
    if n == 0 {
        Seq::empty()
    } else {
        let r = resolved_from(bindings, keysyms, (n - 1) as nat);
        let b = bindings[n - 1];
        match keysyms[n - 1] {
            Some(sym) => r.push(
                (b.action, normalized(sym), modifiers_named(string_views(b.modifiers@))),
            ),
            None => r,
        }
    }
}

pub open spec fn binding_tuple(b: ResolvedKeybinding) -> (Action, u32, ModifiersMask) {
    (b.action, b.keysym, b.modifiers)
}

/// Resolves keybindings, given for each one the keysym its key name
/// resolves to (`None` where it names no key); bindings whose key does not
/// resolve are dropped.
pub fn resolve_keybindings(
    bindings: &Vec<crate::config::KeybindingConfig>,
    keysyms: &Vec<Option<u32>>,
) -> (r: Vec<ResolvedKeybinding>)
    requires
        keysyms@.len() == bindings@.len(),
    ensures
        r@.map_values(|b: ResolvedKeybinding| binding_tuple(b)) == resolved_from(
            bindings@,
            keysyms@,
            bindings@.len(),
        ),
{
    let mut r: Vec<ResolvedKeybinding> = Vec::new();
    let mut i: usize = 0;
    while i < bindings.len()
        invariant
            keysyms@.len() == bindings@.len(),
            i <= bindings@.len(),
            r@.map_values(|b: ResolvedKeybinding| binding_tuple(b)) == resolved_from(
                bindings@,
                keysyms@,
                i as nat,
            ),
        decreases bindings@.len() - i,
    {
        match keysyms[i] {
            Some(sym) => {
                let keysym = normalize_keysym(sym);
                let modifiers = parse_modifiers(&bindings[i].modifiers);
                r.push(ResolvedKeybinding { action: bindings[i].action.clone(), keysym, modifiers });
                proof {
                    assert(r@.map_values(|b: ResolvedKeybinding| binding_tuple(b)) =~= resolved_from(
                        bindings@,
                        keysyms@,
                        (i + 1) as nat,
                    ));
                }
            },
            None => {
                proof {
                    assert(r@.map_values(|b: ResolvedKeybinding| binding_tuple(b)) =~= resolved_from(
                        bindings@,
                        keysyms@,
                        (i + 1) as nat,
                    ));
                }
            },
        }
        i += 1;
    }
    r
}

/// The keysym a key name denotes, from the two lookups by name that
/// xkbcommon makes: `exact`, with the name as written, and `ignoring_case`;
/// the exact one where it found a keysym, else the one ignoring case, else
/// `None`.
pub fn keysym_from_lookups(exact: u32, ignoring_case: u32) -> (r: Option<u32>)
    ensures
        r == (if exact != NO_SYMBOL {
            Some(exact)
        } else if ignoring_case != NO_SYMBOL {
            Some(ignoring_case)
        } else {
            None
        }),
{
    if exact != NO_SYMBOL {
        Some(exact)
    } else if ignoring_case != NO_SYMBOL {
        Some(ignoring_case)
    } else {
        None
    }
}

/// The keybindings and the modifier state of the keyboard.
pub struct InputState {
    keybindings: Vec<ResolvedKeybinding>,
    modifiers: ModifiersState,
    super_is_alt: bool,
}

impl InputState {
    pub closed spec fn spec_keybindings(&self) -> Seq<ResolvedKeybinding> {
        self.keybindings@
    }

    pub closed spec fn spec_modifiers(&self) -> ModifiersState {
        self.modifiers
    }

    pub closed spec fn spec_super_is_alt(&self) -> bool {
        self.super_is_alt
    }

    /// No modifiers held.
    pub fn new(bindings: Vec<ResolvedKeybinding>, super_is_alt: bool) -> (r: InputState)
        ensures
            r.spec_keybindings() == bindings@,
            r.spec_modifiers() == (ModifiersState {
                ctrl: false,
                alt: false,
                shift: false,
                logo: false,
            }),
            r.spec_super_is_alt() == super_is_alt,
    {
        InputState {
            keybindings: bindings,
            modifiers: ModifiersState { ctrl: false, alt: false, shift: false, logo: false },
            super_is_alt,
        }
    }

    pub fn update_modifiers(&mut self, mods: &ModifiersState)
        ensures
            final(self).spec_modifiers() == *mods,
            final(self).spec_keybindings() == old(self).spec_keybindings(),
            final(self).spec_super_is_alt() == old(self).spec_super_is_alt(),
    {
        self.modifiers = *mods;
    }

    pub fn modifiers(&self) -> (r: ModifiersState)
        ensures
            r == self.spec_modifiers(),
    {
        self.modifiers
    }

    pub fn super_is_alt(&self) -> (r: bool)
        ensures
            r == self.spec_super_is_alt(),
    {
        self.super_is_alt
    }

    /// Whether the "Super" modifier is held in `mods`: Alt where Super is
    /// mapped to Alt, the logo key otherwise.
    pub fn super_pressed(&self, mods: &ModifiersState) -> (r: bool)
        ensures
            r == (if self.spec_super_is_alt() { mods.alt } else { mods.logo }),
    {
        if self.super_is_alt {
            mods.alt
        } else {
            mods.logo
        }
    }

    /// The action for `keysym` with `mods` held: of the bindings that apply,
    /// the one that requires the most modifiers, the first such one on a tie
    /// (see [`chosen_binding`]).
    pub fn action_for(&self, mods: &ModifiersState, keysym: u32) -> (r: Option<Action>)
        ensures
            r == match chosen_binding(
                self.spec_keybindings(),
                self.spec_keybindings().len(),
                keysym,
                *mods,
                self.spec_super_is_alt(),
            ) {
                Some(i) => Some(self.spec_keybindings()[i].action),
                None => None,
            },
    {
        let mut best: Option<usize> = None;
        let mut best_weight: u8 = 0;
        let mut i: usize = 0;
        while i < self.keybindings.len()
            invariant
                i <= self.keybindings@.len(),
                best == match chosen_binding(self.keybindings@, i as nat, keysym, *mods, self.super_is_alt) {
                    Some(j) => Some(j as usize),
                    None => None::<usize>,
                },
                best matches Some(j) ==> j < i && best_weight == mask_weight(self.keybindings@[j as int].modifiers),
            decreases self.keybindings@.len() - i,
        {
            proof {
                lemma_chosen_in_range(self.keybindings@, i as nat, keysym, *mods, self.super_is_alt);
            }
            let b = &self.keybindings[i];
            if b.keysym == keysym && b.modifiers.matches(mods, self.super_is_alt) {
                let w = weight_of(&b.modifiers);
                let better = match best {
                    None => true,
                    Some(_) => w > best_weight,
                };
                if better {
                    best = Some(i);
                    best_weight = w;
                }
            }
            i += 1;
        }
        proof {
            lemma_chosen_in_range(self.keybindings@, i as nat, keysym, *mods, self.super_is_alt);
        }
        match best {
            Some(j) => Some(self.keybindings[j].action.clone()),
            None => None,
        }
    }
}

/// How many modifiers a mask requires.
pub open spec fn mask_weight(m: ModifiersMask) -> int {
    (if m.ctrl { 1int } else { 0int }) + (if m.alt { 1int } else { 0int }) + (if m.shift {
        1int
    } else {
        0int
    }) + (if m.super_key { 1int } else { 0int })
}

fn weight_of(m: &ModifiersMask) -> (r: u8)
    ensures
        r == mask_weight(*m),
{
    let mut r: u8 = 0;
    if m.ctrl {
        r += 1;
    }
    if m.alt {
        r += 1;
    }
    if m.shift {
        r += 1;
    }
    if m.super_key {
        r += 1;
    }
    r
}

/// The binding chosen among the first `n` for `keysym` with `mods` held: of
/// those that apply, the first one that requires the most modifiers; `None`
/// where none applies. A binding for Super+Shift thus wins over one for Super
/// alone when both are held.
pub open spec fn chosen_binding(
    bs: Seq<ResolvedKeybinding>,
    n: nat,
    keysym: u32,
    mods: ModifiersState,
    super_is_alt: bool,
) -> Option<int>
    decreases n,
{
    if n == 0 {
        None
    } else {
        let r = chosen_binding(bs, (n - 1) as nat, keysym, mods, super_is_alt);
        let k = n - 1;
        if binding_applies(bs[k], keysym, mods, super_is_alt) && match r {
            None => true,
            Some(i) => mask_weight(bs[k].modifiers) > mask_weight(bs[i].modifiers),
        } {
            Some(k)
        } else {
            r
        }
    }
}

proof fn lemma_chosen_in_range(
    bs: Seq<ResolvedKeybinding>,
    n: nat,
    keysym: u32,
    mods: ModifiersState,
    super_is_alt: bool,
)
    ensures
        chosen_binding(bs, n, keysym, mods, super_is_alt) matches Some(i) ==> 0 <= i < n,
    decreases n,
{
    if n > 0 {
        lemma_chosen_in_range(bs, (n - 1) as nat, keysym, mods, super_is_alt);
    }
}

/// The chosen binding applies; no binding that applies requires more
/// modifiers, and every earlier one that applies requires fewer; none is
/// chosen only where none applies.
pub proof fn lemma_chosen_binding_most_specific(
    bs: Seq<ResolvedKeybinding>,
    n: nat,
    keysym: u32,
    mods: ModifiersState,
    super_is_alt: bool,
)
    requires
        n <= bs.len(),
    ensures
        match chosen_binding(bs, n, keysym, mods, super_is_alt) {
            Some(i) => {
                &&& 0 <= i < n
                &&& binding_applies(bs[i], keysym, mods, super_is_alt)
                &&& forall|j: int|
                    0 <= j < n && binding_applies(#[trigger] bs[j], keysym, mods, super_is_alt)
                        ==> mask_weight(bs[j].modifiers) <= mask_weight(bs[i].modifiers)
                &&& forall|j: int|
                    0 <= j < i && binding_applies(#[trigger] bs[j], keysym, mods, super_is_alt)
                        ==> mask_weight(bs[j].modifiers) < mask_weight(bs[i].modifiers)
            },
            None => forall|j: int|
                0 <= j < n ==> !binding_applies(#[trigger] bs[j], keysym, mods, super_is_alt),
        },
    decreases n,
{
    if n > 0 {
        lemma_chosen_binding_most_specific(bs, (n - 1) as nat, keysym, mods, super_is_alt);
    }
}

/// Holding more modifiers never makes a satisfied binding unsatisfied.
pub proof fn lemma_matches_monotone(
    mask: ModifiersMask,
    mods: ModifiersState,
    more: ModifiersState,
    super_is_alt: bool,
)
    requires
        mask_matches(mask, mods, super_is_alt),
        mods.ctrl ==> more.ctrl,
        mods.alt ==> more.alt,
        mods.shift ==> more.shift,
        mods.logo ==> more.logo,
    ensures
        mask_matches(mask, more, super_is_alt),
{
}

/// A binding that requires no modifier is satisfied whatever is held.
pub proof fn lemma_empty_mask_matches(mods: ModifiersState, super_is_alt: bool)
    ensures
        mask_matches(
            ModifiersMask { ctrl: false, alt: false, shift: false, super_key: false },
            mods,
            super_is_alt,
        ),
{
}

/// Modifier names are matched without regard to ASCII case: renaming an
/// entry to another spelling that differs only in case gives the same mask.
pub proof fn lemma_modifier_names_ignore_case(values: Seq<Seq<char>>, other: Seq<Seq<char>>)
    requires
        values.len() == other.len(),
        forall|i: int| 0 <= i < values.len() ==> eq_ignore_ascii_case(#[trigger] values[i], other[i]),
    ensures
        modifiers_named(values) == modifiers_named(other),
{
    assert forall|i: int, n: Seq<char>|
        0 <= i < values.len() implies #[trigger] eq_ignore_ascii_case(values[i], n)
        == eq_ignore_ascii_case(other[i], n) by {
        let a = values[i];
        let b = other[i];
        if eq_ignore_ascii_case(a, n) {
            assert forall|j: int| 0 <= j < b.len() implies ascii_lower(#[trigger] b[j]) == ascii_lower(n[j]) by {
                assert(ascii_lower(a[j]) == ascii_lower(b[j]));
            }
        }
        if eq_ignore_ascii_case(b, n) {
            assert forall|j: int| 0 <= j < a.len() implies ascii_lower(#[trigger] a[j]) == ascii_lower(n[j]) by {
                assert(ascii_lower(a[j]) == ascii_lower(b[j]));
            }
        }
    }
    let m1 = modifiers_named(values);
    let m2 = modifiers_named(other);
    assert(m1.ctrl == m2.ctrl) by {
        if m1.ctrl {
            let i = choose|i: int| 0 <= i < values.len() && names_ctrl(#[trigger] values[i]);
            assert(names_ctrl(other[i]));
        }
        if m2.ctrl {
            let i = choose|i: int| 0 <= i < other.len() && names_ctrl(#[trigger] other[i]);
            assert(names_ctrl(values[i]));
        }
    }
    assert(m1.alt == m2.alt) by {
        if m1.alt {
            let i = choose|i: int| 0 <= i < values.len() && names_alt(#[trigger] values[i]);
            assert(names_alt(other[i]));
        }
        if m2.alt {
            let i = choose|i: int| 0 <= i < other.len() && names_alt(#[trigger] other[i]);
            assert(names_alt(values[i]));
        }
    }
    assert(m1.shift == m2.shift) by {
        if m1.shift {
            let i = choose|i: int| 0 <= i < values.len() && names_shift(#[trigger] values[i]);
            assert(names_shift(other[i]));
        }
        if m2.shift {
            let i = choose|i: int| 0 <= i < other.len() && names_shift(#[trigger] other[i]);
            assert(names_shift(values[i]));
        }
    }
    assert(m1.super_key == m2.super_key) by {
        if m1.super_key {
            let i = choose|i: int| 0 <= i < values.len() && names_super(#[trigger] values[i]);
            assert(names_super(other[i]));
        }
        if m2.super_key {
            let i = choose|i: int| 0 <= i < other.len() && names_super(#[trigger] other[i]);
            assert(names_super(values[i]));
        }
    }
}

} // verus!
