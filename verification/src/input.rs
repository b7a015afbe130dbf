//! Keyboard input handling with vim-style navigation.
//!
//! Supports three modes: Dashboard, Process, and Filter. Keys are first
//! read as hotkeys (a key and a set of modifier flags, with the bit values of
//! the `awase` hotkey vocabulary) for the plain single-key bindings.

use vstd::prelude::*;

verus! {

/// Application mode determines which keybindings are active.
#[derive(Debug, Clone, Copy, PartialEq, Eq, Structural)]
pub enum Mode {
    /// Dashboard view: overview of CPU, memory, disk, network.
    Dashboard,
    /// Process table view: scrollable, sortable, filterable.
    Process,
    /// Filter input mode: typing a filter string.
    Filter,
}

/// Actions that can be triggered by keyboard input.
#[derive(Debug, Clone, Copy, PartialEq, Eq, Structural)]
pub enum Action {
    /// Quit the application.
    Quit,
    /// Switch to dashboard view.
    SwitchDashboard,
    /// Switch to process view.
    SwitchProcess,
    /// Force refresh all metrics.
    ForceRefresh,
    /// Cycle focus to next panel (Tab).
    FocusNext,
    /// Cycle focus to previous panel (Shift+Tab).
    FocusPrev,
    /// Navigate up in a list.
    Up,
    /// Navigate down in a list.
    Down,
    /// Page up.
    PageUp,
    /// Page down.
    PageDown,
    /// Go to first item.
    First,
    /// Go to last item.
    Last,
    /// Cycle sort column in process view.
    CycleSort,
    /// Toggle sort direction.
    ToggleSortDirection,
    /// Enter filter mode.
    EnterFilter,
    /// Exit current mode (Escape).
    Back,
    /// Confirm / select.
    Confirm,
    /// Character typed (for filter input).
    Char(char),
    /// Backspace (for filter input).
    Backspace,
    /// No action recognized.
    NoAction,
}

/// A key as the windowing layer reports it.
#[derive(Debug, Clone, Copy, PartialEq, Eq, Structural)]
pub enum KeyCode {
    /// A character key.
    Char(char),
    Escape,
    Enter,
    Tab,
    Backspace,
    Delete,
    Up,
    Down,
    Left,
    Right,
    Home,
    End,
    PageUp,
    PageDown,
    /// Any other key (function keys, media keys, ...).
    Other,
}

/// Modifier keys held during a key event.
#[derive(Debug, Clone, Copy, PartialEq, Eq, Structural, Default)]
pub struct Modifiers {
    pub ctrl: bool,
    pub alt: bool,
    pub shift: bool,
    pub meta: bool,
}

impl Modifiers {
    /// Whether any modifier is held.
    pub fn any(&self) -> (r: bool)
        ensures
            r == (self.ctrl || self.alt || self.shift || self.meta),
    {
        self.ctrl || self.alt || self.shift || self.meta
    }
}

/// A keyboard event.
#[derive(Debug, Clone)]
pub struct KeyEvent {
    /// The key.
    pub key: KeyCode,
    /// Pressed (true) or released (false).
    pub pressed: bool,
    /// Modifier keys held.
    pub modifiers: Modifiers,
    /// Text the key produced, if any.
    pub text: Option<String>,
}

/// A hotkey key: the keys of the `awase::Key` vocabulary that key codes map to.
#[derive(Debug, Clone, Copy, PartialEq, Eq, Structural)]
pub enum HotkeyKey {
    A, B, C, D, E, F, G, H, I, J, K, L, M, N, O, P, Q, R, S, T, U, V, W, X, Y, Z,
    Slash,
    Equal,
    Minus,
    Comma,
    Period,
    Escape,
    Return,
    Tab,
    Backspace,
    Delete,
    Up,
    Down,
    Left,
    Right,
    Home,
    End,
    PageUp,
    PageDown,
}

/// Hotkey modifier flags as a bitmask: command 1, control 2, alt 4, shift 8
/// (the bits of `awase::Modifiers`).
#[derive(Debug, Clone, Copy, PartialEq, Eq, Structural)]
pub struct HotkeyModifiers {
    pub bits: u8,
}

impl HotkeyModifiers {
    /// The command flag.
    pub fn cmd() -> (r: Self)
        ensures
            r.bits == 1,
    {
        HotkeyModifiers { bits: 1 }
    }

    /// The control flag.
    pub fn ctrl() -> (r: Self)
        ensures
            r.bits == 2,
    {
        HotkeyModifiers { bits: 2 }
    }

    /// The alt flag.
    pub fn alt() -> (r: Self)
        ensures
            r.bits == 4,
    {
        HotkeyModifiers { bits: 4 }
    }

    /// The shift flag.
    pub fn shift() -> (r: Self)
        ensures
            r.bits == 8,
    {
        HotkeyModifiers { bits: 8 }
    }

    /// Whether every flag of `other` is set.
    pub fn contains(self, other: Self) -> (r: bool)
        ensures
            r == (self.bits & other.bits == other.bits),
    {
        self.bits & other.bits == other.bits
    }

    /// Whether no flag is set.
    pub fn is_empty(self) -> (r: bool)
        ensures
            r == (self.bits == 0),
    {
        self.bits == 0
    }
}

/// The hotkey key a key code stands for: letters in either case, some
/// punctuation ('+' and '=' both being the equal key), and the named keys.
pub open spec fn hotkey_key(key: KeyCode) -> Option<HotkeyKey> {
    match key {
        KeyCode::Char(c) => {
            if c == 'a' || c == 'A' { Some(HotkeyKey::A) }
            else if c == 'b' || c == 'B' { Some(HotkeyKey::B) }
            else if c == 'c' || c == 'C' { Some(HotkeyKey::C) }
            else if c == 'd' || c == 'D' { Some(HotkeyKey::D) }
            else if c == 'e' || c == 'E' { Some(HotkeyKey::E) }
            else if c == 'f' || c == 'F' { Some(HotkeyKey::F) }
            else if c == 'g' || c == 'G' { Some(HotkeyKey::G) }
            else if c == 'h' || c == 'H' { Some(HotkeyKey::H) }
            else if c == 'i' || c == 'I' { Some(HotkeyKey::I) }
            else if c == 'j' || c == 'J' { Some(HotkeyKey::J) }
            else if c == 'k' || c == 'K' { Some(HotkeyKey::K) }
            else if c == 'l' || c == 'L' { Some(HotkeyKey::L) }
            else if c == 'm' || c == 'M' { Some(HotkeyKey::M) }
            else if c == 'n' || c == 'N' { Some(HotkeyKey::N) }
            else if c == 'o' || c == 'O' { Some(HotkeyKey::O) }
            else if c == 'p' || c == 'P' { Some(HotkeyKey::P) }
            else if c == 'q' || c == 'Q' { Some(HotkeyKey::Q) }
            else if c == 'r' || c == 'R' { Some(HotkeyKey::R) }
            else if c == 's' || c == 'S' { Some(HotkeyKey::S) }
            else if c == 't' || c == 'T' { Some(HotkeyKey::T) }
            else if c == 'u' || c == 'U' { Some(HotkeyKey::U) }
            else if c == 'v' || c == 'V' { Some(HotkeyKey::V) }
            else if c == 'w' || c == 'W' { Some(HotkeyKey::W) }
            else if c == 'x' || c == 'X' { Some(HotkeyKey::X) }
            else if c == 'y' || c == 'Y' { Some(HotkeyKey::Y) }
            else if c == 'z' || c == 'Z' { Some(HotkeyKey::Z) }
            else if c == '/' { Some(HotkeyKey::Slash) }
            else if c == '+' || c == '=' { Some(HotkeyKey::Equal) }
            else if c == '-' { Some(HotkeyKey::Minus) }
            else if c == ',' { Some(HotkeyKey::Comma) }
            else if c == '.' { Some(HotkeyKey::Period) }
            else { None }
        },
        KeyCode::Escape => Some(HotkeyKey::Escape),
        KeyCode::Enter => Some(HotkeyKey::Return),
        KeyCode::Tab => Some(HotkeyKey::Tab),
        KeyCode::Backspace => Some(HotkeyKey::Backspace),
        KeyCode::Delete => Some(HotkeyKey::Delete),
        KeyCode::Up => Some(HotkeyKey::Up),
        KeyCode::Down => Some(HotkeyKey::Down),
        KeyCode::Left => Some(HotkeyKey::Left),
        KeyCode::Right => Some(HotkeyKey::Right),
        KeyCode::Home => Some(HotkeyKey::Home),
        KeyCode::End => Some(HotkeyKey::End),
        KeyCode::PageUp => Some(HotkeyKey::PageUp),
        KeyCode::PageDown => Some(HotkeyKey::PageDown),
        KeyCode::Other => None,
    }
}

/// The hotkey modifier bits of a set of held modifiers.
pub open spec fn hotkey_bits(m: Modifiers) -> u8 {
    ((if m.meta { 1u8 } else { 0u8 }) + (if m.ctrl { 2u8 } else { 0u8 }) + (if m.alt { 4u8 } else { 0u8 })
        + (if m.shift { 8u8 } else { 0u8 })) as u8
}

/// Converts a key code to its hotkey key, if it has one.
pub fn to_awase_key(key: &KeyCode) -> (r: Option<HotkeyKey>)
    ensures
        r == hotkey_key(*key),
{
    match *key {
        KeyCode::Char(c) => {
            if c == 'a' || c == 'A' { Some(HotkeyKey::A) }
            else if c == 'b' || c == 'B' { Some(HotkeyKey::B) }
            else if c == 'c' || c == 'C' { Some(HotkeyKey::C) }
            else if c == 'd' || c == 'D' { Some(HotkeyKey::D) }
            else if c == 'e' || c == 'E' { Some(HotkeyKey::E) }
            else if c == 'f' || c == 'F' { Some(HotkeyKey::F) }
            else if c == 'g' || c == 'G' { Some(HotkeyKey::G) }
            else if c == 'h' || c == 'H' { Some(HotkeyKey::H) }
            else if c == 'i' || c == 'I' { Some(HotkeyKey::I) }
            else if c == 'j' || c == 'J' { Some(HotkeyKey::J) }
            else if c == 'k' || c == 'K' { Some(HotkeyKey::K) }
            else if c == 'l' || c == 'L' { Some(HotkeyKey::L) }
            else if c == 'm' || c == 'M' { Some(HotkeyKey::M) }
            else if c == 'n' || c == 'N' { Some(HotkeyKey::N) }
            else if c == 'o' || c == 'O' { Some(HotkeyKey::O) }
            else if c == 'p' || c == 'P' { Some(HotkeyKey::P) }
            else if c == 'q' || c == 'Q' { Some(HotkeyKey::Q) }
            else if c == 'r' || c == 'R' { Some(HotkeyKey::R) }
            else if c == 's' || c == 'S' { Some(HotkeyKey::S) }
            else if c == 't' || c == 'T' { Some(HotkeyKey::T) }
            else if c == 'u' || c == 'U' { Some(HotkeyKey::U) }
            else if c == 'v' || c == 'V' { Some(HotkeyKey::V) }
            else if c == 'w' || c == 'W' { Some(HotkeyKey::W) }
            else if c == 'x' || c == 'X' { Some(HotkeyKey::X) }
            else if c == 'y' || c == 'Y' { Some(HotkeyKey::Y) }
            else if c == 'z' || c == 'Z' { Some(HotkeyKey::Z) }
            else if c == '/' { Some(HotkeyKey::Slash) }
            else if c == '+' || c == '=' { Some(HotkeyKey::Equal) }
            else if c == '-' { Some(HotkeyKey::Minus) }
            else if c == ',' { Some(HotkeyKey::Comma) }
            else if c == '.' { Some(HotkeyKey::Period) }
            else { None }
        },
        KeyCode::Escape => Some(HotkeyKey::Escape),
        KeyCode::Enter => Some(HotkeyKey::Return),
        KeyCode::Tab => Some(HotkeyKey::Tab),
        KeyCode::Backspace => Some(HotkeyKey::Backspace),
        KeyCode::Delete => Some(HotkeyKey::Delete),
        KeyCode::Up => Some(HotkeyKey::Up),
        KeyCode::Down => Some(HotkeyKey::Down),
        KeyCode::Left => Some(HotkeyKey::Left),
        KeyCode::Right => Some(HotkeyKey::Right),
        KeyCode::Home => Some(HotkeyKey::Home),
        KeyCode::End => Some(HotkeyKey::End),
        KeyCode::PageUp => Some(HotkeyKey::PageUp),
        KeyCode::PageDown => Some(HotkeyKey::PageDown),
        KeyCode::Other => None,
    }
}

/// Converts held modifiers to hotkey modifier flags.
pub fn to_awase_modifiers(mods: &Modifiers) -> (r: HotkeyModifiers)
    ensures
        r.bits == hotkey_bits(*mods),
        r.bits == 0 <==> !(mods.ctrl || mods.alt || mods.shift || mods.meta),
{
    let mut bits: u8 = 0;
    if mods.meta {
        bits = bits + 1;
    }
    if mods.ctrl {
        bits = bits + 2;
    }
    if mods.alt {
        bits = bits + 4;
    }
    if mods.shift {
        bits = bits + 8;
    }
    HotkeyModifiers { bits }
}

/// The action of a plain (unmodified) hotkey in the dashboard, if it has one.
pub open spec fn dashboard_hotkey(k: HotkeyKey) -> Option<Action> {
    match k {
        HotkeyKey::Q => Some(Action::Quit),
        HotkeyKey::P => Some(Action::SwitchProcess),
        HotkeyKey::R => Some(Action::ForceRefresh),
        HotkeyKey::Escape => Some(Action::Quit),
        _ => None,
    }
}

/// The action of a plain (unmodified) hotkey in the process view, if it has one.
pub open spec fn process_hotkey(k: HotkeyKey) -> Option<Action> {
    match k {
        HotkeyKey::Q => Some(Action::Quit),
        HotkeyKey::Escape => Some(Action::Back),
        HotkeyKey::Slash => Some(Action::EnterFilter),
        _ => None,
    }
}

/// Whether the event's key has a hotkey form, pressed with no modifiers.
pub open spec fn plain_hotkey(e: KeyEvent) -> Option<HotkeyKey> {
    match hotkey_key(e.key) {
        Some(k) => if hotkey_bits(e.modifiers) == 0 { Some(k) } else { None },
        None => None,
    }
}

/// Dashboard bindings: q, p, r and Escape when unmodified; then Tab and
/// Shift+Tab, j/k and the arrows, h/l for focus.
pub open spec fn dashboard_action(e: KeyEvent) -> Action {
    let hot = match plain_hotkey(e) {
        Some(k) => dashboard_hotkey(k),
        None => None,
    };
    match hot {
        Some(a) => a,
        None => match e.key {
            KeyCode::Tab => if !e.modifiers.shift { Action::FocusNext } else { Action::FocusPrev },
            KeyCode::Char(c) => {
                if c == 'j' { Action::Down }
                else if c == 'k' { Action::Up }
                else if c == 'h' { Action::FocusPrev }
                else if c == 'l' { Action::FocusNext }
                else { Action::NoAction }
            },
            KeyCode::Down => Action::Down,
            KeyCode::Up => Action::Up,
            KeyCode::Left => Action::FocusPrev,
            KeyCode::Right => Action::FocusNext,
            _ => Action::NoAction,
        },
    }
}

/// Process view bindings: q, Escape and '/' when unmodified; then j/k and
/// the arrows, g (first) and shifted G or g (last), the page keys, s (cycle
/// sort) and shifted S or s (direction), r and d without any modifier, and
/// Tab.
pub open spec fn process_action(e: KeyEvent) -> Action {
    let hot = match plain_hotkey(e) {
        Some(k) => process_hotkey(k),
        None => None,
    };
    let shift = e.modifiers.shift;
    let any = e.modifiers.ctrl || e.modifiers.alt || e.modifiers.shift || e.modifiers.meta;
    match hot {
        Some(a) => a,
        None => match e.key {
            KeyCode::Char(c) => {
                if c == 'j' { Action::Down }
                else if c == 'k' { Action::Up }
                else if c == 'g' && !shift { Action::First }
                else if (c == 'G' || c == 'g') && shift { Action::Last }
                else if c == 's' && !shift { Action::CycleSort }
                else if (c == 'S' || c == 's') && shift { Action::ToggleSortDirection }
                else if c == 'r' && !any { Action::ForceRefresh }
                else if c == 'd' && !any { Action::SwitchDashboard }
                else { Action::NoAction }
            },
            KeyCode::Down => Action::Down,
            KeyCode::Up => Action::Up,
            KeyCode::PageDown => Action::PageDown,
            KeyCode::PageUp => Action::PageUp,
            KeyCode::Tab => Action::FocusNext,
            _ => Action::NoAction,
        },
    }
}

/// Filter input bindings: Escape, Enter, Backspace, and characters typed.
pub open spec fn filter_action(e: KeyEvent) -> Action {
    match e.key {
        KeyCode::Escape => Action::Back,
        KeyCode::Enter => Action::Confirm,
        KeyCode::Backspace => Action::Backspace,
        KeyCode::Char(c) => Action::Char(c),
        _ => Action::NoAction,
    }
}

/// The action a key event triggers in a mode; released keys trigger none.
pub open spec fn key_action(e: KeyEvent, mode: Mode) -> Action {
    if !e.pressed {
        Action::NoAction
    } else {
        match mode {
            Mode::Filter => filter_action(e),
            Mode::Dashboard => dashboard_action(e),
            Mode::Process => process_action(e),
        }
    }
}

/// The key bindings, spelled out for every event: released keys do nothing;
/// in filter mode Escape, Enter, Backspace and characters go back, confirm,
/// erase and type; in the process view the navigation keys move in their
/// own direction (whatever modifiers are held) and the plain letter
/// commands do what their letters say; in the dashboard the plain
/// commands, Tab and the navigation keys do theirs.
pub proof fn lemma_key_bindings(e: KeyEvent)
    ensures
        !e.pressed ==> key_action(e, Mode::Dashboard) == Action::NoAction
            && key_action(e, Mode::Process) == Action::NoAction
            && key_action(e, Mode::Filter) == Action::NoAction,
        e.pressed ==> {
            let plain = !e.modifiers.ctrl && !e.modifiers.alt && !e.modifiers.shift && !e.modifiers.meta;
            let only_shift = !e.modifiers.ctrl && !e.modifiers.alt && e.modifiers.shift && !e.modifiers.meta;
            &&& e.key == KeyCode::Escape ==> key_action(e, Mode::Filter) == Action::Back
            &&& e.key == KeyCode::Enter ==> key_action(e, Mode::Filter) == Action::Confirm
            &&& e.key == KeyCode::Backspace ==> key_action(e, Mode::Filter) == Action::Backspace
            &&& forall|c: char| e.key == KeyCode::Char(c) ==> key_action(e, Mode::Filter) == Action::Char(c)
            &&& e.key == KeyCode::PageUp ==> key_action(e, Mode::Process) == Action::PageUp
            &&& e.key == KeyCode::PageDown ==> key_action(e, Mode::Process) == Action::PageDown
            &&& (e.key == KeyCode::Down || e.key == KeyCode::Char('j')) ==> key_action(e, Mode::Process) == Action::Down
            &&& (e.key == KeyCode::Up || e.key == KeyCode::Char('k')) ==> key_action(e, Mode::Process) == Action::Up
            &&& e.key == KeyCode::Tab ==> key_action(e, Mode::Process) == Action::FocusNext
            &&& (plain && (e.key == KeyCode::Char('q') || e.key == KeyCode::Char('Q')))
                ==> key_action(e, Mode::Process) == Action::Quit && key_action(e, Mode::Dashboard) == Action::Quit
            &&& (plain && e.key == KeyCode::Escape) ==> key_action(e, Mode::Process) == Action::Back
                && key_action(e, Mode::Dashboard) == Action::Quit
            &&& (plain && e.key == KeyCode::Char('/')) ==> key_action(e, Mode::Process) == Action::EnterFilter
            &&& (plain && e.key == KeyCode::Char('g')) ==> key_action(e, Mode::Process) == Action::First
            &&& (only_shift && (e.key == KeyCode::Char('G') || e.key == KeyCode::Char('g')))
                ==> key_action(e, Mode::Process) == Action::Last
            &&& (plain && e.key == KeyCode::Char('s')) ==> key_action(e, Mode::Process) == Action::CycleSort
            &&& (only_shift && (e.key == KeyCode::Char('S') || e.key == KeyCode::Char('s')))
                ==> key_action(e, Mode::Process) == Action::ToggleSortDirection
            &&& (plain && e.key == KeyCode::Char('r')) ==> key_action(e, Mode::Process) == Action::ForceRefresh
                && key_action(e, Mode::Dashboard) == Action::ForceRefresh
            &&& (plain && e.key == KeyCode::Char('d')) ==> key_action(e, Mode::Process) == Action::SwitchDashboard
            &&& (plain && e.key == KeyCode::Char('p')) ==> key_action(e, Mode::Dashboard) == Action::SwitchProcess
            &&& (plain && e.key == KeyCode::Tab) ==> key_action(e, Mode::Dashboard) == Action::FocusNext
            &&& (only_shift && e.key == KeyCode::Tab) ==> key_action(e, Mode::Dashboard) == Action::FocusPrev
            &&& (e.key == KeyCode::Down || (plain && e.key == KeyCode::Char('j')))
                ==> key_action(e, Mode::Dashboard) == Action::Down
            &&& (e.key == KeyCode::Up || (plain && e.key == KeyCode::Char('k')))
                ==> key_action(e, Mode::Dashboard) == Action::Up
            &&& (e.key == KeyCode::Left || (plain && e.key == KeyCode::Char('h')))
                ==> key_action(e, Mode::Dashboard) == Action::FocusPrev
            &&& (e.key == KeyCode::Right || (plain && e.key == KeyCode::Char('l')))
                ==> key_action(e, Mode::Dashboard) == Action::FocusNext
            &&& e.key == KeyCode::Other ==> key_action(e, Mode::Dashboard) == Action::NoAction
                && key_action(e, Mode::Process) == Action::NoAction
                && key_action(e, Mode::Filter) == Action::NoAction
        },
{
}

/// Maps a key event to an action based on the current mode.
pub fn map_key(event: &KeyEvent, mode: Mode) -> (r: Action)
    ensures
        r == key_action(*event, mode),
{
    if !event.pressed {
        return Action::NoAction;
    }
    match mode {
        Mode::Filter => map_filter_key(event),
        Mode::Dashboard => map_dashboard_key(event),
        Mode::Process => map_process_key(event),
    }
}

fn map_dashboard_key(event: &KeyEvent) -> (r: Action)
    ensures
        r == dashboard_action(*event),
{
    if let Some(key) = to_awase_key(&event.key) {
        let mods = to_awase_modifiers(&event.modifiers);
        if mods.is_empty() {
            match key {
                HotkeyKey::Q => return Action::Quit,
                HotkeyKey::P => return Action::SwitchProcess,
                HotkeyKey::R => return Action::ForceRefresh,
                HotkeyKey::Escape => return Action::Quit,
                _ => {},
            }
        }
    }
    match event.key {
        KeyCode::Tab => if !event.modifiers.shift { Action::FocusNext } else { Action::FocusPrev },
        KeyCode::Char(c) => {
            if c == 'j' { Action::Down }
            else if c == 'k' { Action::Up }
            else if c == 'h' { Action::FocusPrev }
            else if c == 'l' { Action::FocusNext }
            else { Action::NoAction }
        },
        KeyCode::Down => Action::Down,
        KeyCode::Up => Action::Up,
        KeyCode::Left => Action::FocusPrev,
        KeyCode::Right => Action::FocusNext,
        _ => Action::NoAction,
    }
}

fn map_process_key(event: &KeyEvent) -> (r: Action)
    ensures
        r == process_action(*event),
{
    if let Some(key) = to_awase_key(&event.key) {
        let mods = to_awase_modifiers(&event.modifiers);
        if mods.is_empty() {
            match key {
                HotkeyKey::Q => return Action::Quit,
                HotkeyKey::Escape => return Action::Back,
                HotkeyKey::Slash => return Action::EnterFilter,
                _ => {},
            }
        }
    }
    let shift = event.modifiers.shift;
    let any = event.modifiers.any();
    match event.key {
        KeyCode::Char(c) => {
            if c == 'j' { Action::Down }
            else if c == 'k' { Action::Up }
            else if c == 'g' && !shift { Action::First }
            else if (c == 'G' || c == 'g') && shift { Action::Last }
            else if c == 's' && !shift { Action::CycleSort }
            else if (c == 'S' || c == 's') && shift { Action::ToggleSortDirection }
            else if c == 'r' && !any { Action::ForceRefresh }
            else if c == 'd' && !any { Action::SwitchDashboard }
            else { Action::NoAction }
        },
        KeyCode::Down => Action::Down,
        KeyCode::Up => Action::Up,
        KeyCode::PageDown => Action::PageDown,
        KeyCode::PageUp => Action::PageUp,
        KeyCode::Tab => Action::FocusNext,
        _ => Action::NoAction,
    }
}

fn map_filter_key(event: &KeyEvent) -> (r: Action)
    ensures
        r == filter_action(*event),
{
    match event.key {
        KeyCode::Escape => Action::Back,
        KeyCode::Enter => Action::Confirm,
        KeyCode::Backspace => Action::Backspace,
        KeyCode::Char(c) => Action::Char(c),
        _ => Action::NoAction,
    }
}

} // verus!
