//! Input events, normalised from whatever the platform delivers.
use vstd::prelude::*;

verus! {

#[derive(Clone, Copy, Debug)]
pub struct Modifiers {
    pub ctrl: bool,
    pub shift: bool,
    pub alt: bool,
    pub meta: bool,
}

impl Default for Modifiers {
    fn default() -> (m: Self)
        ensures
            !m.ctrl && !m.shift && !m.alt && !m.meta,
    {
        Modifiers { ctrl: false, shift: false, alt: false, meta: false }
    }
}

#[derive(Clone, Copy, Debug, PartialEq, Eq, Structural)]
pub enum MouseButton {
    Left,
    Middle,
    Right,
    Other(u8),
}

#[derive(Debug)]
pub enum PlatformEvent {
    Quit,
    Tick,
    KeyDown { key: BrowserKey, modifiers: Modifiers },
    TextInput(String),
    MouseMove { x: i32, y: i32 },
    MouseDown { x: i32, y: i32, button: MouseButton },
    MouseUp { x: i32, y: i32, button: MouseButton },
    /// Vertical scroll wheel delta: positive = scroll up (toward page top).
    Scroll { delta: i32 },
    WindowResized { width: u32, height: u32 },
}

#[derive(Clone, Copy, Debug, PartialEq, Eq, Structural)]
pub enum BrowserKey {
    Escape,
    Enter,
    Backspace,
    Left,
    Right,
    Up,
    Down,
    PageUp,
    PageDown,
    ZoomIn,
    ZoomOut,
    ZoomReset,
    Char(char),
}

/// The button a platform's button number names: 1 left, 2 middle, 3 right.
pub open spec fn spec_mouse_button(button: u8) -> MouseButton {
    if button == 1 {
        MouseButton::Left
    } else if button == 2 {
        MouseButton::Middle
    } else if button == 3 {
        MouseButton::Right
    } else {
        MouseButton::Other(button)
    }
}

pub fn map_mouse_button(button: u8) -> (b: MouseButton)
    ensures
        b == spec_mouse_button(button),
{
    match button {
        1 => MouseButton::Left,
        2 => MouseButton::Middle,
        3 => MouseButton::Right,
        other => MouseButton::Other(other),
    }
}


// ── Recognising window-system events ─────────────────────────────────────────

/// The keyboard keys the shell reacts to, by their physical position.
#[derive(Clone, Copy, Debug, PartialEq, Eq, Structural)]
pub enum ScanKey {
    Escape,
    Return,
    KpEnter,
    Backspace,
    Left,
    Right,
    Up,
    Down,
    PageUp,
    PageDown,
    T,
    W,
    R,
    S,
    P,
    H,
    B,
    F,
    I,
    L,
    N,
    Equals,
    KpPlus,
    Minus,
    KpMinus,
    Num0,
    /// Any other key.
    Other,
}

/// Which modifier keys are held, left and right apart.
#[derive(Clone, Copy, Debug, Default)]
pub struct KeyboardState {
    pub lctrl: bool,
    pub rctrl: bool,
    pub lshift: bool,
    pub rshift: bool,
    pub lalt: bool,
    pub ralt: bool,
    pub lgui: bool,
    pub rgui: bool,
}

/// A window-system event as plain values.
#[derive(Debug)]
pub enum RawEvent {
    Quit,
    /// A key press; `None` when the key has no known position.
    KeyDown(Option<ScanKey>),
    TextInput(String),
    MouseMotion { x: i32, y: i32 },
    MouseButtonDown { x: i32, y: i32, button: u8 },
    MouseButtonUp { x: i32, y: i32, button: u8 },
    MouseWheel { y: i32 },
    Resized { width: i32, height: i32 },
    /// Focus changes, exposures and the like.
    Other,
}

pub open spec fn spec_modifiers(ks: KeyboardState) -> Modifiers {
    Modifiers {
        ctrl: ks.lctrl || ks.rctrl,
        shift: ks.lshift || ks.rshift,
        alt: ks.lalt || ks.ralt,
        meta: ks.lgui || ks.rgui,
    }
}

/// The modifiers held: either key of each pair counts.
pub fn modifiers_from(ks: KeyboardState) -> (m: Modifiers)
    ensures
        m == spec_modifiers(ks),
{
    Modifiers {
        ctrl: ks.lctrl || ks.rctrl,
        shift: ks.lshift || ks.rshift,
        alt: ks.lalt || ks.ralt,
        meta: ks.lgui || ks.rgui,
    }
}

/// The browser key a key press stands for: editing and navigation keys
/// always, letter shortcuts and zoom only with Ctrl (Ctrl+Shift for `s`).
pub open spec fn spec_browser_key(sc: ScanKey, m: Modifiers) -> Option<BrowserKey> {
    match sc {
        ScanKey::Escape => Some(BrowserKey::Escape),
        ScanKey::Return | ScanKey::KpEnter => Some(BrowserKey::Enter),
        ScanKey::Backspace => Some(BrowserKey::Backspace),
        ScanKey::Left => Some(BrowserKey::Left),
        ScanKey::Right => Some(BrowserKey::Right),
        ScanKey::Up => Some(BrowserKey::Up),
        ScanKey::Down => Some(BrowserKey::Down),
        ScanKey::PageUp => Some(BrowserKey::PageUp),
        ScanKey::PageDown => Some(BrowserKey::PageDown),
        ScanKey::T => if m.ctrl { Some(BrowserKey::Char('t')) } else { None },
        ScanKey::W => if m.ctrl { Some(BrowserKey::Char('w')) } else { None },
        ScanKey::R => if m.ctrl { Some(BrowserKey::Char('r')) } else { None },
        ScanKey::S => if m.ctrl && m.shift { Some(BrowserKey::Char('s')) } else { None },
        ScanKey::P => if m.ctrl { Some(BrowserKey::Char('p')) } else { None },
        ScanKey::H => if m.ctrl { Some(BrowserKey::Char('h')) } else { None },
        ScanKey::B => if m.ctrl { Some(BrowserKey::Char('b')) } else { None },
        ScanKey::F => if m.ctrl { Some(BrowserKey::Char('f')) } else { None },
        ScanKey::I => if m.ctrl { Some(BrowserKey::Char('i')) } else { None },
        ScanKey::L => if m.ctrl { Some(BrowserKey::Char('l')) } else { None },
        ScanKey::N => if m.ctrl { Some(BrowserKey::Char('n')) } else { None },
        ScanKey::Equals | ScanKey::KpPlus => if m.ctrl { Some(BrowserKey::ZoomIn) } else { None },
        ScanKey::Minus | ScanKey::KpMinus => if m.ctrl { Some(BrowserKey::ZoomOut) } else { None },
        ScanKey::Num0 => if m.ctrl { Some(BrowserKey::ZoomReset) } else { None },
        ScanKey::Other => None,
    }
}

pub fn browser_key(sc: ScanKey, m: Modifiers) -> (k: Option<BrowserKey>)
    ensures
        k == spec_browser_key(sc, m),
{
    match sc {
        ScanKey::Escape => Some(BrowserKey::Escape),
        ScanKey::Return | ScanKey::KpEnter => Some(BrowserKey::Enter),
        ScanKey::Backspace => Some(BrowserKey::Backspace),
        ScanKey::Left => Some(BrowserKey::Left),
        ScanKey::Right => Some(BrowserKey::Right),
        ScanKey::Up => Some(BrowserKey::Up),
        ScanKey::Down => Some(BrowserKey::Down),
        ScanKey::PageUp => Some(BrowserKey::PageUp),
        ScanKey::PageDown => Some(BrowserKey::PageDown),
        ScanKey::T => if m.ctrl { Some(BrowserKey::Char('t')) } else { None },
        ScanKey::W => if m.ctrl { Some(BrowserKey::Char('w')) } else { None },
        ScanKey::R => if m.ctrl { Some(BrowserKey::Char('r')) } else { None },
        ScanKey::S => if m.ctrl && m.shift { Some(BrowserKey::Char('s')) } else { None },
        ScanKey::P => if m.ctrl { Some(BrowserKey::Char('p')) } else { None },
        ScanKey::H => if m.ctrl { Some(BrowserKey::Char('h')) } else { None },
        ScanKey::B => if m.ctrl { Some(BrowserKey::Char('b')) } else { None },
        ScanKey::F => if m.ctrl { Some(BrowserKey::Char('f')) } else { None },
        ScanKey::I => if m.ctrl { Some(BrowserKey::Char('i')) } else { None },
        ScanKey::L => if m.ctrl { Some(BrowserKey::Char('l')) } else { None },
        ScanKey::N => if m.ctrl { Some(BrowserKey::Char('n')) } else { None },
        ScanKey::Equals | ScanKey::KpPlus => if m.ctrl { Some(BrowserKey::ZoomIn) } else { None },
        ScanKey::Minus | ScanKey::KpMinus => if m.ctrl { Some(BrowserKey::ZoomOut) } else { None },
        ScanKey::Num0 => if m.ctrl { Some(BrowserKey::ZoomReset) } else { None },
        ScanKey::Other => None,
    }
}

/// A side length as the window reports it, negative ones read as zero.
pub open spec fn clamp_side(v: i32) -> u32 {
    if v < 0 {
        0
    } else {
        v as u32
    }
}

/// The event the shell sees for a window-system event with modifiers `m`
/// held: key presses without a browser key, text typed while Ctrl is held,
/// and every other kind of event are not recognised.
pub open spec fn spec_recognise(raw: RawEvent, m: Modifiers) -> Option<PlatformEvent> {
    match raw {
        RawEvent::Quit => Some(PlatformEvent::Quit),
        RawEvent::KeyDown(Some(sc)) => match spec_browser_key(sc, m) {
            Some(key) => Some(PlatformEvent::KeyDown { key, modifiers: m }),
            None => None,
        },
        RawEvent::KeyDown(None) => None,
        RawEvent::TextInput(text) => if m.ctrl {
            None
        } else {
            Some(PlatformEvent::TextInput(text))
        },
        RawEvent::MouseMotion { x, y } => Some(PlatformEvent::MouseMove { x, y }),
        RawEvent::MouseButtonDown { x, y, button } => Some(
            PlatformEvent::MouseDown { x, y, button: spec_mouse_button(button) },
        ),
        RawEvent::MouseButtonUp { x, y, button } => Some(
            PlatformEvent::MouseUp { x, y, button: spec_mouse_button(button) },
        ),
        RawEvent::MouseWheel { y } => Some(PlatformEvent::Scroll { delta: y }),
        RawEvent::Resized { width, height } => Some(
            PlatformEvent::WindowResized { width: clamp_side(width), height: clamp_side(height) },
        ),
        RawEvent::Other => None,
    }
}

fn clamp_side_exec(v: i32) -> (r: u32)
    ensures
        r == clamp_side(v),
{
    if v < 0 {
        0
    } else {
        v as u32
    }
}

/// Turns a window-system event into the shell's event, if the shell reacts
/// to it.
pub fn recognise_event(raw: RawEvent, m: Modifiers) -> (r: Option<PlatformEvent>)
    ensures
        r == spec_recognise(raw, m),
{
    match raw {
        RawEvent::Quit => Some(PlatformEvent::Quit),
        RawEvent::KeyDown(Some(sc)) => match browser_key(sc, m) {
            Some(key) => Some(PlatformEvent::KeyDown { key, modifiers: m }),
            None => None,
        },
        RawEvent::KeyDown(None) => None,
        RawEvent::TextInput(text) => if m.ctrl {
            None
        } else {
            Some(PlatformEvent::TextInput(text))
        },
        RawEvent::MouseMotion { x, y } => Some(PlatformEvent::MouseMove { x, y }),
        RawEvent::MouseButtonDown { x, y, button } => Some(
            PlatformEvent::MouseDown { x, y, button: map_mouse_button(button) },
        ),
        RawEvent::MouseButtonUp { x, y, button } => Some(
            PlatformEvent::MouseUp { x, y, button: map_mouse_button(button) },
        ),
        RawEvent::MouseWheel { y } => Some(PlatformEvent::Scroll { delta: y }),
        RawEvent::Resized { width, height } => Some(
            PlatformEvent::WindowResized { width: clamp_side_exec(width), height: clamp_side_exec(height) },
        ),
        RawEvent::Other => None,
    }
}

} // verus!
