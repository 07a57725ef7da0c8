//! Keyboard input of the SDL3 front end, as the egui layer sees it: which
//! SDL key codes are modifier keys, which become egui keys, and when a key
//! press asks for the clipboard to be pasted.
use vstd::prelude::*;

verus! {

// SDL3 key codes (`SDL_Keycode`): printable keys are their character,
// the others their scancode with bit 30 set.
pub const SDLK_BACKSPACE: u32 = 0x08;
pub const SDLK_TAB: u32 = 0x09;
pub const SDLK_RETURN: u32 = 0x0d;
pub const SDLK_ESCAPE: u32 = 0x1b;
pub const SDLK_A: u32 = 0x61;
pub const SDLK_C: u32 = 0x63;
pub const SDLK_V: u32 = 0x76;
pub const SDLK_X: u32 = 0x78;
pub const SDLK_Z: u32 = 0x7a;
pub const SDLK_DELETE: u32 = 0x7f;
pub const SDLK_HOME: u32 = 0x4000_004a;
pub const SDLK_PAGEUP: u32 = 0x4000_004b;
pub const SDLK_END: u32 = 0x4000_004d;
pub const SDLK_PAGEDOWN: u32 = 0x4000_004e;
pub const SDLK_RIGHT: u32 = 0x4000_004f;
pub const SDLK_LEFT: u32 = 0x4000_0050;
pub const SDLK_DOWN: u32 = 0x4000_0051;
pub const SDLK_UP: u32 = 0x4000_0052;
pub const SDLK_LCTRL: u32 = 0x4000_00e0;
pub const SDLK_LSHIFT: u32 = 0x4000_00e1;
pub const SDLK_LALT: u32 = 0x4000_00e2;
pub const SDLK_LGUI: u32 = 0x4000_00e3;
pub const SDLK_RCTRL: u32 = 0x4000_00e4;
pub const SDLK_RSHIFT: u32 = 0x4000_00e5;
pub const SDLK_RALT: u32 = 0x4000_00e6;
pub const SDLK_RGUI: u32 = 0x4000_00e7;

/// The modifier state that egui is given (`egui::Modifiers`).
#[derive(Debug, Clone, Copy, PartialEq, Eq, Structural)]
pub struct Modifiers {
    pub alt: bool,
    pub ctrl: bool,
    pub shift: bool,
    pub mac_cmd: bool,
    pub command: bool,
}

impl Default for Modifiers {
    fn default() -> (r: Self)
        ensures
            r == (Modifiers { alt: false, ctrl: false, shift: false, mac_cmd: false, command: false }),
    {
        Modifiers { alt: false, ctrl: false, shift: false, mac_cmd: false, command: false }
    }
}

/// The egui keys that the front end forwards (`egui::Key`).
#[derive(Debug, Clone, Copy, PartialEq, Eq, Structural)]
pub enum UiKey {
    Backspace,
    Delete,
    Enter,
    Tab,
    ArrowLeft,
    ArrowRight,
    ArrowUp,
    ArrowDown,
    Home,
    End,
    PageUp,
    PageDown,
    Escape,
    A,
    C,
    V,
    X,
    Z,
}

/// The modifiers after `key` went down (`pressed`) or up: Ctrl sets `ctrl`
/// and `command`, the GUI key `mac_cmd` and `command`, Shift and Alt their
/// own flag; any other key changes nothing.
pub open spec fn modifiers_after(m: Modifiers, key: u32, pressed: bool) -> Modifiers {
    if key == SDLK_LCTRL || key == SDLK_RCTRL {
        Modifiers { ctrl: pressed, command: pressed, ..m }
    } else if key == SDLK_LSHIFT || key == SDLK_RSHIFT {
        Modifiers { shift: pressed, ..m }
    } else if key == SDLK_LALT || key == SDLK_RALT {
        Modifiers { alt: pressed, ..m }
    } else if key == SDLK_LGUI || key == SDLK_RGUI {
        Modifiers { mac_cmd: pressed, command: pressed, ..m }
    } else {
        m
    }
}

/// Updates the modifier state for a key going down or up.
pub fn update_modifiers_from_key(mods: &mut Modifiers, key: u32, pressed: bool)
    ensures
        *final(mods) == modifiers_after(*old(mods), key, pressed),
{
    if key == SDLK_LCTRL || key == SDLK_RCTRL {
        mods.ctrl = pressed;
        mods.command = pressed;
    } else if key == SDLK_LSHIFT || key == SDLK_RSHIFT {
        mods.shift = pressed;
    } else if key == SDLK_LALT || key == SDLK_RALT {
        mods.alt = pressed;
    } else if key == SDLK_LGUI || key == SDLK_RGUI {
        mods.mac_cmd = pressed;
        mods.command = pressed;
    }
}

/// The egui key of an SDL key code, for the keys the front end forwards.
pub open spec fn egui_key_of(key: u32) -> Option<UiKey> {
    if key == SDLK_BACKSPACE { Some(UiKey::Backspace) }
    else if key == SDLK_DELETE { Some(UiKey::Delete) }
    else if key == SDLK_RETURN { Some(UiKey::Enter) }
    else if key == SDLK_TAB { Some(UiKey::Tab) }
    else if key == SDLK_LEFT { Some(UiKey::ArrowLeft) }
    else if key == SDLK_RIGHT { Some(UiKey::ArrowRight) }
    else if key == SDLK_UP { Some(UiKey::ArrowUp) }
    else if key == SDLK_DOWN { Some(UiKey::ArrowDown) }
    else if key == SDLK_HOME { Some(UiKey::Home) }
    else if key == SDLK_END { Some(UiKey::End) }
    else if key == SDLK_PAGEUP { Some(UiKey::PageUp) }
    else if key == SDLK_PAGEDOWN { Some(UiKey::PageDown) }
    else if key == SDLK_ESCAPE { Some(UiKey::Escape) }
    else if key == SDLK_A { Some(UiKey::A) }
    else if key == SDLK_C { Some(UiKey::C) }
    else if key == SDLK_V { Some(UiKey::V) }
    else if key == SDLK_X { Some(UiKey::X) }
    else if key == SDLK_Z { Some(UiKey::Z) }
    else { None }
}

/// Converts an SDL3 key code to the egui key it stands for.
pub fn sdl_key_to_egui(key: u32) -> (r: Option<UiKey>)
    ensures
        r == egui_key_of(key),
{
    if key == SDLK_BACKSPACE { Some(UiKey::Backspace) }
    else if key == SDLK_DELETE { Some(UiKey::Delete) }
    else if key == SDLK_RETURN { Some(UiKey::Enter) }
    else if key == SDLK_TAB { Some(UiKey::Tab) }
    else if key == SDLK_LEFT { Some(UiKey::ArrowLeft) }
    else if key == SDLK_RIGHT { Some(UiKey::ArrowRight) }
    else if key == SDLK_UP { Some(UiKey::ArrowUp) }
    else if key == SDLK_DOWN { Some(UiKey::ArrowDown) }
    else if key == SDLK_HOME { Some(UiKey::Home) }
    else if key == SDLK_END { Some(UiKey::End) }
    else if key == SDLK_PAGEUP { Some(UiKey::PageUp) }
    else if key == SDLK_PAGEDOWN { Some(UiKey::PageDown) }
    else if key == SDLK_ESCAPE { Some(UiKey::Escape) }
    else if key == SDLK_A { Some(UiKey::A) }
    else if key == SDLK_C { Some(UiKey::C) }
    else if key == SDLK_V { Some(UiKey::V) }
    else if key == SDLK_X { Some(UiKey::X) }
    else if key == SDLK_Z { Some(UiKey::Z) }
    else { None }
}

/// What a key event gives egui: whether to read the clipboard and paste it
/// (a `V` pressed with Ctrl or Command held), and the key event, if the key
/// is one that is forwarded, with the modifiers after the event.
#[derive(Debug, Clone, Copy, PartialEq, Eq, Structural)]
pub struct KeyOutcome {
    pub paste: bool,
    pub key: Option<UiKey>,
    pub modifiers: Modifiers,
}

/// The handling of an SDL key-down (`pressed`) or key-up event.
pub fn handle_key_event(mods: &mut Modifiers, key: u32, pressed: bool) -> (r: KeyOutcome)
    ensures
        *final(mods) == modifiers_after(*old(mods), key, pressed),
        r.modifiers == *final(mods),
        r.paste == (pressed && (final(mods).ctrl || final(mods).command) && key == SDLK_V),
        r.key == egui_key_of(key),
{
    update_modifiers_from_key(mods, key, pressed);
    let paste = pressed && (mods.ctrl || mods.command) && key == SDLK_V;
    KeyOutcome { paste, key: sdl_key_to_egui(key), modifiers: *mods }
}

/// A key that is not a modifier key leaves the modifier state as it was,
/// whether it goes down or up.
pub proof fn law_plain_keys_keep_modifiers(m: Modifiers, key: u32, pressed: bool)
    requires
        egui_key_of(key) is Some,
    ensures
        modifiers_after(m, key, pressed) == m,
{
}

/// Pressing and then releasing the same modifier key clears the flags that
/// it sets, and leaves the others as they were.
pub proof fn law_release_clears(m: Modifiers, key: u32)
    ensures
        ({
            let after = modifiers_after(modifiers_after(m, key, true), key, false);
            &&& (key == SDLK_LCTRL || key == SDLK_RCTRL) ==> after == Modifiers { ctrl: false, command: false, ..m }
            &&& (key == SDLK_LSHIFT || key == SDLK_RSHIFT) ==> after == Modifiers { shift: false, ..m }
            &&& (key == SDLK_LALT || key == SDLK_RALT) ==> after == Modifiers { alt: false, ..m }
            &&& (key == SDLK_LGUI || key == SDLK_RGUI) ==> after == Modifiers { mac_cmd: false, command: false, ..m }
        }),
{
}

} // verus!
