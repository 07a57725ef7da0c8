//! Tests of the keyboard handling of the SDL3 front end.
use rust_and_vulkan::input::{
    handle_key_event, sdl_key_to_egui, update_modifiers_from_key, Modifiers, UiKey, SDLK_LCTRL,
    SDLK_LGUI, SDLK_RSHIFT, SDLK_V,
};

#[test]
fn key_codes_map_to_egui_keys() {
    assert_eq!(sdl_key_to_egui(0x08), Some(UiKey::Backspace));
    assert_eq!(sdl_key_to_egui(0x0d), Some(UiKey::Enter));
    assert_eq!(sdl_key_to_egui(0x4000_0052), Some(UiKey::ArrowUp));
    assert_eq!(sdl_key_to_egui(0x7a), Some(UiKey::Z));
    assert_eq!(sdl_key_to_egui(0x62), None);
    assert_eq!(sdl_key_to_egui(SDLK_LCTRL), None);
}

#[test]
fn modifier_keys_update_the_state() {
    let mut m = Modifiers::default();
    update_modifiers_from_key(&mut m, SDLK_LCTRL, true);
    assert!(m.ctrl && m.command && !m.shift);
    update_modifiers_from_key(&mut m, SDLK_RSHIFT, true);
    assert!(m.shift);
    update_modifiers_from_key(&mut m, SDLK_LCTRL, false);
    assert!(!m.ctrl && !m.command && m.shift);
    update_modifiers_from_key(&mut m, SDLK_LGUI, true);
    assert!(m.mac_cmd && m.command);
    let before = m;
    update_modifiers_from_key(&mut m, 0x61, true);
    assert_eq!(m, before);
}

#[test]
fn ctrl_v_pastes() {
    let mut m = Modifiers::default();
    let out = handle_key_event(&mut m, SDLK_V, true);
    assert!(!out.paste);
    assert_eq!(out.key, Some(UiKey::V));
    handle_key_event(&mut m, SDLK_LCTRL, true);
    let out = handle_key_event(&mut m, SDLK_V, true);
    assert!(out.paste);
    assert!(out.modifiers.ctrl);
    let out = handle_key_event(&mut m, SDLK_V, false);
    assert!(!out.paste);
}
