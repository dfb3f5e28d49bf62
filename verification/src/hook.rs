//! What the keyboard hook does with a key event.
use vstd::prelude::*;

verus! {

/// A key event as the low-level keyboard hook sees it.
#[derive(Clone, Copy, Debug)]
pub struct KeyEvent {
    /// The hook code; a negative code must be passed on untouched.
    pub code: i32,
    /// The key went down (not up).
    pub key_down: bool,
    /// Alt was held while the key went down.
    pub alt_down: bool,
    /// The virtual-key code of the key.
    pub vk_code: u32,
}

/// What the hook does with an event.
#[derive(Clone, Copy, Debug, PartialEq, Eq, Structural)]
pub enum HookAction {
    /// Swallow the key and type this character instead.
    Type(char),
    /// Hand the event on to the next hook.
    PassOn,
}

/// The hooked keys, by virtual-key code, and the character each one types:
/// the OEM punctuation keys `,` `.` `/` `;` `-` `=` `\` `` ` `` and `'`.
pub open spec fn hooked_keys() -> Map<u32, char> {
    map![
        0xBCu32 => ',',
        0xBEu32 => '.',
        0xBFu32 => '/',
        0xBAu32 => ';',
        0xBDu32 => '-',
        0xBBu32 => '=',
        0xDCu32 => '\\',
        0xC0u32 => '`',
        0xDEu32 => '\'',
    ]
}

/// The character typed for a key, if it is one of the hooked keys.
pub open spec fn key_char_spec(vk_code: u32) -> Option<char> {
    if hooked_keys().contains_key(vk_code) {
        Some(hooked_keys()[vk_code])
    } else {
        None
    }
}

/// The hook types a key's character when it is switched on, the event is
/// one it may act on, the key goes down with Alt held, the key is one of
/// the hooked keys, and a way to type is at hand; otherwise the event is
/// passed on.
pub open spec fn hook_action(hook_enabled: bool, typer_ready: bool, event: KeyEvent) -> HookAction {
    if hook_enabled && event.code >= 0 && event.key_down && event.alt_down && typer_ready {
        match key_char_spec(event.vk_code) {
            Some(c) => HookAction::Type(c),
            None => HookAction::PassOn,
        }
    } else {
        HookAction::PassOn
    }
}

/// The character typed for a hooked key (see `key_char_spec`).
pub fn key_to_char(vk_code: u32) -> (c: Option<char>)
    ensures
        c == key_char_spec(vk_code),
{
    if vk_code == 0xBC {
        Some(',')
    } else if vk_code == 0xBE {
        Some('.')
    } else if vk_code == 0xBF {
        Some('/')
    } else if vk_code == 0xBA {
        Some(';')
    } else if vk_code == 0xBD {
        Some('-')
    } else if vk_code == 0xBB {
        Some('=')
    } else if vk_code == 0xDC {
        Some('\\')
    } else if vk_code == 0xC0 {
        Some('`')
    } else if vk_code == 0xDE {
        Some('\'')
    } else {
        None
    }
}

/// What the hook does with `event` (see `hook_action`).
pub fn keyboard_action(hook_enabled: bool, typer_ready: bool, event: &KeyEvent) -> (a: HookAction)
    ensures
        a == hook_action(hook_enabled, typer_ready, *event),
{
    if hook_enabled && event.code >= 0 && event.key_down && event.alt_down && typer_ready {
        match key_to_char(event.vk_code) {
            Some(c) => HookAction::Type(c),
            None => HookAction::PassOn,
        }
    } else {
        HookAction::PassOn
    }
}

/// While the hook is switched off, every key event is passed on.
pub proof fn law_disabled_hook_passes_every_key(typer_ready: bool, event: KeyEvent)
    ensures
        hook_action(false, typer_ready, event) == HookAction::PassOn,
{
}

/// The hook only ever types the character of the key that was pressed,
/// and only for the hooked keys.
pub proof fn law_hook_types_the_key_own_char(hook_enabled: bool, typer_ready: bool, event: KeyEvent)
    ensures
        hook_action(hook_enabled, typer_ready, event) matches HookAction::Type(c) ==> key_char_spec(
            event.vk_code,
        ) == Some(c),
        key_char_spec(event.vk_code) is None ==> hook_action(hook_enabled, typer_ready, event)
            == HookAction::PassOn,
{
}

/// The hooked keys are exactly the nine punctuation keys: every other key
/// is passed on, whatever the state of the hook.
pub proof fn law_only_nine_keys_are_hooked(hook_enabled: bool, typer_ready: bool, event: KeyEvent)
    ensures
        hooked_keys().dom() == set![0xBCu32, 0xBEu32, 0xBFu32, 0xBAu32, 0xBDu32, 0xBBu32, 0xDCu32, 0xC0u32, 0xDEu32],
        !hooked_keys().dom().contains(event.vk_code) ==> hook_action(
            hook_enabled,
            typer_ready,
            event,
        ) == HookAction::PassOn,
{
    assert(hooked_keys().dom() =~= set![0xBCu32, 0xBEu32, 0xBFu32, 0xBAu32, 0xBDu32, 0xBBu32, 0xDCu32, 0xC0u32, 0xDEu32]);
}

/// No two hooked keys type the same character, and each types a printable
/// ASCII character.
pub proof fn law_hooked_keys_type_distinct_ascii(a: u32, b: u32)
    ensures
        key_char_spec(a) is Some && key_char_spec(b) is Some && a != b ==> key_char_spec(a)
            != key_char_spec(b),
        key_char_spec(a) matches Some(c) ==> 0x21 <= c as u32 <= 0x7e,
{
}

} // verus!
