use quote_replacer::display::{can_display, display_from, mapping_label};
use quote_replacer::editor::{QuoteReplacer, Tab, UiEffect, UiEvent};
use quote_replacer::hook::{key_to_char, keyboard_action, HookAction, KeyEvent};
use quote_replacer::mapping::{AppSettings, MappingEntry};

fn editor() -> QuoteReplacer {
    QuoteReplacer::new(AppSettings::default_with_defaults())
}

#[test]
fn new_editor_starts_on_replace_tab_with_hook_off() {
    let e = editor();
    assert_eq!(e.current_tab(), Tab::Replace);
    assert!(!e.hook_enabled);
    assert_eq!(e.input_text, "");
    assert_eq!(e.output_text, "");
    assert_eq!(e.settings.mappings.len(), 23);
}

#[test]
fn tabs_follow_the_index() {
    let mut e = editor();
    assert!(matches!(e.handle_event(UiEvent::SelectTab(1)), UiEffect::Nothing));
    assert_eq!(e.current_tab(), Tab::Config);
    e.handle_event(UiEvent::SelectTab(7));
    assert_eq!(e.current_tab(), Tab::Blank);
    e.handle_event(UiEvent::SelectTab(0));
    assert_eq!(e.current_tab(), Tab::Replace);
}

#[test]
fn toggle_hook_flips_and_reports() {
    let mut e = editor();
    assert!(e.toggle_hook());
    assert!(e.hook_enabled);
    match e.handle_event(UiEvent::ToggleHook) {
        UiEffect::SetHookFlag(on) => assert!(!on),
        other => panic!("unexpected {:?}", other),
    }
    assert!(!e.hook_enabled);
}

#[test]
fn replace_all_fills_output() {
    let mut e = editor();
    e.input_text = "“引号”。".to_string();
    e.handle_event(UiEvent::ReplaceAll);
    assert_eq!(e.output_text, "\"引号\".");
    assert_eq!(e.input_text, "“引号”。");
    match e.handle_event(UiEvent::CopyResult) {
        UiEffect::CopyToClipboard(t) => assert_eq!(t, "\"引号\"."),
        other => panic!("unexpected {:?}", other),
    }
    e.handle_event(UiEvent::ClearInput);
    assert_eq!(e.input_text, "");
    assert_eq!(e.output_text, "\"引号\".");
}

#[test]
fn add_mapping_appends_and_clears_fields() {
    let mut e = editor();
    e.new_from = "【".to_string();
    e.new_to = "[".to_string();
    assert!(matches!(e.handle_event(UiEvent::AddMapping), UiEffect::SaveSettings));
    assert_eq!(e.settings.mappings.len(), 24);
    assert_eq!(e.settings.mappings[23].from, "【");
    assert_eq!(e.settings.mappings[23].to, "[");
    assert_eq!(e.new_from, "");
    assert_eq!(e.new_to, "");
    e.input_text = "【注】".to_string();
    e.do_replace();
    assert_eq!(e.output_text, "[注】");
}

#[test]
fn add_mapping_with_empty_source_does_nothing() {
    let mut e = editor();
    e.new_to = "x".to_string();
    assert!(!e.add_mapping());
    assert!(matches!(e.handle_event(UiEvent::AddMapping), UiEffect::Nothing));
    assert_eq!(e.settings.mappings.len(), 23);
    assert_eq!(e.new_to, "x");
}

#[test]
fn delete_then_add_and_undo() {
    let mut e = editor();
    assert!(matches!(e.handle_event(UiEvent::DeleteMapping(0)), UiEffect::SaveSettings));
    assert_eq!(e.settings.mappings.len(), 22);
    assert_eq!(e.settings.mappings[0].from, "\u{201D}");
    assert!(matches!(e.handle_event(UiEvent::DeleteMapping(22)), UiEffect::Nothing));
    assert_eq!(e.settings.mappings.len(), 22);
    e.new_from = "a".to_string();
    e.new_to = "b".to_string();
    assert!(e.add_mapping());
    assert!(e.delete_mapping(22));
    assert_eq!(e.settings.mappings.len(), 22);
    assert_eq!(e.settings.mappings[21].from, "·");
}

#[test]
fn reset_restores_defaults() {
    let mut e = QuoteReplacer::new(AppSettings::new(vec![MappingEntry::new("a", "b")]));
    e.input_text = "keep".to_string();
    assert!(matches!(e.handle_event(UiEvent::ResetToDefaults), UiEffect::SaveSettings));
    assert_eq!(e.settings.mappings.len(), 23);
    assert_eq!(e.input_text, "keep");
}

fn down(vk_code: u32) -> KeyEvent {
    KeyEvent { code: 0, key_down: true, alt_down: true, vk_code }
}

#[test]
fn hooked_keys_and_their_chars() {
    let expected = [
        (0xBC, ','),
        (0xBE, '.'),
        (0xBF, '/'),
        (0xBA, ';'),
        (0xBD, '-'),
        (0xBB, '='),
        (0xDC, '\\'),
        (0xC0, '`'),
        (0xDE, '\''),
    ];
    for (vk, c) in expected {
        assert_eq!(key_to_char(vk), Some(c));
        assert_eq!(keyboard_action(true, true, &down(vk)), HookAction::Type(c));
    }
    assert_eq!(key_to_char(0x41), None);
    assert_eq!(keyboard_action(true, true, &down(0x41)), HookAction::PassOn);
}

#[test]
fn hook_passes_on_when_it_must_not_act() {
    assert_eq!(keyboard_action(false, true, &down(0xBC)), HookAction::PassOn);
    assert_eq!(keyboard_action(true, false, &down(0xBC)), HookAction::PassOn);
    let mut ev = down(0xBC);
    ev.code = -1;
    assert_eq!(keyboard_action(true, true, &ev), HookAction::PassOn);
    let mut ev = down(0xBC);
    ev.key_down = false;
    assert_eq!(keyboard_action(true, true, &ev), HookAction::PassOn);
    let mut ev = down(0xBC);
    ev.alt_down = false;
    assert_eq!(keyboard_action(true, true, &ev), HookAction::PassOn);
}

#[test]
fn short_sources_are_shown_whole() {
    assert!(can_display("“"));
    assert_eq!(display_from("“"), "“");
    let twenty = "abcdefghijklmnopqrst";
    assert_eq!(display_from(twenty), twenty);
}

#[test]
fn long_sources_are_cut_at_twenty_bytes() {
    let long = "abcdefghijklmnopqrstuvwxyz";
    assert!(can_display(long));
    assert_eq!(display_from(long), "abcdefghijklmnopqrst...");
    let mixed = "ab一二三四五六c";
    assert_eq!(mixed.len(), 21);
    assert!(can_display(mixed));
    assert_eq!(display_from(mixed), "ab一二三四五六...");
}

#[test]
fn sources_cut_inside_a_char_cannot_be_shown() {
    let cjk = "一二三四五六七";
    assert_eq!(cjk.len(), 21);
    assert!(!can_display(cjk));
}

#[test]
fn label_shows_source_and_target() {
    let e = MappingEntry::new("（", "(");
    assert_eq!(mapping_label(&e), "\"（\" → \"(\"");
    let e = MappingEntry::new("abcdefghijklmnopqrstuvwxyz", "z");
    assert_eq!(mapping_label(&e), "\"abcdefghijklmnopqrst...\" → \"z\"");
}

#[test]
fn window_events_keep_one_of_the_two_tabs() {
    let mut e = editor();
    let events = [
        UiEvent::SelectTab(1),
        UiEvent::ToggleHook,
        UiEvent::AddMapping,
        UiEvent::SelectTab(0),
        UiEvent::ReplaceAll,
        UiEvent::DeleteMapping(3),
        UiEvent::SelectTab(1),
        UiEvent::ResetToDefaults,
        UiEvent::CopyResult,
        UiEvent::ClearInput,
    ];
    for ev in events {
        e.handle_event(ev);
        assert!(e.active_tab == 0 || e.active_tab == 1);
        assert_ne!(e.current_tab(), Tab::Blank);
    }
}
