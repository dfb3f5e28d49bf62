//! The state of the replacer window and what each user action does to it.
use vstd::prelude::*;

use crate::mapping::{default_table, table_of, AppSettings, MappingEntry, Pair};
use crate::text::replace_each;

verus! {

/// The window's state as plain values.
pub struct EditorView {
    pub mappings: Seq<Pair>,
    pub input: Seq<char>,
    pub output: Seq<char>,
    pub hook_enabled: bool,
    pub active_tab: usize,
    pub new_from: Seq<char>,
    pub new_to: Seq<char>,
}

/// The replacer window: the settings, the text being converted, the result,
/// whether the keyboard hook is on, the tab shown, and the mapping being typed in.
pub struct QuoteReplacer {
    pub settings: AppSettings,
    pub input_text: String,
    pub output_text: String,
    pub hook_enabled: bool,
    pub active_tab: usize,
    pub new_from: String,
    pub new_to: String,
}

impl View for QuoteReplacer {
    type V = EditorView;

    open spec fn view(&self) -> EditorView {
        EditorView {
            mappings: self.settings@,
            input: self.input_text@,
            output: self.output_text@,
            hook_enabled: self.hook_enabled,
            active_tab: self.active_tab,
            new_from: self.new_from@,
            new_to: self.new_to@,
        }
    }
}

/// The tab index of the conversion tab.
pub const REPLACE_TAB: usize = 0;

/// The tab index of the mapping configuration tab.
pub const CONFIG_TAB: usize = 1;

/// What the central panel shows.
#[derive(Clone, Copy, Debug, PartialEq, Eq, Structural)]
pub enum Tab {
    Replace,
    Config,
    Blank,
}

/// Something the user did in the window.
#[derive(Clone, Copy, Debug, PartialEq, Eq, Structural)]
pub enum UiEvent {
    /// A tab label or the "edit mappings" button was clicked.
    SelectTab(usize),
    /// The hook on/off button was clicked.
    ToggleHook,
    /// The "clear" button of the input was clicked.
    ClearInput,
    /// The "replace all" button was clicked.
    ReplaceAll,
    /// The "copy result" button was clicked.
    CopyResult,
    /// The "add" button of the new mapping was clicked.
    AddMapping,
    /// The "delete" button of the mapping at this position was clicked.
    DeleteMapping(usize),
    /// The "reset to defaults" button was clicked.
    ResetToDefaults,
}

/// What the caller must do outside after an event.
#[derive(Debug)]
pub enum UiEffect {
    Nothing,
    /// Publish the hook switch to the hook.
    SetHookFlag(bool),
    /// Write the settings out.
    SaveSettings,
    /// Put this text on the clipboard.
    CopyToClipboard(String),
}

/// The state after the "add" button: a non-empty source is added with its
/// target at the end and the two fields are emptied; an empty source
/// changes nothing.
pub open spec fn after_add(v: EditorView) -> EditorView {
    if v.new_from.len() > 0 {
        EditorView {
            mappings: v.mappings.push((v.new_from, v.new_to)),
            new_from: Seq::empty(),
            new_to: Seq::empty(),
            ..v
        }
    } else {
        v
    }
}

/// The state after deleting the mapping at `index`; an index past the end
/// changes nothing.
pub open spec fn after_delete(v: EditorView, index: int) -> EditorView {
    if 0 <= index < v.mappings.len() {
        EditorView { mappings: v.mappings.remove(index), ..v }
    } else {
        v
    }
}

/// The state after an event.
pub open spec fn after_event(v: EditorView, event: UiEvent) -> EditorView {
    match event {
        UiEvent::SelectTab(t) => EditorView { active_tab: t, ..v },
        UiEvent::ToggleHook => EditorView { hook_enabled: !v.hook_enabled, ..v },
        UiEvent::ClearInput => EditorView { input: Seq::empty(), ..v },
        UiEvent::ReplaceAll => EditorView {
            output: replace_each(v.input, table_of(v.mappings)),
            ..v
        },
        UiEvent::CopyResult => v,
        UiEvent::AddMapping => after_add(v),
        UiEvent::DeleteMapping(i) => after_delete(v, i as int),
        UiEvent::ResetToDefaults => EditorView { mappings: default_table(), ..v },
    }
}

/// An event the window sends: its tab buttons select only the conversion
/// tab or the configuration tab.
pub open spec fn window_event(event: UiEvent) -> bool {
    match event {
        UiEvent::SelectTab(t) => t == REPLACE_TAB || t == CONFIG_TAB,
        _ => true,
    }
}

/// What the central panel shows for a tab index.
pub open spec fn tab_of(active_tab: usize) -> Tab {
    if active_tab == REPLACE_TAB {
        Tab::Replace
    } else if active_tab == CONFIG_TAB {
        Tab::Config
    } else {
        Tab::Blank
    }
}

impl QuoteReplacer {
    /// A fresh window over the given settings: empty texts, hook off, the
    /// conversion tab shown.
    pub fn new(settings: AppSettings) -> (r: Self)
        ensures
            r@ == (EditorView {
                mappings: settings@,
                input: Seq::empty(),
                output: Seq::empty(),
                hook_enabled: false,
                active_tab: REPLACE_TAB,
                new_from: Seq::empty(),
                new_to: Seq::empty(),
            }),
    {
        QuoteReplacer {
            settings,
            input_text: String::new(),
            output_text: String::new(),
            hook_enabled: false,
            active_tab: REPLACE_TAB,
            new_from: String::new(),
            new_to: String::new(),
        }
    }

    /// What the central panel shows.
    pub fn current_tab(&self) -> (t: Tab)
        ensures
            t == tab_of(self.active_tab),
    {
        if self.active_tab == REPLACE_TAB {
            Tab::Replace
        } else if self.active_tab == CONFIG_TAB {
            Tab::Config
        } else {
            Tab::Blank
        }
    }

    /// Switches the keyboard hook and returns its new state.
    pub fn toggle_hook(&mut self) -> (on: bool)
        ensures
            on == !old(self).hook_enabled,
            final(self)@ == (EditorView { hook_enabled: on, ..old(self)@ }),
    {
        self.hook_enabled = !self.hook_enabled;
        self.hook_enabled
    }

    /// Converts the input with the lookup table of the mappings into the output.
    pub fn do_replace(&mut self)
        ensures
            final(self)@ == (EditorView {
                output: replace_each(old(self)@.input, table_of(old(self)@.mappings)),
                ..old(self)@
            }),
    {
        let result = self.settings.apply_to(self.input_text.as_str());
        self.output_text = result;
    }

    /// Adds the mapping being typed in (see `after_add`); returns whether
    /// the mappings changed, so that they are to be saved.
    pub fn add_mapping(&mut self) -> (changed: bool)
        ensures
            changed == (old(self).new_from@.len() > 0),
            final(self)@ == after_add(old(self)@),
    {
        if !self.new_from.as_str().is_empty() {
            let entry = MappingEntry { from: self.new_from.clone(), to: self.new_to.clone() };
            let ghost before = self.settings@;
            self.settings.mappings.push(entry);
            assert(self.settings@ =~= before.push((old(self).new_from@, old(self).new_to@)));
            self.new_from = String::new();
            self.new_to = String::new();
            true
        } else {
            false
        }
    }

    /// Deletes the mapping at `index` (see `after_delete`); returns whether
    /// the mappings changed, so that they are to be saved.
    pub fn delete_mapping(&mut self, index: usize) -> (changed: bool)
        ensures
            changed == (index < old(self).settings.mappings.len()),
            final(self)@ == after_delete(old(self)@, index as int),
    {
        if index < self.settings.mappings.len() {
            let ghost before = self.settings@;
            let _removed = self.settings.mappings.remove(index);
            assert(self.settings@ =~= before.remove(index as int));
            true
        } else {
            false
        }
    }

    /// Puts the built-in mappings back in place of the current ones.
    pub fn reset_to_defaults(&mut self)
        ensures
            final(self)@ == (EditorView { mappings: default_table(), ..old(self)@ }),
    {
        self.settings = AppSettings::default_with_defaults();
    }

    /// Applies one user action and says what is to be done outside.
    pub fn handle_event(&mut self, event: UiEvent) -> (effect: UiEffect)
        ensures
            final(self)@ == after_event(old(self)@, event),
            match event {
                UiEvent::ToggleHook => effect == UiEffect::SetHookFlag(!old(self).hook_enabled),
                UiEvent::CopyResult => effect matches UiEffect::CopyToClipboard(t) && t@ == old(
                    self,
                )@.output,
                UiEvent::AddMapping => if old(self).new_from@.len() > 0 {
                    effect is SaveSettings
                } else {
                    effect is Nothing
                },
                UiEvent::DeleteMapping(i) => if i < old(self).settings.mappings.len() {
                    effect is SaveSettings
                } else {
                    effect is Nothing
                },
                UiEvent::ResetToDefaults => effect is SaveSettings,
                _ => effect is Nothing,
            },
    {
        match event {
            UiEvent::SelectTab(t) => {
                self.active_tab = t;
                UiEffect::Nothing
            },
            UiEvent::ToggleHook => {
                let on = self.toggle_hook();
                UiEffect::SetHookFlag(on)
            },
            UiEvent::ClearInput => {
                self.input_text = String::new();
                UiEffect::Nothing
            },
            UiEvent::ReplaceAll => {
                self.do_replace();
                UiEffect::Nothing
            },
            UiEvent::CopyResult => UiEffect::CopyToClipboard(self.output_text.clone()),
            UiEvent::AddMapping => {
                if self.add_mapping() {
                    UiEffect::SaveSettings
                } else {
                    UiEffect::Nothing
                }
            },
            UiEvent::DeleteMapping(i) => {
                if self.delete_mapping(i) {
                    UiEffect::SaveSettings
                } else {
                    UiEffect::Nothing
                }
            },
            UiEvent::ResetToDefaults => {
                self.reset_to_defaults();
                UiEffect::SaveSettings
            },
        }
    }
}

/// Adding a mapping and then deleting the last one gives back the
/// mappings there were before.
pub proof fn law_delete_undoes_add(v: EditorView)
    requires
        v.new_from.len() > 0,
    ensures
        after_delete(after_add(v), v.mappings.len() as int).mappings == v.mappings,
{
    assert(v.mappings.push((v.new_from, v.new_to)).remove(v.mappings.len() as int) =~= v.mappings);
}

/// Adding a mapping keeps every mapping there was, in place, and puts the
/// new one last.
pub proof fn law_add_appends(v: EditorView)
    requires
        v.new_from.len() > 0,
    ensures
        after_add(v).mappings.len() == v.mappings.len() + 1,
        after_add(v).mappings.take(v.mappings.len() as int) == v.mappings,
        after_add(v).mappings.last() == (v.new_from, v.new_to),
{
    assert(v.mappings.push((v.new_from, v.new_to)).take(v.mappings.len() as int) =~= v.mappings);
}

/// A fresh window shows the conversion tab, and the events the window sends
/// keep one of its two tabs shown: the tab index stays 0 or 1 and the panel
/// is never blank.
pub proof fn law_window_events_keep_a_tab_shown(v: EditorView, event: UiEvent)
    requires
        v.active_tab == REPLACE_TAB || v.active_tab == CONFIG_TAB,
        window_event(event),
    ensures
        after_event(v, event).active_tab == REPLACE_TAB || after_event(v, event).active_tab
            == CONFIG_TAB,
        tab_of(after_event(v, event).active_tab) != Tab::Blank,
{
}

/// Deleting a position in range removes exactly that mapping: one fewer,
/// those before it in place, those after it moved up by one, and nothing
/// else of the window changed. A position past the end changes nothing.
pub proof fn law_delete_removes_exactly_one(v: EditorView, index: int)
    ensures
        0 <= index < v.mappings.len() ==> {
            let w = after_delete(v, index);
            &&& w.mappings.len() == v.mappings.len() - 1
            &&& forall|j: int| 0 <= j < index ==> #[trigger] w.mappings[j] == v.mappings[j]
            &&& forall|j: int|
                index <= j < w.mappings.len() ==> #[trigger] w.mappings[j] == v.mappings[j + 1]
            &&& w.input == v.input && w.output == v.output && w.hook_enabled == v.hook_enabled
            &&& w.active_tab == v.active_tab && w.new_from == v.new_from && w.new_to == v.new_to
        },
        !(0 <= index < v.mappings.len()) ==> after_delete(v, index) == v,
{
}

/// Selecting a tab shows that tab, whichever was shown before; selecting
/// it again changes nothing, and nothing but the tab changes.
pub proof fn law_select_tab_shows_it(v: EditorView, w: EditorView, t: usize)
    ensures
        after_event(v, UiEvent::SelectTab(t)).active_tab == t,
        after_event(v, UiEvent::SelectTab(t)).active_tab == after_event(
            w,
            UiEvent::SelectTab(t),
        ).active_tab,
        after_event(after_event(v, UiEvent::SelectTab(t)), UiEvent::SelectTab(t)) == after_event(
            v,
            UiEvent::SelectTab(t),
        ),
        after_event(v, UiEvent::SelectTab(t)).mappings == v.mappings,
        after_event(v, UiEvent::SelectTab(t)).input == v.input,
        after_event(v, UiEvent::SelectTab(t)).output == v.output,
        after_event(v, UiEvent::SelectTab(t)).hook_enabled == v.hook_enabled,
        after_event(v, UiEvent::SelectTab(t)).new_from == v.new_from,
        after_event(v, UiEvent::SelectTab(t)).new_to == v.new_to,
{
}

} // verus!
