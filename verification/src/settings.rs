//! The settings view: which options can be edited, how an edit is checked,
//! and what it changes in the configuration.

use crate::config::{
    AppConfig, ConfigView, MAX_QUERY_DELAY_MS, MAX_RESULT_LIMIT, MIN_RESULT_LIMIT,
};
use crate::text::{
    concat_str, decimal, decimal_of, opt_view, parse_u32, parsed_u32, str_eq, string_of, trim,
    trim_str,
};
use vstd::prelude::*;

verus! {

/// How an option is edited.
#[derive(Clone, Copy, Debug, PartialEq, Eq, Structural)]
pub enum SettingKind {
    /// Switched on and off.
    Toggle,
    /// A number between two bounds.
    Number { min: u32, max: u32 },
    /// A text that is not empty.
    Text,
}

/// The options of the settings view.
#[derive(Clone, Copy, Debug, PartialEq, Eq, Structural)]
pub enum SettingId {
    GlobalHotkey,
    QueryDelayMs,
    MaxResults,
    EnableAppResults,
    EnableBookmarkResults,
    ForceEnglishInput,
    DebugMode,
    LaunchOnStartup,
}

/// One line of the settings view.
#[derive(Clone, Copy, Debug)]
pub struct SettingItem {
    pub id: SettingId,
    pub label: &'static str,
    pub description: &'static str,
    pub kind: SettingKind,
}

/// Number of options in the settings view.
pub const SETTINGS_LEN: usize = 8;

/// The option shown at a position of the settings view.
pub open spec fn id_at(index: int) -> SettingId {
    if index == 0 {
        SettingId::GlobalHotkey
    } else if index == 1 {
        SettingId::QueryDelayMs
    } else if index == 2 {
        SettingId::MaxResults
    } else if index == 3 {
        SettingId::EnableAppResults
    } else if index == 4 {
        SettingId::EnableBookmarkResults
    } else if index == 5 {
        SettingId::ForceEnglishInput
    } else if index == 6 {
        SettingId::DebugMode
    } else {
        SettingId::LaunchOnStartup
    }
}

/// How an option is edited: the hotkey is a text, the query delay a number up
/// to `MAX_QUERY_DELAY_MS`, the result limit a number between its two limits,
/// and every other option a switch.
pub open spec fn kind_of(id: SettingId) -> SettingKind {
    match id {
        SettingId::GlobalHotkey => SettingKind::Text,
        SettingId::QueryDelayMs => SettingKind::Number { min: 0, max: MAX_QUERY_DELAY_MS },
        SettingId::MaxResults => SettingKind::Number {
            min: MIN_RESULT_LIMIT,
            max: MAX_RESULT_LIMIT,
        },
        _ => SettingKind::Toggle,
    }
}

/// How an option is edited.
pub fn setting_kind(id: SettingId) -> (r: SettingKind)
    ensures
        r == kind_of(id),
{
    match id {
        SettingId::GlobalHotkey => SettingKind::Text,
        SettingId::QueryDelayMs => SettingKind::Number { min: 0, max: MAX_QUERY_DELAY_MS },
        SettingId::MaxResults => SettingKind::Number {
            min: MIN_RESULT_LIMIT,
            max: MAX_RESULT_LIMIT,
        },
        _ => SettingKind::Toggle,
    }
}

/// The name under which the option at a position is listed.
pub open spec fn label_at(index: int) -> Seq<char> {
    if index == 0 {
        "Global Hotkey"@
    } else if index == 1 {
        "Query Delay (ms)"@
    } else if index == 2 {
        "Max Results"@
    } else if index == 3 {
        "App Results"@
    } else if index == 4 {
        "Bookmark Results"@
    } else if index == 5 {
        "Force English Input"@
    } else if index == 6 {
        "Debug Mode"@
    } else {
        "Launch on Startup"@
    }
}

/// What the details say of the option at a position.
pub open spec fn description_at(index: int) -> Seq<char> {
    if index == 0 {
        "Hotkey to toggle the launcher."@
    } else if index == 1 {
        "Delay before search triggers (ms)."@
    } else if index == 2 {
        "Maximum results returned per query."@
    } else if index == 3 {
        "Include installed applications in search."@
    } else if index == 4 {
        "Include browser bookmarks in search."@
    } else if index == 5 {
        "Try to switch IME to English when active."@
    } else if index == 6 {
        "Enable verbose logging."@
    } else {
        "Start egg automatically on login."@
    }
}

/// The line of the settings view at a position, if there is one.
pub fn setting_at(index: usize) -> (r: Option<SettingItem>)
    ensures
        r is Some <==> index < SETTINGS_LEN,
        r matches Some(item) ==> {
            &&& item.id == id_at(index as int)
            &&& item.kind == kind_of(item.id)
            &&& item.label@ == label_at(index as int)
            &&& item.description@ == description_at(index as int)
        },
{
    let (id, label, description) = if index == 0 {
        (SettingId::GlobalHotkey, "Global Hotkey", "Hotkey to toggle the launcher.")
    } else if index == 1 {
        (SettingId::QueryDelayMs, "Query Delay (ms)", "Delay before search triggers (ms).")
    } else if index == 2 {
        (SettingId::MaxResults, "Max Results", "Maximum results returned per query.")
    } else if index == 3 {
        (SettingId::EnableAppResults, "App Results", "Include installed applications in search.")
    } else if index == 4 {
        (
            SettingId::EnableBookmarkResults,
            "Bookmark Results",
            "Include browser bookmarks in search.",
        )
    } else if index == 5 {
        (
            SettingId::ForceEnglishInput,
            "Force English Input",
            "Try to switch IME to English when active.",
        )
    } else if index == 6 {
        (SettingId::DebugMode, "Debug Mode", "Enable verbose logging.")
    } else if index == 7 {
        (SettingId::LaunchOnStartup, "Launch on Startup", "Start egg automatically on login.")
    } else {
        return None;
    };
    Some(SettingItem { id, label, description, kind: setting_kind(id) })
}

/// Whether `c` is a control character: below U+0020, or from U+007F to U+009F.
pub open spec fn is_control(c: char) -> bool {
    c < '\u{20}' || ('\u{7f}' <= c && c <= '\u{9f}')
}

/// Whether a character may be typed into the edit buffer of an option: a
/// digit for a number, anything but a control character for a text, and
/// nothing for a switch.
pub open spec fn input_allowed(id: SettingId, c: char) -> bool {
    match kind_of(id) {
        SettingKind::Number { .. } => '0' <= c && c <= '9',
        SettingKind::Text => !is_control(c),
        SettingKind::Toggle => false,
    }
}

/// Whether a character may be typed into the edit buffer of an option.
pub fn is_input_allowed(id: SettingId, ch: char) -> (r: bool)
    ensures
        r == input_allowed(id, ch),
{
    match setting_kind(id) {
        SettingKind::Number { .. } => ch >= '0' && ch <= '9',
        SettingKind::Text => !(ch < '\u{20}' || (ch >= '\u{7f}' && ch <= '\u{9f}')),
        SettingKind::Toggle => false,
    }
}

/// How a switch is shown.
pub open spec fn switch_text(value: bool) -> Seq<char> {
    if value {
        "On"@
    } else {
        "Off"@
    }
}

/// How a switch is shown.
pub fn bool_label(value: bool) -> (r: String)
    ensures
        r@ == switch_text(value),
{
    if value {
        "On".to_owned()
    } else {
        "Off".to_owned()
    }
}

/// How the value of an option is shown.
pub open spec fn value_text(config: ConfigView, id: SettingId) -> Seq<char> {
    match id {
        SettingId::GlobalHotkey => config.global_hotkey,
        SettingId::QueryDelayMs => decimal(config.query_delay_ms as nat),
        SettingId::MaxResults => decimal(config.max_results as nat),
        SettingId::EnableAppResults => switch_text(config.enable_app_results),
        SettingId::EnableBookmarkResults => switch_text(config.enable_bookmark_results),
        SettingId::ForceEnglishInput => switch_text(config.force_english_input),
        SettingId::DebugMode => switch_text(config.debug_mode),
        SettingId::LaunchOnStartup => switch_text(config.launch_on_startup),
    }
}

/// How the value of an option is shown.
pub fn setting_value(config: &AppConfig, id: SettingId) -> (r: String)
    ensures
        r@ == value_text(config@, id),
{
    match id {
        SettingId::GlobalHotkey => config.global_hotkey.clone(),
        SettingId::QueryDelayMs => string_of(&decimal_of(config.query_delay_ms)),
        SettingId::MaxResults => string_of(&decimal_of(config.max_results as u64)),
        SettingId::EnableAppResults => bool_label(config.enable_app_results),
        SettingId::EnableBookmarkResults => bool_label(config.enable_bookmark_results),
        SettingId::ForceEnglishInput => bool_label(config.force_english_input),
        SettingId::DebugMode => bool_label(config.debug_mode),
        SettingId::LaunchOnStartup => bool_label(config.launch_on_startup),
    }
}

/// An edit in progress: the option and what was typed so far.
#[derive(Debug, PartialEq, Eq)]
pub struct EditState {
    pub id: SettingId,
    pub buffer: String,
}

/// The state of the settings view.
#[derive(Debug, PartialEq, Eq)]
pub struct SettingsState {
    /// Position of the selected option.
    pub selected: usize,
    pub editing: Option<EditState>,
    /// What the last change led to, for display.
    pub status: Option<String>,
}

/// What a `SettingsState` holds, as plain values.
pub struct SettingsView {
    pub selected: nat,
    pub editing: Option<(SettingId, Seq<char>)>,
    pub status: Option<Seq<char>>,
}

impl View for SettingsState {
    type V = SettingsView;

    open spec fn view(&self) -> SettingsView {
        SettingsView {
            selected: self.selected as nat,
            editing: match self.editing {
                Some(edit) => Some((edit.id, edit.buffer@)),
                None => None,
            },
            status: opt_view(self.status),
        }
    }
}

/// What a change of the settings asks of the host.
#[derive(Clone, Copy, Debug, PartialEq, Eq, Structural)]
pub enum SettingChange {
    /// The configuration is as it was.
    Unchanged,
    /// The configuration changed and is to be saved.
    Changed,
    /// The configuration changed and is to be saved, and starting on login is
    /// to be switched on or off.
    StartupChanged { enabled: bool },
}

/// The position selected after moving by one: up for a negative `delta`, down
/// otherwise, around the ends.
pub open spec fn moved_selection(current: nat, delta: int, len: nat) -> nat {
    if delta < 0 {
        if current == 0 {
            (len - 1) as nat
        } else {
            (current - 1) as nat
        }
    } else if current + 1 >= len {
        0
    } else {
        current + 1
    }
}

/// The configuration with one switch flipped; an option that is no switch
/// leaves it as it is.
pub open spec fn toggled(config: ConfigView, id: SettingId) -> ConfigView {
    match id {
        SettingId::EnableAppResults => ConfigView {
            enable_app_results: !config.enable_app_results,
            ..config
        },
        SettingId::EnableBookmarkResults => ConfigView {
            enable_bookmark_results: !config.enable_bookmark_results,
            ..config
        },
        SettingId::ForceEnglishInput => ConfigView {
            force_english_input: !config.force_english_input,
            ..config
        },
        SettingId::DebugMode => ConfigView { debug_mode: !config.debug_mode, ..config },
        SettingId::LaunchOnStartup => ConfigView {
            launch_on_startup: !config.launch_on_startup,
            ..config
        },
        _ => config,
    }
}

/// `value` moved into the range from `min` to `max`.
pub open spec fn clamped(value: u32, min: u32, max: u32) -> u32 {
    if value < min {
        min
    } else if value > max {
        max
    } else {
        value
    }
}

/// The configuration after an edit of the option `id` was committed with the
/// given buffer; nothing where the buffer is refused: a number that cannot be
/// read, or an empty text.
pub open spec fn committed(config: ConfigView, id: SettingId, buffer: Seq<char>) -> Option<
    ConfigView,
> {
    match kind_of(id) {
        SettingKind::Number { min, max } => match parsed_u32(trim(buffer)) {
            Some(value) => Some(
                match id {
                    SettingId::QueryDelayMs => ConfigView {
                        query_delay_ms: clamped(value, min, max) as u64,
                        ..config
                    },
                    SettingId::MaxResults => ConfigView {
                        max_results: clamped(value, min, max),
                        ..config
                    },
                    _ => config,
                },
            ),
            None => None,
        },
        SettingKind::Text => if trim(buffer).len() == 0 {
            None
        } else {
            Some(
                match id {
                    SettingId::GlobalHotkey => ConfigView { global_hotkey: trim(buffer), ..config },
                    _ => config,
                },
            )
        },
        SettingKind::Toggle => Some(config),
    }
}

impl SettingsState {
    /// The settings view with the first option selected and nothing in progress.
    pub fn new() -> (r: Self)
        ensures
            r@ == (SettingsView { selected: 0, editing: None, status: None }),
    {
        SettingsState { selected: 0, editing: None, status: None }
    }
}

/// Moves the selection by one option, around the ends.
pub fn move_settings_selection(settings: &mut SettingsState, delta: isize)
    ensures
        final(settings)@ == (SettingsView {
            selected: moved_selection(old(settings)@.selected, delta as int, SETTINGS_LEN as nat),
            ..old(settings)@
        }),
{
    let len = SETTINGS_LEN;
    let current = settings.selected;
    let next = if delta < 0 {
        if current == 0 {
            len - 1
        } else {
            current - 1
        }
    } else if current >= len - 1 {
        0
    } else {
        current + 1
    };
    settings.selected = next;
}

/// What flipping the option at a position does: a switch is flipped and the
/// configuration is to be saved, for the switch of starting on login with its
/// new value; any other option, and a position without an option, changes nothing.
pub open spec fn toggle_result(selected: nat, config: ConfigView) -> (ConfigView, SettingChange) {
    if selected < SETTINGS_LEN && kind_of(id_at(selected as int)) == SettingKind::Toggle {
        let next = toggled(config, id_at(selected as int));
        (
            next,
            if id_at(selected as int) == SettingId::LaunchOnStartup {
                SettingChange::StartupChanged { enabled: next.launch_on_startup }
            } else {
                SettingChange::Changed
            },
        )
    } else {
        (config, SettingChange::Unchanged)
    }
}

/// What beginning an edit of the selected option does: a text or a number
/// gets an edit with its value in the buffer, and the status is cleared; a
/// switch is flipped instead; a position without an option changes nothing.
pub open spec fn edit_started(settings: SettingsView, config: ConfigView) -> (
    SettingsView,
    ConfigView,
    SettingChange,
) {
    let id = id_at(settings.selected as int);
    if settings.selected >= SETTINGS_LEN {
        (settings, config, SettingChange::Unchanged)
    } else if kind_of(id) == SettingKind::Toggle {
        (
            settings,
            toggle_result(settings.selected, config).0,
            toggle_result(settings.selected, config).1,
        )
    } else {
        (
            SettingsView { editing: Some((id, value_text(config, id))), status: None, ..settings },
            config,
            SettingChange::Unchanged,
        )
    }
}

/// What committing an edit does: an accepted buffer is written to the
/// configuration, which is then to be saved; a refused one leaves the
/// configuration alone and says why in the status.
pub open spec fn commit_result(
    settings: SettingsView,
    config: ConfigView,
    id: SettingId,
    buffer: Seq<char>,
) -> (SettingsView, ConfigView, SettingChange) {
    match committed(config, id, buffer) {
        Some(next) => (
            settings,
            next,
            if kind_of(id) == SettingKind::Toggle {
                SettingChange::Unchanged
            } else {
                SettingChange::Changed
            },
        ),
        None => (
            SettingsView {
                status: Some(
                    if kind_of(id) == SettingKind::Text {
                        empty_value_status()
                    } else {
                        invalid_number_status()
                    },
                ),
                ..settings
            },
            config,
            SettingChange::Unchanged,
        ),
    }
}

/// Flips the selected option if it is a switch.
pub fn toggle_setting(settings: &SettingsState, config: &mut AppConfig) -> (change: SettingChange)
    ensures
        (final(config)@, change) == toggle_result(settings@.selected, old(config)@),
{
    let item = match setting_at(settings.selected) {
        Some(item) => item,
        None => {
            return SettingChange::Unchanged;
        },
    };
    match item.kind {
        SettingKind::Toggle => {},
        _ => {
            return SettingChange::Unchanged;
        },
    }
    match item.id {
        SettingId::EnableAppResults => {
            config.enable_app_results = !config.enable_app_results;
        },
        SettingId::EnableBookmarkResults => {
            config.enable_bookmark_results = !config.enable_bookmark_results;
        },
        SettingId::ForceEnglishInput => {
            config.force_english_input = !config.force_english_input;
        },
        SettingId::DebugMode => {
            config.debug_mode = !config.debug_mode;
        },
        SettingId::LaunchOnStartup => {
            config.launch_on_startup = !config.launch_on_startup;
            return SettingChange::StartupChanged { enabled: config.launch_on_startup };
        },
        _ => {},
    }
    SettingChange::Changed
}

/// Begins an edit of the selected option with its value in the buffer; a
/// switch is flipped instead.
pub fn start_setting_edit(settings: &mut SettingsState, config: &mut AppConfig) -> (change:
    SettingChange)
    ensures
        (final(settings)@, final(config)@, change) == edit_started(
            old(settings)@,
            old(config)@,
        ),
{
    let item = match setting_at(settings.selected) {
        Some(item) => item,
        None => {
            return SettingChange::Unchanged;
        },
    };
    match item.kind {
        SettingKind::Toggle => toggle_setting(settings, config),
        _ => {
            let buffer = setting_value(config, item.id);
            settings.editing = Some(EditState { id: item.id, buffer });
            settings.status = None;
            SettingChange::Unchanged
        },
    }
}

/// What the status says when a number cannot be read.
pub open spec fn invalid_number_status() -> Seq<char> {
    "Invalid number"@
}

/// What the status says when a text is empty.
pub open spec fn empty_value_status() -> Seq<char> {
    "Value cannot be empty"@
}

/// Commits an edit: the buffer is checked and, if it is accepted, written to
/// the configuration; if it is refused, the status says why.
pub fn commit_setting_edit(
    editing: &EditState,
    settings: &mut SettingsState,
    config: &mut AppConfig,
) -> (change: SettingChange)
    ensures
        (final(settings)@, final(config)@, change) == commit_result(
            old(settings)@,
            old(config)@,
            editing.id,
            editing.buffer@,
        ),
{
    match setting_kind(editing.id) {
        SettingKind::Number { min, max } => {
            let value = match parse_u32(trim_str(editing.buffer.as_str()).as_str()) {
                Some(value) => value,
                None => {
                    settings.status = Some("Invalid number".to_owned());
                    return SettingChange::Unchanged;
                },
            };
            let value = if value < min {
                min
            } else if value > max {
                max
            } else {
                value
            };
            match editing.id {
                SettingId::QueryDelayMs => {
                    config.query_delay_ms = value as u64;
                },
                SettingId::MaxResults => {
                    config.max_results = value;
                },
                _ => {},
            }
            SettingChange::Changed
        },
        SettingKind::Text => {
            let value = trim_str(editing.buffer.as_str());
            if value.as_str().is_empty() {
                settings.status = Some("Value cannot be empty".to_owned());
                return SettingChange::Unchanged;
            }
            match editing.id {
                SettingId::GlobalHotkey => {
                    config.global_hotkey = value;
                },
                _ => {},
            }
            SettingChange::Changed
        },
        SettingKind::Toggle => SettingChange::Unchanged,
    }
}

/// What the status says after the configuration was saved, or could not be.
pub open spec fn save_status(outcome: Result<(), Seq<char>>) -> Seq<char> {
    match outcome {
        Ok(_) => "Saved"@,
        Err(reason) => "Save failed: "@ + reason,
    }
}

/// Notes in the status whether the configuration was saved.
pub fn note_save(settings: &mut SettingsState, outcome: Result<(), String>)
    ensures
        final(settings)@ == (SettingsView {
            status: Some(
                save_status(
                    match outcome {
                        Ok(_) => Ok(()),
                        Err(reason) => Err(reason@),
                    },
                ),
            ),
            ..old(settings)@
        }),
{
    settings.status = Some(
        match outcome {
            Ok(_) => "Saved".to_owned(),
            Err(reason) => concat_str("Save failed: ", reason.as_str()),
        },
    );
}

/// Notes in the status that starting on login could not be switched.
pub fn note_startup_failure(settings: &mut SettingsState, reason: &str)
    ensures
        final(settings)@ == (SettingsView {
            status: Some("Startup update failed: "@ + reason@),
            ..old(settings)@
        }),
{
    settings.status = Some(concat_str("Startup update failed: ", reason));
}

/// The label under which a kind of result is shown.
pub open spec fn type_label(action_id: Seq<char>) -> Seq<char> {
    if action_id == "app"@ {
        "Application"@
    } else if action_id == "uwp"@ {
        "Microsoft Store Application"@
    } else if action_id == "bookmark"@ {
        "Bookmark"@
    } else if action_id == "url"@ {
        "Web Address"@
    } else if action_id == "search"@ {
        "Web Search"@
    } else {
        "Other"@
    }
}

/// The label under which a kind of result is shown.
pub fn result_type_label(action_id: &str) -> (r: &'static str)
    ensures
        r@ == type_label(action_id@),
{
    if str_eq(action_id, "app") {
        "Application"
    } else if str_eq(action_id, "uwp") {
        "Microsoft Store Application"
    } else if str_eq(action_id, "bookmark") {
        "Bookmark"
    } else if str_eq(action_id, "url") {
        "Web Address"
    } else if str_eq(action_id, "search") {
        "Web Search"
    } else {
        "Other"
    }
}

} // verus!
