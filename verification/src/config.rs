//! The options of a session: those that ranking and index building read, and
//! those that only the host uses.

use crate::models::clone_strings;
use crate::text::views;
use vstd::prelude::*;

verus! {

/// Fewest results a query may be limited to.
pub const MIN_RESULT_LIMIT: u32 = 10;

/// Most results a query may be limited to.
pub const MAX_RESULT_LIMIT: u32 = 60;

/// Longest delay, in milliseconds, between a keystroke and the search it triggers.
pub const MAX_QUERY_DELAY_MS: u32 = 2000;

/// The recognised options.
#[derive(Debug, PartialEq, Eq)]
pub struct AppConfig {
    /// The key combination that shows and hides the launcher.
    pub global_hotkey: String,
    /// Delay, in milliseconds, between a keystroke and the search it triggers.
    pub query_delay_ms: u64,
    /// Requested number of results; read through `result_limit`.
    pub max_results: u32,
    /// Whether applications take part in a search.
    pub enable_app_results: bool,
    /// Whether bookmarks take part in a search.
    pub enable_bookmark_results: bool,
    /// Whether the input method is switched to English while the launcher is shown.
    pub force_english_input: bool,
    /// Whether verbose logging is on.
    pub debug_mode: bool,
    /// Whether the launcher starts on login.
    pub launch_on_startup: bool,
    /// Path prefixes and package-id patterns of entries kept out of the index.
    pub system_tool_exclusions: Vec<String>,
}

/// What an `AppConfig` holds, as plain values.
pub struct ConfigView {
    pub global_hotkey: Seq<char>,
    pub query_delay_ms: u64,
    pub max_results: u32,
    pub enable_app_results: bool,
    pub enable_bookmark_results: bool,
    pub force_english_input: bool,
    pub debug_mode: bool,
    pub launch_on_startup: bool,
    pub system_tool_exclusions: Seq<Seq<char>>,
}

impl View for AppConfig {
    type V = ConfigView;

    open spec fn view(&self) -> ConfigView {
        ConfigView {
            global_hotkey: self.global_hotkey@,
            query_delay_ms: self.query_delay_ms,
            max_results: self.max_results,
            enable_app_results: self.enable_app_results,
            enable_bookmark_results: self.enable_bookmark_results,
            force_english_input: self.force_english_input,
            debug_mode: self.debug_mode,
            launch_on_startup: self.launch_on_startup,
            system_tool_exclusions: views(self.system_tool_exclusions@),
        }
    }
}

/// The number of results that a request for `max_results` allows: the request
/// itself where it lies between the two limits, else the nearer limit.
pub open spec fn result_limit(max_results: u32) -> nat {
    if max_results < MIN_RESULT_LIMIT {
        MIN_RESULT_LIMIT as nat
    } else if max_results > MAX_RESULT_LIMIT {
        MAX_RESULT_LIMIT as nat
    } else {
        max_results as nat
    }
}

impl AppConfig {
    /// What the default configuration holds: the hotkey `Alt+Space`, no query
    /// delay, the smallest result limit, both kinds of entries enabled, every
    /// other switch off, no exclusions.
    pub open spec fn default_view() -> ConfigView {
        ConfigView {
            global_hotkey: "Alt+Space"@,
            query_delay_ms: 0,
            max_results: MIN_RESULT_LIMIT,
            enable_app_results: true,
            enable_bookmark_results: true,
            force_english_input: false,
            debug_mode: false,
            launch_on_startup: false,
            system_tool_exclusions: Seq::empty(),
        }
    }

    /// The number of results that this configuration allows per query.
    pub fn effective_limit(&self) -> (r: usize)
        ensures
            r == result_limit(self.max_results),
            MIN_RESULT_LIMIT <= r <= MAX_RESULT_LIMIT,
    {
        if self.max_results < MIN_RESULT_LIMIT {
            MIN_RESULT_LIMIT as usize
        } else if self.max_results > MAX_RESULT_LIMIT {
            MAX_RESULT_LIMIT as usize
        } else {
            self.max_results as usize
        }
    }
}

impl Default for AppConfig {
    fn default() -> (r: Self)
        ensures
            r@ == AppConfig::default_view(),
    {
        let r = AppConfig {
            global_hotkey: "Alt+Space".to_owned(),
            query_delay_ms: 0,
            max_results: MIN_RESULT_LIMIT,
            enable_app_results: true,
            enable_bookmark_results: true,
            force_english_input: false,
            debug_mode: false,
            launch_on_startup: false,
            system_tool_exclusions: Vec::new(),
        };
        assert(views(r.system_tool_exclusions@) =~= Seq::empty());
        r
    }
}

impl Clone for AppConfig {
    fn clone(&self) -> (r: Self)
        ensures
            r@ == self@,
    {
        AppConfig {
            global_hotkey: self.global_hotkey.clone(),
            query_delay_ms: self.query_delay_ms,
            max_results: self.max_results,
            enable_app_results: self.enable_app_results,
            enable_bookmark_results: self.enable_bookmark_results,
            force_english_input: self.force_english_input,
            debug_mode: self.debug_mode,
            launch_on_startup: self.launch_on_startup,
            system_tool_exclusions: clone_strings(&self.system_tool_exclusions),
        }
    }
}

} // verus!
