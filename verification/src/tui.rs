//! The state of the terminal interface and what each key does to it. Drawing
//! and reading keys are the host's part; the host turns a key into a
//! `KeyPress`, hands it to `handle_key_event`, and acts on the effect.

use crate::config::{AppConfig, ConfigView};
use crate::models::{result_views, ResultView, SearchResult};
use crate::settings::{
    commit_result, commit_setting_edit, edit_started, input_allowed, is_input_allowed,
    move_settings_selection, moved_selection, start_setting_edit, toggle_result, toggle_setting,
    EditState, SettingChange, SettingsState, SettingsView, SETTINGS_LEN,
};
use crate::state::{ActionMap, ActionView, CachedSearch, PendingAction};
use crate::text::{
    chars_of, is_space, is_whitespace_char, slice_of, string_of, trailing_spaces, trim, trimmed,
};
use vstd::prelude::*;
use vstd::utf8::encode_utf8;

verus! {

/// Which view is shown.
#[derive(Clone, Copy, Debug, PartialEq, Eq, Structural)]
pub enum ViewMode {
    Search,
    Settings,
}

impl ViewMode {
    /// The name of the view, as the header shows it.
    pub fn label(self) -> (r: &'static str)
        ensures
            r@ == (if self == ViewMode::Search {
                "search"@
            } else {
                "settings"@
            }),
    {
        match self {
            ViewMode::Search => "search",
            ViewMode::Settings => "settings",
        }
    }
}

/// The key of a key press.
#[derive(Clone, Copy, Debug, PartialEq, Eq, Structural)]
pub enum KeyCode {
    Char(char),
    Esc,
    Enter,
    Up,
    Down,
    Left,
    Right,
    Home,
    End,
    Backspace,
    Delete,
    /// Any key that the interface does not use.
    Other,
}

/// One key event.
#[derive(Clone, Copy, Debug, PartialEq, Eq, Structural)]
pub struct KeyPress {
    pub code: KeyCode,
    /// Whether Control was held.
    pub control: bool,
    /// Whether Alt was held.
    pub alt: bool,
    /// Whether the event is the release of the key.
    pub release: bool,
}

/// What the host does after a key was handled.
#[derive(Clone, Copy, Debug, PartialEq, Eq, Structural)]
pub enum KeyEffect {
    /// Nothing beyond drawing the state.
    Nothing,
    /// The query changed: the results are to be refreshed.
    Refresh,
    /// The configuration may have changed, as the change says.
    Settings(SettingChange),
}

/// The state of the interface.
pub struct TuiState {
    /// The query as typed.
    pub input: String,
    /// Position of the cursor in the query, in characters.
    pub cursor: usize,
    pub results: Vec<SearchResult>,
    pub pending_actions: ActionMap,
    /// Position of the selected result.
    pub selected: Option<usize>,
    pub should_quit: bool,
    /// The action of the result that was chosen.
    pub pending_action: Option<PendingAction>,
    /// The result that was chosen.
    pub pending_result: Option<SearchResult>,
    pub view_mode: ViewMode,
    pub settings: SettingsState,
}

/// What a `TuiState` holds, as plain values.
pub struct TuiView {
    pub input: Seq<char>,
    pub cursor: nat,
    pub results: Seq<ResultView>,
    pub pending: Map<Seq<char>, ActionView>,
    pub selected: Option<nat>,
    pub should_quit: bool,
    pub pending_action: Option<ActionView>,
    pub pending_result: Option<ResultView>,
    pub view_mode: ViewMode,
    pub settings: SettingsView,
}

impl View for TuiState {
    type V = TuiView;

    open spec fn view(&self) -> TuiView {
        TuiView {
            input: self.input@,
            cursor: self.cursor as nat,
            results: result_views(self.results@),
            pending: self.pending_actions@,
            selected: match self.selected {
                Some(index) => Some(index as nat),
                None => None,
            },
            should_quit: self.should_quit,
            pending_action: match self.pending_action {
                Some(action) => Some(action@),
                None => None,
            },
            pending_result: match self.pending_result {
                Some(result) => Some(result@),
                None => None,
            },
            view_mode: self.view_mode,
            settings: self.settings@,
        }
    }
}

impl TuiView {
    /// Whether the cursor lies within the query or at its end.
    pub open spec fn cursor_in_bounds(self) -> bool {
        self.cursor <= self.input.len()
    }
}

/// The smaller of two numbers.
pub open spec fn least(a: int, b: int) -> int {
    if a < b {
        a
    } else {
        b
    }
}

/// The cursor after moving by one: left for a negative `delta`, right
/// otherwise, never beyond the two ends of a query of `len` characters.
pub open spec fn cursor_moved(cursor: nat, len: nat, delta: int) -> nat {
    if delta < 0 {
        if cursor == 0 {
            0
        } else {
            (cursor - 1) as nat
        }
    } else if cursor < len {
        cursor + 1
    } else {
        cursor
    }
}

/// The selection after moving by one among `len` results, around the ends;
/// nothing is selected where there are no results.
pub open spec fn selection_moved(selected: Option<nat>, len: nat, delta: int) -> Option<nat> {
    if len == 0 {
        None
    } else {
        Some(
            moved_selection(
                match selected {
                    Some(index) => index,
                    None => 0,
                },
                delta,
                len,
            ),
        )
    }
}

/// The selection after new results arrived: the first result, if there is one.
pub open spec fn selection_reset(len: nat) -> Option<nat> {
    if len == 0 {
        None
    } else {
        Some(0)
    }
}

/// Number of trailing characters of `s` that are not white space.
pub open spec fn trailing_word(s: Seq<char>) -> nat
    decreases s.len(),
{
    if s.len() > 0 && !is_space(s.last()) {
        1 + trailing_word(s.drop_last())
    } else {
        0
    }
}

/// Where the word before the cursor begins: the white space before the
/// cursor is passed over, then the characters that are not white space.
pub open spec fn word_start(input: Seq<char>, cursor: nat) -> nat {
    let before = input.take(least(cursor as int, input.len() as int));
    let word_end = (before.len() - trailing_spaces(before)) as nat;
    (word_end - trailing_word(before.take(word_end as int))) as nat
}

/// The query without the word before the cursor and the white space after it.
pub open spec fn without_prev_word(input: Seq<char>, cursor: nat) -> Seq<char> {
    input.take(word_start(input, cursor) as int) + input.skip(
        least(cursor as int, input.len() as int),
    )
}

/// The characters of `input` from position `start` up to, not including, `end`.
pub open spec fn chars_between(input: Seq<char>, start: nat, end: nat) -> Seq<char> {
    let to = least(end as int, input.len() as int);
    if start < to {
        input.subrange(start as int, to)
    } else {
        Seq::empty()
    }
}

/// Where the visible part of the query begins, in a field of `width`
/// characters: at the start while the query fits or the cursor lies within
/// the first `width` characters, else so that the cursor is the last visible one.
pub open spec fn visible_start(len: nat, cursor: nat, width: nat) -> nat {
    if len <= width {
        0
    } else if cursor >= width {
        (cursor - width + 1) as nat
    } else {
        0
    }
}

/// Number of bytes that the first `char_index` characters of the text take in
/// UTF-8; the length of the whole text where it has fewer characters.
pub fn char_to_byte_index(input: &str, char_index: usize) -> (r: usize)
    ensures
        r == encode_utf8(input@.take(least(char_index as int, input@.len() as int))).len() as usize,
{
    let chars = chars_of(input);
    let upto = if char_index < chars.len() {
        char_index
    } else {
        chars.len()
    };
    let prefix = string_of(&slice_of(&chars, 0, upto));
    assert(chars@.subrange(0, upto as int) =~= input@.take(upto as int));
    prefix.as_str().len()
}

/// The characters of the text from position `start` up to, not including, `end`.
pub fn slice_chars(input: &str, start: usize, end: usize) -> (r: String)
    ensures
        r@ == chars_between(input@, start as nat, end as nat),
{
    let chars = chars_of(input);
    let to = if end < chars.len() {
        end
    } else {
        chars.len()
    };
    if start < to {
        string_of(&slice_of(&chars, start, to))
    } else {
        String::new()
    }
}

/// The part of the query that is visible in a field of `width` characters,
/// and the cursor's position within it.
pub fn slice_input(input: &str, cursor: usize, width: usize) -> (r: (String, usize))
    ensures
        width == 0 ==> r.0@.len() == 0 && r.1 == 0,
        width > 0 ==> {
            let start = visible_start(input@.len(), cursor as nat, width as nat);
            &&& r.0@ == chars_between(input@, start, start + width as nat)
            &&& r.1 == cursor - start
        },
{
    if width == 0 {
        return (String::new(), 0);
    }
    let len = chars_of(input).len();
    let start = if len <= width {
        0
    } else if cursor >= width {
        cursor - width + 1
    } else {
        0
    };
    let end = if start >= len {
        len
    } else if width >= len - start {
        len
    } else {
        start + width
    };
    proof {
        assert(chars_between(input@, start as nat, end as nat) =~= chars_between(
            input@,
            start as nat,
            (start + width) as nat,
        ));
    }
    (slice_chars(input, start, end), cursor - start)
}

impl TuiState {
    /// The interface as it starts: an empty query, no results, the search view.
    pub fn new() -> (r: Self)
        ensures
            r@ == (TuiView {
                input: Seq::empty(),
                cursor: 0,
                results: Seq::empty(),
                pending: Map::empty(),
                selected: None,
                should_quit: false,
                pending_action: None,
                pending_result: None,
                view_mode: ViewMode::Search,
                settings: SettingsView { selected: 0, editing: None, status: None },
            }),
    {
        let r = TuiState {
            input: String::new(),
            cursor: 0,
            results: Vec::new(),
            pending_actions: ActionMap::new(),
            selected: None,
            should_quit: false,
            pending_action: None,
            pending_result: None,
            view_mode: ViewMode::Search,
            settings: SettingsState::new(),
        };
        assert(result_views(r.results@) =~= Seq::<ResultView>::empty());
        r
    }

    /// Shows a result set: its results and actions replace the shown ones,
    /// and the first result, if there is one, is selected.
    pub fn show(&mut self, shown: CachedSearch)
        ensures
            final(self)@ == (TuiView {
                results: shown@.results,
                pending: shown@.actions,
                selected: selection_reset(shown@.results.len()),
                ..old(self)@
            }),
    {
        self.results = shown.results;
        self.pending_actions = shown.pending_actions;
        reset_selection(self);
    }
}

/// Selects the first result, if there is one.
pub fn reset_selection(ui_state: &mut TuiState)
    ensures
        final(ui_state)@ == (TuiView {
            selected: selection_reset(old(ui_state)@.results.len()),
            ..old(ui_state)@
        }),
{
    if ui_state.results.len() == 0 {
        ui_state.selected = None;
    } else {
        ui_state.selected = Some(0);
    }
}

/// Moves the selection by one result, around the ends.
pub fn move_selection(ui_state: &mut TuiState, delta: isize)
    ensures
        final(ui_state)@ == (TuiView {
            selected: selection_moved(
                old(ui_state)@.selected,
                old(ui_state)@.results.len(),
                delta as int,
            ),
            ..old(ui_state)@
        }),
{
    let len = ui_state.results.len();
    if len == 0 {
        ui_state.selected = None;
        return ;
    }
    let current = match ui_state.selected {
        Some(index) => index,
        None => 0,
    };
    let next = if delta < 0 {
        if current == 0 {
            len - 1
        } else {
            current - 1
        }
    } else if current >= len - 1 {
        0
    } else {
        current + 1
    };
    ui_state.selected = Some(next);
}

/// Moves the cursor by one character, within the query.
pub fn move_cursor(ui_state: &mut TuiState, delta: isize)
    ensures
        final(ui_state)@ == (TuiView {
            cursor: cursor_moved(
                old(ui_state)@.cursor,
                old(ui_state)@.input.len(),
                delta as int,
            ),
            ..old(ui_state)@
        }),
        old(ui_state)@.cursor_in_bounds() ==> final(ui_state)@.cursor_in_bounds(),
{
    let len = chars_of(ui_state.input.as_str()).len();
    if delta < 0 {
        if ui_state.cursor > 0 {
            ui_state.cursor -= 1;
        }
    } else if ui_state.cursor < len {
        ui_state.cursor += 1;
    }
}

/// The query with a character typed at the cursor; a cursor beyond the end
/// of the query counts as standing at its end.
pub open spec fn with_char(input: Seq<char>, cursor: nat, ch: char) -> Seq<char> {
    input.insert(least(cursor as int, input.len() as int), ch)
}

/// The query without the character before the cursor, if there is one.
pub open spec fn without_char_before(input: Seq<char>, cursor: nat) -> Seq<char> {
    if 0 < cursor <= input.len() {
        input.remove(cursor - 1)
    } else {
        input
    }
}

/// Types a character at the cursor, which then stands behind it; a cursor
/// beyond the end of the query counts as standing at its end.
pub fn insert_char(ui_state: &mut TuiState, ch: char)
    ensures
        final(ui_state)@ == (TuiView {
            input: with_char(old(ui_state)@.input, old(ui_state)@.cursor, ch),
            cursor: (least(old(ui_state)@.cursor as int, old(ui_state)@.input.len() as int)
                + 1) as nat,
            ..old(ui_state)@
        }),
        final(ui_state)@.cursor_in_bounds(),
{
    let mut chars = chars_of(ui_state.input.as_str());
    let at: usize = if ui_state.cursor < chars.len() {
        ui_state.cursor
    } else {
        chars.len()
    };
    chars.insert(at, ch);
    let grown = chars.len();
    assert(at < grown);
    ui_state.input = string_of(&chars);
    ui_state.cursor = at + 1;
}

/// Moves the cursor one character back and deletes the character it passes,
/// if it passes one; says whether the cursor moved.
pub fn delete_char_before_cursor(ui_state: &mut TuiState) -> (r: bool)
    ensures
        r == (old(ui_state)@.cursor > 0),
        r ==> final(ui_state)@ == (TuiView {
            input: without_char_before(old(ui_state)@.input, old(ui_state)@.cursor),
            cursor: (old(ui_state)@.cursor - 1) as nat,
            ..old(ui_state)@
        }),
        !r ==> final(ui_state)@ == old(ui_state)@,
        old(ui_state)@.cursor_in_bounds() ==> final(ui_state)@.cursor_in_bounds(),
{
    if ui_state.cursor == 0 {
        return false;
    }
    let mut chars = chars_of(ui_state.input.as_str());
    if ui_state.cursor - 1 < chars.len() {
        chars.remove(ui_state.cursor - 1);
        ui_state.input = string_of(&chars);
    }
    ui_state.cursor -= 1;
    true
}

/// Deletes the character at the cursor; says whether there was one to delete.
pub fn delete_char_at_cursor(ui_state: &mut TuiState) -> (r: bool)
    ensures
        r == (old(ui_state)@.cursor < old(ui_state)@.input.len()),
        r ==> final(ui_state)@ == (TuiView {
            input: old(ui_state)@.input.remove(old(ui_state)@.cursor as int),
            ..old(ui_state)@
        }),
        !r ==> final(ui_state)@ == old(ui_state)@,
        old(ui_state)@.cursor_in_bounds() ==> final(ui_state)@.cursor_in_bounds(),
{
    let mut chars = chars_of(ui_state.input.as_str());
    if ui_state.cursor >= chars.len() {
        return false;
    }
    chars.remove(ui_state.cursor);
    ui_state.input = string_of(&chars);
    true
}

/// Deletes the word before the cursor, with the white space between it and
/// the cursor.
pub fn delete_prev_word(ui_state: &mut TuiState)
    ensures
        old(ui_state)@.cursor == 0 ==> final(ui_state)@ == old(ui_state)@,
        old(ui_state)@.cursor > 0 ==> final(ui_state)@ == (TuiView {
            input: without_prev_word(old(ui_state)@.input, old(ui_state)@.cursor),
            cursor: word_start(old(ui_state)@.input, old(ui_state)@.cursor),
            ..old(ui_state)@
        }),
        final(ui_state)@.cursor_in_bounds(),
{
    if ui_state.cursor == 0 {
        return ;
    }
    let chars = chars_of(ui_state.input.as_str());
    let cutoff = if ui_state.cursor < chars.len() {
        ui_state.cursor
    } else {
        chars.len()
    };
    let ghost before = chars@.take(cutoff as int);
    let mut end: usize = cutoff;
    assert(before.take(cutoff as int) =~= before);
    while end > 0 && is_whitespace_char(chars[end - 1])
        invariant
            end <= cutoff <= chars.len(),
            before == chars@.take(cutoff as int),
            trailing_spaces(before) == (cutoff - end) + trailing_spaces(before.take(end as int)),
        decreases end,
    {
        proof {
            assert(before.take(end as int).last() == chars@[end - 1]);
            assert(before.take(end as int).drop_last() =~= before.take(end - 1));
        }
        end -= 1;
    }
    proof {
        if end > 0 {
            assert(before.take(end as int).last() == chars@[end - 1]);
        }
    }
    let ghost word_end = end;
    let ghost head = before.take(word_end as int);
    let mut start: usize = end;
    assert(head.take(end as int) =~= head);
    while start > 0 && !is_whitespace_char(chars[start - 1])
        invariant
            start <= word_end <= cutoff <= chars.len(),
            before == chars@.take(cutoff as int),
            head == before.take(word_end as int),
            trailing_word(head) == (word_end - start) + trailing_word(head.take(start as int)),
        decreases start,
    {
        proof {
            assert(head.take(start as int).last() == chars@[start - 1]);
            assert(head.take(start as int).drop_last() =~= head.take(start - 1));
        }
        start -= 1;
    }
    proof {
        if start > 0 {
            assert(head.take(start as int).last() == chars@[start - 1]);
        }
        assert(start == word_start(chars@, ui_state.cursor as nat));
    }
    let mut kept = slice_of(&chars, 0, start);
    let mut tail = slice_of(&chars, cutoff, chars.len());
    kept.append(&mut tail);
    assert(kept@ =~= without_prev_word(chars@, ui_state.cursor as nat));
    ui_state.input = string_of(&kept);
    ui_state.cursor = start;
}

/// The state after a key of the search view: see `handle_search_key_event`.
pub open spec fn after_search_key(state: TuiView, key: KeyPress) -> TuiView {
    let blank = trim(state.input).len() == 0;
    match key.code {
        KeyCode::Left => if blank {
            TuiView {
                view_mode: ViewMode::Settings,
                settings: SettingsView { status: None, ..state.settings },
                ..state
            }
        } else {
            TuiView { cursor: cursor_moved(state.cursor, state.input.len(), -1), ..state }
        },
        KeyCode::Right => if blank {
            TuiView {
                view_mode: ViewMode::Settings,
                settings: SettingsView { status: None, ..state.settings },
                ..state
            }
        } else {
            TuiView { cursor: cursor_moved(state.cursor, state.input.len(), 1), ..state }
        },
        _ => if key.control {
            match key.code {
                KeyCode::Char(c) => if c == 'c' {
                    TuiView { should_quit: true, ..state }
                } else if c == 'n' {
                    TuiView {
                        selected: selection_moved(state.selected, state.results.len(), 1),
                        ..state
                    }
                } else if c == 'p' {
                    TuiView {
                        selected: selection_moved(state.selected, state.results.len(), -1),
                        ..state
                    }
                } else if c == 'w' && state.cursor > 0 {
                    TuiView {
                        input: without_prev_word(state.input, state.cursor),
                        cursor: word_start(state.input, state.cursor),
                        ..state
                    }
                } else {
                    state
                },
                _ => state,
            }
        } else {
            match key.code {
                KeyCode::Esc => TuiView { should_quit: true, ..state },
                KeyCode::Enter => match chosen(state) {
                    Some((result, action)) => TuiView {
                        pending_action: Some(action),
                        pending_result: Some(result),
                        should_quit: true,
                        ..state
                    },
                    None => state,
                },
                KeyCode::Up => TuiView {
                    selected: selection_moved(state.selected, state.results.len(), -1),
                    ..state
                },
                KeyCode::Down => TuiView {
                    selected: selection_moved(state.selected, state.results.len(), 1),
                    ..state
                },
                KeyCode::Home => TuiView { cursor: 0, ..state },
                KeyCode::End => TuiView { cursor: state.input.len(), ..state },
                KeyCode::Backspace => if state.cursor > 0 {
                    TuiView {
                        input: without_char_before(state.input, state.cursor),
                        cursor: (state.cursor - 1) as nat,
                        ..state
                    }
                } else {
                    state
                },
                KeyCode::Delete => if state.cursor < state.input.len() {
                    TuiView { input: state.input.remove(state.cursor as int), ..state }
                } else {
                    state
                },
                KeyCode::Char(c) => if key.alt {
                    state
                } else {
                    TuiView {
                        input: with_char(state.input, state.cursor, c),
                        cursor: (least(state.cursor as int, state.input.len() as int) + 1) as nat,
                        ..state
                    }
                },
                _ => state,
            }
        },
    }
}

/// The selected result with its action, where a result is selected and an
/// action is bound to its identity.
pub open spec fn chosen(state: TuiView) -> Option<(ResultView, ActionView)> {
    match state.selected {
        Some(index) => if index < state.results.len() && state.pending.contains_key(
            state.results[index as int].id,
        ) {
            Some((state.results[index as int], state.pending[state.results[index as int].id]))
        } else {
            None
        },
        None => None,
    }
}

/// Whether a key of the search view asks for new results: it is one that
/// edits the query, Control+W, Backspace with a character before the cursor,
/// Delete with a character at the cursor, or a character typed without Alt.
pub open spec fn search_key_refreshes(state: TuiView, key: KeyPress) -> bool {
    match key.code {
        KeyCode::Left => false,
        KeyCode::Right => false,
        KeyCode::Char(c) => if key.control {
            c == 'w'
        } else {
            !key.alt
        },
        KeyCode::Backspace => !key.control && state.cursor > 0,
        KeyCode::Delete => !key.control && state.cursor < state.input.len(),
        _ => false,
    }
}

/// Handles a key in the search view. The arrow keys to the left and right
/// open the settings while the query is blank, and move the cursor otherwise.
/// With Control, `c` quits, `n` and `p` move the selection, `w` deletes the
/// word before the cursor. Without it, Escape quits, Enter chooses the
/// selected result, the arrows up and down move the selection, Home and End
/// move the cursor, Backspace and Delete delete a character, and a character
/// typed without Alt is put into the query.
pub fn handle_search_key_event(key: KeyPress, ui_state: &mut TuiState) -> (effect: KeyEffect)
    ensures
        final(ui_state)@ == after_search_key(old(ui_state)@, key),
        effect == if search_key_refreshes(old(ui_state)@, key) {
            KeyEffect::Refresh
        } else {
            KeyEffect::Nothing
        },
        old(ui_state)@.cursor_in_bounds() ==> final(ui_state)@.cursor_in_bounds(),
{
    match key.code {
        KeyCode::Left | KeyCode::Right => {
            if trimmed(&chars_of(ui_state.input.as_str())).len() == 0 {
                ui_state.view_mode = ViewMode::Settings;
                ui_state.settings.status = None;
            } else if key.code == KeyCode::Left {
                move_cursor(ui_state, -1);
            } else {
                move_cursor(ui_state, 1);
            }
            return KeyEffect::Nothing;
        },
        _ => {},
    }
    if key.control {
        match key.code {
            KeyCode::Char(c) => {
                if c == 'c' {
                    ui_state.should_quit = true;
                } else if c == 'n' {
                    move_selection(ui_state, 1);
                } else if c == 'p' {
                    move_selection(ui_state, -1);
                } else if c == 'w' {
                    delete_prev_word(ui_state);
                    return KeyEffect::Refresh;
                }
            },
            _ => {},
        }
        return KeyEffect::Nothing;
    }
    match key.code {
        KeyCode::Esc => {
            ui_state.should_quit = true;
        },
        KeyCode::Enter => {
            match ui_state.selected {
                Some(index) => {
                    if index < ui_state.results.len() {
                        let result = ui_state.results[index].clone();
                        assert(result@ == result_views(ui_state.results@)[index as int]);
                        let action = match ui_state.pending_actions.get(result.id.as_str()) {
                            Some(action) => Some(action.clone()),
                            None => None,
                        };
                        match action {
                            Some(action) => {
                                ui_state.pending_action = Some(action);
                                ui_state.pending_result = Some(result);
                                ui_state.should_quit = true;
                            },
                            None => {},
                        }
                    }
                },
                None => {},
            }
        },
        KeyCode::Up => {
            move_selection(ui_state, -1);
        },
        KeyCode::Down => {
            move_selection(ui_state, 1);
        },
        KeyCode::Home => {
            ui_state.cursor = 0;
        },
        KeyCode::End => {
            ui_state.cursor = chars_of(ui_state.input.as_str()).len();
        },
        KeyCode::Backspace => {
            if delete_char_before_cursor(ui_state) {
                return KeyEffect::Refresh;
            }
        },
        KeyCode::Delete => {
            if delete_char_at_cursor(ui_state) {
                return KeyEffect::Refresh;
            }
        },
        KeyCode::Char(ch) => {
            if !key.alt {
                insert_char(ui_state, ch);
                return KeyEffect::Refresh;
            }
        },
        _ => {},
    }
    KeyEffect::Nothing
}

/// The state, the configuration and the effect of a key of the settings
/// view: see `handle_settings_key_event`.
pub open spec fn after_settings_key(state: TuiView, config: ConfigView, key: KeyPress) -> (
    TuiView,
    ConfigView,
    KeyEffect,
) {
    let settings = state.settings;
    if key.code == KeyCode::Left || key.code == KeyCode::Right {
        (
            TuiView {
                view_mode: ViewMode::Search,
                settings: SettingsView { status: None, ..settings },
                ..state
            },
            config,
            KeyEffect::Nothing,
        )
    } else {
        match settings.editing {
            Some((id, buffer)) => match key.code {
                KeyCode::Esc => (
                    TuiView { settings: SettingsView { editing: None, ..settings }, ..state },
                    config,
                    KeyEffect::Nothing,
                ),
                KeyCode::Enter => {
                    let done = commit_result(
                        SettingsView { editing: None, ..settings },
                        config,
                        id,
                        buffer,
                    );
                    (TuiView { settings: done.0, ..state }, done.1, KeyEffect::Settings(done.2))
                },
                KeyCode::Backspace => (
                    TuiView {
                        settings: SettingsView {
                            editing: Some(
                                (
                                    id,
                                    if buffer.len() > 0 {
                                        buffer.drop_last()
                                    } else {
                                        buffer
                                    },
                                ),
                            ),
                            ..settings
                        },
                        ..state
                    },
                    config,
                    KeyEffect::Nothing,
                ),
                KeyCode::Char(c) => (
                    TuiView {
                        settings: SettingsView {
                            editing: Some(
                                (
                                    id,
                                    if input_allowed(id, c) {
                                        buffer.push(c)
                                    } else {
                                        buffer
                                    },
                                ),
                            ),
                            ..settings
                        },
                        ..state
                    },
                    config,
                    KeyEffect::Nothing,
                ),
                _ => (state, config, KeyEffect::Nothing),
            },
            None => match key.code {
                KeyCode::Up => (
                    TuiView {
                        settings: SettingsView {
                            selected: moved_selection(settings.selected, -1, SETTINGS_LEN as nat),
                            ..settings
                        },
                        ..state
                    },
                    config,
                    KeyEffect::Nothing,
                ),
                KeyCode::Down => (
                    TuiView {
                        settings: SettingsView {
                            selected: moved_selection(settings.selected, 1, SETTINGS_LEN as nat),
                            ..settings
                        },
                        ..state
                    },
                    config,
                    KeyEffect::Nothing,
                ),
                KeyCode::Char(c) => if c == ' ' {
                    (
                        state,
                        toggle_result(settings.selected, config).0,
                        KeyEffect::Settings(toggle_result(settings.selected, config).1),
                    )
                } else {
                    (state, config, KeyEffect::Nothing)
                },
                KeyCode::Enter => {
                    let begun = edit_started(settings, config);
                    (TuiView { settings: begun.0, ..state }, begun.1, KeyEffect::Settings(begun.2))
                },
                _ => (state, config, KeyEffect::Nothing),
            },
        }
    }
}

/// Handles a key in the settings view. The arrow keys to the left and right
/// go back to the search view. While an edit is in progress, Escape ends it,
/// Enter commits and ends it, Backspace deletes the last character of the
/// buffer, and a character that the option allows is added to the buffer.
/// Otherwise the arrows up and down move the selection, Space flips the
/// selected switch, and Enter begins an edit, or flips a switch.
pub fn handle_settings_key_event(
    key: KeyPress,
    ui_state: &mut TuiState,
    config: &mut AppConfig,
) -> (effect: KeyEffect)
    ensures
        (final(ui_state)@, final(config)@, effect) == after_settings_key(
            old(ui_state)@,
            old(config)@,
            key,
        ),
        final(ui_state)@.cursor == old(ui_state)@.cursor,
        final(ui_state)@.input == old(ui_state)@.input,
{
    match key.code {
        KeyCode::Left | KeyCode::Right => {
            ui_state.view_mode = ViewMode::Search;
            ui_state.settings.status = None;
            return KeyEffect::Nothing;
        },
        _ => {},
    }
    let mut editing: Option<EditState> = None;
    std::mem::swap(&mut editing, &mut ui_state.settings.editing);
    match editing {
        Some(edit) => {
            let mut edit = edit;
            match key.code {
                KeyCode::Esc => {
                    return KeyEffect::Nothing;
                },
                KeyCode::Enter => {
                    let change = commit_setting_edit(&edit, &mut ui_state.settings, config);
                    return KeyEffect::Settings(change);
                },
                KeyCode::Backspace => {
                    let mut chars = chars_of(edit.buffer.as_str());
                    if chars.len() > 0 {
                        chars.pop();
                        assert(chars@ =~= edit.buffer@.drop_last());
                    }
                    edit.buffer = string_of(&chars);
                },
                KeyCode::Char(ch) => {
                    if is_input_allowed(edit.id, ch) {
                        edit.buffer.push(ch);
                    }
                },
                _ => {},
            }
            ui_state.settings.editing = Some(edit);
            KeyEffect::Nothing
        },
        None => {
            match key.code {
                KeyCode::Up => {
                    move_settings_selection(&mut ui_state.settings, -1);
                    KeyEffect::Nothing
                },
                KeyCode::Down => {
                    move_settings_selection(&mut ui_state.settings, 1);
                    KeyEffect::Nothing
                },
                KeyCode::Char(ch) => {
                    if ch == ' ' {
                        KeyEffect::Settings(toggle_setting(&ui_state.settings, config))
                    } else {
                        KeyEffect::Nothing
                    }
                },
                KeyCode::Enter => KeyEffect::Settings(
                    start_setting_edit(&mut ui_state.settings, config),
                ),
                _ => KeyEffect::Nothing,
            }
        },
    }
}

/// Handles a key event: the release of a key does nothing; any other event
/// goes to the view that is shown.
pub fn handle_key_event(key: KeyPress, ui_state: &mut TuiState, config: &mut AppConfig) -> (effect:
    KeyEffect)
    ensures
        old(ui_state)@.cursor_in_bounds() ==> final(ui_state)@.cursor_in_bounds(),
        key.release ==> final(ui_state)@ == old(ui_state)@ && final(config)@ == old(config)@
            && effect == KeyEffect::Nothing,
        !key.release && old(ui_state)@.view_mode == ViewMode::Search ==> {
            &&& final(ui_state)@ == after_search_key(old(ui_state)@, key)
            &&& final(config)@ == old(config)@
            &&& effect == if search_key_refreshes(old(ui_state)@, key) {
                KeyEffect::Refresh
            } else {
                KeyEffect::Nothing
            }
        },
        !key.release && old(ui_state)@.view_mode == ViewMode::Settings ==> (
            final(ui_state)@,
            final(config)@,
            effect,
        ) == after_settings_key(old(ui_state)@, old(config)@, key),
{
    if key.release {
        return KeyEffect::Nothing;
    }
    match ui_state.view_mode {
        ViewMode::Search => handle_search_key_event(key, ui_state),
        ViewMode::Settings => handle_settings_key_event(key, ui_state, config),
    }
}

} // verus!
