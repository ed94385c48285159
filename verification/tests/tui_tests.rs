use egg::config::AppConfig;
use egg::models::SearchResult;
use egg::settings::{SettingChange, SettingId};
use egg::state::{ActionMap, CachedSearch, PendingAction};
use egg::tui::{
    char_to_byte_index, delete_char_at_cursor, delete_char_before_cursor, delete_prev_word,
    handle_key_event, insert_char, move_cursor, move_selection, reset_selection, slice_chars,
    slice_input, KeyCode, KeyEffect, KeyPress, TuiState, ViewMode,
};

fn press(code: KeyCode) -> KeyPress {
    KeyPress {
        code,
        control: false,
        alt: false,
        release: false,
    }
}

fn ctrl(c: char) -> KeyPress {
    KeyPress {
        code: KeyCode::Char(c),
        control: true,
        alt: false,
        release: false,
    }
}

fn with_input(input: &str, cursor: usize) -> TuiState {
    let mut state = TuiState::new();
    state.input = input.to_string();
    state.cursor = cursor;
    state
}

fn result(id: &str) -> SearchResult {
    SearchResult {
        id: id.to_string(),
        title: id.to_string(),
        subtitle: String::new(),
        score: 0,
        action_id: "url".to_string(),
    }
}

fn shown(ids: &[&str]) -> CachedSearch {
    let mut actions = ActionMap::new();
    for id in ids {
        actions.insert(id.to_string(), PendingAction::Url(id.to_string()));
    }
    CachedSearch {
        results: ids.iter().map(|id| result(id)).collect(),
        pending_actions: actions,
    }
}

#[test]
fn byte_index_of_a_character_position() {
    let text = "aé中😀b";
    for n in 0..8 {
        let expected = text
            .char_indices()
            .nth(n)
            .map(|(i, _)| i)
            .unwrap_or(text.len());
        assert_eq!(char_to_byte_index(text, n), expected);
    }
    assert_eq!(char_to_byte_index("", 0), 0);
    assert_eq!(char_to_byte_index("", 3), 0);
}

#[test]
fn slices_by_character() {
    assert_eq!(slice_chars("aé中😀b", 1, 4), "é中😀");
    assert_eq!(slice_chars("abc", 0, 10), "abc");
    assert_eq!(slice_chars("abc", 2, 2), "");
    assert_eq!(slice_chars("abc", 3, 1), "");
    assert_eq!(slice_chars("abc", 5, 9), "");
    assert_eq!(slice_input("hello", 2, 0), (String::new(), 0));
    assert_eq!(slice_input("hello", 2, 10), ("hello".to_string(), 2));
    assert_eq!(slice_input("hello", 5, 5), ("hello".to_string(), 5));
    assert_eq!(slice_input("hello world", 3, 5), ("hello".to_string(), 3));
    assert_eq!(slice_input("hello world", 5, 5), ("ello ".to_string(), 4));
    assert_eq!(slice_input("hello world", 11, 5), ("orld".to_string(), 4));
    assert_eq!(slice_input("hello world", 8, 5), ("o wor".to_string(), 4));
}

#[test]
fn cursor_stays_within_the_query() {
    let mut state = with_input("ab", 0);
    move_cursor(&mut state, -1);
    assert_eq!(state.cursor, 0);
    move_cursor(&mut state, 1);
    move_cursor(&mut state, 1);
    assert_eq!(state.cursor, 2);
    move_cursor(&mut state, 1);
    assert_eq!(state.cursor, 2);
    move_cursor(&mut state, -1);
    assert_eq!(state.cursor, 1);
}

#[test]
fn characters_are_typed_and_deleted_at_the_cursor() {
    let mut state = with_input("a中c", 1);
    insert_char(&mut state, 'é');
    assert_eq!((state.input.as_str(), state.cursor), ("aé中c", 2));
    assert!(delete_char_at_cursor(&mut state));
    assert_eq!((state.input.as_str(), state.cursor), ("aéc", 2));
    assert!(delete_char_before_cursor(&mut state));
    assert_eq!((state.input.as_str(), state.cursor), ("ac", 1));
    assert!(delete_char_before_cursor(&mut state));
    assert_eq!((state.input.as_str(), state.cursor), ("c", 0));
    assert!(!delete_char_before_cursor(&mut state));
    assert!(delete_char_at_cursor(&mut state));
    assert!(!delete_char_at_cursor(&mut state));
    assert_eq!((state.input.as_str(), state.cursor), ("", 0));
    insert_char(&mut state, 'x');
    assert_eq!((state.input.as_str(), state.cursor), ("x", 1));
}

#[test]
fn the_word_before_the_cursor_is_deleted() {
    let cases = [
        ("hello world", 11, "hello ", 6),
        ("hello world  ", 13, "hello ", 6),
        ("hello world", 8, "hello rld", 6),
        ("hello world", 6, "world", 0),
        ("hello", 0, "hello", 0),
        ("   ", 3, "", 0),
        ("a\u{3000}中文 x", 4, "a\u{3000} x", 2),
        ("one", 3, "", 0),
    ];
    for (input, cursor, expected, at) in cases {
        let mut state = with_input(input, cursor);
        delete_prev_word(&mut state);
        assert_eq!((state.input.as_str(), state.cursor), (expected, at), "{input:?}");
    }
}

#[test]
fn selection_moves_around_the_results() {
    let mut state = TuiState::new();
    move_selection(&mut state, 1);
    assert_eq!(state.selected, None);
    state.show(shown(&["a", "b", "c"]));
    assert_eq!(state.selected, Some(0));
    move_selection(&mut state, -1);
    assert_eq!(state.selected, Some(2));
    move_selection(&mut state, 1);
    assert_eq!(state.selected, Some(0));
    move_selection(&mut state, 1);
    assert_eq!(state.selected, Some(1));
    state.selected = None;
    move_selection(&mut state, 1);
    assert_eq!(state.selected, Some(1));
    state.selected = Some(9);
    move_selection(&mut state, 1);
    assert_eq!(state.selected, Some(0));
    state.results.clear();
    reset_selection(&mut state);
    assert_eq!(state.selected, None);
}

#[test]
fn typing_asks_for_new_results() {
    let mut config = AppConfig::default();
    let mut state = TuiState::new();
    assert_eq!(
        handle_key_event(press(KeyCode::Char('a')), &mut state, &mut config),
        KeyEffect::Refresh
    );
    assert_eq!(
        handle_key_event(press(KeyCode::Char('b')), &mut state, &mut config),
        KeyEffect::Refresh
    );
    assert_eq!((state.input.as_str(), state.cursor), ("ab", 2));
    let mut alt = press(KeyCode::Char('x'));
    alt.alt = true;
    assert_eq!(handle_key_event(alt, &mut state, &mut config), KeyEffect::Nothing);
    let mut release = press(KeyCode::Char('x'));
    release.release = true;
    assert_eq!(handle_key_event(release, &mut state, &mut config), KeyEffect::Nothing);
    assert_eq!(state.input, "ab");
    assert_eq!(
        handle_key_event(press(KeyCode::Left), &mut state, &mut config),
        KeyEffect::Nothing
    );
    assert_eq!(state.cursor, 1);
    assert_eq!(
        handle_key_event(press(KeyCode::Delete), &mut state, &mut config),
        KeyEffect::Refresh
    );
    assert_eq!(state.input, "a");
    assert_eq!(
        handle_key_event(press(KeyCode::Delete), &mut state, &mut config),
        KeyEffect::Nothing
    );
    assert_eq!(
        handle_key_event(press(KeyCode::Backspace), &mut state, &mut config),
        KeyEffect::Refresh
    );
    assert_eq!(
        handle_key_event(press(KeyCode::Backspace), &mut state, &mut config),
        KeyEffect::Nothing
    );
    assert_eq!((state.input.as_str(), state.cursor), ("", 0));
    state.input = "one two".to_string();
    handle_key_event(press(KeyCode::End), &mut state, &mut config);
    assert_eq!(state.cursor, 7);
    assert_eq!(handle_key_event(ctrl('w'), &mut state, &mut config), KeyEffect::Refresh);
    assert_eq!((state.input.as_str(), state.cursor), ("one ", 4));
    handle_key_event(press(KeyCode::Home), &mut state, &mut config);
    assert_eq!(state.cursor, 0);
    assert_eq!(handle_key_event(ctrl('w'), &mut state, &mut config), KeyEffect::Refresh);
    assert_eq!(state.input, "one ");
    assert_eq!(handle_key_event(ctrl('x'), &mut state, &mut config), KeyEffect::Nothing);
    assert_eq!(
        handle_key_event(press(KeyCode::Other), &mut state, &mut config),
        KeyEffect::Nothing
    );
    assert!(!state.should_quit);
    assert_eq!(config, AppConfig::default());
}

#[test]
fn quitting_and_choosing() {
    let mut config = AppConfig::default();
    let mut state = with_input("q", 1);
    handle_key_event(press(KeyCode::Esc), &mut state, &mut config);
    assert!(state.should_quit);
    assert!(state.pending_action.is_none());

    let mut state = with_input("q", 1);
    handle_key_event(ctrl('c'), &mut state, &mut config);
    assert!(state.should_quit);

    let mut state = with_input("q", 1);
    state.show(shown(&["a", "b"]));
    handle_key_event(press(KeyCode::Down), &mut state, &mut config);
    handle_key_event(ctrl('n'), &mut state, &mut config);
    handle_key_event(ctrl('p'), &mut state, &mut config);
    handle_key_event(press(KeyCode::Up), &mut state, &mut config);
    handle_key_event(press(KeyCode::Up), &mut state, &mut config);
    assert_eq!(state.selected, Some(1));
    handle_key_event(press(KeyCode::Enter), &mut state, &mut config);
    assert!(state.should_quit);
    assert_eq!(state.pending_result, Some(result("b")));
    assert_eq!(state.pending_action, Some(PendingAction::Url("b".to_string())));

    // Without a selection, or without an action, Enter does nothing.
    let mut state = with_input("q", 1);
    handle_key_event(press(KeyCode::Enter), &mut state, &mut config);
    assert!(!state.should_quit);
    state.show(shown(&["a"]));
    state.pending_actions = ActionMap::new();
    handle_key_event(press(KeyCode::Enter), &mut state, &mut config);
    assert!(!state.should_quit);
    state.show(shown(&["a"]));
    state.selected = Some(5);
    handle_key_event(press(KeyCode::Enter), &mut state, &mut config);
    assert!(!state.should_quit);
}

#[test]
fn arrows_open_the_settings_on_a_blank_query() {
    let mut config = AppConfig::default();
    let mut state = with_input("  ", 1);
    state.settings.status = Some("old".to_string());
    assert_eq!(state.view_mode.label(), "search");
    handle_key_event(press(KeyCode::Right), &mut state, &mut config);
    assert_eq!(state.view_mode, ViewMode::Settings);
    assert_eq!(state.view_mode.label(), "settings");
    assert_eq!(state.settings.status, None);
    assert_eq!(state.cursor, 1);

    // Down, down, then Enter begins an edit of the result limit.
    handle_key_event(press(KeyCode::Down), &mut state, &mut config);
    handle_key_event(press(KeyCode::Down), &mut state, &mut config);
    assert_eq!(state.settings.selected, 2);
    assert_eq!(
        handle_key_event(press(KeyCode::Enter), &mut state, &mut config),
        KeyEffect::Settings(SettingChange::Unchanged)
    );
    let editing = state.settings.editing.as_ref().unwrap();
    assert_eq!((editing.id, editing.buffer.as_str()), (SettingId::MaxResults, "10"));
    handle_key_event(press(KeyCode::Backspace), &mut state, &mut config);
    handle_key_event(press(KeyCode::Backspace), &mut state, &mut config);
    handle_key_event(press(KeyCode::Backspace), &mut state, &mut config);
    handle_key_event(press(KeyCode::Char('x')), &mut state, &mut config);
    handle_key_event(press(KeyCode::Char('4')), &mut state, &mut config);
    handle_key_event(press(KeyCode::Char('2')), &mut state, &mut config);
    handle_key_event(press(KeyCode::Up), &mut state, &mut config);
    assert_eq!(state.settings.editing.as_ref().unwrap().buffer, "42");
    assert_eq!(state.settings.selected, 2);
    assert_eq!(
        handle_key_event(press(KeyCode::Enter), &mut state, &mut config),
        KeyEffect::Settings(SettingChange::Changed)
    );
    assert_eq!(config.max_results, 42);
    assert!(state.settings.editing.is_none());

    // Escape gives an edit up.
    handle_key_event(press(KeyCode::Enter), &mut state, &mut config);
    handle_key_event(press(KeyCode::Char('7')), &mut state, &mut config);
    assert_eq!(
        handle_key_event(press(KeyCode::Esc), &mut state, &mut config),
        KeyEffect::Nothing
    );
    assert!(state.settings.editing.is_none());
    assert_eq!(config.max_results, 42);
    assert!(!state.should_quit);

    // An edit that is refused ends too, and says why.
    handle_key_event(press(KeyCode::Enter), &mut state, &mut config);
    handle_key_event(press(KeyCode::Backspace), &mut state, &mut config);
    handle_key_event(press(KeyCode::Backspace), &mut state, &mut config);
    assert_eq!(
        handle_key_event(press(KeyCode::Enter), &mut state, &mut config),
        KeyEffect::Settings(SettingChange::Unchanged)
    );
    assert_eq!(state.settings.status.as_deref(), Some("Invalid number"));
    assert!(state.settings.editing.is_none());

    // Space flips a switch.
    handle_key_event(press(KeyCode::Up), &mut state, &mut config);
    handle_key_event(press(KeyCode::Up), &mut state, &mut config);
    handle_key_event(press(KeyCode::Up), &mut state, &mut config);
    assert_eq!(state.settings.selected, 7);
    assert_eq!(
        handle_key_event(press(KeyCode::Char(' ')), &mut state, &mut config),
        KeyEffect::Settings(SettingChange::StartupChanged { enabled: true })
    );
    assert_eq!(
        handle_key_event(press(KeyCode::Char('x')), &mut state, &mut config),
        KeyEffect::Nothing
    );
    // And an arrow goes back to the search.
    handle_key_event(press(KeyCode::Left), &mut state, &mut config);
    assert_eq!(state.view_mode, ViewMode::Search);
    assert_eq!(state.settings.status, None);
    assert_eq!(state.input, "  ");
}

#[test]
fn a_cursor_beyond_the_query_is_tolerated() {
    let mut state = with_input("ab", 7);
    insert_char(&mut state, 'c');
    assert_eq!((state.input.as_str(), state.cursor), ("abc", 3));

    let mut state = with_input("ab", usize::MAX);
    insert_char(&mut state, 'c');
    assert_eq!((state.input.as_str(), state.cursor), ("abc", 3));

    // Going back from beyond the end passes no character.
    let mut state = with_input("ab", 4);
    assert!(delete_char_before_cursor(&mut state));
    assert_eq!((state.input.as_str(), state.cursor), ("ab", 3));
    assert!(delete_char_before_cursor(&mut state));
    assert_eq!((state.input.as_str(), state.cursor), ("ab", 2));
    assert!(delete_char_before_cursor(&mut state));
    assert_eq!((state.input.as_str(), state.cursor), ("a", 1));

    let mut state = with_input("ab", usize::MAX);
    assert!(!delete_char_at_cursor(&mut state));
    move_cursor(&mut state, 1);
    assert_eq!(state.cursor, usize::MAX);
    delete_prev_word(&mut state);
    assert_eq!((state.input.as_str(), state.cursor), ("", 0));

    let mut config = AppConfig::default();
    let mut state = with_input("ab", usize::MAX);
    assert_eq!(
        handle_key_event(press(KeyCode::Char('x')), &mut state, &mut config),
        KeyEffect::Refresh
    );
    assert_eq!((state.input.as_str(), state.cursor), ("abx", 3));
    let mut state = with_input("ab", usize::MAX);
    assert_eq!(
        handle_key_event(press(KeyCode::Backspace), &mut state, &mut config),
        KeyEffect::Refresh
    );
    assert_eq!((state.input.as_str(), state.cursor), ("ab", usize::MAX - 1));
}
