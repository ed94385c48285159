//! Capturing a new global hotkey: the catalogue of key combinations that are
//! listened for while capturing, and what a captured combination means. A
//! capture is a session that the host starts, feeds with the combinations it
//! hears, and stops.

use crate::text::{
    ascii_lower, concat_str, decimal, decimal_chars, join_strings, joined_with, lower_str, opt_view,
    str_eq, string_of, views,
};
use vstd::hash_map::StringHashMap;
use vstd::prelude::*;

verus! {

/// Bit of the Control key in a modifier mask.
pub const MOD_CTRL: u8 = 1;

/// Bit of the Shift key in a modifier mask.
pub const MOD_SHIFT: u8 = 2;

/// Bit of the Alt key in a modifier mask.
pub const MOD_ALT: u8 = 4;

/// Bit of the Super key in a modifier mask.
pub const MOD_SUPER: u8 = 8;

/// Number of keys in the catalogue.
pub const KEY_COUNT: usize = 86;

/// What is reported when a capture is started while another one runs.
pub open spec fn busy_message() -> Seq<char> {
    "已有快捷键捕捉任务在进行"@
}

/// What is reported when the combinations cannot be registered.
pub open spec fn registration_failed_message() -> Seq<char> {
    "无法注册快捷键捕捉监听"@
}

/// The names of the modifiers of a mask as they are registered, in the
/// order Shift, Control, Alt, Super.
pub open spec fn modifier_names(mask: u8) -> Seq<Seq<char>> {
    (if mask & 2 != 0 {
        seq!["shift"@]
    } else {
        Seq::empty()
    }) + (if mask & 1 != 0 {
        seq!["control"@]
    } else {
        Seq::empty()
    }) + (if mask & 4 != 0 {
        seq!["alt"@]
    } else {
        Seq::empty()
    }) + (if mask & 8 != 0 {
        seq!["super"@]
    } else {
        Seq::empty()
    })
}

/// The names of the modifiers of a mask as they are shown, in the same order.
pub open spec fn modifier_labels(mask: u8) -> Seq<Seq<char>> {
    (if mask & 2 != 0 {
        seq!["Shift"@]
    } else {
        Seq::empty()
    }) + (if mask & 1 != 0 {
        seq!["Ctrl"@]
    } else {
        Seq::empty()
    }) + (if mask & 4 != 0 {
        seq!["Alt"@]
    } else {
        Seq::empty()
    }) + (if mask & 8 != 0 {
        seq!["Win"@]
    } else {
        Seq::empty()
    })
}

/// The modifiers of a mask joined by plus signs: as registered, and as shown.
pub fn modifier_literals(mask: u8) -> (r: (String, String))
    ensures
        r.0@ == joined_with(modifier_names(mask), "+"@),
        r.1@ == joined_with(modifier_labels(mask), "+"@),
{
    let mut shortcut_parts: Vec<String> = Vec::new();
    let mut display_parts: Vec<String> = Vec::new();
    if mask & MOD_SHIFT != 0 {
        shortcut_parts.push("shift".to_owned());
        display_parts.push("Shift".to_owned());
    }
    if mask & MOD_CTRL != 0 {
        shortcut_parts.push("control".to_owned());
        display_parts.push("Ctrl".to_owned());
    }
    if mask & MOD_ALT != 0 {
        shortcut_parts.push("alt".to_owned());
        display_parts.push("Alt".to_owned());
    }
    if mask & MOD_SUPER != 0 {
        shortcut_parts.push("super".to_owned());
        display_parts.push("Win".to_owned());
    }
    assert(views(shortcut_parts@) =~= modifier_names(mask));
    assert(views(display_parts@) =~= modifier_labels(mask));
    (join_strings(&shortcut_parts, "+"), join_strings(&display_parts, "+"))
}

/// One key of the catalogue.
#[derive(Debug, PartialEq, Eq)]
pub struct KeyEntry {
    /// The key's name as it is registered.
    pub literal: String,
    /// The key's name as it is shown.
    pub display: String,
    /// Whether the key alone, without a modifier, can be a hotkey.
    pub allow_plain: bool,
}

/// What a `KeyEntry` holds, as plain values.
pub struct KeyView {
    pub literal: Seq<char>,
    pub display: Seq<char>,
    pub allow_plain: bool,
}

impl View for KeyEntry {
    type V = KeyView;

    open spec fn view(&self) -> KeyView {
        KeyView { literal: self.literal@, display: self.display@, allow_plain: self.allow_plain }
    }
}

/// The names, as registered and as shown, of the keys that are neither
/// letters, digits nor function keys, by their position among them.
pub open spec fn special_key(index: int) -> (Seq<char>, Seq<char>) {
    if index == 0 {
        ("Minus"@, "-"@)
    } else if index == 1 {
        ("Equal"@, "="@)
    } else if index == 2 {
        ("BracketLeft"@, "["@)
    } else if index == 3 {
        ("BracketRight"@, "]"@)
    } else if index == 4 {
        ("Backslash"@, "\\"@)
    } else if index == 5 {
        ("Semicolon"@, ";"@)
    } else if index == 6 {
        ("Quote"@, "'"@)
    } else if index == 7 {
        ("Comma"@, ","@)
    } else if index == 8 {
        ("Period"@, "."@)
    } else if index == 9 {
        ("Slash"@, "/"@)
    } else if index == 10 {
        ("Backquote"@, "`"@)
    } else if index == 11 {
        ("Space"@, "Space"@)
    } else if index == 12 {
        ("Tab"@, "Tab"@)
    } else if index == 13 {
        ("Enter"@, "Enter"@)
    } else if index == 14 {
        ("Backspace"@, "Backspace"@)
    } else if index == 15 {
        ("Delete"@, "Delete"@)
    } else if index == 16 {
        ("Insert"@, "Insert"@)
    } else if index == 17 {
        ("Home"@, "Home"@)
    } else if index == 18 {
        ("End"@, "End"@)
    } else if index == 19 {
        ("PageUp"@, "PageUp"@)
    } else if index == 20 {
        ("PageDown"@, "PageDown"@)
    } else if index == 21 {
        ("ArrowUp"@, "Up"@)
    } else if index == 22 {
        ("ArrowDown"@, "Down"@)
    } else if index == 23 {
        ("ArrowLeft"@, "Left"@)
    } else if index == 24 {
        ("ArrowRight"@, "Right"@)
    } else {
        ("Escape"@, "Esc"@)
    }
}

/// The key at a position of the catalogue: the 26 letters, the 10 digits,
/// the 26 other keys, and the 24 function keys, which alone can be hotkeys
/// without a modifier.
pub open spec fn key_at(index: int) -> KeyView {
    if index < 26 {
        KeyView {
            literal: "Key"@.push((65 + index) as u8 as char),
            display: seq![(65 + index) as u8 as char],
            allow_plain: false,
        }
    } else if index < 36 {
        KeyView {
            literal: "Digit"@.push((48 + index - 26) as u8 as char),
            display: seq![(48 + index - 26) as u8 as char],
            allow_plain: false,
        }
    } else if index < 62 {
        KeyView {
            literal: special_key(index - 36).0,
            display: special_key(index - 36).1,
            allow_plain: false,
        }
    } else {
        KeyView {
            literal: "F"@ + decimal((index - 61) as nat),
            display: "F"@ + decimal((index - 61) as nat),
            allow_plain: true,
        }
    }
}

/// The names of a key that is neither letter, digit nor function key.
fn special_entry(index: usize) -> (r: (&'static str, &'static str))
    requires
        index < 26,
    ensures
        (r.0@, r.1@) == special_key(index as int),
{
    if index == 0 {
        ("Minus", "-")
    } else if index == 1 {
        ("Equal", "=")
    } else if index == 2 {
        ("BracketLeft", "[")
    } else if index == 3 {
        ("BracketRight", "]")
    } else if index == 4 {
        ("Backslash", "\\")
    } else if index == 5 {
        ("Semicolon", ";")
    } else if index == 6 {
        ("Quote", "'")
    } else if index == 7 {
        ("Comma", ",")
    } else if index == 8 {
        ("Period", ".")
    } else if index == 9 {
        ("Slash", "/")
    } else if index == 10 {
        ("Backquote", "`")
    } else if index == 11 {
        ("Space", "Space")
    } else if index == 12 {
        ("Tab", "Tab")
    } else if index == 13 {
        ("Enter", "Enter")
    } else if index == 14 {
        ("Backspace", "Backspace")
    } else if index == 15 {
        ("Delete", "Delete")
    } else if index == 16 {
        ("Insert", "Insert")
    } else if index == 17 {
        ("Home", "Home")
    } else if index == 18 {
        ("End", "End")
    } else if index == 19 {
        ("PageUp", "PageUp")
    } else if index == 20 {
        ("PageDown", "PageDown")
    } else if index == 21 {
        ("ArrowUp", "Up")
    } else if index == 22 {
        ("ArrowDown", "Down")
    } else if index == 23 {
        ("ArrowLeft", "Left")
    } else if index == 24 {
        ("ArrowRight", "Right")
    } else {
        ("Escape", "Esc")
    }
}

/// The key at a position of the catalogue.
pub fn key_entry(index: usize) -> (r: KeyEntry)
    requires
        index < KEY_COUNT,
    ensures
        r@ == key_at(index as int),
{
    if index < 26 {
        let letter = (65u8 + (index as u8)) as char;
        let mut literal = "Key".to_owned();
        literal.push(letter);
        let mut display = String::new();
        display.push(letter);
        assert(display@ =~= seq![letter]);
        KeyEntry { literal, display, allow_plain: false }
    } else if index < 36 {
        let digit = (48u8 + ((index - 26) as u8)) as char;
        let mut literal = "Digit".to_owned();
        literal.push(digit);
        let mut display = String::new();
        display.push(digit);
        assert(display@ =~= seq![digit]);
        KeyEntry { literal, display, allow_plain: false }
    } else if index < 62 {
        let (literal, display) = special_entry(index - 36);
        KeyEntry { literal: literal.to_owned(), display: display.to_owned(), allow_plain: false }
    } else {
        let number = string_of(&decimal_chars(index - 61));
        KeyEntry {
            literal: concat_str("F", number.as_str()),
            display: concat_str("F", number.as_str()),
            allow_plain: true,
        }
    }
}

/// One combination of the catalogue: how it is registered and how it is shown.
pub struct Combination {
    pub literal: Seq<char>,
    pub display: Seq<char>,
}

/// The combination of a key with the modifiers of a mask; nothing for a mask
/// without modifiers.
pub open spec fn combination(key: KeyView, mask: u8) -> Option<Combination> {
    let names = joined_with(modifier_names(mask), "+"@);
    if names.len() == 0 {
        None
    } else {
        Some(
            Combination {
                literal: names + "+"@ + key.literal,
                display: joined_with(modifier_labels(mask), "+"@) + "+"@ + key.display,
            },
        )
    }
}

/// The combinations of one key with the masks from 1 up to `upto`, before
/// them the key alone where it can be a hotkey by itself.
pub open spec fn key_combinations(key: KeyView, upto: nat) -> Seq<Combination>
    decreases upto,
{
    if upto == 0 {
        if key.allow_plain {
            seq![Combination { literal: key.literal, display: key.display }]
        } else {
            Seq::empty()
        }
    } else {
        let before = key_combinations(key, (upto - 1) as nat);
        match combination(key, upto as u8) {
            Some(c) => before.push(c),
            None => before,
        }
    }
}

/// The combinations of the first `count` keys of the catalogue, each with
/// every mask from 1 to 15.
pub open spec fn catalog(count: nat) -> Seq<Combination>
    decreases count,
{
    if count == 0 {
        Seq::empty()
    } else {
        catalog((count - 1) as nat) + key_combinations(key_at(count - 1), 15)
    }
}

/// The names to register for a capture: `Escape`, which cancels it, and then
/// every combination.
pub open spec fn registered_names(combinations: Seq<Combination>) -> Seq<Seq<char>> {
    seq!["Escape"@] + Seq::new(combinations.len(), |i: int| combinations[i].literal)
}

/// How each combination is shown, by its registered name in lower case.
pub open spec fn display_names(combinations: Seq<Combination>) -> Map<Seq<char>, Seq<char>>
    decreases combinations.len(),
{
    if combinations.len() == 0 {
        Map::empty()
    } else {
        display_names(combinations.drop_last()).insert(
            ascii_lower(combinations.last().literal),
            combinations.last().display,
        )
    }
}

/// The texts that a map from names to strings holds.
pub open spec fn shown(map: Map<Seq<char>, String>) -> Map<Seq<char>, Seq<char>> {
    Map::new(|k: Seq<char>| map.contains_key(k), |k: Seq<char>| map[k]@)
}

/// The names to register for a capture and how each combination is shown.
pub fn build_shortcut_catalog() -> (r: (Vec<String>, StringHashMap<String>))
    ensures
        views(r.0@) == registered_names(catalog(KEY_COUNT as nat)),
        shown(r.1@) == display_names(catalog(KEY_COUNT as nat)),
{
    let mut shortcuts: Vec<String> = Vec::new();
    let mut display_map: StringHashMap<String> = StringHashMap::new();
    shortcuts.push("Escape".to_owned());
    assert(views(shortcuts@) =~= registered_names(catalog(0)));
    assert(shown(display_map@) =~= display_names(catalog(0)));
    let mut k: usize = 0;
    while k < KEY_COUNT
        invariant
            k <= KEY_COUNT,
            views(shortcuts@) == registered_names(catalog(k as nat)),
            shown(display_map@) == display_names(catalog(k as nat)),
        decreases KEY_COUNT - k,
    {
        let entry = key_entry(k);
        let ghost key = key_at(k as int);
        let ghost done = catalog(k as nat);
        if entry.allow_plain {
            let ghost names = views(shortcuts@);
            let ghost texts = shown(display_map@);
            shortcuts.push(entry.literal.clone());
            display_map.insert(lower_str(entry.literal.as_str()), entry.display.clone());
            proof {
                let plain = Combination { literal: key.literal, display: key.display };
                assert((done + key_combinations(key, 0)).drop_last() =~= done);
                assert(views(shortcuts@) =~= names.push(key.literal));
                assert(views(shortcuts@) =~= registered_names(done + key_combinations(key, 0)));
                assert(shown(display_map@) =~= texts.insert(ascii_lower(key.literal), key.display));
            }
        } else {
            assert(done + key_combinations(key, 0) =~= done);
        }
        let mut mask: u8 = 1;
        while mask <= 15
            invariant
                1 <= mask <= 16,
                entry@ == key,
                views(shortcuts@) == registered_names(
                    done + key_combinations(key, (mask - 1) as nat),
                ),
                shown(display_map@) == display_names(
                    done + key_combinations(key, (mask - 1) as nat),
                ),
            decreases 16 - mask,
        {
            let ghost sofar = done + key_combinations(key, (mask - 1) as nat);
            let (modifier_literal, display_literal) = modifier_literals(mask);
            if !modifier_literal.as_str().is_empty() {
                let ghost names = views(shortcuts@);
                let ghost texts = shown(display_map@);
                let with_plus = concat_str(modifier_literal.as_str(), "+");
                let shortcut_literal = concat_str(with_plus.as_str(), entry.literal.as_str());
                let with_plus = concat_str(display_literal.as_str(), "+");
                let display_string = concat_str(with_plus.as_str(), entry.display.as_str());
                display_map.insert(lower_str(shortcut_literal.as_str()), display_string);
                shortcuts.push(shortcut_literal);
                proof {
                    let c = combination(key, mask).unwrap();
                    let next = done + key_combinations(key, mask as nat);
                    assert(next =~= sofar.push(c));
                    assert(next.drop_last() =~= sofar);
                    assert(views(shortcuts@) =~= names.push(c.literal));
                    assert(views(shortcuts@) =~= registered_names(next));
                    assert(shown(display_map@) =~= texts.insert(ascii_lower(c.literal), c.display));
                }
            } else {
                assert(done + key_combinations(key, mask as nat) =~= sofar);
            }
            mask += 1;
        }
        assert(done + key_combinations(key, 15) =~= catalog((k + 1) as nat));
        k += 1;
    }
    (shortcuts, display_map)
}

/// A capture in progress.
pub struct CaptureSession {
    /// The names that were registered for the capture.
    pub registered_shortcuts: Vec<String>,
    /// How each combination is shown, by its registered name in lower case.
    pub display_map: StringHashMap<String>,
    /// The hotkey that was bound before the capture and is bound again after it.
    pub previous_hotkey: Option<String>,
}

/// What a combination heard during a capture means.
#[derive(Debug, PartialEq, Eq)]
pub enum CaptureEvent {
    /// The key was not pressed but released: nothing happens.
    Ignored,
    /// Escape was pressed: the capture ends without a hotkey.
    Cancelled,
    /// A combination of the catalogue was pressed: the capture ends with it,
    /// shown as given.
    Captured(String),
    /// Something else was pressed: the capture goes on.
    Invalid,
}

/// What ends a capture: the names to unregister and the hotkey to bind again.
#[derive(Debug, PartialEq, Eq)]
pub struct StopPlan {
    pub unregister: Vec<String>,
    pub rebind: Option<String>,
}

/// Starts a capture. `active` says whether a capture is already running, in
/// which case none is started; `previous_hotkey` is the hotkey bound so far,
/// which the host unbinds before it registers the session's names.
pub fn start(active: bool, previous_hotkey: Option<String>) -> (r: Result<CaptureSession, String>)
    ensures
        match r {
            Ok(session) => {
                &&& !active
                &&& views(session.registered_shortcuts@) == registered_names(
                    catalog(KEY_COUNT as nat),
                )
                &&& shown(session.display_map@) == display_names(catalog(KEY_COUNT as nat))
                &&& opt_view(session.previous_hotkey) == opt_view(previous_hotkey)
            },
            Err(message) => active && message@ == busy_message(),
        },
{
    if active {
        return Err("已有快捷键捕捉任务在进行".to_owned());
    }
    let (registered_shortcuts, display_map) = build_shortcut_catalog();
    Ok(CaptureSession { registered_shortcuts, display_map, previous_hotkey })
}

/// Gives up a session whose names could not be registered: the hotkey to bind
/// again, and what is reported.
pub fn registration_failed(session: CaptureSession) -> (r: (Option<String>, String))
    ensures
        opt_view(r.0) == opt_view(session.previous_hotkey),
        r.1@ == registration_failed_message(),
{
    (session.previous_hotkey, "无法注册快捷键捕捉监听".to_owned())
}

/// Ends a capture.
pub fn stop(session: CaptureSession) -> (r: StopPlan)
    ensures
        views(r.unregister@) == views(session.registered_shortcuts@),
        opt_view(r.rebind) == opt_view(session.previous_hotkey),
{
    StopPlan { unregister: session.registered_shortcuts, rebind: session.previous_hotkey }
}

/// What a combination heard during the capture means. `shortcut` is the
/// combination's registered name; `pressed` says whether the key went down.
pub fn handle_shortcut_event(session: &CaptureSession, shortcut: &str, pressed: bool) -> (r:
    CaptureEvent)
    ensures
        !pressed ==> r == CaptureEvent::Ignored,
        pressed && ascii_lower(shortcut@) == "escape"@ ==> r == CaptureEvent::Cancelled,
        pressed && ascii_lower(shortcut@) != "escape"@ ==> (
        match r {
            CaptureEvent::Captured(display) => shown(session.display_map@).contains_key(
                ascii_lower(shortcut@),
            ) && shown(session.display_map@)[ascii_lower(shortcut@)] == display@,
            CaptureEvent::Invalid => !shown(session.display_map@).contains_key(
                ascii_lower(shortcut@),
            ),
            _ => false,
        }),
{
    if !pressed {
        return CaptureEvent::Ignored;
    }
    let normalized = lower_str(shortcut);
    if str_eq(normalized.as_str(), "escape") {
        return CaptureEvent::Cancelled;
    }
    match session.display_map.get(normalized.as_str()) {
        Some(display) => CaptureEvent::Captured(display.clone()),
        None => CaptureEvent::Invalid,
    }
}

} // verus!
