use egg::hotkey_capture::{
    build_shortcut_catalog, handle_shortcut_event, key_entry, modifier_literals,
    registration_failed, start, stop, CaptureEvent, KEY_COUNT,
};

#[test]
fn modifiers_in_fixed_order() {
    let both = |a: &str, b: &str| (a.to_string(), b.to_string());
    assert_eq!(modifier_literals(0), both("", ""));
    assert_eq!(modifier_literals(1), both("control", "Ctrl"));
    assert_eq!(modifier_literals(2), both("shift", "Shift"));
    assert_eq!(modifier_literals(3), both("shift+control", "Shift+Ctrl"));
    assert_eq!(modifier_literals(4), both("alt", "Alt"));
    assert_eq!(modifier_literals(8), both("super", "Win"));
    assert_eq!(modifier_literals(12), both("alt+super", "Alt+Win"));
    assert_eq!(
        modifier_literals(15),
        both("shift+control+alt+super", "Shift+Ctrl+Alt+Win")
    );
    assert_eq!(modifier_literals(16), both("", ""));
    assert_eq!(modifier_literals(0xF1), both("control", "Ctrl"));
}

#[test]
fn keys_of_the_catalogue() {
    assert_eq!(KEY_COUNT, 86);
    let entry = |i: usize| {
        let e = key_entry(i);
        (e.literal, e.display, e.allow_plain)
    };
    let key = |l: &str, d: &str, p: bool| (l.to_string(), d.to_string(), p);
    assert_eq!(entry(0), key("KeyA", "A", false));
    assert_eq!(entry(25), key("KeyZ", "Z", false));
    assert_eq!(entry(26), key("Digit0", "0", false));
    assert_eq!(entry(35), key("Digit9", "9", false));
    assert_eq!(entry(36), key("Minus", "-", false));
    assert_eq!(entry(40), key("Backslash", "\\", false));
    assert_eq!(entry(46), key("Backquote", "`", false));
    assert_eq!(entry(57), key("ArrowUp", "Up", false));
    assert_eq!(entry(61), key("Escape", "Esc", false));
    assert_eq!(entry(62), key("F1", "F1", true));
    assert_eq!(entry(71), key("F10", "F10", true));
    assert_eq!(entry(85), key("F24", "F24", true));
}

#[test]
fn the_catalogue_lists_every_combination() {
    let (shortcuts, display) = build_shortcut_catalog();
    assert_eq!(shortcuts.len(), 1 + 62 * 15 + 24 * 16);
    assert_eq!(shortcuts[0], "Escape");
    assert_eq!(shortcuts[1], "control+KeyA");
    assert_eq!(shortcuts[2], "shift+KeyA");
    assert_eq!(shortcuts[3], "shift+control+KeyA");
    assert_eq!(shortcuts[15], "shift+control+alt+super+KeyA");
    assert_eq!(shortcuts[16], "control+KeyB");
    assert_eq!(shortcuts[1 + 62 * 15], "F1");
    assert_eq!(shortcuts[2 + 62 * 15], "control+F1");
    assert_eq!(shortcuts.last().unwrap(), "shift+control+alt+super+F24");
    assert_eq!(display.len(), 62 * 15 + 24 * 16);
    assert_eq!(display.get("shift+control+keya").map(|s| s.as_str()), Some("Shift+Ctrl+A"));
    assert_eq!(display.get("alt+space").map(|s| s.as_str()), Some("Alt+Space"));
    assert_eq!(display.get("super+arrowleft").map(|s| s.as_str()), Some("Win+Left"));
    assert_eq!(display.get("f5").map(|s| s.as_str()), Some("F5"));
    assert_eq!(display.get("control+f12").map(|s| s.as_str()), Some("Ctrl+F12"));
    assert_eq!(display.get("control+escape").map(|s| s.as_str()), Some("Ctrl+Esc"));
    assert!(display.get("keya").is_none());
    assert!(display.get("escape").is_none());
    assert!(display.get("Shift+Control+KeyA").is_none());
}

#[test]
fn a_capture_session() {
    assert_eq!(
        start(true, None).err(),
        Some("已有快捷键捕捉任务在进行".to_string())
    );
    let session = start(false, Some("Alt+Space".to_string())).ok().unwrap();
    assert_eq!(session.registered_shortcuts.len(), 1315);
    assert_eq!(session.previous_hotkey.as_deref(), Some("Alt+Space"));

    assert_eq!(
        handle_shortcut_event(&session, "Escape", false),
        CaptureEvent::Ignored
    );
    assert_eq!(
        handle_shortcut_event(&session, "shift+KeyA", false),
        CaptureEvent::Ignored
    );
    assert_eq!(
        handle_shortcut_event(&session, "ESCAPE", true),
        CaptureEvent::Cancelled
    );
    assert_eq!(
        handle_shortcut_event(&session, "shift+alt+KeyK", true),
        CaptureEvent::Captured("Shift+Alt+K".to_string())
    );
    assert_eq!(
        handle_shortcut_event(&session, "F9", true),
        CaptureEvent::Captured("F9".to_string())
    );
    assert_eq!(
        handle_shortcut_event(&session, "KeyK", true),
        CaptureEvent::Invalid
    );
    assert_eq!(
        handle_shortcut_event(&session, "", true),
        CaptureEvent::Invalid
    );

    let plan = stop(session);
    assert_eq!(plan.unregister.len(), 1315);
    assert_eq!(plan.unregister[0], "Escape");
    assert_eq!(plan.rebind.as_deref(), Some("Alt+Space"));

    let failed = start(false, None).ok().unwrap();
    assert_eq!(
        registration_failed(failed),
        (None, "无法注册快捷键捕捉监听".to_string())
    );
}
