use egg::models::AppType;
use egg::shortcuts::{
    decode_shortcut_contents, decode_utf16, infer_shell_app_type, internet_shortcut_to_application,
    is_blacklisted_shell_item, looks_like_file_path, looks_like_uninstaller,
    parse_internet_shortcut, parse_shortcut_text, shell_application, wide_to_string,
    InternetShortcutInfo,
};

fn info(url: &str, description: Option<&str>) -> InternetShortcutInfo {
    InternetShortcutInfo {
        url: url.to_string(),
        description: description.map(|d| d.to_string()),
    }
}

#[test]
fn file_paths_and_uninstallers() {
    assert!(looks_like_file_path("C:\\Windows\\notepad.exe"));
    assert!(looks_like_file_path("c:/tools/x"));
    assert!(looks_like_file_path("\\\\server\\share"));
    assert!(looks_like_file_path("steam://run/1"));
    assert!(!looks_like_file_path("Microsoft.WindowsCalculator_8wekyb3d8bbwe!App"));
    assert!(!looks_like_file_path("\\single"));
    assert!(!looks_like_file_path(""));
    assert!(looks_like_uninstaller("Uninstall Foo"));
    assert!(looks_like_uninstaller("C:\\foo\\UNINS000.exe"));
    assert!(!looks_like_uninstaller("Installer"));
    assert!(!looks_like_uninstaller(""));
}

#[test]
fn shell_app_types() {
    assert_eq!(
        infer_shell_app_type("shell:AppsFolder\\Microsoft.Store_8wekyb!App"),
        AppType::Uwp
    );
    assert_eq!(
        infer_shell_app_type("shell:AppsFolder\\NoBang"),
        AppType::Win32
    );
    assert_eq!(
        infer_shell_app_type("Microsoft.Store_8wekyb!App"),
        AppType::Win32
    );
    assert_eq!(infer_shell_app_type("C:\\a!b.exe"), AppType::Win32);
}

#[test]
fn blacklisted_shell_items() {
    // Uninstallers, by either name.
    assert!(is_blacklisted_shell_item("Uninstall X", "C:\\x.exe", true, Some("exe")));
    assert!(is_blacklisted_shell_item("X", "C:\\unins000.exe", true, Some("exe")));
    // A blank parsing name.
    assert!(is_blacklisted_shell_item("X", "   ", true, None));
    // A file path that is no file.
    assert!(is_blacklisted_shell_item("X", "C:\\gone.exe", false, Some("exe")));
    // Data files.
    for ext in ["dll", "SYS", "Drv", "pnf", "mui", "dat", "LOG"] {
        assert!(is_blacklisted_shell_item("X", "C:\\x.bin", true, Some(ext)), "{ext}");
    }
    assert!(!is_blacklisted_shell_item("X", "C:\\x.exe", true, Some("exe")));
    assert!(!is_blacklisted_shell_item("X", "C:\\x", true, None));
    // What is no file path is not looked up.
    assert!(!is_blacklisted_shell_item("X", "Vendor.App_id!App", false, Some("dll")));
}

#[test]
fn shell_items_become_applications() {
    let app = shell_application(
        "微信".to_string(),
        "C:\\Program Files\\WeChat\\WeChat.exe".to_string(),
    );
    assert_eq!(app.id, "shell:c:\\program files\\wechat\\wechat.exe");
    assert_eq!(app.name, "微信");
    assert_eq!(app.path, "C:\\Program Files\\WeChat\\WeChat.exe");
    assert_eq!(app.source_path, None);
    assert_eq!(app.app_type, AppType::Win32);
    assert_eq!(app.description, None);
    assert_eq!(
        app.keywords,
        vec!["C:\\Program Files\\WeChat\\WeChat.exe", "微信"]
    );
    assert_eq!(app.pinyin_index.as_deref(), Some("weixin|wx"));
    let same = shell_application("Calc".to_string(), "Calc".to_string());
    assert_eq!(same.keywords, vec!["Calc"]);
    assert_eq!(same.pinyin_index, None);
    let store = shell_application(
        "Store".to_string(),
        "shell:AppsFolder\\Store!App".to_string(),
    );
    assert_eq!(store.app_type, AppType::Uwp);
}

#[test]
fn utf16_bytes_are_decoded_in_both_orders() {
    let text = "[InternetShortcut]\r\nURL=steam://run/1 é 中 😀";
    let units: Vec<u16> = text.encode_utf16().collect();
    let le: Vec<u8> = units.iter().flat_map(|u| u.to_le_bytes()).collect();
    let be: Vec<u8> = units.iter().flat_map(|u| u.to_be_bytes()).collect();
    assert_eq!(decode_utf16(&le, true), text);
    assert_eq!(decode_utf16(&be, false), text);
    // A last odd byte is left out; an unpaired surrogate becomes U+FFFD.
    assert_eq!(decode_utf16(&[0x41, 0x00, 0x42], true), "A");
    assert_eq!(decode_utf16(&[0x00, 0xD8, 0x41, 0x00], true), "\u{fffd}A");
    assert_eq!(decode_utf16(&[], true), "");
}

#[test]
fn shortcut_contents_by_byte_order_mark() {
    let mut le = vec![0xFF, 0xFE];
    le.extend("ab".encode_utf16().flat_map(|u| u.to_le_bytes()));
    assert_eq!(decode_shortcut_contents(&le), Some("ab".to_string()));
    let mut be = vec![0xFE, 0xFF];
    be.extend("ab".encode_utf16().flat_map(|u| u.to_be_bytes()));
    assert_eq!(decode_shortcut_contents(&be), Some("ab".to_string()));
    assert_eq!(
        decode_shortcut_contents(&[0xEF, 0xBB, 0xBF, b'a', b'b']),
        Some("ab".to_string())
    );
    assert_eq!(decode_shortcut_contents(b"plain"), Some("plain".to_string()));
    assert_eq!(
        decode_shortcut_contents(&[b'a', 0xFF, b'b']),
        Some("a\u{fffd}b".to_string())
    );
    assert_eq!(decode_shortcut_contents(&[]), Some(String::new()));
    assert_eq!(decode_shortcut_contents(&[0xFF]), Some("\u{fffd}".to_string()));
}

#[test]
fn wide_buffers_end_at_the_first_zero() {
    let mut buffer: Vec<u16> = "C:\\a.exe".encode_utf16().collect();
    buffer.extend([0, 0x41, 0]);
    assert_eq!(wide_to_string(&buffer), Some("C:\\a.exe".to_string()));
    assert_eq!(wide_to_string(&[0, 0x41]), None);
    assert_eq!(wide_to_string(&[]), None);
    assert_eq!(wide_to_string(&[0x41, 0x42]), Some("AB".to_string()));
    assert_eq!(wide_to_string(&[0xD800, 0]), None);
}

#[test]
fn shortcut_files_are_read_line_by_line() {
    let content = "; comment\r\n[Other]\r\nURL=http://ignored\r\n\r\n[InternetShortcut]\r\n\
                   url = \"steam://rungameid/570\" \r\nIconIndex=0\r\nnoequals\r\n\
                   Comment='  Dota  '\r\nEmpty=\r\nQuoted=\"\"\r\n[Tail]\r\nDescription=late\r\n";
    assert_eq!(
        parse_shortcut_text(content),
        Some(info("steam://rungameid/570", Some("  Dota  ")))
    );
    // The last value wins; keys are in any case.
    assert_eq!(
        parse_shortcut_text("[INTERNETSHORTCUT]\nURL=a\nUrl=b\ndescription=x\nCOMMENT=y"),
        Some(info("b", Some("y")))
    );
    // Without an address the file says nothing.
    assert_eq!(parse_shortcut_text("[InternetShortcut]\nDescription=x"), None);
    assert_eq!(parse_shortcut_text("URL=steam://x"), None);
    assert_eq!(parse_shortcut_text(""), None);
    // A value may hold equals signs.
    assert_eq!(
        parse_shortcut_text("[InternetShortcut]\nURL=http://a/?b=c"),
        Some(info("http://a/?b=c", None))
    );
    assert_eq!(parse_internet_shortcut(&[]), None);
    assert_eq!(
        parse_internet_shortcut(b"[InternetShortcut]\nURL=steam://x"),
        Some(info("steam://x", None))
    );
    let mut le = vec![0xFF, 0xFE];
    le.extend(
        "[InternetShortcut]\r\nURL=steam://y\r\n"
            .encode_utf16()
            .flat_map(|u| u.to_le_bytes()),
    );
    assert_eq!(parse_internet_shortcut(&le), Some(info("steam://y", None)));
}

#[test]
fn launcher_shortcuts_become_applications() {
    let app = internet_shortcut_to_application(
        "C:\\Menu\\Dota 2.url",
        Some(" Dota 2 "),
        info(" Steam://rungameid/570 ", Some("  a game  ")),
    )
    .unwrap();
    assert_eq!(app.id, "url:startmenu:c:\\menu\\dota 2.url");
    assert_eq!(app.name, "Dota 2");
    assert_eq!(app.path, "Steam://rungameid/570");
    assert_eq!(app.source_path.as_deref(), Some("C:\\Menu\\Dota 2.url"));
    assert_eq!(app.app_type, AppType::Win32);
    assert_eq!(app.description.as_deref(), Some("  a game  "));
    assert_eq!(app.keywords, vec!["Dota 2", "Steam://rungameid/570", "a game"]);
    assert_eq!(app.pinyin_index, None);
    assert_eq!(app.working_directory, None);
    assert_eq!(app.arguments, None);

    let epic = internet_shortcut_to_application(
        "p",
        Some("游戏"),
        info("com.epicgames.launcher://apps/x", Some("  ")),
    )
    .unwrap();
    assert_eq!(epic.description, None);
    assert_eq!(epic.keywords, vec!["com.epicgames.launcher://apps/x", "游戏"]);
    assert_eq!(epic.pinyin_index.as_deref(), Some("youxi|yx"));

    assert_eq!(
        internet_shortcut_to_application("p", Some("n"), info("https://a", None)),
        None
    );
    assert_eq!(
        internet_shortcut_to_application("p", Some("n"), info("  ", None)),
        None
    );
    assert_eq!(
        internet_shortcut_to_application("p", Some("  "), info("steam://x", None)),
        None
    );
    assert_eq!(
        internet_shortcut_to_application("p", None, info("steam://x", None)),
        None
    );
}
