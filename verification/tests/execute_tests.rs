use egg::bookmarks::BookmarkEntry;
use egg::execute::{
    clean_optional, launch_from_source, launch_request, launch_win32_app, normalize_source,
    shell_result, LaunchRequest,
};
use egg::models::{AppType, ApplicationInfo};
use egg::state::PendingAction;

fn app(app_type: AppType, path: &str) -> ApplicationInfo {
    ApplicationInfo {
        id: "id".to_string(),
        name: "Name".to_string(),
        path: path.to_string(),
        source_path: None,
        app_type,
        description: None,
        keywords: Vec::new(),
        pinyin_index: None,
        working_directory: None,
        arguments: None,
    }
}

#[test]
fn first_request_of_each_action() {
    assert_eq!(
        launch_request(&PendingAction::Application(app(AppType::Win32, "C:\\a.exe")), true),
        LaunchRequest::ShellPath {
            path: "C:\\a.exe".to_string(),
            run_as_admin: true
        }
    );
    assert_eq!(
        launch_request(&PendingAction::Application(app(AppType::Uwp, "Pkg!App")), true),
        LaunchRequest::ActivateApp {
            app_id: "Pkg!App".to_string()
        }
    );
    let bookmark = BookmarkEntry {
        id: "b".to_string(),
        title: "t".to_string(),
        url: "https://b".to_string(),
        folder_path: None,
        keywords: Vec::new(),
        pinyin_index: None,
    };
    assert_eq!(
        launch_request(&PendingAction::Bookmark(bookmark), false),
        LaunchRequest::OpenUrl {
            url: "https://b".to_string()
        }
    );
    assert_eq!(
        launch_request(&PendingAction::Url("u".to_string()), false),
        LaunchRequest::OpenUrl {
            url: "u".to_string()
        }
    );
    assert_eq!(
        launch_request(&PendingAction::Search("s".to_string()), false),
        LaunchRequest::OpenUrl {
            url: "s".to_string()
        }
    );
}

#[test]
fn source_paths_are_normalised() {
    assert_eq!(normalize_source("  \"C:\\a b\\c.lnk\"  "), "C:\\a b\\c.lnk");
    assert_eq!(normalize_source("'x'"), "x");
    assert_eq!(normalize_source(" \" x \" "), " x ");
    assert_eq!(normalize_source(" \"\" "), "");
    assert_eq!(clean_optional(Some("  -a  ")), Some("-a".to_string()));
    assert_eq!(clean_optional(Some("   ")), None);
    assert_eq!(clean_optional(None), None);
}

#[test]
fn launching_from_the_source_path() {
    assert_eq!(
        launch_from_source("  ''  ", None, None, false, false),
        Err("备用路径无效".to_string())
    );
    assert_eq!(
        launch_from_source(" steam://run/1 ", Some("x"), None, true, false),
        Ok(LaunchRequest::ShellUri {
            uri: "steam://run/1".to_string()
        })
    );
    // An address that is an existing path is started as a target.
    assert_eq!(
        launch_from_source("steam://run/1", Some(" -x "), Some("  "), true, true),
        Ok(LaunchRequest::ShellRaw {
            target: "steam://run/1".to_string(),
            arguments: Some("-x".to_string()),
            working_directory: None,
            run_as_admin: true,
        })
    );
    assert_eq!(
        launch_from_source("\"C:\\a.lnk\"", None, Some("C:\\"), false, false),
        Ok(LaunchRequest::ShellRaw {
            target: "C:\\a.lnk".to_string(),
            arguments: None,
            working_directory: Some("C:\\".to_string()),
            run_as_admin: false,
        })
    );
}

#[test]
fn fallback_of_a_native_application() {
    let mut native = app(AppType::Win32, "C:\\a.exe");
    assert_eq!(launch_win32_app(&native, false, false), None);
    native.source_path = Some(" C:\\menu\\a.lnk ".to_string());
    native.arguments = Some(" --flag ".to_string());
    native.working_directory = Some("C:\\work".to_string());
    assert_eq!(
        launch_win32_app(&native, true, true),
        Some(Ok(LaunchRequest::ShellRaw {
            target: "C:\\menu\\a.lnk".to_string(),
            arguments: Some("--flag".to_string()),
            working_directory: Some("C:\\work".to_string()),
            run_as_admin: true,
        }))
    );
    native.source_path = Some("   ".to_string());
    assert_eq!(
        launch_win32_app(&native, true, true),
        Some(Err("备用路径无效".to_string()))
    );
}

#[test]
fn shell_return_codes() {
    assert_eq!(shell_result(33), Ok(()));
    assert_eq!(shell_result(isize::MAX), Ok(()));
    assert_eq!(
        shell_result(32),
        Err("无法启动程序 (ShellExecute 错误码 32)".to_string())
    );
    assert_eq!(
        shell_result(2),
        Err("无法启动程序 (ShellExecute 错误码 2)".to_string())
    );
    assert_eq!(
        shell_result(0),
        Err("无法启动程序 (ShellExecute 错误码 0)".to_string())
    );
    assert_eq!(
        shell_result(-5),
        Err("无法启动程序 (ShellExecute 错误码 -5)".to_string())
    );
    assert_eq!(
        shell_result(isize::MIN),
        Err(format!("无法启动程序 (ShellExecute 错误码 {})", isize::MIN))
    );
}
