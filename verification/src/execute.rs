//! What executing a pending action asks of the operating system: the
//! decisions are made here, the calls themselves by the host.

use crate::models::{clone_opt, AppType, ApplicationInfo};
use crate::state::{ActionView, PendingAction};
use crate::text::{
    chars_of, concat_str, decimal, decimal_chars, has_substring, opt_view, str_contains,
    string_of, strip_quotes, trim, trim_str, trimmed, unquoted,
};
use vstd::prelude::*;

verus! {

/// One call that the host makes to start or open something.
#[derive(Debug, PartialEq, Eq)]
pub enum LaunchRequest {
    /// Start the program at an existing path, elevated or not.
    ShellPath { path: String, run_as_admin: bool },
    /// Activate a packaged application by its application id.
    ActivateApp { app_id: String },
    /// Open an address with the system's handler.
    OpenUrl { url: String },
    /// Hand an address of some protocol to the shell.
    ShellUri { uri: String },
    /// Start a target with arguments and a working directory, elevated or not.
    ShellRaw {
        target: String,
        arguments: Option<String>,
        working_directory: Option<String>,
        run_as_admin: bool,
    },
}

/// What a `LaunchRequest` holds, as plain values.
pub enum RequestView {
    ShellPath { path: Seq<char>, run_as_admin: bool },
    ActivateApp { app_id: Seq<char> },
    OpenUrl { url: Seq<char> },
    ShellUri { uri: Seq<char> },
    ShellRaw {
        target: Seq<char>,
        arguments: Option<Seq<char>>,
        working_directory: Option<Seq<char>>,
        run_as_admin: bool,
    },
}

impl View for LaunchRequest {
    type V = RequestView;

    open spec fn view(&self) -> RequestView {
        match self {
            LaunchRequest::ShellPath { path, run_as_admin } => RequestView::ShellPath {
                path: path@,
                run_as_admin: *run_as_admin,
            },
            LaunchRequest::ActivateApp { app_id } => RequestView::ActivateApp { app_id: app_id@ },
            LaunchRequest::OpenUrl { url } => RequestView::OpenUrl { url: url@ },
            LaunchRequest::ShellUri { uri } => RequestView::ShellUri { uri: uri@ },
            LaunchRequest::ShellRaw {
                target,
                arguments,
                working_directory,
                run_as_admin,
            } => RequestView::ShellRaw {
                target: target@,
                arguments: opt_view(*arguments),
                working_directory: opt_view(*working_directory),
                run_as_admin: *run_as_admin,
            },
        }
    }
}

impl Clone for LaunchRequest {
    fn clone(&self) -> (r: Self)
        ensures
            r@ == self@,
    {
        match self {
            LaunchRequest::ShellPath { path, run_as_admin } => LaunchRequest::ShellPath {
                path: path.clone(),
                run_as_admin: *run_as_admin,
            },
            LaunchRequest::ActivateApp { app_id } => LaunchRequest::ActivateApp {
                app_id: app_id.clone(),
            },
            LaunchRequest::OpenUrl { url } => LaunchRequest::OpenUrl { url: url.clone() },
            LaunchRequest::ShellUri { uri } => LaunchRequest::ShellUri { uri: uri.clone() },
            LaunchRequest::ShellRaw {
                target,
                arguments,
                working_directory,
                run_as_admin,
            } => LaunchRequest::ShellRaw {
                target: target.clone(),
                arguments: clone_opt(arguments),
                working_directory: clone_opt(working_directory),
                run_as_admin: *run_as_admin,
            },
        }
    }
}

/// The first call that executing an action makes: a native application is
/// started at its path, a packaged one is activated by its path, which is its
/// application id, and a bookmark, an address or a web search is opened.
pub open spec fn first_request(action: ActionView, run_as_admin: bool) -> RequestView {
    match action {
        ActionView::Application(app) => match app.app_type {
            AppType::Win32 => RequestView::ShellPath { path: app.path, run_as_admin },
            AppType::Uwp => RequestView::ActivateApp { app_id: app.path },
        },
        ActionView::Bookmark(entry) => RequestView::OpenUrl { url: entry.url },
        ActionView::Url(url) => RequestView::OpenUrl { url },
        ActionView::Search(url) => RequestView::OpenUrl { url },
    }
}

/// The first call that executing `action` makes.
pub fn launch_request(action: &PendingAction, run_as_admin: bool) -> (r: LaunchRequest)
    ensures
        r@ == first_request(action@, run_as_admin),
{
    match action {
        PendingAction::Application(app) => match app.app_type {
            AppType::Win32 => LaunchRequest::ShellPath { path: app.path.clone(), run_as_admin },
            AppType::Uwp => LaunchRequest::ActivateApp { app_id: app.path.clone() },
        },
        PendingAction::Bookmark(entry) => LaunchRequest::OpenUrl { url: entry.url.clone() },
        PendingAction::Url(url) => LaunchRequest::OpenUrl { url: url.clone() },
        PendingAction::Search(url) => LaunchRequest::OpenUrl { url: url.clone() },
    }
}

/// A source path as it is started: trimmed, and without quotation marks at
/// its ends.
pub open spec fn normalized_source(source: Seq<char>) -> Seq<char> {
    unquoted(trim(source))
}

/// A source path as it is started.
pub fn normalize_source(source: &str) -> (r: String)
    ensures
        r@ == normalized_source(source@),
{
    string_of(&strip_quotes(&trimmed(&chars_of(source))))
}

/// An optional text as it is handed to the shell: trimmed, and absent where
/// that is empty.
pub open spec fn cleaned(value: Option<Seq<char>>) -> Option<Seq<char>> {
    match value {
        Some(text) => if trim(text).len() > 0 {
            Some(trim(text))
        } else {
            None
        },
        None => None,
    }
}

/// An optional text as it is handed to the shell.
pub fn clean_optional(value: Option<&str>) -> (r: Option<String>)
    ensures
        opt_view(r) == cleaned(
            match value {
                Some(text) => Some(text@),
                None => None,
            },
        ),
{
    match value {
        Some(text) => {
            let stripped = trim_str(text);
            if stripped.as_str().is_empty() {
                None
            } else {
                Some(stripped)
            }
        },
        None => None,
    }
}

/// The call that starts an application from its source path after its own
/// path failed: nothing where the normalised source is empty; the source as
/// an address where it names a protocol and is no existing path; else the
/// source as a target with the application's arguments and working directory.
pub open spec fn source_request(
    source: Seq<char>,
    arguments: Option<Seq<char>>,
    working_directory: Option<Seq<char>>,
    run_as_admin: bool,
    source_exists: bool,
) -> Option<RequestView> {
    let target = normalized_source(source);
    if target.len() == 0 {
        None
    } else if has_substring(target, "://"@) && !source_exists {
        Some(RequestView::ShellUri { uri: target })
    } else {
        Some(
            RequestView::ShellRaw {
                target,
                arguments: cleaned(arguments),
                working_directory: cleaned(working_directory),
                run_as_admin,
            },
        )
    }
}

/// What is reported when the source path is empty.
pub open spec fn invalid_source_message() -> Seq<char> {
    "备用路径无效"@
}

/// The call that starts an application from its source path. `source_exists`
/// says whether the normalised source is an existing path.
pub fn launch_from_source(
    source: &str,
    arguments: Option<&str>,
    working_directory: Option<&str>,
    run_as_admin: bool,
    source_exists: bool,
) -> (r: Result<LaunchRequest, String>)
    ensures
        match r {
            Ok(request) => source_request(
                source@,
                match arguments {
                    Some(text) => Some(text@),
                    None => None,
                },
                match working_directory {
                    Some(text) => Some(text@),
                    None => None,
                },
                run_as_admin,
                source_exists,
            ) == Some(request@),
            Err(message) => normalized_source(source@).len() == 0 && message@
                == invalid_source_message(),
        },
{
    let normalized = normalize_source(source);
    if normalized.as_str().is_empty() {
        return Err("备用路径无效".to_owned());
    }
    if str_contains(normalized.as_str(), "://") && !source_exists {
        return Ok(LaunchRequest::ShellUri { uri: normalized });
    }
    Ok(
        LaunchRequest::ShellRaw {
            target: normalized,
            arguments: clean_optional(arguments),
            working_directory: clean_optional(working_directory),
            run_as_admin,
        },
    )
}

/// The call that is tried after starting a native application at its path
/// failed: that of its source path, where it has one.
pub fn launch_win32_app(app: &ApplicationInfo, run_as_admin: bool, source_exists: bool) -> (r:
    Option<Result<LaunchRequest, String>>)
    ensures
        app@.source_path is None <==> r is None,
        match r {
            Some(Ok(request)) => source_request(
                app@.source_path.unwrap(),
                app@.arguments,
                app@.working_directory,
                run_as_admin,
                source_exists,
            ) == Some(request@),
            Some(Err(message)) => normalized_source(app@.source_path.unwrap()).len() == 0
                && message@ == invalid_source_message(),
            None => true,
        },
{
    match &app.source_path {
        Some(source) => {
            let arguments = match &app.arguments {
                Some(text) => Some(text.as_str()),
                None => None,
            };
            let working_directory = match &app.working_directory {
                Some(text) => Some(text.as_str()),
                None => None,
            };
            Some(
                launch_from_source(
                    source.as_str(),
                    arguments,
                    working_directory,
                    run_as_admin,
                    source_exists,
                ),
            )
        },
        None => None,
    }
}

/// The decimal numeral of an integer, with a minus sign where it is negative.
pub open spec fn signed_decimal(n: int) -> Seq<char> {
    if n < 0 {
        seq!['-'] + decimal((-n) as nat)
    } else {
        decimal(n as nat)
    }
}

/// What is reported when the shell refuses a call with the given code.
pub open spec fn shell_failure_message(code: int) -> Seq<char> {
    "无法启动程序 (ShellExecute 错误码 "@ + signed_decimal(code) + ")"@
}

/// What a shell call's return code means: codes above 32 are success, every
/// other code is a failure that names the code.
pub fn shell_result(code: isize) -> (r: Result<(), String>)
    ensures
        match r {
            Ok(_) => code > 32,
            Err(message) => code <= 32 && message@ == shell_failure_message(code as int),
        },
{
    if code > 32 {
        return Ok(());
    }
    let numeral = if code < 0 {
        let magnitude: usize = ((-(code + 1)) as usize) + 1;
        concat_str("-", string_of(&decimal_chars(magnitude)).as_str())
    } else {
        string_of(&decimal_chars(code as usize))
    };
    proof {
        reveal_strlit("-");
        assert("-"@ =~= seq!['-']);
    }
    let message = concat_str("无法启动程序 (ShellExecute 错误码 ", numeral.as_str());
    Err(concat_str(message.as_str(), ")"))
}

} // verus!
