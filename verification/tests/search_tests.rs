use egg::bookmarks::BookmarkEntry;
use egg::config::AppConfig;
use egg::models::{AppType, ApplicationInfo};
use egg::search_core::{
    is_url_like, match_application, match_bookmark, score_fields, score_token, search,
    search_in_mode, split_pinyin_entry, tokenize_query, update_best, url_encode, Field,
    QueryMode,
};
use egg::state::PendingAction;
use fuzzy_matcher::skim::SkimMatcherV2;
use fuzzy_matcher::FuzzyMatcher;

fn app(id: &str, name: &str, path: &str) -> ApplicationInfo {
    ApplicationInfo {
        id: id.to_string(),
        name: name.to_string(),
        path: path.to_string(),
        source_path: None,
        app_type: AppType::Win32,
        description: None,
        keywords: Vec::new(),
        pinyin_index: None,
        working_directory: None,
        arguments: None,
    }
}

fn bookmark(id: &str, title: &str, url: &str, folder: Option<&str>) -> BookmarkEntry {
    BookmarkEntry {
        id: id.to_string(),
        title: title.to_string(),
        url: url.to_string(),
        folder_path: folder.map(|f| f.to_string()),
        keywords: Vec::new(),
        pinyin_index: None,
    }
}

fn fuzzy(choice: &str, pattern: &str) -> Option<i64> {
    SkimMatcherV2::default().fuzzy_match(choice, pattern)
}

fn config(max_results: u32) -> AppConfig {
    AppConfig {
        max_results,
        ..AppConfig::default()
    }
}

#[test]
fn url_query_puts_address_result_first() {
    // The application matches the query exactly and scores far above 200.
    let apps = vec![app("shell:example.com", "example.com", "C:\\example.com")];
    let (results, actions) = search(
        "example.com".to_string(),
        None,
        &apps,
        &[],
        &AppConfig::default(),
    );
    assert_eq!(results[0].id, "url-0");
    assert_eq!(results[0].title, "打开网址: example.com");
    assert_eq!(results[0].subtitle, "example.com");
    assert_eq!(results[0].score, 200);
    assert_eq!(results[0].action_id, "url");
    assert_eq!(
        actions.get("url-0"),
        Some(&PendingAction::Url("example.com".to_string()))
    );
    assert_eq!(results.len(), 3);
    assert_eq!(results[1].id, "app-shell:example.com");
    assert!(results[1].score > 200);
    assert_eq!(results[2].id, "search-2");
    assert_eq!(results[2].score, i64::MIN);
    assert_eq!(
        actions.get("search-2"),
        Some(&PendingAction::Search(
            "https://google.com/search?q=example.com".to_string()
        ))
    );
}

#[test]
fn url_query_on_empty_index() {
    let (results, actions) = search(
        "  https://rust-lang.org/learn  ".to_string(),
        Some("all".to_string()),
        &[],
        &[],
        &AppConfig::default(),
    );
    assert_eq!(results.len(), 2);
    assert_eq!(results[0].id, "url-0");
    assert_eq!(results[0].score, 200);
    assert_eq!(
        actions.get("url-0"),
        Some(&PendingAction::Url("https://rust-lang.org/learn".to_string()))
    );
    assert_eq!(results[1].id, "search-1");
    assert_eq!(actions.len(), 2);
}

#[test]
fn empty_query_has_no_results() {
    let apps = vec![app("a", "Firefox", "C:\\firefox.exe")];
    for query in ["", "   ", "\t \n"] {
        let (results, actions) =
            search(query.to_string(), None, &apps, &[], &AppConfig::default());
        assert!(results.is_empty());
        assert!(actions.is_empty());
    }
}

#[test]
fn every_token_must_match_some_field() {
    let mut firefox = app("a", "Firefox", "C:\\firefox.exe");
    firefox.keywords = vec!["browser".to_string(), "".to_string()];
    let chrome = app("b", "Chrome", "C:\\chrome.exe");
    let apps = vec![firefox, chrome];
    let cfg = AppConfig::default();

    let (results, _) = search_in_mode("fire browser", QueryMode::Application, &apps, &[], &cfg);
    assert_eq!(results.len(), 1);
    assert_eq!(results[0].title, "Firefox");

    let (results, _) = search_in_mode("fire zzz", QueryMode::Application, &apps, &[], &cfg);
    assert!(results.is_empty());

    let (results, _) = search_in_mode("chrome browser", QueryMode::Application, &apps, &[], &cfg);
    assert!(results.is_empty());
}

#[test]
fn truncation_reserves_the_last_place_for_web_search() {
    let apps: Vec<ApplicationInfo> = (0..15)
        .map(|i| {
            app(
                &format!("id{i}"),
                &format!("Notepad {i}"),
                &format!("C:\\n{i}.exe"),
            )
        })
        .collect();
    let (results, actions) = search("notepad".to_string(), None, &apps, &[], &config(10));
    assert_eq!(results.len(), 10);
    assert_eq!(results[9].action_id, "search");
    assert_eq!(results[9].id, "search-15");
    assert_eq!(results[9].title, "在 Google 上搜索: notepad");
    assert_eq!(results[9].subtitle, "Google 搜索");
    assert_eq!(results[9].score, i64::MIN);
    for result in &results[..9] {
        assert_eq!(result.action_id, "app");
    }
    // Every match has its action, kept or not.
    assert_eq!(actions.len(), 16);
    for i in 0..15 {
        assert!(actions.contains_key(&format!("app-id{i}")));
    }
}

#[test]
fn a_mode_without_fallback_fills_every_place() {
    let apps: Vec<ApplicationInfo> = (0..15)
        .map(|i| app(&format!("id{i}"), "foo", &format!("C:\\foo{i}.exe")))
        .collect();
    let (results, actions) = search(
        "foo".to_string(),
        Some("app".to_string()),
        &apps,
        &[],
        &config(10),
    );
    assert_eq!(results.len(), 10);
    assert!(results.iter().all(|r| r.action_id == "app"));
    assert_eq!(actions.len(), 15);
    // Equal scores keep the order of the index.
    let ids: Vec<String> = results.iter().map(|r| r.id.clone()).collect();
    let expected: Vec<String> = (0..10).map(|i| format!("app-id{i}")).collect();
    assert_eq!(ids, expected);
    // With the fallback the last place is its own.
    let (results, _) = search("foo".to_string(), None, &apps, &[], &config(10));
    assert_eq!(results.len(), 10);
    assert_eq!(results[8].id, "app-id8");
    assert_eq!(results[9].action_id, "search");
    // Exactly as many matches as places, without fallback: all are kept.
    let ten = &apps[..10];
    let (results, _) = search(
        "foo".to_string(),
        Some("app".to_string()),
        ten,
        &[],
        &config(10),
    );
    assert_eq!(results.len(), 10);
    // And with it: nine and the fallback.
    let (results, _) = search("foo".to_string(), None, ten, &[], &config(10));
    assert_eq!(results.len(), 10);
    assert_eq!(results[9].action_id, "search");
}

#[test]
fn result_limit_is_clamped() {
    let apps: Vec<ApplicationInfo> = (0..80)
        .map(|i| app(&format!("id{i}"), &format!("Tool {i}"), "C:\\t.exe"))
        .collect();
    let (results, _) = search("tool".to_string(), None, &apps, &[], &config(0));
    assert_eq!(results.len(), 10);
    let (results, _) = search("tool".to_string(), None, &apps, &[], &config(25));
    assert_eq!(results.len(), 25);
    let (results, _) = search("tool".to_string(), None, &apps, &[], &config(1000));
    assert_eq!(results.len(), 60);
    // Without the fallback no place is kept free.
    let (results, _) = search(
        "tool".to_string(),
        Some("app".to_string()),
        &apps,
        &[],
        &config(25),
    );
    assert_eq!(results.len(), 25);
    assert!(results.iter().all(|r| r.action_id == "app"));
    let few = &apps[..5];
    let (results, _) = search("tool".to_string(), None, few, &[], &config(25));
    assert_eq!(results.len(), 6);
}

#[test]
fn results_are_ranked_by_score_with_ties_in_index_order() {
    let apps = vec![
        app("1", "Paint Shop", "C:\\a.exe"),
        app("2", "Paint", "C:\\b.exe"),
        app("3", "Paint", "C:\\c.exe"),
        app("4", "MS Paint Classic", "C:\\d.exe"),
    ];
    let (results, _) = search(
        "paint".to_string(),
        Some("apps".to_string()),
        &apps,
        &[],
        &AppConfig::default(),
    );
    assert_eq!(results.len(), 4);
    assert_eq!(results[0].id, "app-2");
    assert_eq!(results[1].id, "app-3");
    assert_eq!(results[0].score, results[1].score);
    for pair in results.windows(2) {
        assert!(pair[0].score >= pair[1].score);
    }
    let again = search(
        "paint".to_string(),
        Some("apps".to_string()),
        &apps,
        &[],
        &AppConfig::default(),
    );
    assert_eq!(again.0, results);
}

#[test]
fn modes_and_flags_gate_the_candidates() {
    let apps = vec![app("a", "Rust Editor", "C:\\r.exe")];
    let bookmarks = vec![bookmark(
        "b",
        "Rust Book",
        "https://doc.rust-lang.org/book",
        Some("Docs"),
    )];
    let cfg = AppConfig::default();
    let kinds = |mode: Option<&str>, cfg: &AppConfig| -> Vec<String> {
        let (results, _) = search(
            "rust".to_string(),
            mode.map(|m| m.to_string()),
            &apps,
            &bookmarks,
            cfg,
        );
        results.into_iter().map(|r| r.action_id).collect()
    };
    assert_eq!(kinds(None, &cfg), vec!["app", "bookmark", "search"]);
    assert_eq!(kinds(Some("all"), &cfg), vec!["app", "bookmark", "search"]);
    assert_eq!(kinds(Some("nonsense"), &cfg), vec!["app", "bookmark", "search"]);
    assert_eq!(kinds(Some(" Bookmarks "), &cfg), vec!["bookmark"]);
    assert_eq!(kinds(Some("B"), &cfg), vec!["bookmark"]);
    assert_eq!(kinds(Some("APP"), &cfg), vec!["app"]);
    assert_eq!(kinds(Some("application"), &cfg), vec!["app"]);
    assert_eq!(kinds(Some("r"), &cfg), vec!["app"]);
    assert_eq!(kinds(Some("search"), &cfg), vec!["search"]);
    assert_eq!(kinds(Some("S"), &cfg), vec!["search"]);

    let mut no_apps = AppConfig::default();
    no_apps.enable_app_results = false;
    assert_eq!(kinds(None, &no_apps), vec!["bookmark", "search"]);
    let mut no_bookmarks = AppConfig::default();
    no_bookmarks.enable_bookmark_results = false;
    assert_eq!(kinds(None, &no_bookmarks), vec!["app", "search"]);
}

#[test]
fn mode_names() {
    assert_eq!(QueryMode::from_option(None), QueryMode::All);
    assert_eq!(QueryMode::from_name("bookmark"), QueryMode::Bookmark);
    assert_eq!(QueryMode::from_name("bookmarks"), QueryMode::Bookmark);
    assert_eq!(QueryMode::from_name("b"), QueryMode::Bookmark);
    assert_eq!(QueryMode::from_name("app"), QueryMode::Application);
    assert_eq!(QueryMode::from_name("apps"), QueryMode::Application);
    assert_eq!(QueryMode::from_name("application"), QueryMode::Application);
    assert_eq!(QueryMode::from_name("r"), QueryMode::Application);
    assert_eq!(QueryMode::from_name("search"), QueryMode::Search);
    assert_eq!(QueryMode::from_name("s"), QueryMode::Search);
    assert_eq!(QueryMode::from_name("all"), QueryMode::All);
    assert_eq!(QueryMode::from_name("Bookmark"), QueryMode::All);
    assert_eq!(QueryMode::from_name(""), QueryMode::All);
    assert_eq!(
        QueryMode::from_option(Some("  SEARCH\t".to_string())),
        QueryMode::Search
    );
    assert!(QueryMode::All.allows_applications());
    assert!(QueryMode::All.allows_bookmarks());
    assert!(QueryMode::All.allows_web_search());
    assert!(QueryMode::Bookmark.allows_bookmarks());
    assert!(!QueryMode::Bookmark.allows_applications());
    assert!(!QueryMode::Bookmark.allows_web_search());
    assert!(QueryMode::Application.allows_applications());
    assert!(!QueryMode::Application.allows_bookmarks());
    assert!(!QueryMode::Application.allows_web_search());
    assert!(QueryMode::Search.allows_web_search());
    assert!(!QueryMode::Search.allows_applications());
    assert!(!QueryMode::Search.allows_bookmarks());
}

#[test]
fn url_like_inputs() {
    assert!(is_url_like("http://example"));
    assert!(is_url_like("https://example.com/a b"));
    assert!(is_url_like("example.com"));
    assert!(is_url_like("a.b"));
    assert!(is_url_like("."));
    assert!(!is_url_like("example com"));
    assert!(!is_url_like("example. com"));
    assert!(!is_url_like("example"));
    assert!(!is_url_like(""));
    assert!(!is_url_like("ftp://host"));
    assert!(!is_url_like("HTTP://HOST"));
}

#[test]
fn tokens_are_the_white_space_separated_terms() {
    assert_eq!(tokenize_query("foo  bar\tbaz"), vec!["foo", "bar", "baz"]);
    assert_eq!(tokenize_query("one"), vec!["one"]);
    assert!(tokenize_query("  ").is_empty());
}

#[test]
fn packed_entries_split_at_the_first_bar() {
    let some = |s: &str| Some(s.to_string());
    assert_eq!(split_pinyin_entry("weixin|wx"), (some("weixin"), some("wx")));
    assert_eq!(split_pinyin_entry("weixin"), (some("weixin"), None));
    assert_eq!(split_pinyin_entry(""), (None, None));
    assert_eq!(split_pinyin_entry("|wx"), (None, some("wx")));
    assert_eq!(split_pinyin_entry("weixin|"), (some("weixin"), None));
    assert_eq!(split_pinyin_entry("|"), (None, None));
    assert_eq!(split_pinyin_entry("a|b|c"), (some("a"), some("b|c")));
}

#[test]
fn update_best_keeps_the_larger() {
    let mut best = None;
    update_best(&mut best, 5);
    assert_eq!(best, Some(5));
    update_best(&mut best, 3);
    assert_eq!(best, Some(5));
    update_best(&mut best, 5);
    assert_eq!(best, Some(5));
    update_best(&mut best, -1);
    assert_eq!(best, Some(5));
    update_best(&mut best, 9);
    assert_eq!(best, Some(9));
    let mut negative = None;
    update_best(&mut negative, -7);
    assert_eq!(negative, Some(-7));
}

#[test]
fn token_score_formula() {
    // Equal once lower-cased: bonus 30, no length penalty.
    let field = Field::new("Firefox", 120, true);
    let base = fuzzy("Firefox", "firefox").unwrap();
    assert_eq!(score_token(&field, "firefox"), Some(base + 120 + 30));
    // Prefix: bonus 18; three characters more than the token: penalty 0.
    let base = fuzzy("Firefox", "fire").unwrap();
    assert_eq!(score_token(&field, "fire"), Some(base + 120 + 18));
    // Substring: bonus 8.
    let base = fuzzy("Firefox", "fox").unwrap();
    assert_eq!(score_token(&field, "fox"), Some(base + 120 + 8));
    // Subsequence only: no bonus.
    let base = fuzzy("Firefox", "ffx").unwrap();
    assert_eq!(score_token(&field, "ffx"), Some(base + 120));
    // No match.
    assert_eq!(fuzzy("Firefox", "xyz"), None);
    assert_eq!(score_token(&field, "xyz"), None);
    // Length penalty: a sixth of the excess, rounded down.
    let long = Field::new("Mozilla Firefox Developer Edition", 70, false);
    let base = fuzzy("Mozilla Firefox Developer Edition", "fire").unwrap();
    assert_eq!(score_token(&long, "fire"), Some(base + 70 + 8 - (33 - 4) / 6));
    // An empty field matches no token.
    assert_eq!(score_token(&Field::new("", 120, true), "a"), None);
    // A token longer than the field has no penalty and no match.
    assert_eq!(score_token(&Field::new("ab", 120, true), "abc"), None);
    // A pattern with an upper-case letter is matched case-sensitively.
    assert_eq!(score_token(&field, "FIRE"), None);
    let base = fuzzy("Firefox", "Fire").unwrap();
    assert_eq!(score_token(&field, "Fire"), Some(base + 120 + 18));
}

#[test]
fn fields_score_formula() {
    let fields = vec![
        Field::new("Visual Studio Code", 120, true),
        Field::new("editor", 70, false),
        Field::new("code", 70, false),
    ];
    let tokens = vec!["code".to_string()];
    let name = fuzzy("Visual Studio Code", "code").unwrap() + 120 + 8 - (18 - 4) / 6;
    let keyword = fuzzy("code", "code").unwrap() + 70 + 30;
    let best = name.max(keyword);
    // The name contains the whole query: 30 on top of its weight.
    assert_eq!(score_fields("code", &tokens, &fields), Some(best + 30 + 120));

    let tokens = vec!["visual".to_string(), "editor".to_string()];
    let first = fuzzy("Visual Studio Code", "visual").unwrap() + 120 + 18 - (18 - 6) / 6;
    let second = fuzzy("editor", "editor").unwrap() + 70 + 30;
    // The name does not contain "visual editor": no whole-query bonus.
    assert_eq!(
        score_fields("visual editor", &tokens, &fields),
        Some(first + second)
    );

    let tokens = vec!["visual".to_string(), "zzz".to_string()];
    assert_eq!(score_fields("visual zzz", &tokens, &fields), None);

    // Whole-query bonus tiers: exact 140, prefix 70.
    let exact = vec![Field::new("Code", 120, true)];
    let tokens = vec!["code".to_string()];
    let token = fuzzy("Code", "code").unwrap() + 120 + 30;
    assert_eq!(score_fields("code", &tokens, &exact), Some(token + 140 + 120));
    let prefix = vec![Field::new("Codec", 110, true)];
    let token = fuzzy("Codec", "code").unwrap() + 110 + 18;
    assert_eq!(score_fields("code", &tokens, &prefix), Some(token + 70 + 110));
    // A field that is not eligible earns no whole-query bonus.
    let plain = vec![Field::new("Code", 70, false)];
    let token = fuzzy("Code", "code").unwrap() + 70 + 30;
    assert_eq!(score_fields("code", &tokens, &plain), Some(token));
    // No tokens: only the bonus counts.
    assert_eq!(score_fields("code", &Vec::new(), &exact), Some(140 + 120));
    assert_eq!(score_fields("code", &tokens, &Vec::new()), None);
}

#[test]
fn application_fields_and_weights() {
    let mut wechat = app("wx", "微信", "C:\\WeChat.exe");
    wechat.keywords = vec!["WeChat".to_string(), "".to_string()];
    wechat.pinyin_index = Some("weixin|wx".to_string());
    let tokens = vec!["wx".to_string()];
    // Initials at weight 95, equal to the token.
    let initials = fuzzy("wx", "wx").unwrap() + 95 + 30;
    assert_eq!(match_application(&wechat, "wx", &tokens), Some(initials));
    let tokens = vec!["weixin".to_string()];
    let syllables = fuzzy("weixin", "weixin").unwrap() + 85 + 30;
    assert_eq!(match_application(&wechat, "weixin", &tokens), Some(syllables));
    let tokens = vec!["wechat".to_string()];
    let keyword = fuzzy("WeChat", "wechat").unwrap() + 70 + 30;
    assert_eq!(match_application(&wechat, "wechat", &tokens), Some(keyword));
    // The path is not a field.
    let tokens = vec!["exe".to_string()];
    assert_eq!(match_application(&wechat, "exe", &tokens), None);
}

#[test]
fn bookmark_fields_and_weights() {
    let mut entry = bookmark("g", "文档", "https://docs.rs", Some("Dev / Rust"));
    entry.keywords = vec!["crates".to_string()];
    entry.pinyin_index = Some("wendang|wd".to_string());
    let score = |query: &str| match_bookmark(&entry, query, &vec![query.to_string()]);
    assert_eq!(score("wd"), Some(fuzzy("wd", "wd").unwrap() + 90 + 30));
    assert_eq!(
        score("wendang"),
        Some(fuzzy("wendang", "wendang").unwrap() + 80 + 30)
    );
    assert_eq!(
        score("crates"),
        Some(fuzzy("crates", "crates").unwrap() + 55 + 30)
    );
    assert_eq!(
        score("dev"),
        Some(fuzzy("Dev / Rust", "dev").unwrap() + 65 + 18 - (10 - 3) / 6)
    );
    assert_eq!(
        score("docs"),
        Some(fuzzy("https://docs.rs", "docs").unwrap() + 45 + 8 - (15 - 4) / 6)
    );
    assert_eq!(score("zzz"), None);
}

#[test]
fn result_texts_of_applications_and_bookmarks() {
    let mut store = app("Store!App", "Store", "shell:AppsFolder\\Store!App");
    store.app_type = AppType::Uwp;
    let apps = vec![store.clone()];
    let bookmarks = vec![
        bookmark("1", "Store Docs", "https://store.example", Some("Work")),
        bookmark("2", "Store Help", "https://help.example", None),
    ];
    let (results, actions) = search(
        "store".to_string(),
        None,
        &apps,
        &bookmarks,
        &AppConfig::default(),
    );
    let find = |id: &str| results.iter().find(|r| r.id == id).unwrap();
    let uwp = find("app-Store!App");
    assert_eq!(uwp.title, "Store");
    assert_eq!(uwp.subtitle, "shell:AppsFolder\\Store!App");
    assert_eq!(uwp.action_id, "uwp");
    assert_eq!(
        actions.get("app-Store!App"),
        Some(&PendingAction::Application(store))
    );
    let first = find("bookmark-1");
    assert_eq!(first.title, "Store Docs");
    assert_eq!(first.subtitle, "收藏夹 · Work · https://store.example");
    assert_eq!(first.action_id, "bookmark");
    let second = find("bookmark-2");
    assert_eq!(second.subtitle, "收藏夹 · https://help.example");
    assert_eq!(
        actions.get("bookmark-2"),
        Some(&PendingAction::Bookmark(bookmarks[1].clone()))
    );
    assert_eq!(results.last().unwrap().id, "search-3");
}

#[test]
fn percent_encoding_agrees_with_the_urlencoding_crate() {
    let mut every_ascii = String::new();
    for code in 0u8..128 {
        every_ascii.push(code as char);
    }
    for text in [
        "",
        "plain-text_1.0~",
        "rust lang",
        "a/b?c=d&e=f#g",
        "100% sure",
        "é中😀",
        "\u{7f}\u{80}\u{7ff}\u{800}\u{ffff}\u{10000}\u{10ffff}",
        every_ascii.as_str(),
    ] {
        assert_eq!(url_encode(text), urlencoding::encode(text).into_owned(), "{text:?}");
    }
    assert_eq!(url_encode("a b/é~"), "a%20b%2F%C3%A9~");
    assert_eq!(url_encode("\u{0}\n\u{7f}"), "%00%0A%7F");
}

#[test]
fn web_search_address_is_percent_encoded() {
    let (results, actions) = search(
        " rust lang/é~_-. ".to_string(),
        Some("search".to_string()),
        &[],
        &[],
        &AppConfig::default(),
    );
    assert_eq!(results.len(), 1);
    assert_eq!(results[0].id, "search-0");
    assert_eq!(
        actions.get("search-0"),
        Some(&PendingAction::Search(
            "https://google.com/search?q=rust%20lang%2F%C3%A9~_-.".to_string()
        ))
    );
}

#[test]
fn later_entry_of_same_identity_replaces_the_action() {
    let apps = vec![
        app("same", "Alpha Tool", "C:\\first.exe"),
        app("same", "Alpha Tool", "C:\\second.exe"),
    ];
    let (results, actions) = search(
        "alpha".to_string(),
        Some("app".to_string()),
        &apps,
        &[],
        &AppConfig::default(),
    );
    assert_eq!(results.len(), 2);
    assert_eq!(actions.len(), 1);
    assert_eq!(
        actions.get("app-same"),
        Some(&PendingAction::Application(apps[1].clone()))
    );
}
