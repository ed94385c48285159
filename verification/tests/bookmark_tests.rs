use egg::bookmarks::{
    collect_entries_from_file, collect_node, derive_bookmark_id, encode, is_supported_url,
    profile_display_label, root_display_label, BookmarkEntry, BookmarkNode, BookmarkRoot,
};
use sha1::{Digest, Sha1};

fn url_node(name: &str, url: &str, guid: Option<&str>) -> BookmarkNode {
    BookmarkNode {
        node_type: "url".to_string(),
        name: Some(name.to_string()),
        url: Some(url.to_string()),
        guid: guid.map(|g| g.to_string()),
        id: None,
        children: None,
    }
}

fn folder(name: &str, children: Vec<BookmarkNode>) -> BookmarkNode {
    BookmarkNode {
        node_type: "folder".to_string(),
        name: Some(name.to_string()),
        url: None,
        guid: None,
        id: None,
        children: Some(children),
    }
}

#[test]
fn bytes_are_written_in_lower_case_hexadecimal() {
    assert_eq!(encode(&[]), "");
    assert_eq!(encode(&[0x00, 0x0f, 0xab, 0xff, 0x10]), "000fabff10");
}

#[test]
fn identity_prefers_guid_then_id_then_digest() {
    let mut node = url_node("t", "https://a", Some("g-1"));
    node.id = Some("42".to_string());
    assert_eq!(derive_bookmark_id("P", &node, "https://a"), "P:g-1");
    node.guid = None;
    assert_eq!(derive_bookmark_id("P", &node, "https://a"), "P:42");
    node.id = None;
    let mut hasher = Sha1::new();
    hasher.update("Chrome 默认".as_bytes());
    hasher.update("https://a".as_bytes());
    let digest: String = hasher
        .finalize()
        .iter()
        .map(|b| format!("{:02x}", b))
        .collect();
    assert_eq!(digest.len(), 40);
    assert_eq!(
        derive_bookmark_id("Chrome 默认", &node, "https://a"),
        format!("Chrome 默认:{digest}")
    );
    // The digest of "abc", split in two.
    node.url = None;
    assert_eq!(
        derive_bookmark_id("a", &node, "bc"),
        "a:a9993e364706816aba3e25717850c26c9cd0d89d"
    );
}

#[test]
fn labels() {
    assert_eq!(root_display_label("bookmark_bar"), Some("书签栏"));
    assert_eq!(root_display_label("other"), Some("其他书签"));
    assert_eq!(root_display_label("synced"), Some("已同步"));
    assert_eq!(root_display_label("Other"), None);
    assert_eq!(root_display_label(""), None);
    assert_eq!(profile_display_label("Default"), "默认");
    assert_eq!(profile_display_label("Profile 1"), "Profile 1");
    assert!(is_supported_url("http://a"));
    assert!(is_supported_url("https://a"));
    assert!(!is_supported_url("ftp://a"));
    assert!(!is_supported_url("chrome://settings"));
}

#[test]
fn url_node_becomes_a_bookmark() {
    let node = url_node("  Rust Book ", " https://doc.rust-lang.org/book ", Some("guid"));
    let mut stack = vec!["Chrome 默认".to_string(), "书签栏".to_string(), "Dev / Docs".to_string()];
    let mut acc = Vec::new();
    collect_node(&node, "Chrome 默认", &mut stack, &mut acc);
    assert_eq!(stack.len(), 3);
    assert_eq!(acc.len(), 1);
    let entry = &acc[0];
    assert_eq!(entry.id, "Chrome 默认:guid");
    assert_eq!(entry.title, "Rust Book");
    assert_eq!(entry.url, "https://doc.rust-lang.org/book");
    assert_eq!(
        entry.folder_path.as_deref(),
        Some("Chrome 默认 / 书签栏 / Dev / Docs")
    );
    let mut expected = vec![
        "Rust Book".to_string(),
        "https://doc.rust-lang.org/book".to_string(),
        "Chrome 默认 / 书签栏 / Dev / Docs".to_string(),
        "Chrome 默认".to_string(),
        "书签栏".to_string(),
        "Dev".to_string(),
        "Docs".to_string(),
    ];
    expected.sort();
    expected.dedup();
    assert_eq!(entry.keywords, expected);
    assert_eq!(
        entry.pinyin_index.as_deref(),
        Some("morenshuqianlan|mrsql moren|mr")
    );
}

#[test]
fn nodes_that_are_no_bookmarks_are_skipped() {
    let mut acc: Vec<BookmarkEntry> = Vec::new();
    let mut stack = vec!["P".to_string()];
    let mut missing_url = url_node("t", "https://a", None);
    missing_url.url = None;
    let mut missing_name = url_node("t", "https://a", None);
    missing_name.name = None;
    let mut other_kind = url_node("t", "https://a", None);
    other_kind.node_type = "separator".to_string();
    for node in [
        missing_url,
        missing_name,
        other_kind,
        url_node("   ", "https://a", None),
        url_node("t", "  ", None),
        url_node("t", "ftp://a", None),
        url_node("t", "javascript:alert(1)", None),
    ] {
        collect_node(&node, "P", &mut stack, &mut acc);
    }
    assert!(acc.is_empty());
    assert_eq!(stack, vec!["P"]);
}

#[test]
fn without_folders_there_is_no_folder_path() {
    let mut acc = Vec::new();
    let mut stack = Vec::new();
    collect_node(&url_node("t", "http://a", Some("g")), "P", &mut stack, &mut acc);
    assert_eq!(acc[0].folder_path, None);
    assert_eq!(acc[0].keywords, vec!["P", "http://a", "t"]);
    assert_eq!(acc[0].pinyin_index, None);
}

#[test]
fn folders_are_walked_in_document_order() {
    let tree = folder(
        " Work ",
        vec![
            url_node("one", "https://one", Some("1")),
            folder(
                "  ",
                vec![url_node("two", "https://two", Some("2"))],
            ),
            folder(
                "Deep",
                vec![
                    url_node("three", "https://three", Some("3")),
                    folder("Empty", Vec::new()),
                ],
            ),
            url_node("four", "https://four", Some("4")),
        ],
    );
    let mut acc = Vec::new();
    let mut stack = vec!["P".to_string()];
    collect_node(&tree, "P", &mut stack, &mut acc);
    assert_eq!(stack, vec!["P"]);
    let seen: Vec<(&str, Option<&str>)> = acc
        .iter()
        .map(|e| (e.id.as_str(), e.folder_path.as_deref()))
        .collect();
    assert_eq!(
        seen,
        vec![
            ("P:1", Some("P / Work")),
            ("P:2", Some("P / Work")),
            ("P:3", Some("P / Work / Deep")),
            ("P:4", Some("P / Work")),
        ]
    );
    // A folder without children gives nothing.
    let mut none = Vec::new();
    let mut childless = folder("x", Vec::new());
    childless.children = None;
    collect_node(&childless, "P", &mut stack, &mut none);
    assert!(none.is_empty());
}

#[test]
fn roots_get_their_labels() {
    let roots = vec![
        BookmarkRoot {
            key: "bookmark_bar".to_string(),
            node: folder("Bookmarks bar", vec![url_node("a", "https://a", Some("a"))]),
        },
        BookmarkRoot {
            key: "custom".to_string(),
            node: folder("Custom", vec![url_node("b", "https://b", Some("b"))]),
        },
        BookmarkRoot {
            key: "other".to_string(),
            node: url_node("c", "https://c", Some("c")),
        },
    ];
    let mut acc = vec![BookmarkEntry {
        id: "kept".to_string(),
        title: String::new(),
        url: String::new(),
        folder_path: None,
        keywords: Vec::new(),
        pinyin_index: None,
    }];
    collect_entries_from_file(&roots, "Edge Work", &mut acc);
    let seen: Vec<(&str, Option<&str>)> = acc
        .iter()
        .map(|e| (e.id.as_str(), e.folder_path.as_deref()))
        .collect();
    assert_eq!(
        seen,
        vec![
            ("kept", None),
            ("Edge Work:a", Some("Edge Work / 书签栏")),
            ("Edge Work:b", Some("Edge Work")),
            ("Edge Work:c", Some("Edge Work / 其他书签")),
        ]
    );
}
