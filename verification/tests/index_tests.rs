use egg::indexer::{build_index, is_system_tool};
use egg::models::{AppType, ApplicationInfo};

fn app(id: &str, name: &str, path: &str) -> ApplicationInfo {
    ApplicationInfo {
        id: id.to_string(),
        name: name.to_string(),
        path: path.to_string(),
        source_path: None,
        app_type: AppType::Win32,
        description: None,
        keywords: Vec::new(),
        pinyin_index: None,
        working_directory: None,
        arguments: None,
    }
}

#[test]
fn duplicate_identity_keeps_the_first_batch() {
    let mut first = app("shell:x", "Editor", "C:\\one\\editor.exe");
    first.description = Some("from the first batch".to_string());
    let mut second = app("shell:x", "Editor (copy)", "C:\\two\\editor.exe");
    second.description = Some("from the second batch".to_string());
    let index = build_index(&vec![vec![first.clone()], vec![second]], &Vec::new());
    assert_eq!(index, vec![first]);
}

#[test]
fn duplicates_inside_one_batch_keep_the_first() {
    let a = app("1", "B", "first");
    let b = app("2", "A", "second");
    let c = app("1", "C", "third");
    let d = app("2", "D", "fourth");
    let index = build_index(&vec![vec![a.clone(), b.clone(), c], vec![d]], &Vec::new());
    assert_eq!(index, vec![b, a]);
}

#[test]
fn entries_are_sorted_by_lower_cased_name() {
    let names = ["zeta", "Alpha", "beta", "ALPHA", "Émile", "alpha 2", "Beta"];
    let batch: Vec<ApplicationInfo> = names
        .iter()
        .enumerate()
        .map(|(i, name)| app(&format!("id{i}"), name, "p"))
        .collect();
    let index = build_index(&vec![batch], &Vec::new());
    let sorted: Vec<&str> = index.iter().map(|a| a.name.as_str()).collect();
    // Equal keys keep their input order: "Alpha" before "ALPHA", "beta" before "Beta".
    assert_eq!(
        sorted,
        vec!["Alpha", "ALPHA", "alpha 2", "beta", "Beta", "zeta", "Émile"]
    );
}

#[test]
fn empty_batches_give_an_empty_index() {
    assert!(build_index(&Vec::new(), &Vec::new()).is_empty());
    assert!(build_index(&vec![Vec::new(), Vec::new()], &vec!["c:\\".to_string()]).is_empty());
    let only = app("1", "One", "p");
    assert_eq!(
        build_index(&vec![Vec::new(), vec![only.clone()]], &Vec::new()),
        vec![only]
    );
}

#[test]
fn excluded_entries_are_dropped() {
    let system = app("1", "Cmd", "C:\\Windows\\System32\\cmd.exe");
    let mut linked = app("2", "Tool", "C:\\Apps\\tool.exe");
    linked.source_path = Some("c:\\windows\\Start Menu\\tool.lnk".to_string());
    let mut shadowed = app("3", "Safe", "C:\\Windows\\safe.exe");
    shadowed.source_path = Some("D:\\links\\safe.lnk".to_string());
    let packaged = app("4", "Panel", "shell:::{26EE0668-A00A-44D7-9371-BEB064C98683}\\0");
    let kept = app("5", "Keep", "D:\\Windows\\keep.exe");
    let exclusions = vec![
        "  C:\\WINDOWS ".to_string(),
        "".to_string(),
        "   ".to_string(),
        "{26ee0668-a00a-44d7-9371-beb064c98683}".to_string(),
    ];
    assert!(is_system_tool(&system, &exclusions));
    assert!(is_system_tool(&linked, &exclusions));
    assert!(!is_system_tool(&shadowed, &exclusions));
    assert!(is_system_tool(&packaged, &exclusions));
    assert!(!is_system_tool(&kept, &exclusions));
    assert!(!is_system_tool(&system, &Vec::new()));
    // A pattern that does not begin with a brace must be a prefix.
    assert!(!is_system_tool(&kept, &vec!["windows".to_string()]));
    let index = build_index(
        &vec![vec![system, linked, shadowed.clone(), packaged, kept.clone()]],
        &exclusions,
    );
    assert_eq!(index, vec![kept, shadowed]);
}

#[test]
fn an_excluded_first_occurrence_is_not_replaced_by_a_later_one() {
    let excluded = app("same", "Tool", "C:\\Windows\\tool.exe");
    let later = app("same", "Tool", "D:\\tool.exe");
    let index = build_index(
        &vec![vec![excluded], vec![later]],
        &vec!["c:\\windows".to_string()],
    );
    assert!(index.is_empty());
}
