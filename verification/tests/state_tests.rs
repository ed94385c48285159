use egg::config::AppConfig;
use egg::models::{AppType, ApplicationInfo, SearchResult};
use egg::state::{
    answer_input, cache_key, recent_results, replace_if_changed, ActionMap, AppState,
    CachedSearch, PendingAction, RecentEntry, RecentList, SearchCache,
};

fn result(id: &str, title: &str) -> SearchResult {
    SearchResult {
        id: id.to_string(),
        title: title.to_string(),
        subtitle: String::new(),
        score: 1,
        action_id: "url".to_string(),
    }
}

fn entry(id: &str, title: &str) -> RecentEntry {
    RecentEntry {
        result: result(id, title),
        action: PendingAction::Url(title.to_string()),
    }
}

fn cached(title: &str) -> CachedSearch {
    let mut actions = ActionMap::new();
    actions.insert("id".to_string(), PendingAction::Url(title.to_string()));
    CachedSearch {
        results: vec![result("id", title)],
        pending_actions: actions,
    }
}

fn titles(list: &RecentList) -> Vec<String> {
    list.items().iter().map(|e| e.result.title.clone()).collect()
}

fn app(id: &str, name: &str) -> ApplicationInfo {
    ApplicationInfo {
        id: id.to_string(),
        name: name.to_string(),
        path: format!("C:\\{id}.exe"),
        source_path: None,
        app_type: AppType::Win32,
        description: None,
        keywords: Vec::new(),
        pinyin_index: None,
        working_directory: None,
        arguments: None,
    }
}

#[test]
fn action_map_binds_and_replaces() {
    let mut map = ActionMap::new();
    assert!(map.is_empty());
    assert_eq!(map.len(), 0);
    assert_eq!(map.get("a"), None);
    map.insert("a".to_string(), PendingAction::Url("one".to_string()));
    map.insert("b".to_string(), PendingAction::Search("two".to_string()));
    map.insert("a".to_string(), PendingAction::Url("three".to_string()));
    assert_eq!(map.len(), 2);
    assert!(!map.is_empty());
    assert!(map.contains_key("a"));
    assert!(!map.contains_key("c"));
    assert_eq!(map.get("a"), Some(&PendingAction::Url("three".to_string())));
    let copy = map.clone();
    assert_eq!(copy.len(), 2);
    assert_eq!(copy.get("a"), Some(&PendingAction::Url("three".to_string())));
    assert_eq!(copy.get("b"), Some(&PendingAction::Search("two".to_string())));
}

#[test]
fn recent_list_moves_a_repeated_entry_to_the_front() {
    let mut list = RecentList::new(12);
    list.insert(entry("a", "A"));
    list.insert(entry("b", "B"));
    list.insert(entry("a", "A again"));
    assert_eq!(titles(&list), vec!["A again", "B"]);
    assert_eq!(list.len(), 2);
}

#[test]
fn recent_list_drops_the_oldest_beyond_capacity() {
    let mut list = RecentList::new(3);
    assert_eq!(list.capacity(), 3);
    for id in ["a", "b", "c", "d"] {
        list.insert(entry(id, id));
    }
    assert_eq!(titles(&list), vec!["d", "c", "b"]);
    list.insert(entry("b", "b"));
    assert_eq!(titles(&list), vec!["b", "d", "c"]);
    list.insert(entry("e", "e"));
    assert_eq!(titles(&list), vec!["e", "b", "d"]);
}

#[test]
fn recent_list_holds_at_least_one() {
    let mut list = RecentList::new(0);
    assert_eq!(list.capacity(), 1);
    assert!(titles(&list).is_empty());
    list.insert(entry("a", "A"));
    list.insert(entry("b", "B"));
    assert_eq!(titles(&list), vec!["B"]);
}

#[test]
fn recent_results_list_newest_first() {
    let mut list = RecentList::new(12);
    list.insert(entry("a", "A"));
    list.insert(entry("b", "B"));
    let shown = recent_results(&list);
    let ids: Vec<&str> = shown.results.iter().map(|r| r.id.as_str()).collect();
    assert_eq!(ids, vec!["b", "a"]);
    assert_eq!(
        shown.pending_actions.get("a"),
        Some(&PendingAction::Url("A".to_string()))
    );
    assert_eq!(shown.pending_actions.len(), 2);
}

#[test]
fn cache_returns_what_was_stored() {
    let mut cache = SearchCache::new(8);
    assert_eq!(cache.capacity(), 8);
    assert!(cache.get("k").is_none());
    cache.insert("k".to_string(), cached("first"));
    let hit = cache.get("k").unwrap();
    assert_eq!(hit.results[0].title, "first");
    assert_eq!(
        hit.pending_actions.get("id"),
        Some(&PendingAction::Url("first".to_string()))
    );
    cache.insert("k".to_string(), cached("second"));
    assert_eq!(cache.len(), 1);
    assert_eq!(cache.get("k").unwrap().results[0].title, "second");
    cache.clear();
    assert_eq!(cache.len(), 0);
    assert!(cache.get("k").is_none());
}

#[test]
fn cache_evicts_the_least_recently_used() {
    let mut cache = SearchCache::new(3);
    for key in ["a", "b", "c", "d"] {
        cache.insert(key.to_string(), cached(key));
    }
    assert_eq!(cache.len(), 3);
    assert!(cache.get("a").is_none());
    assert!(cache.get("b").is_some());
    assert!(cache.get("c").is_some());
    assert!(cache.get("d").is_some());
}

#[test]
fn cache_hit_protects_the_key_from_the_next_evictions() {
    let mut cache = SearchCache::new(3);
    for key in ["a", "b", "c"] {
        cache.insert(key.to_string(), cached(key));
    }
    assert!(cache.get("a").is_some());
    cache.insert("d".to_string(), cached("d"));
    cache.insert("e".to_string(), cached("e"));
    // "b" and "c" were older than the touched "a" and went first.
    assert_eq!(cache.len(), 3);
    assert!(cache.get("b").is_none());
    assert!(cache.get("c").is_none());
    assert!(cache.get("a").is_some());
    assert!(cache.get("d").is_some());
    assert!(cache.get("e").is_some());
}

#[test]
fn storing_an_existing_key_makes_it_most_recent() {
    let mut cache = SearchCache::new(2);
    cache.insert("a".to_string(), cached("a"));
    cache.insert("b".to_string(), cached("b"));
    cache.insert("a".to_string(), cached("a2"));
    cache.insert("c".to_string(), cached("c"));
    assert!(cache.get("b").is_none());
    assert_eq!(cache.get("a").unwrap().results[0].title, "a2");
    assert!(cache.get("c").is_some());
}

#[test]
fn cache_holds_at_least_one() {
    let mut cache = SearchCache::new(0);
    assert_eq!(cache.capacity(), 1);
    cache.insert("a".to_string(), cached("a"));
    cache.insert("b".to_string(), cached("b"));
    assert_eq!(cache.len(), 1);
    assert!(cache.get("a").is_none());
    assert!(cache.get("b").is_some());
}

#[test]
fn cache_key_names_query_and_options() {
    let mut config = AppConfig::default();
    assert_eq!(cache_key("fire fox", &config), "fire fox|true|true|10");
    config.enable_app_results = false;
    config.max_results = 0;
    assert_eq!(cache_key("q", &config), "q|false|true|0");
    config.enable_bookmark_results = false;
    config.max_results = 4294967295;
    assert_eq!(cache_key("", &config), "|false|false|4294967295");
}

#[test]
fn new_state_is_empty_with_default_capacities() {
    let state = AppState::new();
    assert!(state.app_index.is_empty());
    assert!(state.bookmark_index.is_empty());
    assert_eq!(state.config, AppConfig::default());
    assert!(state.pending_actions.is_empty());
    assert_eq!(state.search_cache.capacity(), 8);
    assert_eq!(state.search_cache.len(), 0);
    assert_eq!(state.recent_actions.capacity(), 12);
    assert_eq!(state.recent_actions.len(), 0);
    let config = AppConfig::default();
    assert!(config.enable_app_results);
    assert!(config.enable_bookmark_results);
    assert_eq!(config.effective_limit(), 10);
    assert!(config.system_tool_exclusions.is_empty());
}

#[test]
fn changed_index_is_searched_again() {
    let mut state = AppState::new();
    assert!(state.apply_refresh(vec![app("1", "Old Name")]));
    let before = state.refresh_results("name");
    assert_eq!(before.results[0].title, "Old Name");
    assert_eq!(state.search_cache.len(), 1);
    // The same query again is answered from the cache.
    let again = state.refresh_results(" name ");
    assert_eq!(again.results, before.results);
    assert_eq!(state.search_cache.len(), 1);

    assert!(state.apply_refresh(vec![app("1", "New Name")]));
    assert_eq!(state.search_cache.len(), 0);
    let after = state.refresh_results("name");
    assert_eq!(after.results[0].title, "New Name");
    assert_eq!(
        state.pending_actions.get("app-1"),
        Some(&PendingAction::Application(app("1", "New Name")))
    );
}

#[test]
fn unchanged_index_keeps_the_cache() {
    let mut state = AppState::new();
    assert!(!state.apply_refresh(Vec::new()));
    assert!(state.apply_refresh(vec![app("1", "Name")]));
    state.refresh_results("name");
    assert_eq!(state.search_cache.len(), 1);
    assert!(!state.apply_refresh(vec![app("1", "Name")]));
    assert_eq!(state.search_cache.len(), 1);
    assert_eq!(state.app_index.len(), 1);
    // An index that differs replaces the current one, be it empty.
    assert!(state.apply_refresh(Vec::new()));
    assert_eq!(state.app_index.len(), 0);
    assert_eq!(state.search_cache.len(), 0);
}

#[test]
fn empty_input_shows_the_recent_results() {
    let mut state = AppState::new();
    let shown = state.refresh_results("   ");
    assert!(shown.results.is_empty());
    state.record_action(result("a", "A"), PendingAction::Url("A".to_string()));
    state.record_action(result("b", "B"), PendingAction::Url("B".to_string()));
    state.record_action(result("a", "A"), PendingAction::Url("A".to_string()));
    let shown = state.refresh_results("");
    let ids: Vec<&str> = shown.results.iter().map(|r| r.id.as_str()).collect();
    assert_eq!(ids, vec!["a", "b"]);
    assert_eq!(state.pending_actions.len(), 2);
    assert_eq!(state.search_cache.len(), 0);
}

#[test]
fn new_configuration_empties_the_cache() {
    let mut state = AppState::new();
    state.apply_refresh(vec![app("1", "Name")]);
    state.refresh_results("name");
    assert_eq!(state.search_cache.len(), 1);
    let mut config = AppConfig::default();
    config.enable_app_results = false;
    state.update_config(config.clone());
    assert_eq!(state.config, config);
    assert_eq!(state.search_cache.len(), 0);
    let shown = state.refresh_results("name");
    assert_eq!(shown.results.len(), 1);
    assert_eq!(shown.results[0].action_id, "search");
}

#[test]
fn parts_of_a_session_answer_an_input() {
    let apps = vec![app("1", "Name")];
    let config = AppConfig::default();
    let mut cache = SearchCache::new(4);
    let mut recents = RecentList::new(4);
    recents.insert(entry("r", "R"));

    let blank = answer_input("  ", &apps, &[], &config, &mut cache, &recents);
    assert_eq!(blank.results.len(), 1);
    assert_eq!(blank.results[0].id, "r");
    assert_eq!(cache.len(), 0);

    let found = answer_input(" name ", &apps, &[], &config, &mut cache, &recents);
    assert_eq!(found.results[0].id, "app-1");
    assert_eq!(found.results.last().unwrap().action_id, "search");
    assert_eq!(cache.len(), 1);
    assert!(cache.get("name|true|true|10").is_some());

    // The next answer for the same query comes from the cache, whatever the
    // index holds by then.
    let other = vec![app("2", "Name")];
    let again = answer_input("name", &other, &[], &config, &mut cache, &recents);
    assert_eq!(again.results, found.results);
    assert_eq!(cache.len(), 1);

    // Another configuration is another key.
    let mut wider = AppConfig::default();
    wider.max_results = 20;
    let fresh = answer_input("name", &other, &[], &wider, &mut cache, &recents);
    assert_eq!(fresh.results[0].id, "app-2");
    assert_eq!(cache.len(), 2);
}

#[test]
fn an_index_is_replaced_where_it_differs() {
    let mut current = vec![app("1", "Name")];
    assert!(!replace_if_changed(&mut current, vec![app("1", "Name")]));
    assert_eq!(current, vec![app("1", "Name")]);
    assert!(replace_if_changed(&mut current, vec![app("1", "Other")]));
    assert_eq!(current, vec![app("1", "Other")]);
    assert!(replace_if_changed(&mut current, Vec::new()));
    assert!(current.is_empty());
    assert!(!replace_if_changed(&mut current, Vec::new()));
}
